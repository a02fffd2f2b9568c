use rustify::content_type::{extension, get_content_type, ContentType};
use rustify::http::{Header, Request, Response};
use rustify::parse::{parse_request, parse_request_from_buffer, ParseError};
use rustify::response::{
    file_response, internal_error_response, not_found_response, serialize_response,
};
use rustify::server::{handle_request, index_path, respond_to_lookup, route, wrap_error, HandlingError};
use rustify::text::{format_decimal, format_signed};

fn buffer_of(bytes: &[u8]) -> [u8; 1024] {
    let mut b = [0u8; 1024];
    b[..bytes.len()].copy_from_slice(bytes);
    b
}

fn header_value<'a>(headers: &'a [Header], key: &str) -> Option<&'a str> {
    headers.iter().find(|h| h.key == key).map(|h| h.value.as_str())
}

#[test]
fn parses_method_path_and_headers() {
    let r = parse_request("GET /app.js HTTP/1.1\r\nHost: localhost\r\nAccept: */*\r\n\r\n").unwrap();
    assert_eq!(r.method, "GET");
    assert_eq!(r.path, "/app.js");
    assert_eq!(r.headers.len(), 2);
    assert_eq!(r.headers[0].key, "Host");
    assert_eq!(r.headers[0].value, " localhost");
    assert_eq!(r.headers[1].key, "Accept");
    assert_eq!(r.headers[1].value, " */*");
}

#[test]
fn request_line_with_extra_whitespace() {
    let r = parse_request("  POST\t/x  HTTP/1.0\n").unwrap();
    assert_eq!(r.method, "POST");
    assert_eq!(r.path, "/x");
    assert!(r.headers.is_empty());
}

#[test]
fn method_and_path_from_padded_buffer() {
    let r = parse_request_from_buffer(buffer_of(b"GET / HTTP/1.1\n\n")).unwrap();
    assert_eq!(r.method, "GET");
    assert_eq!(r.path, "/");
    assert!(r.headers.is_empty());
}

#[test]
fn header_splits_on_first_colon() {
    let r = parse_request("GET / HTTP/1.1\nX-Foo: a:b\n").unwrap();
    assert_eq!(r.headers.len(), 1);
    assert_eq!(r.headers[0].key, "X-Foo");
    assert_eq!(r.headers[0].value, " a:b");
}

#[test]
fn lines_without_colon_are_skipped_and_duplicates_kept() {
    let r = parse_request("GET / HTTP/1.1\nno colon here\nA: 1\n\nA: 2").unwrap();
    assert_eq!(r.headers.len(), 2);
    assert_eq!(r.headers[0].key, "A");
    assert_eq!(r.headers[0].value, " 1");
    assert_eq!(r.headers[1].key, "A");
    assert_eq!(r.headers[1].value, " 2");
}

#[test]
fn carriage_return_kept_on_unterminated_last_line() {
    let r = parse_request("GET / HTTP/1.1\nK:v\r").unwrap();
    assert_eq!(r.headers[0].value, "v\r");
}

#[test]
fn single_token_request_line_fails() {
    assert!(matches!(parse_request("GET\n"), Err(ParseError::MalformedRequestLine)));
    assert!(matches!(
        parse_request_from_buffer(buffer_of(b"GET\n")),
        Err(ParseError::MalformedRequestLine)
    ));
}

#[test]
fn empty_request_fails() {
    assert!(matches!(parse_request(""), Err(ParseError::MalformedRequestLine)));
    assert!(matches!(parse_request("   \r\n"), Err(ParseError::MalformedRequestLine)));
}

#[test]
fn invalid_utf8_fails() {
    assert!(matches!(
        parse_request_from_buffer(buffer_of(&[0x47, 0xff, 0xfe, 0x20, 0x2f, 0x0a])),
        Err(ParseError::InvalidEncoding)
    ));
}

#[test]
fn content_type_table() {
    assert_eq!(get_content_type("/srv/index.html"), "text/html;charset=UTF-8");
    assert_eq!(get_content_type("/srv/main.js"), "application/javascript");
    assert_eq!(get_content_type("/srv/data.json"), "application/json");
    assert_eq!(get_content_type("/srv/favicon.ico"), "image/x-icon");
    assert_eq!(get_content_type("/srv/style.css"), "text/css");
    assert_eq!(get_content_type("/srv/readme.txt"), "text/plain");
    assert_eq!(get_content_type("/srv/archive.tar.gz"), "text/plain");
    assert_eq!(get_content_type("html"), "text/plain");
    assert_eq!(get_content_type("/srv/a.html/file"), "text/plain");
}

#[test]
fn extension_after_last_dot() {
    assert_eq!(extension("/srv/archive.tar.gz"), "gz");
    assert_eq!(extension("/srv/README"), "");
    assert_eq!(extension("/srv/dot."), "");
    assert!(ContentType::from_extension(&String::from("js")) == ContentType::Javascript);
    assert_eq!(ContentType::Css.mime(), "text/css");
}

#[test]
fn decimal_formatting() {
    assert_eq!(format_decimal(0), "0");
    assert_eq!(format_decimal(11), "11");
    assert_eq!(format_decimal(1024), "1024");
    assert_eq!(format_signed(200), "200");
    assert_eq!(format_signed(-32768), "-32768");
}

#[test]
fn directory_path_gets_index() {
    assert_eq!(index_path("/srv/app", "/"), "/srv/app/index.html");
    assert_eq!(index_path("/srv/app", "/docs/"), "/srv/app/docs/index.html");
    assert_eq!(index_path("/srv/app", "/main.js"), "/srv/app/main.js");
    assert_eq!(index_path("/srv/app", "/../x"), "/srv/app/../x");
}

#[test]
fn non_get_method_is_a_failure() {
    let request = Request { method: String::from("DELETE"), path: String::from("/x"), headers: vec![] };
    assert!(matches!(route(&request, "/srv"), Err(HandlingError::UnsupportedMethod)));
    let lower = Request { method: String::from("get"), path: String::from("/x"), headers: vec![] };
    assert!(matches!(route(&lower, "/srv"), Err(HandlingError::UnsupportedMethod)));
    let outcome = handle_request(buffer_of(b"DELETE /x HTTP/1.1\n\n"), "/srv");
    assert!(matches!(outcome, Err(HandlingError::UnsupportedMethod)));
    let response = wrap_error(outcome.map(|p| not_found_response_for(&p)));
    assert_eq!(response.status, 500);
}

fn not_found_response_for(_path: &str) -> Response {
    not_found_response()
}

#[test]
fn found_file_response_headers() {
    let r = file_response("/srv/app.js", String::from("let a = 1;"));
    assert_eq!(r.status, 200);
    assert_eq!(r.status_message, "OK");
    assert_eq!(r.body, "let a = 1;");
    assert_eq!(header_value(&r.headers, "Content-Type"), Some("application/javascript"));
    assert_eq!(header_value(&r.headers, "Content-Length"), Some("10"));
    let u = file_response("/srv/notes.md", String::from("h\u{e9}"));
    assert_eq!(header_value(&u.headers, "Content-Type"), Some("text/plain"));
    assert_eq!(header_value(&u.headers, "Content-Length"), Some("3"));
}

#[test]
fn fixed_responses() {
    let n = not_found_response();
    assert_eq!(n.status, 404);
    assert_eq!(n.status_message, "NOT FOUND");
    assert_eq!(n.body, "Could not find resource.");
    assert_eq!(header_value(&n.headers, "Content-Type"), Some("text/plain"));
    assert_eq!(header_value(&n.headers, "Content-Length"), Some("24"));
    let e = internal_error_response();
    assert_eq!(e.status, 500);
    assert_eq!(e.status_message, "Internal Server Error");
    assert_eq!(e.body, "An error occured on the server during the request.");
    assert_eq!(header_value(&e.headers, "Content-Length"), Some("50"));
}

#[test]
fn serialized_response_text() {
    let r = file_response("/srv/index.html", String::from("<h1>hi</h1>"));
    assert_eq!(
        serialize_response(&r),
        "HTTP/1.1 200 OK\nContent-Type: text/html;charset=UTF-8\nContent-Length: 11\n\n<h1>hi</h1>"
    );
    let empty = Response { status: 204, status_message: String::from("No Content"), headers: vec![], body: String::new() };
    assert_eq!(serialize_response(&empty), "HTTP/1.1 204 No Content\n\n");
}

#[test]
fn end_to_end_index() {
    let path = handle_request(buffer_of(b"GET / HTTP/1.1\n\n"), "/srv/app").unwrap();
    assert_eq!(path, "/srv/app/index.html");
    let r = wrap_error(Ok(respond_to_lookup(&path, Some(String::from("<h1>hi</h1>")))));
    assert_eq!(r.status, 200);
    assert_eq!(r.body, "<h1>hi</h1>");
    assert_eq!(header_value(&r.headers, "Content-Length"), Some("11"));
    assert_eq!(header_value(&r.headers, "Content-Type"), Some("text/html;charset=UTF-8"));
}

#[test]
fn end_to_end_missing_directory_index() {
    let path = handle_request(buffer_of(b"GET /docs/ HTTP/1.1\n\n"), "/srv/app").unwrap();
    assert_eq!(path, "/srv/app/docs/index.html");
    let r = respond_to_lookup(&path, None);
    assert_eq!(r.status, 404);
    assert_eq!(r.body, "Could not find resource.");
}

#[test]
fn end_to_end_missing_file() {
    let path = handle_request(buffer_of(b"GET /missing.txt HTTP/1.1\n\n"), "/srv/app").unwrap();
    assert_eq!(path, "/srv/app/missing.txt");
    let r = wrap_error(Ok(respond_to_lookup(&path, None)));
    assert_eq!(r.status, 404);
    assert_eq!(r.body, "Could not find resource.");
}

#[test]
fn end_to_end_invalid_text() {
    let outcome = handle_request(buffer_of(&[0xc3, 0x28, 0x0a]), "/srv/app");
    assert!(matches!(outcome, Err(HandlingError::Parse(ParseError::InvalidEncoding))));
    let r = wrap_error(outcome.map(|p| respond_to_lookup(&p, None)));
    assert_eq!(r.status, 500);
    assert_eq!(r.body, "An error occured on the server during the request.");
    assert_eq!(header_value(&r.headers, "Content-Type"), Some("text/plain"));
    let next = handle_request(buffer_of(b"GET /a.css HTTP/1.1\n\n"), "/srv");
    assert_eq!(next.unwrap(), "/srv/a.css");
}

#[test]
fn io_failure_gives_internal_error() {
    let r = wrap_error(Err(HandlingError::Io));
    assert_eq!(r.status, 500);
}
