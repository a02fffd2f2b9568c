//! Building responses and writing them out as text.

use vstd::prelude::*;
use vstd::utf8::encode_utf8;
use crate::content_type::{content_type_for_path, get_content_type};
use crate::http::{Header, HeadersModel, Response, headers_view};
use crate::text::{decimal, format_decimal, format_signed, signed_decimal};

verus! {

/// The mathematical model of a response: status, status message, headers, body.
pub type ResponseModel = (i16, Seq<char>, HeadersModel, Seq<char>);

impl View for Response {
    type V = ResponseModel;

    open spec fn view(&self) -> ResponseModel {
        (self.status, self.status_message@, headers_view(self.headers@), self.body@)
    }
}

/// The number of bytes of a text in UTF-8.
pub open spec fn byte_len(s: Seq<char>) -> nat {
    encode_utf8(s).len()
}

/// A response with a body, and the two headers every body comes with:
/// its content type, and its length in bytes.
pub open spec fn body_response(
    status: i16,
    message: Seq<char>,
    content_type: Seq<char>,
    body: Seq<char>,
) -> ResponseModel {
    (
        status,
        message,
        seq![("Content-Type"@, content_type), ("Content-Length"@, decimal(byte_len(body)))],
        body,
    )
}

/// The response for a file that was found and read.
pub open spec fn ok_model(path: Seq<char>, contents: Seq<char>) -> ResponseModel {
    body_response(200, "OK"@, content_type_for_path(path), contents)
}

/// The response for a resource that could not be found or read.
pub open spec fn not_found_model() -> ResponseModel {
    body_response(404, "NOT FOUND"@, "text/plain"@, "Could not find resource."@)
}

/// The response for a request that failed before a response was built.
pub open spec fn internal_error_model() -> ResponseModel {
    body_response(
        500,
        "Internal Server Error"@,
        "text/plain"@,
        "An error occured on the server during the request."@,
    )
}

/// A response whose body comes with a `Content-Type` header and a
/// `Content-Length` header equal to the body's length in bytes.
pub open spec fn carries_body_headers(r: ResponseModel) -> bool {
    exists|t: Seq<char>|
        r.2 == seq![("Content-Type"@, t), ("Content-Length"@, decimal(byte_len(r.3)))]
}

/// Every response the server builds carries its body's type and exact length.
pub proof fn lemma_responses_carry_body_headers(path: Seq<char>, contents: Seq<char>)
    ensures
        carries_body_headers(ok_model(path, contents)),
        carries_body_headers(not_found_model()),
        carries_body_headers(internal_error_model()),
{
    assert(ok_model(path, contents).2 == seq![
        ("Content-Type"@, content_type_for_path(path)),
        ("Content-Length"@, decimal(byte_len(ok_model(path, contents).3))),
    ]);
    assert(not_found_model().2 == seq![
        ("Content-Type"@, "text/plain"@),
        ("Content-Length"@, decimal(byte_len(not_found_model().3))),
    ]);
    assert(internal_error_model().2 == seq![
        ("Content-Type"@, "text/plain"@),
        ("Content-Length"@, decimal(byte_len(internal_error_model().3))),
    ]);
}

/// One header as it is written: `key: value` and a newline.
pub open spec fn header_text(h: (Seq<char>, Seq<char>)) -> Seq<char> {
    h.0 + ": "@ + h.1 + "\n"@
}

/// The header lines of a response, in order.
pub open spec fn headers_text(hs: HeadersModel) -> Seq<char>
    decreases hs.len(),
{
    if hs.len() == 0 {
        Seq::empty()
    } else {
        headers_text(hs.drop_last()) + header_text(hs.last())
    }
}

/// A response as it is written: the status line, the header lines, an empty
/// line, then the body.
pub open spec fn wire_text(r: ResponseModel) -> Seq<char> {
    "HTTP/1.1 "@ + signed_decimal(r.0 as int) + " "@ + r.1 + "\n"@ + headers_text(r.2) + "\n"@
        + r.3
}

/// A response with `body`, its content type and its length in bytes.
pub fn body_response_of(status: i16, message: String, content_type: String, body: String) -> (r:
    Response)
    ensures
        r@ == body_response(status, message@, content_type@, body@),
{
    let length = format_decimal(body.as_str().as_bytes().len());
    let mut headers: Vec<Header> = Vec::new();
    headers.push(Header { key: String::from_str("Content-Type"), value: content_type });
    headers.push(Header { key: String::from_str("Content-Length"), value: length });
    let r = Response { status, status_message: message, headers, body };
    assert(headers_view(r.headers@) =~= body_response(status, message@, content_type@, body@).2);
    r
}

/// 200 with the contents of the file at `path`, typed by its extension.
pub fn file_response(path: &str, contents: String) -> (r: Response)
    ensures
        r@ == ok_model(path@, contents@),
{
    body_response_of(200, String::from_str("OK"), get_content_type(path), contents)
}

/// 404 with a fixed text body.
pub fn not_found_response() -> (r: Response)
    ensures
        r@ == not_found_model(),
{
    body_response_of(
        404,
        String::from_str("NOT FOUND"),
        String::from_str("text/plain"),
        String::from_str("Could not find resource."),
    )
}

/// 500 with a fixed text body.
pub fn internal_error_response() -> (r: Response)
    ensures
        r@ == internal_error_model(),
{
    body_response_of(
        500,
        String::from_str("Internal Server Error"),
        String::from_str("text/plain"),
        String::from_str("An error occured on the server during the request."),
    )
}

/// The text of a response as it is sent.
pub fn serialize_response(response: &Response) -> (r: String)
    ensures
        r@ == wire_text(response@),
{
    let mut out = String::from_str("HTTP/1.1 ");
    let status = format_signed(response.status);
    out.append(status.as_str());
    out.append(" ");
    out.append(response.status_message.as_str());
    out.append("\n");
    let ghost head = out@;
    let mut i: usize = 0;
    while i < response.headers.len()
        invariant
            i <= response.headers@.len(),
            out@ == head + headers_text(headers_view(response.headers@).subrange(0, i as int)),
        decreases response.headers@.len() - i,
    {
        let h = &response.headers[i];
        out.append(h.key.as_str());
        out.append(": ");
        out.append(h.value.as_str());
        out.append("\n");
        proof {
            let hv = headers_view(response.headers@);
            let next = hv.subrange(0, i + 1);
            assert(next.drop_last() =~= hv.subrange(0, i as int));
            assert(next.last() == h@);
        }
        i = i + 1;
    }
    assert(headers_view(response.headers@).subrange(0, i as int) =~= headers_view(
        response.headers@,
    ));
    out.append("\n");
    out.append(response.body.as_str());
    out
}

} // verus!
