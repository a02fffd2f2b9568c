//! The decisions of one request: parse, check the method, resolve the path,
//! and choose the response once the file has been looked up.

use vstd::prelude::*;
use crate::http::{Request, Response};
use crate::parse::{ParseError, parse_bytes, parse_request_from_buffer};
use crate::response::{
    ResponseModel,
    file_response,
    internal_error_model,
    internal_error_response,
    not_found_model,
    not_found_response,
    ok_model,
};
use crate::text::{chars_of, decimal};
use crate::content_type::content_type_for_path;
use crate::response::byte_len;
use vstd::utf8::valid_utf8;

verus! {

/// Why a request could not be handled.
#[derive(Debug, Clone, Copy, PartialEq, Eq)]
pub enum HandlingError {
    /// The buffer did not hold a request.
    Parse(ParseError),
    /// The method is not `GET`.
    UnsupportedMethod,
    /// Reading from or writing to the connection failed.
    Io,
}

/// The filesystem path for a request path under `root`: a path ending in `/`
/// names that directory's `index.html`.
pub open spec fn resolved_path(root: Seq<char>, path: Seq<char>) -> Seq<char> {
    if path.len() > 0 && path.last() == '/' {
        root + path + "index.html"@
    } else {
        root + path
    }
}

/// Which file a buffer asks for under `root`, or why it cannot be served.
pub open spec fn request_target(buffer: Seq<u8>, root: Seq<char>) -> Result<
    Seq<char>,
    HandlingError,
> {
    match parse_bytes(buffer) {
        Err(e) => Err(HandlingError::Parse(e)),
        Ok(req) => if req.0 == "GET"@ {
            Ok(resolved_path(root, req.1))
        } else {
            Err(HandlingError::UnsupportedMethod)
        },
    }
}

/// The response to a target once its file has been looked up: `contents` is
/// the file's text, or `None` when it does not exist or could not be read.
pub open spec fn lookup_model(path: Seq<char>, contents: Option<Seq<char>>) -> ResponseModel {
    match contents {
        Some(c) => ok_model(path, c),
        None => not_found_model(),
    }
}

/// The response the server sends for a buffer, given what the lookup of the
/// file it asks for found.
pub open spec fn served_response(
    buffer: Seq<u8>,
    root: Seq<char>,
    contents: Option<Seq<char>>,
) -> ResponseModel {
    match request_target(buffer, root) {
        Ok(p) => lookup_model(p, contents),
        Err(_) => internal_error_model(),
    }
}

/// A GET for a path ending in `/` looks up that directory's `index.html`
/// under the root; when it is missing the response is 404 with the fixed body.
pub proof fn lemma_directory_index(buffer: Seq<u8>, root: Seq<char>)
    requires
        parse_bytes(buffer) matches Ok(req) && req.0 == "GET"@ && req.1.len() > 0 && req.1.last()
            == '/',
    ensures
        request_target(buffer, root) matches Ok(p) && p == root + parse_bytes(buffer)->Ok_0.1
            + "index.html"@,
        served_response(buffer, root, None) == not_found_model(),
        served_response(buffer, root, None).0 == 404,
        served_response(buffer, root, None).3 == "Could not find resource."@,
{
}

/// A GET for a file that was found and read answers 200 with the file's
/// contents, a `Content-Length` of their length in bytes and the content type
/// of the extension.
pub proof fn lemma_found_file(buffer: Seq<u8>, root: Seq<char>, contents: Seq<char>)
    requires
        parse_bytes(buffer) matches Ok(req) && req.0 == "GET"@,
    ensures
        served_response(buffer, root, Some(contents)) == ok_model(
            resolved_path(root, parse_bytes(buffer)->Ok_0.1),
            contents,
        ),
        served_response(buffer, root, Some(contents)).0 == 200,
        served_response(buffer, root, Some(contents)).3 == contents,
        served_response(buffer, root, Some(contents)).2 == seq![
            ("Content-Type"@, content_type_for_path(resolved_path(root, parse_bytes(buffer)->Ok_0.1))),
            ("Content-Length"@, decimal(byte_len(contents))),
        ],
{
}

/// A method other than GET is a handling failure: whatever the lookup would
/// find, the response is the fixed 500, never a 2xx or a 404.
pub proof fn lemma_unsupported_method_fails(
    buffer: Seq<u8>,
    root: Seq<char>,
    contents: Option<Seq<char>>,
)
    requires
        parse_bytes(buffer) matches Ok(req) && req.0 != "GET"@,
    ensures
        request_target(buffer, root) == Err::<Seq<char>, HandlingError>(
            HandlingError::UnsupportedMethod,
        ),
        served_response(buffer, root, contents) == internal_error_model(),
        served_response(buffer, root, contents).0 == 500,
{
}

/// A buffer that is not valid text is a handling failure: the response is the
/// fixed 500.
pub proof fn lemma_invalid_text_fails(buffer: Seq<u8>, root: Seq<char>, contents: Option<Seq<char>>)
    requires
        !valid_utf8(buffer),
    ensures
        request_target(buffer, root) == Err::<Seq<char>, HandlingError>(
            HandlingError::Parse(ParseError::InvalidEncoding),
        ),
        served_response(buffer, root, contents) == internal_error_model(),
{
}

/// The path of the file to look up for request path `path` under `root`.
pub fn index_path(root: &str, path: &str) -> (r: String)
    ensures
        r@ == resolved_path(root@, path@),
{
    let cs = chars_of(path);
    let mut r = String::from_str(root);
    r.append(path);
    if cs.len() > 0 && cs[cs.len() - 1] == '/' {
        r.append("index.html");
    }
    r
}

/// Checks the method of a parsed request and resolves its path under `root`.
/// A method other than GET is a handling failure, which `wrap_error` answers
/// with the fixed 500, not with a 405.
pub fn route(request: &Request, root: &str) -> (r: Result<String, HandlingError>)
    ensures
        request.method@ == "GET"@ ==> (r matches Ok(p) && p@ == resolved_path(
            root@,
            request.path@,
        )),
        request.method@ != "GET"@ ==> r == Err::<String, HandlingError>(
            HandlingError::UnsupportedMethod,
        ),
{
    if request.method == String::from_str("GET") {
        Ok(index_path(root, request.path.as_str()))
    } else {
        Err(HandlingError::UnsupportedMethod)
    }
}

/// Parses a read buffer and decides which file under `root` to serve.
pub fn handle_request(buffer: [u8; 1024], root: &str) -> (r: Result<String, HandlingError>)
    ensures
        match r {
            Ok(p) => request_target(buffer@, root@) == Ok::<Seq<char>, HandlingError>(p@),
            Err(e) => request_target(buffer@, root@) == Err::<Seq<char>, HandlingError>(e),
        },
{
    match parse_request_from_buffer(buffer) {
        Err(e) => Err(HandlingError::Parse(e)),
        Ok(request) => route(&request, root),
    }
}

/// The response for the file at `path`, given what reading it gave.
pub fn respond_to_lookup(path: &str, contents: Option<String>) -> (r: Response)
    ensures
        match contents {
            Some(c) => r@ == lookup_model(path@, Some(c@)),
            None => r@ == lookup_model(path@, None),
        },
{
    match contents {
        Some(c) => file_response(path, c),
        None => not_found_response(),
    }
}

/// The response to send: the one built, or the fixed 500 response when
/// handling failed before one was built.
pub fn wrap_error(outcome: Result<Response, HandlingError>) -> (r: Response)
    ensures
        match outcome {
            Ok(resp) => r == resp,
            Err(_) => r@ == internal_error_model(),
        },
{
    match outcome {
        Ok(resp) => resp,
        Err(_) => internal_error_response(),
    }
}

} // verus!
