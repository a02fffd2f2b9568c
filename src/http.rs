use vstd::prelude::*;

verus! {

/// One header line: a key and a value, kept exactly as received.
#[derive(Debug)]
pub struct Header {
    pub key: String,
    pub value: String,
}

/// A parsed request: method and path as received, headers in order.
#[derive(Debug)]
pub struct Request {
    pub method: String,
    pub path: String,
    pub headers: Vec<Header>,
}

/// A response: status code, status message, headers in order and body text.
#[derive(Debug)]
pub struct Response {
    pub status: i16,
    pub status_message: String,
    pub headers: Vec<Header>,
    pub body: String,
}

/// The mathematical model of a header list: key and value of each, in order.
pub type HeadersModel = Seq<(Seq<char>, Seq<char>)>;

/// The mathematical model of a request: method, path and headers.
pub type RequestModel = (Seq<char>, Seq<char>, HeadersModel);

impl View for Header {
    type V = (Seq<char>, Seq<char>);

    open spec fn view(&self) -> (Seq<char>, Seq<char>) {
        (self.key@, self.value@)
    }
}

/// The model of a sequence of headers.
pub open spec fn headers_view(hs: Seq<Header>) -> HeadersModel {
    hs.map_values(|h: Header| h@)
}

impl View for Request {
    type V = RequestModel;

    open spec fn view(&self) -> RequestModel {
        (self.method@, self.path@, headers_view(self.headers@))
    }
}

} // verus!
