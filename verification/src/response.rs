//! The status taxonomy and the response encoder: the closed set of supported
//! status codes, their canonical wire text and HTML rendering, and the
//! serialization of a [`Response`] into wire text.

use vstd::prelude::*;
use vstd::string::StringExecFns;

verus! {

/// The closed set of response codes this framer can produce.
#[derive(Debug, Clone, Copy, PartialEq, Eq, Structural)]
pub enum StatusCode {
    _200,
    _400,
    _404,
    _411,
    _431,
    _500,
}

/// A response: a status code, response headers (carried for extension,
/// currently never emitted on the wire), and a body.
#[derive(Debug, Clone, PartialEq)]
pub struct Response {
    pub code: StatusCode,
    pub headers: Vec<String>,
    pub body: String,
}

/// The canonical `"NNN - Reason"` text of a status code. Total: every code
/// has a reason.
pub open spec fn code_reason(code: StatusCode) -> Seq<char> {
    match code {
        StatusCode::_200 => "200 - OK"@,
        StatusCode::_400 => "400 - Bad Request"@,
        StatusCode::_404 => "404 - Not Found"@,
        StatusCode::_411 => "411 - Length Required"@,
        StatusCode::_431 => "431 - Request Header Fields Too Large"@,
        StatusCode::_500 => "500 - Internal Server Error"@,
    }
}

/// A minimal self-contained HTML document whose title and single heading are
/// both `message`.
pub open spec fn html_of(message: Seq<char>) -> Seq<char> {
    "<!DOCTYPE html><html lang=\"en\"><head><meta charset=\"UTF-8\"><title>"@ + message
        + "</title></head><body><h1>"@ + message + "</h1></body></html>"@
}

/// A response built directly from a status code: the code, no headers, and
/// the code's HTML rendering as body. This is the shape of every response the
/// blanket error fallback produces.
pub open spec fn is_plain_error(resp: Response, code: StatusCode) -> bool {
    &&& resp.code == code
    &&& resp.headers@ == Seq::<String>::empty()
    &&& resp.body@ == html_of(code_reason(code))
}

/// Like [`is_plain_error`], but with the trailing line terminator that
/// [`Response::from`] appends to the HTML body.
pub open spec fn is_error_response(resp: Response, code: StatusCode) -> bool {
    &&& resp.code == code
    &&& resp.headers@ == Seq::<String>::empty()
    &&& resp.body@ == html_of(code_reason(code)) + "\r\n"@
}

/// The canonical `"NNN - Reason"` text for the given status code.
pub fn code_to_str(code: &StatusCode) -> (r: &'static str)
    ensures
        r@ == code_reason(*code),
{
    match code {
        StatusCode::_200 => "200 - OK",
        StatusCode::_400 => "400 - Bad Request",
        StatusCode::_404 => "404 - Not Found",
        StatusCode::_411 => "411 - Length Required",
        StatusCode::_431 => "431 - Request Header Fields Too Large",
        StatusCode::_500 => "500 - Internal Server Error",
    }
}

/// Wraps a message in a minimal self-contained HTML document.
pub fn message_to_html(message: &str) -> (r: String)
    ensures
        r@ == html_of(message@),
{
    let mut s = String::from_str(
        "<!DOCTYPE html><html lang=\"en\"><head><meta charset=\"UTF-8\"><title>",
    );
    s.append(message);
    s.append("</title></head><body><h1>");
    s.append(message);
    s.append("</h1></body></html>");
    proof {
        assert(s@ =~= html_of(message@));
    }
    s
}

/// The HTML rendering of a status code's reason text.
pub fn code_to_html(code: &StatusCode) -> (r: String)
    ensures
        r@ == html_of(code_reason(*code)),
{
    message_to_html(code_to_str(code))
}

/// A response carrying the given status code and its HTML rendering as body.
pub fn make_error(code: StatusCode) -> (r: Response)
    ensures
        is_plain_error(r, code),
{
    let r = Response { body: code_to_html(&code), code, headers: Vec::new() };
    proof {
        assert(r.headers@ =~= Seq::<String>::empty());
    }
    r
}

/// The catch-all failure response: status 500 with its HTML rendering.
pub fn internal_server_error() -> (r: Response)
    ensures
        is_plain_error(r, StatusCode::_500),
{
    make_error(StatusCode::_500)
}

impl Response {
    /// The response a bare status code converts into: its HTML rendering,
    /// terminated by a line break, as body.
    pub fn from(item: StatusCode) -> (r: Response)
        ensures
            is_error_response(r, item),
    {
        let mut body = code_to_html(&item);
        body.append("\r\n");
        let r = Response { body, code: item, headers: Vec::new() };
        proof {
            assert(r.headers@ =~= Seq::<String>::empty());
        }
        r
    }
}

/// The wire text of a response: the response line, a blank line, the body,
/// and a trailing line terminator. Response headers are not emitted, and no
/// `Content-Length` is added: clients must frame by connection close.
pub open spec fn wire_of(resp: Response) -> Seq<char> {
    "HTTP/1.1 "@ + code_reason(resp.code) + "\r\n\r\n"@ + resp.body@ + "\r\n"@
}

/// Serializes a response into its wire text, exactly as [`wire_of`]
/// describes.
pub fn to_string(response: Response) -> (r: String)
    ensures
        r@ == wire_of(response),
{
    let mut s = String::from_str("HTTP/1.1 ");
    s.append(code_to_str(&response.code));
    s.append("\r\n\r\n");
    s.append(response.body.as_str());
    s.append("\r\n");
    proof {
        assert(s@ =~= wire_of(response));
    }
    s
}

} // verus!
