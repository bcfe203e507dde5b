//! The read-only HTTP endpoint: which request gets which response.
use vstd::prelude::*;
use crate::terminal::TerminalView;
use crate::text::{
    ascii_words, ascii_words_of, append_str, chars_eq_str, chars_of, decimal, decimal_string,
    starts_with_str, string_of, views,
};

verus! {

/// How often full discovery runs while serving.
pub const REDISCOVER_INTERVAL_MS: u64 = 30_000;
/// How often storage health is refreshed while serving.
pub const HEALTH_INTERVAL_MS: u64 = 1_800_000;
/// How long a client may take to send or receive.
pub const CLIENT_TIMEOUT_MS: u64 = 5_000;
/// The longest request line that is read.
pub const MAX_REQUEST_LINE_BYTES: usize = 4096;

/// The settings of the `serve` command.
#[derive(Debug, Clone)]
pub struct ServeArgs {
    /// The socket address to listen on.
    pub listen: String,
    /// The snapshot refresh interval.
    pub interval_ms: u64,
    /// The JSON view served.
    pub view: TerminalView,
}

impl Default for ServeArgs {
    /// Loopback port 8765, one refresh a second, the sensor view.
    fn default() -> (r: Self)
        ensures
            r.listen@ == "127.0.0.1:8765"@,
            r.interval_ms == 1000,
            r.view == TerminalView::Sensors,
    {
        ServeArgs { listen: "127.0.0.1:8765".to_string(), interval_ms: 1000, view: TerminalView::Sensors }
    }
}

/// What a request line asks for.
#[derive(Debug, Clone, Copy, PartialEq, Eq, Structural)]
pub enum Request {
    Snapshot,
    NotFound,
    MethodNotAllowed,
    Invalid,
}

/// Classifies a request line: exactly a method, a target and an HTTP/1.x
/// version separated by ASCII whitespace; only `GET /` is served.
pub open spec fn request_of(line: Seq<char>) -> Request {
    let w = ascii_words(line);
    if w.len() != 3 || !(7 <= w[2].len() && w[2].take(7) == "HTTP/1."@) {
        Request::Invalid
    } else if w[0] != "GET"@ {
        Request::MethodNotAllowed
    } else if w[1] != "/"@ {
        Request::NotFound
    } else {
        Request::Snapshot
    }
}

pub fn classify_request(line: &str) -> (r: Request)
    ensures
        r == request_of(line@),
{
    let w = ascii_words_of(&chars_of(line));
    proof {
        reveal_strlit("HTTP/1.");
    }
    if w.len() != 3 {
        return Request::Invalid;
    }
    assert(views(w@)[2] == w@[2]@);
    assert(views(w@)[1] == w@[1]@);
    assert(views(w@)[0] == w@[0]@);
    if !starts_with_str(&w[2], "HTTP/1.") {
        return Request::Invalid;
    }
    if !chars_eq_str(&w[0], "GET") {
        return Request::MethodNotAllowed;
    }
    if !chars_eq_str(&w[1], "/") {
        return Request::NotFound;
    }
    Request::Snapshot
}

/// An HTTP response before it is written.
#[derive(Debug, Clone, Copy, PartialEq, Eq)]
pub struct Response {
    pub status: &'static str,
    pub content_type: &'static str,
    /// A plain-text body, or `None` for the cached snapshot.
    pub text_body: Option<&'static str>,
    pub extra_headers: Option<&'static str>,
}

/// The response to a request, or to an unreadable request line (`None`):
/// the cached snapshot for `GET /`, and short plain-text errors otherwise.
pub open spec fn response_of(request: Option<Request>) -> (Seq<char>, Seq<char>, Option<Seq<char>>, Option<Seq<char>>) {
    match request {
        Some(Request::Snapshot) => ("200 OK"@, "application/json"@, None, None),
        Some(Request::NotFound) => ("404 Not Found"@, "text/plain; charset=utf-8"@, Some("Not found\n"@), None),
        Some(Request::MethodNotAllowed) => (
            "405 Method Not Allowed"@,
            "text/plain; charset=utf-8"@,
            Some("Method not allowed\n"@),
            Some("Allow: GET\r\n"@),
        ),
        _ => ("400 Bad Request"@, "text/plain; charset=utf-8"@, Some("Bad request\n"@), None),
    }
}

/// The views of an optional string slice.
pub open spec fn opt_str_view(o: Option<&'static str>) -> Option<Seq<char>> {
    match o {
        Some(s) => Some(s@),
        None => None,
    }
}

/// Answers a request.
pub fn respond(request: Option<Request>) -> (r: Response)
    ensures
        (r.status@, r.content_type@, opt_str_view(r.text_body), opt_str_view(r.extra_headers)) == response_of(request),
{
    match request {
        Some(Request::Snapshot) => Response { status: "200 OK", content_type: "application/json", text_body: None, extra_headers: None },
        Some(Request::NotFound) => Response {
            status: "404 Not Found",
            content_type: "text/plain; charset=utf-8",
            text_body: Some("Not found\n"),
            extra_headers: None,
        },
        Some(Request::MethodNotAllowed) => Response {
            status: "405 Method Not Allowed",
            content_type: "text/plain; charset=utf-8",
            text_body: Some("Method not allowed\n"),
            extra_headers: Some("Allow: GET\r\n"),
        },
        _ => Response {
            status: "400 Bad Request",
            content_type: "text/plain; charset=utf-8",
            text_body: Some("Bad request\n"),
            extra_headers: None,
        },
    }
}

/// The status line and headers of a response: its status, content type and
/// length, no caching, one request per connection, and any extra headers.
pub open spec fn response_head_text(status: Seq<char>, content_type: Seq<char>, body_len: nat, extra: Seq<char>) -> Seq<char> {
    "HTTP/1.1 "@ + status + "\r\nContent-Type: "@ + content_type + "\r\nContent-Length: "@ + decimal(body_len)
        + "\r\nCache-Control: no-store\r\nConnection: close\r\n"@ + extra + "\r\n"@
}

pub fn response_head(response: &Response, body_len: usize) -> (r: String)
    ensures
        r@ == response_head_text(response.status@, response.content_type@, body_len as nat, match response.extra_headers {
            Some(h) => h@,
            None => ""@,
        }),
{
    let mut v = chars_of("HTTP/1.1 ");
    append_str(&mut v, response.status);
    append_str(&mut v, "\r\nContent-Type: ");
    append_str(&mut v, response.content_type);
    append_str(&mut v, "\r\nContent-Length: ");
    let n = decimal_string(body_len as u128);
    append_str(&mut v, n.as_str());
    append_str(&mut v, "\r\nCache-Control: no-store\r\nConnection: close\r\n");
    match response.extra_headers {
        Some(h) => append_str(&mut v, h),
        None => {
            proof {
                reveal_strlit("");
            }
            assert(v@ + ""@ =~= v@);
        },
    }
    append_str(&mut v, "\r\n");
    string_of(&v)
}

} // verus!
