//! The metrics endpoint's side of HTTP.
//!
//! Reading and writing the socket happens elsewhere, one bounded line at a
//! time. Here is what a request line asks for, when the headers are over, and
//! what is answered.
use vstd::prelude::*;
use vstd::string::StringExecFns;
use vstd::utf8::encode_utf8;

use crate::daemon::metrics::Metrics;
use crate::text::laws::{
    all_space, law_contained_means_cut_out, law_trim_takes_only_outer_space,
};
use crate::text::{
    chars_of, contains, decimal, is_space, push_decimal, same, second_word, second_word_of,
    starts_with, trim, trimmed,
};

verus! {

/// Largest request line that is buffered, in bytes.
pub const MAX_REQUEST_LINE: u64 = 8192;

/// Largest single header line that is buffered, in bytes.
pub const MAX_HEADER_LINE: u64 = 8192;

/// Maximum number of header lines read before the request is answered anyway.
pub const MAX_HEADERS: usize = 64;

/// The default listen address.
///
/// Loopback: the exposition carries device identity over an endpoint with no
/// authentication of any kind.
pub const DEFAULT_ADDR: &'static str = "127.0.0.1:9782";

/// What a request asks for.
#[derive(Debug, Clone, Copy, PartialEq, Eq, Structural)]
pub enum Route {
    /// The exposition.
    Metrics,
    /// The page that points to it.
    Index,
    /// Anything else.
    NotFound,
}

/// What a request target asks for.
pub open spec fn route_of(target: Seq<char>) -> Route {
    if target == "/metrics"@ {
        Route::Metrics
    } else if target == "/"@ {
        Route::Index
    } else {
        Route::NotFound
    }
}

/// What a request target asks for.
pub fn route(target: &str) -> (r: Route)
    ensures
        r == route_of(target@),
{
    if same(target, "/metrics") {
        Route::Metrics
    } else if same(target, "/") {
        Route::Index
    } else {
        Route::NotFound
    }
}

/// Whether a request line filled the buffer without coming to an end.
pub open spec fn is_truncated(line: Seq<char>) -> bool {
    encode_utf8(line).len() >= MAX_REQUEST_LINE && !(line.len() > 0 && line.last() == '\n')
}

/// Whether a request line filled the buffer without coming to an end.
///
/// Answering such a line would mean guessing at a truncated method and target.
pub fn truncated(line: &str) -> (r: bool)
    ensures
        r == is_truncated(line@),
{
    let bytes: usize = line.as_bytes().len();
    if (bytes as u64) < MAX_REQUEST_LINE {
        return false;
    }
    let v = chars_of(line);
    !(v.len() > 0 && v[v.len() - 1] == '\n')
}

/// Whether the headers go on after a line: something was read, it is not blank,
/// and it was not the last line allowed.
pub open spec fn headers_go_on(seen: usize, read: usize, line: Seq<char>) -> bool {
    read > 0 && trim(line).len() > 0 && seen + 1 < MAX_HEADERS
}

/// Whether to read another header line after the one just read: `seen` counts
/// the lines read before it, `read` the bytes of it.
///
/// Headers end at the end of the stream, at a blank line, or after
/// [`MAX_HEADERS`] lines.
pub fn reads_on(seen: usize, read: usize, line: &str) -> (r: bool)
    ensures
        r == headers_go_on(seen, read, line@),
{
    if read == 0 || seen >= MAX_HEADERS - 1 {
        return false;
    }
    let text = trimmed(line);
    let rest = chars_of(text.as_str());
    rest.len() > 0
}

/// A response with the given status, content type and body.
pub open spec fn response_text(status: Seq<char>, kind: Seq<char>, body: Seq<char>) -> Seq<char> {
    "HTTP/1.1 "@ + status + "\r\nContent-Type: "@ + kind + "\r\nContent-Length: "@ + decimal(
        encode_utf8(body).len(),
    ) + "\r\nConnection: close\r\n\r\n"@ + body
}

/// A response with the given status, content type and body.
///
/// The content length is the length of the body in bytes.
fn response(status: &str, kind: &str, body: &str) -> (text: String)
    ensures
        text@ == response_text(status@, kind@, body@),
{
    let mut out = "HTTP/1.1 ".to_owned();
    out.append(status);
    out.append("\r\nContent-Type: ");
    out.append(kind);
    out.append("\r\nContent-Length: ");
    let length: usize = body.as_bytes().len();
    push_decimal(&mut out, length as u64);
    out.append("\r\nConnection: close\r\n\r\n");
    out.append(body);
    out
}

/// The response to a request for `route`, where `exposition` is what the
/// registry prints.
pub open spec fn response_to(route: Route, exposition: Seq<char>) -> Seq<char> {
    match route {
        Route::Metrics => response_text(
            "200 OK"@,
            "text/plain; version=0.0.4; charset=utf-8"@,
            exposition,
        ),
        Route::Index => response_text(
            "200 OK"@,
            "text/html; charset=utf-8"@,
            "<html><body><h1>razerd</h1><a href=\"/metrics\">metrics</a></body></html>\n"@,
        ),
        Route::NotFound => response_text(
            "404 Not Found"@,
            "text/plain; charset=utf-8"@,
            "not found\n"@,
        ),
    }
}

/// The response to a request for `route`, where `exposition` is what the
/// registry prints.
pub fn respond(route: Route, exposition: &str) -> (text: String)
    ensures
        text@ == response_to(route, exposition@),
{
    match route {
        Route::Metrics => response(
            "200 OK",
            "text/plain; version=0.0.4; charset=utf-8",
            exposition,
        ),
        Route::Index => response(
            "200 OK",
            "text/html; charset=utf-8",
            "<html><body><h1>razerd</h1><a href=\"/metrics\">metrics</a></body></html>\n",
        ),
        Route::NotFound => response("404 Not Found", "text/plain; charset=utf-8", "not found\n"),
    }
}

/// What a request line asks for.
///
/// The target is the second word of the line; a line without one asks for
/// nothing known.
pub fn requested(line: &str) -> (r: Route)
    ensures
        r == route_of(second_word(line@)),
{
    let target = second_word_of(line);
    route(target.as_str())
}

/// The answer to a request line, or `None` where the request is refused without
/// one. The registry is rendered only where it is asked for.
pub fn answer(line: &str, metrics: &Metrics, version: &str, uptime: &str) -> (text: Option<String>)
    requires
        metrics.wf(),
    ensures
        match text {
            Some(t) => !is_truncated(line@) && t@ == response_to(
                route_of(second_word(line@)),
                metrics.exposition(version@, uptime@),
            ),
            None => is_truncated(line@),
        },
{
    if truncated(line) {
        return None;
    }
    match requested(line) {
        Route::Metrics => {
            let body = metrics.render(version, uptime);
            Some(respond(Route::Metrics, body.as_str()))
        },
        other => Some(respond(other, "")),
    }
}

/// Nothing but a request for `/metrics` sees what the registry holds.
pub proof fn law_only_metrics_reveals_the_registry(target: Seq<char>, a: Seq<char>, b: Seq<char>)
    requires
        target != "/metrics"@,
    ensures
        response_to(route_of(target), a) == response_to(route_of(target), b),
{
}

/// Each route has its own target: `/metrics` the exposition, `/` the page that
/// points to it, and every other target, longer ones included, neither.
pub proof fn law_each_route_has_its_target(target: Seq<char>)
    ensures
        route_of(target) == Route::Metrics <==> target == "/metrics"@,
        route_of(target) == Route::Index <==> target == "/"@,
        route_of(target) == Route::NotFound <==> target != "/metrics"@ && target != "/"@,
{
    reveal_strlit("/metrics");
    reveal_strlit("/");
    assert("/metrics"@.len() == 8 && "/"@.len() == 1);
}

/// A response begins with the status line, announces its content type, the
/// number of bytes in its body and that the connection closes, and ends with the
/// body after a blank line.
pub proof fn law_a_response_announces_its_body(
    status: Seq<char>,
    kind: Seq<char>,
    body: Seq<char>,
) -> (head: Seq<char>)
    ensures
        response_text(status, kind, body) == head + body,
        starts_with(head, "HTTP/1.1 "@ + status + "\r\nContent-Type: "@),
        contains(head, "\r\nContent-Type: "@ + kind + "\r\n"@),
        contains(head, "\r\nContent-Length: "@ + decimal(encode_utf8(body).len()) + "\r\n"@),
        head.len() >= 23,
        head.skip(head.len() - 23) == "\r\nConnection: close\r\n\r\n"@,
{
    reveal_strlit("\r\n");
    reveal_strlit("Content-Length: ");
    reveal_strlit("\r\nContent-Length: ");
    reveal_strlit("Connection: close\r\n\r\n");
    reveal_strlit("\r\nConnection: close\r\n\r\n");
    let n = decimal(encode_utf8(body).len());
    let a = "HTTP/1.1 "@ + status;
    let t = "\r\nContent-Type: "@;
    let c = "\r\nContent-Length: "@;
    let z = "\r\nConnection: close\r\n\r\n"@;
    assert(c =~= "\r\n"@ + "Content-Length: "@);
    assert(z =~= "\r\n"@ + "Connection: close\r\n\r\n"@);
    let head = a + t + kind + c + n + z;
    assert((a + t).len() <= head.len());
    assert(head.take((a + t).len() as int) =~= a + t);
    assert(head =~= a + (t + kind + "\r\n"@) + ("Content-Length: "@ + n + z));
    law_contained_means_cut_out(a, t + kind + "\r\n"@, "Content-Length: "@ + n + z);
    assert(head =~= (a + t + kind) + (c + n + "\r\n"@) + "Connection: close\r\n\r\n"@);
    law_contained_means_cut_out(
        a + t + kind,
        c + n + "\r\n"@,
        "Connection: close\r\n\r\n"@,
    );
    assert(head.skip(head.len() - 23) =~= z);
    assert(response_text(status, kind, body) =~= head + body);
    head
}

/// The exposition is answered whole with status 200, the index and everything
/// unknown with pages of their own.
pub proof fn law_each_route_is_answered(exposition: Seq<char>)
    ensures
        response_to(Route::Metrics, exposition) == response_text(
            "200 OK"@,
            "text/plain; version=0.0.4; charset=utf-8"@,
            exposition,
        ),
        response_to(Route::Index, exposition) == response_text(
            "200 OK"@,
            "text/html; charset=utf-8"@,
            "<html><body><h1>razerd</h1><a href=\"/metrics\">metrics</a></body></html>\n"@,
        ),
        response_to(Route::NotFound, exposition) == response_text(
            "404 Not Found"@,
            "text/plain; charset=utf-8"@,
            "not found\n"@,
        ),
{
}

/// Only a line of 8192 bytes or more that does not end in a line break counts
/// as truncated.
pub proof fn law_what_is_truncated(line: Seq<char>)
    ensures
        line.len() > 0 && line.last() == '\n' ==> !is_truncated(line),
        encode_utf8(line).len() < 8192 ==> !is_truncated(line),
        encode_utf8(line).len() >= 8192 && line.last() != '\n' && line.len() > 0 ==> is_truncated(
            line,
        ),
{
}

/// Headers end at the end of the stream, at a line of nothing but whitespace,
/// and with the 64th line; any other line is followed by another.
pub proof fn law_when_the_headers_end(seen: usize, read: usize, line: Seq<char>)
    ensures
        read == 0 ==> !headers_go_on(seen, read, line),
        all_space(line) ==> !headers_go_on(seen, read, line),
        seen >= 63 ==> !headers_go_on(seen, read, line),
        read > 0 && seen < 63 && !all_space(line) ==> headers_go_on(seen, read, line),
{
    let (from, to) = law_trim_takes_only_outer_space(line);
    if all_space(line) && from < to {
        assert(is_space(line[from]));
    }
    if from == to {
        assert forall|i: int| 0 <= i < line.len() implies is_space(#[trigger] line[i]) by {
        }
    }
}

}
