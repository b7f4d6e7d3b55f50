//! What the router says in its own voice, as the bytes it writes: a
//! refusal, a preflight answer, and the JSON replies it authors.
//!
//! The framing is the same whatever the answer: a declared length, a closed
//! connection, and the origin header that lets a page on this machine read
//! it, because a caller that can rely on none of those has to guess where
//! the reply ended.

use vstd::prelude::*;

use super::refusal::{reason, reason_text, status_of, Cause, Refusal};
use crate::text::{chars_of, decimal, push_decimal, push_str};

verus! {

/// How many bytes UTF-8 writes a character in.
pub open spec fn utf8_width(c: char) -> nat {
    if (c as u32) < 0x80 {
        1
    } else if (c as u32) < 0x800 {
        2
    } else if (c as u32) < 0x10000 {
        3
    } else {
        4
    }
}

/// How many bytes UTF-8 writes a text in.
pub open spec fn utf8_len(s: Seq<char>) -> nat
    decreases s.len(),
{
    if s.len() == 0 {
        0
    } else {
        utf8_len(s.drop_last()) + utf8_width(s.last())
    }
}

/// How many bytes a text takes on the wire.
pub fn byte_len(text: &str) -> (n: u128)
    ensures
        n == utf8_len(text@),
{
    let chars = chars_of(text);
    let mut n: u128 = 0;
    let mut i: usize = 0;
    while i < chars.len()
        invariant
            i <= chars@.len(),
            chars@ == text@,
            n == utf8_len(chars@.take(i as int)),
            n <= 4 * i,
        decreases chars@.len() - i,
    {
        assert(chars@.take(i + 1).drop_last() =~= chars@.take(i as int));
        let code = chars[i] as u32;
        let width: u128 = if code < 0x80 {
            1
        } else if code < 0x800 {
            2
        } else if code < 0x10000 {
            3
        } else {
            4
        };
        n = n + width;
        i = i + 1;
    }
    assert(chars@.take(i as int) =~= chars@);
    n
}

/// Header lines, each a name, a colon, a space, the value and a line end.
pub open spec fn header_lines(headers: Seq<(Seq<char>, Seq<char>)>) -> Seq<char>
    decreases headers.len(),
{
    if headers.len() == 0 {
        Seq::empty()
    } else {
        header_lines(headers.drop_last()) + headers.last().0 + ": "@ + headers.last().1 + "\r\n"@
    }
}

/// Header pairs as texts.
pub open spec fn header_texts(headers: Seq<(String, String)>) -> Seq<(Seq<char>, Seq<char>)> {
    headers.map_values(|h: (String, String)| (h.0@, h.1@))
}

/// One complete reply the router authors: the status line, the content type
/// where there is one, the declared length of the body, the headers the
/// answer carries, the origin header and the closing; then the body, unless
/// only the head was asked for. The length declared is the body's either
/// way, so a client can size a buffer from it.
pub open spec fn reply_text(
    status: u16,
    content_type: Option<Seq<char>>,
    headers: Seq<(Seq<char>, Seq<char>)>,
    body: Seq<char>,
    head_only: bool,
) -> Seq<char> {
    "HTTP/1.1 "@ + decimal(status as nat) + " "@ + reason_text(status) + "\r\n"@ + match content_type {
        Some(t) => "Content-Type: "@ + t + "\r\n"@,
        None => Seq::empty(),
    } + "Content-Length: "@ + decimal(utf8_len(body)) + "\r\n"@ + header_lines(headers)
        + "Access-Control-Allow-Origin: *\r\n"@ + "Connection: close\r\n\r\n"@ + if head_only {
        Seq::empty()
    } else {
        body
    }
}

/// Writes one complete reply.
pub fn reply(
    status: u16,
    content_type: Option<&str>,
    headers: &Vec<(String, String)>,
    body: &str,
    head_only: bool,
) -> (text: String)
    ensures
        text@ == reply_text(
            status,
            match content_type {
                Some(t) => Some(t@),
                None => None,
            },
            header_texts(headers@),
            body@,
            head_only,
        ),
{
    let mut text = String::new();
    push_str(&mut text, "HTTP/1.1 ");
    push_decimal(&mut text, status as u128);
    push_str(&mut text, " ");
    push_str(&mut text, reason(status));
    push_str(&mut text, "\r\n");
    let ghost head = text@;
    if let Some(t) = content_type {
        push_str(&mut text, "Content-Type: ");
        push_str(&mut text, t);
        push_str(&mut text, "\r\n");
    }
    push_str(&mut text, "Content-Length: ");
    push_decimal(&mut text, byte_len(body));
    push_str(&mut text, "\r\n");
    let ghost framed = text@;
    let mut i: usize = 0;
    while i < headers.len()
        invariant
            i <= headers@.len(),
            text@ == framed + header_lines(header_texts(headers@.take(i as int))),
        decreases headers@.len() - i,
    {
        assert(header_texts(headers@.take(i + 1)).drop_last() =~= header_texts(headers@.take(i as int)));
        push_str(&mut text, headers[i].0.as_str());
        push_str(&mut text, ": ");
        push_str(&mut text, headers[i].1.as_str());
        push_str(&mut text, "\r\n");
        assert(text@ =~= framed + header_lines(header_texts(headers@.take(i + 1))));
        i = i + 1;
    }
    assert(headers@.take(i as int) =~= headers@);
    assert(header_texts(headers@.take(i as int)) =~= header_texts(headers@));
    push_str(&mut text, "Access-Control-Allow-Origin: *\r\n");
    push_str(&mut text, "Connection: close\r\n\r\n");
    if !head_only {
        push_str(&mut text, body);
    }
    assert(text@ =~= reply_text(
        status,
        match content_type {
            Some(t) => Some(t@),
            None => None,
        },
        header_texts(headers@),
        body@,
        head_only,
    ));
    text
}

/// The headers a refusal carries beyond the framing: `Retry-After` when
/// waiting changes the answer, and `Allow` when the method was the problem.
pub open spec fn refusal_headers(cause: Cause) -> Seq<(Seq<char>, Seq<char>)> {
    (if cause == Cause::RoomContended {
        seq![("Retry-After"@, decimal(1))]
    } else {
        Seq::empty()
    }) + match cause {
        Cause::MethodNotAllowed(allowed) => seq![("Allow"@, allowed@)],
        _ => Seq::empty(),
    }
}

/// A refusal on the wire: the status its cause fixes, its headers, and the
/// envelope as a JSON body.
pub fn refusal_reply(refusal: &Refusal) -> (text: String)
    ensures
        text@ == reply_text(
            status_of(refusal.spec_cause()),
            Some("application/json"@),
            refusal_headers(refusal.spec_cause()),
            super::refusal::envelope_text(refusal.spec_cause(), refusal.spec_message()),
            false,
        ),
{
    let cause = refusal.cause();
    let mut headers: Vec<(String, String)> = Vec::new();
    if let Some(seconds) = cause.retry_after_seconds() {
        let mut value = String::new();
        push_decimal(&mut value, seconds as u128);
        headers.push((String::from_str("Retry-After"), value));
    }
    let ghost first = headers@;
    if let Cause::MethodNotAllowed(allowed) = cause {
        headers.push((String::from_str("Allow"), String::from_str(allowed)));
    }
    assert(header_texts(headers@) =~= refusal_headers(cause));
    let body = refusal.envelope();
    reply(cause.status(), Some("application/json"), &headers, body.as_str(), false)
}

/// What a preflight is answered with: what the endpoint accepts, from any
/// page that can reach the router, and no body.
pub open spec fn preflight_headers(allowed: Seq<char>) -> Seq<(Seq<char>, Seq<char>)> {
    seq![
        ("Allow"@, allowed),
        ("Access-Control-Allow-Methods"@, allowed),
        ("Access-Control-Allow-Headers"@, "*"@),
        ("Access-Control-Max-Age"@, "86400"@),
    ]
}

/// Answers a preflight for an endpoint that accepts `allowed`.
pub fn preflight_reply(allowed: &str) -> (text: String)
    ensures
        text@ == reply_text(204, None, preflight_headers(allowed@), Seq::empty(), true),
{
    let mut headers: Vec<(String, String)> = Vec::new();
    headers.push((String::from_str("Allow"), String::from_str(allowed)));
    headers.push((String::from_str("Access-Control-Allow-Methods"), String::from_str(allowed)));
    headers.push((String::from_str("Access-Control-Allow-Headers"), String::from_str("*")));
    headers.push((String::from_str("Access-Control-Max-Age"), String::from_str("86400")));
    assert(header_texts(headers@) =~= preflight_headers(allowed@));
    proof {
        reveal_strlit("");
    }
    reply(204, None, &headers, "", true)
}

/// A JSON value the router authored, with the same framing as every reply.
pub fn json_reply(body: &str, head_only: bool) -> (text: String)
    ensures
        text@ == reply_text(200, Some("application/json"@), Seq::empty(), body@, head_only),
{
    let headers: Vec<(String, String)> = Vec::new();
    assert(header_texts(headers@) =~= Seq::<(Seq<char>, Seq<char>)>::empty());
    reply(200, Some("application/json"), &headers, body, head_only)
}

} // verus!
