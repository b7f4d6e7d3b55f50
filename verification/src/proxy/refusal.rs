//! What a refusal is: its cause, the status and code the cause fixes, and the
//! envelope an OpenAI-compatible client parses.

use vstd::prelude::*;

use crate::json::{json_quoted, json_string};
use crate::text::push_str;

verus! {

/// Why a request is refused. The status and the `code` are fixed by the
/// cause, so a program switches on those and never on prose.
#[derive(Debug, Clone, Copy, PartialEq, Eq)]
pub enum Cause {
    /// The head cannot be read as a request.
    MalformedRequest,
    /// The head is larger than the router will read.
    HeadTooLarge,
    /// A key is required and the request carries none, or another.
    Unauthorized,
    /// The request names an origin the router does not serve.
    OriginNotAllowed,
    /// The request head did not arrive in time.
    RequestTimeout,
    /// The path is no shape the router serves.
    PathNotFound,
    /// The path or body names no entry the catalog carries.
    ModelNotFound,
    /// The method is none a model is asked anything with; carries the
    /// methods that are allowed.
    MethodNotAllowed(&'static str),
    /// The body announces chunked framing.
    ChunkedBody,
    /// The `Content-Length` will not parse.
    MalformedContentLength,
    /// The generic endpoint is sent no declared body.
    LengthRequired,
    /// The body is larger than the router will read.
    BodyTooLarge,
    /// The body ends before its declared length.
    BodyIncomplete,
    /// The body is not JSON.
    BodyNotJson,
    /// The body names no model, on the generic endpoint.
    ModelMissing,
    /// The child cannot be started.
    ChildUnavailable,
    /// The child missed its startup budget.
    StartupTimeout,
    /// The room is held by a request that reached it first.
    RoomContended,
    /// Nothing can be unloaded to make room.
    InsufficientRoom,
    /// An unload names a model that is answering a request.
    ModelBusy,
    /// A reload asked for a catalog that cannot be read or parsed.
    CatalogUnreadable,
}

/// The status each cause is answered with.
pub open spec fn status_of(cause: Cause) -> u16 {
    match cause {
        Cause::MalformedRequest => 400,
        Cause::HeadTooLarge => 431,
        Cause::Unauthorized => 401,
        Cause::OriginNotAllowed => 403,
        Cause::RequestTimeout => 408,
        Cause::PathNotFound => 404,
        Cause::ModelNotFound => 404,
        Cause::MethodNotAllowed(_) => 405,
        Cause::ChunkedBody => 501,
        Cause::MalformedContentLength => 400,
        Cause::LengthRequired => 411,
        Cause::BodyTooLarge => 413,
        Cause::BodyIncomplete => 400,
        Cause::BodyNotJson => 400,
        Cause::ModelMissing => 400,
        Cause::ChildUnavailable => 502,
        Cause::StartupTimeout => 504,
        Cause::RoomContended => 503,
        Cause::InsufficientRoom => 503,
        Cause::ModelBusy => 409,
        Cause::CatalogUnreadable => 400,
    }
}

/// The machine-readable code each cause carries.
pub open spec fn code_of(cause: Cause) -> Seq<char> {
    match cause {
        Cause::MalformedRequest => "malformed_request"@,
        Cause::HeadTooLarge => "request_head_too_large"@,
        Cause::Unauthorized => "invalid_api_key"@,
        Cause::OriginNotAllowed => "origin_not_allowed"@,
        Cause::RequestTimeout => "request_timeout"@,
        Cause::PathNotFound => "path_not_found"@,
        Cause::ModelNotFound => "model_not_found"@,
        Cause::MethodNotAllowed(_) => "method_not_allowed"@,
        Cause::ChunkedBody => "chunked_body_not_implemented"@,
        Cause::MalformedContentLength => "malformed_content_length"@,
        Cause::LengthRequired => "content_length_required"@,
        Cause::BodyTooLarge => "body_too_large"@,
        Cause::BodyIncomplete => "body_incomplete"@,
        Cause::BodyNotJson => "body_not_json"@,
        Cause::ModelMissing => "model_missing"@,
        Cause::ChildUnavailable => "child_unavailable"@,
        Cause::StartupTimeout => "startup_timeout"@,
        Cause::RoomContended => "room_contended"@,
        Cause::InsufficientRoom => "insufficient_room"@,
        Cause::ModelBusy => "model_busy"@,
        Cause::CatalogUnreadable => "catalog_unreadable"@,
    }
}

/// The reason phrase a status line carries.
pub open spec fn reason_text(status: u16) -> Seq<char> {
    if status == 200 { "OK"@ }
    else if status == 204 { "No Content"@ }
    else if status == 400 { "Bad Request"@ }
    else if status == 401 { "Unauthorized"@ }
    else if status == 403 { "Forbidden"@ }
    else if status == 404 { "Not Found"@ }
    else if status == 405 { "Method Not Allowed"@ }
    else if status == 408 { "Request Timeout"@ }
    else if status == 409 { "Conflict"@ }
    else if status == 411 { "Length Required"@ }
    else if status == 413 { "Content Too Large"@ }
    else if status == 431 { "Request Header Fields Too Large"@ }
    else if status == 501 { "Not Implemented"@ }
    else if status == 502 { "Bad Gateway"@ }
    else if status == 503 { "Service Unavailable"@ }
    else { "Gateway Timeout"@ }
}

/// The statuses that have a reason phrase named for them; every other falls
/// through to the one kept for 504.
pub open spec fn named_status(status: u16) -> bool {
    status == 200 || status == 204 || status == 400 || status == 401 || status == 403 || status == 404
        || status == 405 || status == 408 || status == 409 || status == 411 || status == 413 || status == 431
        || status == 501 || status == 502 || status == 503
}

/// The reason phrase a status carries.
pub fn reason(status: u16) -> (phrase: &'static str)
    ensures
        phrase@ == reason_text(status),
{
    if status == 200 { "OK" }
    else if status == 204 { "No Content" }
    else if status == 400 { "Bad Request" }
    else if status == 401 { "Unauthorized" }
    else if status == 403 { "Forbidden" }
    else if status == 404 { "Not Found" }
    else if status == 405 { "Method Not Allowed" }
    else if status == 408 { "Request Timeout" }
    else if status == 409 { "Conflict" }
    else if status == 411 { "Length Required" }
    else if status == 413 { "Content Too Large" }
    else if status == 431 { "Request Header Fields Too Large" }
    else if status == 501 { "Not Implemented" }
    else if status == 502 { "Bad Gateway" }
    else if status == 503 { "Service Unavailable" }
    else { "Gateway Timeout" }
}

/// Every status a cause carries has a reason phrase of its own: only the
/// startup timeout is answered with the phrase kept for 504.
pub proof fn law_every_cause_has_its_own_reason_phrase(cause: Cause)
    ensures
        cause != Cause::StartupTimeout ==> named_status(status_of(cause)),
        status_of(Cause::StartupTimeout) == 504,
        !named_status(504),
{
}

impl Cause {
    /// The status this cause is answered with.
    pub fn status(&self) -> (status: u16)
        ensures
            status == status_of(*self),
    {
        match self {
            Cause::MalformedRequest => 400,
            Cause::HeadTooLarge => 431,
            Cause::Unauthorized => 401,
            Cause::OriginNotAllowed => 403,
            Cause::RequestTimeout => 408,
            Cause::PathNotFound => 404,
            Cause::ModelNotFound => 404,
            Cause::MethodNotAllowed(_) => 405,
            Cause::ChunkedBody => 501,
            Cause::MalformedContentLength => 400,
            Cause::LengthRequired => 411,
            Cause::BodyTooLarge => 413,
            Cause::BodyIncomplete => 400,
            Cause::BodyNotJson => 400,
            Cause::ModelMissing => 400,
            Cause::ChildUnavailable => 502,
            Cause::StartupTimeout => 504,
            Cause::RoomContended => 503,
            Cause::InsufficientRoom => 503,
            Cause::ModelBusy => 409,
            Cause::CatalogUnreadable => 400,
        }
    }

    /// The machine-readable code this cause carries.
    pub fn code(&self) -> (code: &'static str)
        ensures
            code@ == code_of(*self),
    {
        match self {
            Cause::MalformedRequest => "malformed_request",
            Cause::HeadTooLarge => "request_head_too_large",
            Cause::Unauthorized => "invalid_api_key",
            Cause::OriginNotAllowed => "origin_not_allowed",
            Cause::RequestTimeout => "request_timeout",
            Cause::PathNotFound => "path_not_found",
            Cause::ModelNotFound => "model_not_found",
            Cause::MethodNotAllowed(_) => "method_not_allowed",
            Cause::ChunkedBody => "chunked_body_not_implemented",
            Cause::MalformedContentLength => "malformed_content_length",
            Cause::LengthRequired => "content_length_required",
            Cause::BodyTooLarge => "body_too_large",
            Cause::BodyIncomplete => "body_incomplete",
            Cause::BodyNotJson => "body_not_json",
            Cause::ModelMissing => "model_missing",
            Cause::ChildUnavailable => "child_unavailable",
            Cause::StartupTimeout => "startup_timeout",
            Cause::RoomContended => "room_contended",
            Cause::InsufficientRoom => "insufficient_room",
            Cause::ModelBusy => "model_busy",
            Cause::CatalogUnreadable => "catalog_unreadable",
        }
    }

    /// How long a caller is told to wait before asking again: sent exactly
    /// when waiting changes the answer, which is when the room was taken by
    /// a request that reached it first.
    pub fn retry_after_seconds(&self) -> (seconds: Option<u32>)
        ensures
            seconds == if *self == Cause::RoomContended { Some(1u32) } else { None },
    {
        match self {
            Cause::RoomContended => Some(1),
            _ => None,
        }
    }
}

/// A refusal: why, and what the reader is told.
#[derive(Debug, Clone, PartialEq, Eq)]
pub struct Refusal {
    cause: Cause,
    message: String,
}

/// The error type a status is reported under.
pub open spec fn type_of(status: u16) -> Seq<char> {
    if status < 500 { "invalid_request_error"@ } else { "server_error"@ }
}

/// The envelope an OpenAI-compatible client parses.
pub open spec fn envelope_text(cause: Cause, message: Seq<char>) -> Seq<char> {
    "{\"error\":{\"message\":"@ + json_string(message) + ",\"type\":\""@ + type_of(status_of(cause))
        + "\",\"code\":\""@ + code_of(cause) + "\"}}"@
}

impl Refusal {
    /// A refusal for this cause, saying this to the reader.
    pub fn new(cause: Cause, message: String) -> (refusal: Refusal)
        ensures
            refusal.spec_cause() == cause,
            refusal.spec_message() == message@,
    {
        Refusal { cause, message }
    }

    /// Why.
    pub closed spec fn spec_cause(&self) -> Cause {
        self.cause
    }

    /// What the reader is told.
    pub closed spec fn spec_message(&self) -> Seq<char> {
        self.message@
    }

    /// Why.
    pub fn cause(&self) -> (cause: Cause)
        ensures
            cause == self.spec_cause(),
    {
        self.cause
    }

    /// What the reader is told.
    pub fn message(&self) -> (message: &str)
        ensures
            message@ == self.spec_message(),
    {
        self.message.as_str()
    }

    /// The JSON envelope: the message for the reader, the type the status
    /// implies, and the code a program switches on.
    pub fn envelope(&self) -> (text: String)
        ensures
            text@ == envelope_text(self.spec_cause(), self.spec_message()),
    {
        let mut out = String::new();
        push_str(&mut out, "{\"error\":{\"message\":");
        let quoted = json_quoted(self.message.as_str());
        push_str(&mut out, quoted.as_str());
        push_str(&mut out, ",\"type\":\"");
        if self.cause.status() < 500 {
            push_str(&mut out, "invalid_request_error");
        } else {
            push_str(&mut out, "server_error");
        }
        push_str(&mut out, "\",\"code\":\"");
        push_str(&mut out, self.cause.code());
        push_str(&mut out, "\"}}");
        assert(out@ =~= envelope_text(self.spec_cause(), self.spec_message()));
        out
    }
}

} // verus!
