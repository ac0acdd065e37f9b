//! The error type surfaced to every transport, with its stable code and its
//! human-readable message.
use vstd::prelude::*;
use crate::text::{chars_of, decimal, decimal_chars, extend_chars, string_from};

verus! {

/// Unified error type surfaced to the frontend (desktop command result or HTTP body).
#[derive(Debug)]
pub enum CoreError {
    NotAuthenticated,
    AuthorizationPending,
    Auth(String),
    Graph { status: u16, message: String },
    UnknownType(String),
    Io(String),
    Other(String),
}

/// The stable machine-readable code of an error.
pub open spec fn code_of(e: CoreError) -> Seq<char> {
    match e {
        CoreError::NotAuthenticated => "not_authenticated"@,
        CoreError::AuthorizationPending => "authorization_pending"@,
        CoreError::Auth(_) => "auth_failed"@,
        CoreError::Graph { .. } => "graph_error"@,
        CoreError::UnknownType(_) => "unknown_type"@,
        CoreError::Io(_) => "io_error"@,
        CoreError::Other(_) => "error"@,
    }
}

/// The human-readable message of an error.
pub open spec fn message_of(e: CoreError) -> Seq<char> {
    match e {
        CoreError::NotAuthenticated => "not signed in"@,
        CoreError::AuthorizationPending => "authorization pending"@,
        CoreError::Auth(m) => "authentication failed: "@ + m@,
        CoreError::Graph { status, message } => "graph request failed ("@ + decimal(status as nat) + "): "@
            + message@,
        CoreError::UnknownType(t) => "unknown object type: "@ + t@,
        CoreError::Io(m) => "io error: "@ + m@,
        CoreError::Other(m) => m@,
    }
}

impl CoreError {
    /// The stable machine-readable code of the error.
    pub fn code(&self) -> (r: &'static str)
        ensures
            r@ == code_of(*self),
    {
        match self {
            CoreError::NotAuthenticated => "not_authenticated",
            CoreError::AuthorizationPending => "authorization_pending",
            CoreError::Auth(_) => "auth_failed",
            CoreError::Graph { .. } => "graph_error",
            CoreError::UnknownType(_) => "unknown_type",
            CoreError::Io(_) => "io_error",
            CoreError::Other(_) => "error",
        }
    }

    /// The human-readable message of the error (its display text).
    pub fn message(&self) -> (r: String)
        ensures
            r@ == message_of(*self),
    {
        let mut out: Vec<char>;
        match self {
            CoreError::NotAuthenticated => {
                out = chars_of("not signed in");
            },
            CoreError::AuthorizationPending => {
                out = chars_of("authorization pending");
            },
            CoreError::Auth(m) => {
                out = chars_of("authentication failed: ");
                extend_chars(&mut out, &chars_of(m.as_str()));
            },
            CoreError::Graph { status, message } => {
                out = chars_of("graph request failed (");
                extend_chars(&mut out, &decimal_chars(*status as u64));
                extend_chars(&mut out, &chars_of("): "));
                extend_chars(&mut out, &chars_of(message.as_str()));
            },
            CoreError::UnknownType(t) => {
                out = chars_of("unknown object type: ");
                extend_chars(&mut out, &chars_of(t.as_str()));
            },
            CoreError::Io(m) => {
                out = chars_of("io error: ");
                extend_chars(&mut out, &chars_of(m.as_str()));
            },
            CoreError::Other(m) => {
                out = chars_of(m.as_str());
            },
        }
        string_from(&out)
    }
}

/// Whether a number is a valid HTTP status code (`StatusCode::from_u16`
/// accepts exactly these).
pub open spec fn valid_status(n: u16) -> bool {
    100 <= n <= 999
}

/// The HTTP status an error is answered with: 401 when not signed in, 202
/// while authorization is pending, 404 for an unknown type, Graph's own
/// status for a Graph failure (502 when that is no valid status), 400 otherwise.
pub open spec fn http_status_of(e: CoreError) -> u16 {
    match e {
        CoreError::NotAuthenticated => 401,
        CoreError::AuthorizationPending => 202,
        CoreError::UnknownType(_) => 404,
        CoreError::Graph { status, .. } => if valid_status(status) {
            status
        } else {
            502
        },
        _ => 400,
    }
}

impl CoreError {
    /// The HTTP status the error is answered with (see `http_status_of`).
    pub fn http_status(&self) -> (r: u16)
        ensures
            r == http_status_of(*self),
            valid_status(r),
    {
        match self {
            CoreError::NotAuthenticated => 401,
            CoreError::AuthorizationPending => 202,
            CoreError::UnknownType(_) => 404,
            CoreError::Graph { status, .. } => if 100 <= *status && *status <= 999 {
                *status
            } else {
                502
            },
            _ => 400,
        }
    }
}

/// JSON-serializable error shape shared by every transport.
pub struct ErrorBody {
    pub code: String,
    pub message: String,
}

impl ErrorBody {
    /// The body of an error: its code and its message.
    pub fn from_error(e: &CoreError) -> (r: ErrorBody)
        ensures
            r.code@ == code_of(*e),
            r.message@ == message_of(*e),
    {
        ErrorBody { code: e.code().to_owned(), message: e.message() }
    }
}

} // verus!
