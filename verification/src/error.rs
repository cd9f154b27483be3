//! The errors of the library surface, and how they are answered.
//!
//! A wrapped error keeps the text of what went wrong outside; the variant
//! alone decides the answer, so nothing matches on message contents.

use vstd::prelude::*;

use crate::text::{chars_of, extend_str, string_of};

verus! {

/// What a metadata provider reported.
#[derive(Debug, Clone, Copy, PartialEq, Eq, Structural)]
pub enum MetadataFault {
    /// The credential is missing or refused.
    Unauthorized,
    /// The provider holds nothing under that id.
    NotFound,
    /// The id is not one of the provider's.
    BadId,
    /// The provider has no such ordering.
    UnknownOrdering,
    /// The provider could not be asked.
    Unavailable,
    /// The provider cannot answer that kind of question.
    Unsupported,
    /// The provider's answer could not be read.
    Malformed,
}

/// Errors that can bubble up out of the library surface.
#[derive(Debug, Clone)]
pub enum AppError {
    /// Database error.
    Database(String),
    /// Schema migration error at boot.
    Migrate(String),
    /// Template render failure.
    Template(String),
    /// JSON reading or writing error.
    Json(String),
    /// Tracker client error.
    Tracker(String),
    /// TMDB client error.
    Tmdb(String),
    /// A failure from a metadata provider, with its own sentence.
    Metadata(MetadataFault, String),
    /// Configuration or parse error.
    InvalidInput(String),
    /// Requested entity does not exist.
    NotFound(String),
    /// Refused because the global pause is on; names what was refused.
    Paused(String),
    /// Generic I/O.
    Io(String),
}

/// The status an HTTP client gets.
pub open spec fn http_status(e: AppError) -> u16 {
    match e {
        AppError::NotFound(_) => 404,
        AppError::InvalidInput(_) => 400,
        AppError::Paused(_) => 409,
        AppError::Metadata(fault, _) => match fault {
            MetadataFault::Unauthorized => 401,
            MetadataFault::NotFound => 404,
            MetadataFault::BadId | MetadataFault::UnknownOrdering => 400,
            _ => 502,
        },
        _ => 500,
    }
}

/// The answers of a gRPC call.
#[derive(Debug, Clone, Copy, PartialEq, Eq, Structural)]
pub enum RpcCode {
    NotFound,
    InvalidArgument,
    FailedPrecondition,
    Unavailable,
    Unauthenticated,
    Internal,
}

pub open spec fn rpc_status(e: AppError) -> RpcCode {
    match e {
        AppError::NotFound(_) => RpcCode::NotFound,
        AppError::InvalidInput(_) => RpcCode::InvalidArgument,
        AppError::Paused(_) => RpcCode::FailedPrecondition,
        AppError::Metadata(_, _) => RpcCode::Unavailable,
        _ => RpcCode::Internal,
    }
}

/// The sentence an error is shown as.
pub open spec fn error_text(e: AppError) -> Seq<char> {
    match e {
        AppError::Database(m) => "database error: "@ + m@,
        AppError::Migrate(m) => "migration error: "@ + m@,
        AppError::Template(m) => "template error: "@ + m@,
        AppError::Json(m) => "json error: "@ + m@,
        AppError::Tracker(m) => "tracker error: "@ + m@,
        AppError::Tmdb(m) => "tmdb error: "@ + m@,
        AppError::Metadata(_, m) => m@,
        AppError::InvalidInput(m) => "invalid input: "@ + m@,
        AppError::NotFound(m) => "not found: "@ + m@,
        AppError::Paused(action) => "o brarr está pausado — retome em Configurações para "@
            + action@,
        AppError::Io(m) => "io error: "@ + m@,
    }
}

fn after(prefix: &str, m: &str) -> (r: String)
    ensures
        r@ == prefix@ + m@,
{
    let mut out = chars_of(prefix);
    extend_str(&mut out, m);
    string_of(&out)
}

impl AppError {
    /// HTTP status code this error maps to. A pause is a conflict, because
    /// it is deliberate and waiting does not clear it.
    pub fn status_code(&self) -> (r: u16)
        ensures
            r == http_status(*self),
    {
        match self {
            AppError::NotFound(_) => 404,
            AppError::InvalidInput(_) => 400,
            AppError::Paused(_) => 409,
            AppError::Metadata(fault, _) => match fault {
                MetadataFault::Unauthorized => 401,
                MetadataFault::NotFound => 404,
                MetadataFault::BadId | MetadataFault::UnknownOrdering => 400,
                _ => 502,
            },
            _ => 500,
        }
    }

    /// gRPC status this error maps to.
    pub fn rpc_code(&self) -> (r: RpcCode)
        ensures
            r == rpc_status(*self),
    {
        match self {
            AppError::NotFound(_) => RpcCode::NotFound,
            AppError::InvalidInput(_) => RpcCode::InvalidArgument,
            AppError::Paused(_) => RpcCode::FailedPrecondition,
            AppError::Metadata(_, _) => RpcCode::Unavailable,
            _ => RpcCode::Internal,
        }
    }

    /// The sentence the error is shown as.
    pub fn message(&self) -> (r: String)
        ensures
            r@ == error_text(*self),
    {
        match self {
            AppError::Database(m) => after("database error: ", m.as_str()),
            AppError::Migrate(m) => after("migration error: ", m.as_str()),
            AppError::Template(m) => after("template error: ", m.as_str()),
            AppError::Json(m) => after("json error: ", m.as_str()),
            AppError::Tracker(m) => after("tracker error: ", m.as_str()),
            AppError::Tmdb(m) => after("tmdb error: ", m.as_str()),
            AppError::Metadata(_, m) => m.clone(),
            AppError::InvalidInput(m) => after("invalid input: ", m.as_str()),
            AppError::NotFound(m) => after("not found: ", m.as_str()),
            AppError::Paused(action) => after(
                "o brarr está pausado — retome em Configurações para ",
                action.as_str(),
            ),
            AppError::Io(m) => after("io error: ", m.as_str()),
        }
    }
}

/// A pause never reads as "try again shortly": not over HTTP, not over
/// gRPC.
pub proof fn a_pause_is_not_a_retry(e: AppError)
    requires
        e is Paused,
    ensures
        http_status(e) == 409,
        rpc_status(e) == RpcCode::FailedPrecondition,
{
}

} // verus!
