//! Errors answered to API clients: an HTTP status code and a message.

use vstd::prelude::*;

verus! {

/// An error answer: HTTP status and the message shown to the client.
pub struct ApiError {
    pub status: u16,
    pub message: String,
}

impl ApiError {
    /// 404 with `msg`.
    pub fn not_found(msg: &str) -> (e: Self)
        ensures
            e.status == 404,
            e.message@ == msg@,
    {
        ApiError { status: 404, message: String::from_str(msg) }
    }

    /// 400 with `msg`.
    pub fn bad_request(msg: &str) -> (e: Self)
        ensures
            e.status == 400,
            e.message@ == msg@,
    {
        ApiError { status: 400, message: String::from_str(msg) }
    }

    /// 403 with `msg`.
    pub fn forbidden(msg: &str) -> (e: Self)
        ensures
            e.status == 403,
            e.message@ == msg@,
    {
        ApiError { status: 403, message: String::from_str(msg) }
    }

    /// 409 with `msg`.
    pub fn conflict(msg: &str) -> (e: Self)
        ensures
            e.status == 409,
            e.message@ == msg@,
    {
        ApiError { status: 409, message: String::from_str(msg) }
    }

    /// 429 with `msg`.
    pub fn too_many_requests(msg: &str) -> (e: Self)
        ensures
            e.status == 429,
            e.message@ == msg@,
    {
        ApiError { status: 429, message: String::from_str(msg) }
    }

    /// 500; database and other internal details are never shown to clients.
    pub fn internal() -> (e: Self)
        ensures
            e.status == 500,
            e.message@ == "internal error"@,
    {
        ApiError { status: 500, message: String::from_str("internal error") }
    }
}

/// Failures of the core layer, as far as an answer depends on them.
pub enum CoreError {
    /// A database error; its details are logged, never answered.
    Db,
    /// A migration error; its details are logged, never answered.
    Migrate,
    /// No such pool.
    UnknownPool(String),
    /// The commitment is not in the tree.
    CommitmentNotFound,
    /// A request the core rejected, with the reason.
    InvalidInput(String),
}

impl ApiError {
    /// The answer to a core failure: an unknown pool or a missing
    /// commitment is 404, invalid input is 400 with its reason, and a
    /// database or migration failure is a bare 500.
    pub fn from_core(e: CoreError) -> (r: Self)
        ensures
            match e {
                CoreError::Db => r.status == 500 && r.message@ == "internal error"@,
                CoreError::Migrate => r.status == 500 && r.message@ == "internal error"@,
                CoreError::UnknownPool(p) => r.status == 404 && r.message@ == "unknown pool: "@ + p@,
                CoreError::CommitmentNotFound => r.status == 404 && r.message@
                    == "commitment not found"@,
                CoreError::InvalidInput(m) => r.status == 400 && r.message@ == m@,
            },
    {
        match e {
            CoreError::Db => ApiError::internal(),
            CoreError::Migrate => ApiError::internal(),
            CoreError::UnknownPool(p) => {
                let msg = concat_str("unknown pool: ", p.as_str());
                ApiError::not_found(msg.as_str())
            },
            CoreError::CommitmentNotFound => ApiError::not_found("commitment not found"),
            CoreError::InvalidInput(m) => ApiError { status: 400, message: m },
        }
    }
}

/// `prefix` followed by `rest`.
pub fn concat_str(prefix: &str, rest: &str) -> (s: String)
    ensures
        s@ == prefix@ + rest@,
{
    let mut s = String::from_str(prefix);
    s.append(rest);
    s
}

} // verus!
