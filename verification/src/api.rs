//! Errors answered to a client: an HTTP status and a message.

use vstd::prelude::*;

verus! {

pub const CREATED: u16 = 201;
pub const NO_CONTENT: u16 = 204;
pub const BAD_REQUEST: u16 = 400;
pub const UNAUTHORIZED: u16 = 401;
pub const FORBIDDEN: u16 = 403;
pub const NOT_FOUND: u16 = 404;
pub const CONFLICT: u16 = 409;
pub const GONE: u16 = 410;
pub const TOO_MANY_REQUESTS: u16 = 429;
pub const INTERNAL_SERVER_ERROR: u16 = 500;

/// The JSON body of an error answer.
pub struct ErrorBody {
    pub error: String,
}

/// An error answer: the status and the body sent with it.
pub struct ApiError {
    pub status: u16,
    pub body: ErrorBody,
}

impl View for ApiError {
    type V = (u16, Seq<char>);

    open spec fn view(&self) -> (u16, Seq<char>) {
        (self.status, self.body.error@)
    }
}

/// Whether `r` is an error answer with `status` and `message`.
pub open spec fn fails_with<T>(r: Result<T, ApiError>, status: u16, message: Seq<char>) -> bool {
    r matches Err(e) && e@ == (status, message)
}

/// What a decision answers, as plain values: a result or (status, message).
pub open spec fn outcome<T>(r: Result<T, ApiError>) -> Result<T, (u16, Seq<char>)> {
    match r {
        Ok(v) => Ok(v),
        Err(e) => Err(e@),
    }
}

/// `outcome` for a decision whose result is a text.
pub open spec fn text_outcome(r: Result<String, ApiError>) -> Result<Seq<char>, (u16, Seq<char>)> {
    match r {
        Ok(v) => Ok(v@),
        Err(e) => Err(e@),
    }
}

/// The error answer with `status` and `message`.
pub fn error(status: u16, message: &str) -> (r: ApiError)
    ensures
        r@ == (status, message@),
{
    ApiError { status, body: ErrorBody { error: message.to_owned() } }
}

/// The answer to a failure of the database, the mailer or another service:
/// the cause is logged by the caller and never shown to the client.
pub fn internal<E>(err: E) -> (r: ApiError)
    ensures
        r@ == (INTERNAL_SERVER_ERROR, "internal error"@),
{
    error(INTERNAL_SERVER_ERROR, "internal error")
}

} // verus!
