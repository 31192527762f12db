//! The envelope of control-plane responses.

use crate::dal::rule::{Error, ErrorView};
use vstd::prelude::*;

verus! {

/// The status of a successful response.
pub const OK: u16 = 200;

/// The status of a request that does not validate.
pub const BAD_REQUEST: u16 = 400;

/// The status of a failure that the client did not cause.
pub const INTERNAL_SERVER_ERROR: u16 = 500;

/// The status that an error is answered with: 400 for a request that
/// names no stored rule or makes no sense in the rule's state, 500 for a
/// failure of the store or of the encoding.
pub open spec fn spec_error_status(error: ErrorView) -> u16 {
    match error {
        ErrorView::NotFound(_) => BAD_REQUEST,
        ErrorView::Logics(_) => BAD_REQUEST,
        _ => INTERNAL_SERVER_ERROR,
    }
}

/// What a handler answers: a payload, sent as `{ "data": payload }` with
/// status 200, or a failure, sent as `{ "message": text }` with its
/// status.
#[derive(Debug, PartialEq, Eq)]
pub enum BaseResponse<T> {
    Success(T),
    Error { code: u16, message: String },
}

/// The body of a failure.
#[derive(Debug, PartialEq, Eq)]
pub struct ErrorResponseContent {
    pub message: String,
}

impl<T> BaseResponse<T> {
    pub fn success(data: T) -> (response: Self)
        ensures
            response == BaseResponse::Success(data),
    {
        BaseResponse::Success(data)
    }

    pub fn error(code: u16, message: String) -> (response: Self)
        ensures
            response == (BaseResponse::<T>::Error { code, message }),
    {
        BaseResponse::Error { code, message }
    }

    /// The answer to a request that failed on the server's side: status
    /// 500 with the error's sentence.
    pub fn server_error(error: &Error) -> (response: Self)
        ensures
            response matches BaseResponse::Error { code, message } && code == INTERNAL_SERVER_ERROR
                && message@ == error@.message(),
    {
        BaseResponse::Error { code: INTERNAL_SERVER_ERROR, message: error.message() }
    }

    /// The answer to a request that failed: the error's sentence, with
    /// status 400 where the request was at fault and 500 where the
    /// server was.
    pub fn from_error(error: &Error) -> (response: Self)
        ensures
            response matches BaseResponse::Error { code, message } && code == spec_error_status(
                error@,
            ) && message@ == error@.message(),
    {
        let code = match error {
            Error::NotFound(_) => BAD_REQUEST,
            Error::Logics(_) => BAD_REQUEST,
            _ => INTERNAL_SERVER_ERROR,
        };
        BaseResponse::Error { code, message: error.message() }
    }

    /// The status to send.
    pub fn status(&self) -> (code: u16)
        ensures
            code == match self {
                BaseResponse::Success(_) => OK,
                BaseResponse::Error { code, .. } => *code,
            },
    {
        match self {
            BaseResponse::Success(_) => OK,
            BaseResponse::Error { code, .. } => *code,
        }
    }
}

} // verus!
