use vstd::prelude::*;

use crate::error::AppError;

verus! {

/// Whether an HTTP status code reports success (200 to 299).
pub open spec fn is_success(status: u16) -> bool {
    200 <= status && status < 300
}

/// First half of decoding a response: the body of a successful response,
/// handed on to be parsed, or the status and the verbatim body of any other.
pub fn successful_body(status: u16, body: String) -> (r: Result<String, AppError>)
    ensures
        is_success(status) ==> r == Ok::<String, AppError>(body),
        !is_success(status) ==> r == Err::<String, AppError>(AppError::WrongResponseCode(status, body)),
{
    if 200 <= status && status < 300 {
        Ok(body)
    } else {
        Err(AppError::WrongResponseCode(status, body))
    }
}

/// Second half of decoding a response: the value that the parser read from a
/// successful body, or its diagnostic as a decoding error.
pub fn decoded<T>(parsed: Result<T, String>) -> (r: Result<T, AppError>)
    ensures
        parsed is Ok ==> r == Ok::<T, AppError>(parsed->Ok_0),
        parsed is Err ==> r == Err::<T, AppError>(AppError::DeserizalizationError(parsed->Err_0)),
{
    match parsed {
        Ok(v) => Ok(v),
        Err(d) => Err(AppError::DeserizalizationError(d)),
    }
}

} // verus!
