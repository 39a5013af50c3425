use vstd::prelude::*;

verus! {

/// Every way in which a synchronisation can fail.
#[derive(Debug, Clone, PartialEq, Eq)]
pub enum AppError {
    /// The base URL or a path built from the identifiers could not be parsed.
    WrongUrl,
    /// The HTTP call could not complete; the text describes why.
    HttpError(String),
    /// The token cannot stand in an HTTP header value.
    WrongToken,
    /// The server answered with a status outside 200..=299; its body is kept.
    WrongResponseCode(u16, String),
    /// A successful response did not have the expected shape.
    DeserizalizationError(String),
}

} // verus!
