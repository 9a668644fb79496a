//! The service's error kinds, the HTTP status each maps to, and the message
//! each renders as.

use vstd::prelude::*;
use crate::text::{concat, decimal, owned, u64_to_string};

verus! {

/// Every way a request can fail.
#[derive(Debug)]
pub enum AppError {
    /// An upstream data provider request failed; holds the provider's message.
    Upstream(String),
    NotFound,
    InsufficientData { needed: u32, have: usize },
    Unprocessable(String),
    BadRequest(String),
    Unauthorized,
    Forbidden,
    /// A database operation failed; holds the driver's message.
    Db(String),
    Crypto,
    Internal(String),
    /// A part of the service is not configured; holds what is missing.
    Unavailable(String),
}

/// The HTTP status code each error maps to.
pub open spec fn status_of(e: AppError) -> u16 {
    match e {
        AppError::NotFound => 404,
        AppError::InsufficientData { .. } => 422,
        AppError::Unprocessable(_) => 422,
        AppError::BadRequest(_) => 400,
        AppError::Upstream(_) => 502,
        AppError::Unauthorized => 401,
        AppError::Forbidden => 403,
        AppError::Db(_) => 500,
        AppError::Crypto => 500,
        AppError::Internal(_) => 500,
        AppError::Unavailable(_) => 503,
    }
}

/// The text each error renders as.
pub open spec fn message_of(e: AppError) -> Seq<char> {
    match e {
        AppError::Upstream(m) => "FMP API request failed: "@ + m@,
        AppError::NotFound => "Ticker not found or no data returned"@,
        AppError::InsufficientData { needed, have } => "Insufficient historical data: need "@
            + decimal(needed as nat) + " years, have "@ + decimal(have as nat),
        AppError::Unprocessable(m) => m@,
        AppError::BadRequest(m) => "Invalid input: "@ + m@,
        AppError::Unauthorized => "Authentication required"@,
        AppError::Forbidden => "Access denied"@,
        AppError::Db(m) => "Database error: "@ + m@,
        AppError::Crypto => "Encryption error"@,
        AppError::Internal(m) => "Internal error: "@ + m@,
        AppError::Unavailable(m) => "Service unavailable: "@ + m@,
    }
}

impl AppError {
    /// The HTTP status code of the response for this error.
    pub fn status_code(&self) -> (r: u16)
        ensures
            r == status_of(*self),
    {
        match self {
            AppError::NotFound => 404,
            AppError::InsufficientData { .. } => 422,
            AppError::Unprocessable(_) => 422,
            AppError::BadRequest(_) => 400,
            AppError::Upstream(_) => 502,
            AppError::Unauthorized => 401,
            AppError::Forbidden => 403,
            AppError::Db(_) => 500,
            AppError::Crypto => 500,
            AppError::Internal(_) => 500,
            AppError::Unavailable(_) => 503,
        }
    }

    /// The error's message, as the response body's `error` field carries it.
    pub fn message(&self) -> (r: String)
        ensures
            r@ == message_of(*self),
    {
        match self {
            AppError::Upstream(m) => concat("FMP API request failed: ", m.as_str()),
            AppError::NotFound => owned("Ticker not found or no data returned"),
            AppError::InsufficientData { needed, have } => {
                let a = concat("Insufficient historical data: need ", u64_to_string(*needed as u64).as_str());
                let b = concat(a.as_str(), " years, have ");
                concat(b.as_str(), u64_to_string(*have as u64).as_str())
            },
            AppError::Unprocessable(m) => m.clone(),
            AppError::BadRequest(m) => concat("Invalid input: ", m.as_str()),
            AppError::Unauthorized => owned("Authentication required"),
            AppError::Forbidden => owned("Access denied"),
            AppError::Db(m) => concat("Database error: ", m.as_str()),
            AppError::Crypto => owned("Encryption error"),
            AppError::Internal(m) => concat("Internal error: ", m.as_str()),
            AppError::Unavailable(m) => concat("Service unavailable: ", m.as_str()),
        }
    }

    /// The JSON body of the error response.
    pub fn body(&self) -> (r: ErrorBody)
        ensures
            r.error@ == message_of(*self),
    {
        ErrorBody { error: self.message() }
    }
}

/// The JSON body of every error response.
pub struct ErrorBody {
    pub error: String,
}

} // verus!
