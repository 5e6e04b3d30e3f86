//! The error type shared by every component, and its HTTP rendering.

use vstd::prelude::*;
use vstd::string::StringExecFns;

verus! {

/// Everything that can go wrong in the backend. Each variant carries the
/// detail text that its message ends with.
#[derive(Debug)]
pub enum AppError {
    /// The store's driver reported a failure.
    Database(String),
    /// An outbound HTTP request failed in transport.
    Http(String),
    /// A JSON document could not be decoded.
    Serialization(String),
    /// A text is no decimal number, or no decimal that this library can hold.
    DecimalParsing(String),
    /// A failure inside the backend itself.
    Internal(String),
    /// A store operation failed; the text is the driver's message.
    DatabaseError(String),
    /// No recent price, or no such record.
    NotFound(String),
    /// An upstream provider answered with something unusable.
    ExternalApiError(String),
    /// The caller sent an unusable request.
    BadRequest(String),
}

impl AppError {
    /// The detail text that the variant carries.
    pub open spec fn detail(self) -> Seq<char> {
        match self {
            AppError::Database(m) => m@,
            AppError::Http(m) => m@,
            AppError::Serialization(m) => m@,
            AppError::DecimalParsing(m) => m@,
            AppError::Internal(m) => m@,
            AppError::DatabaseError(m) => m@,
            AppError::NotFound(m) => m@,
            AppError::ExternalApiError(m) => m@,
            AppError::BadRequest(m) => m@,
        }
    }

    /// The words that the variant's message begins with.
    pub open spec fn prefix(self) -> Seq<char> {
        match self {
            AppError::Database(_) => "Database error: "@,
            AppError::Http(_) => "HTTP client error: "@,
            AppError::Serialization(_) => "Serialization error: "@,
            AppError::DecimalParsing(_) => "Decimal parsing error: "@,
            AppError::Internal(_) => "Internal server error: "@,
            AppError::DatabaseError(_) => "Database error: "@,
            AppError::NotFound(_) => "Not found: "@,
            AppError::ExternalApiError(_) => "External API error: "@,
            AppError::BadRequest(_) => "Bad request: "@,
        }
    }

    /// The HTTP status that the variant is answered with.
    pub open spec fn status(self) -> int {
        match self {
            AppError::Database(_) => 500,
            AppError::Http(_) => 502,
            AppError::Serialization(_) => 400,
            AppError::DecimalParsing(_) => 400,
            AppError::Internal(_) => 500,
            AppError::DatabaseError(_) => 500,
            AppError::NotFound(_) => 404,
            AppError::ExternalApiError(_) => 502,
            AppError::BadRequest(_) => 400,
        }
    }

    /// The body of the HTTP answer: a fixed sentence where the detail comes
    /// from a driver or a decoder, the detail itself otherwise.
    pub open spec fn body(self) -> Seq<char> {
        match self {
            AppError::Database(_) => "Database error occurred"@,
            AppError::Http(_) => "External service error"@,
            AppError::Serialization(_) => "Invalid data format"@,
            AppError::DecimalParsing(_) => "Invalid number format"@,
            AppError::Internal(m) => m@,
            AppError::DatabaseError(m) => m@,
            AppError::NotFound(m) => m@,
            AppError::ExternalApiError(m) => m@,
            AppError::BadRequest(m) => m@,
        }
    }

    /// A copy of the error.
    pub fn copy(&self) -> (copy: AppError)
        ensures
            copy == *self,
    {
        match self {
            AppError::Database(m) => AppError::Database(m.clone()),
            AppError::Http(m) => AppError::Http(m.clone()),
            AppError::Serialization(m) => AppError::Serialization(m.clone()),
            AppError::DecimalParsing(m) => AppError::DecimalParsing(m.clone()),
            AppError::Internal(m) => AppError::Internal(m.clone()),
            AppError::DatabaseError(m) => AppError::DatabaseError(m.clone()),
            AppError::NotFound(m) => AppError::NotFound(m.clone()),
            AppError::ExternalApiError(m) => AppError::ExternalApiError(m.clone()),
            AppError::BadRequest(m) => AppError::BadRequest(m.clone()),
        }
    }

    /// The message of the error: the variant's prefix, then its detail.
    pub fn to_string(&self) -> (text: String)
        ensures
            text@ == self.prefix() + self.detail(),
    {
        match self {
            AppError::Database(m) => String::from_str("Database error: ").concat(m.as_str()),
            AppError::Http(m) => String::from_str("HTTP client error: ").concat(m.as_str()),
            AppError::Serialization(m) => String::from_str("Serialization error: ").concat(
                m.as_str(),
            ),
            AppError::DecimalParsing(m) => String::from_str("Decimal parsing error: ").concat(
                m.as_str(),
            ),
            AppError::Internal(m) => String::from_str("Internal server error: ").concat(
                m.as_str(),
            ),
            AppError::DatabaseError(m) => String::from_str("Database error: ").concat(m.as_str()),
            AppError::NotFound(m) => String::from_str("Not found: ").concat(m.as_str()),
            AppError::ExternalApiError(m) => String::from_str("External API error: ").concat(
                m.as_str(),
            ),
            AppError::BadRequest(m) => String::from_str("Bad request: ").concat(m.as_str()),
        }
    }

    /// The HTTP status code of the answer to a request that ended in this error.
    pub fn status_code(&self) -> (code: u16)
        ensures
            code == self.status(),
    {
        match self {
            AppError::Database(_) => 500,
            AppError::Http(_) => 502,
            AppError::Serialization(_) => 400,
            AppError::DecimalParsing(_) => 400,
            AppError::Internal(_) => 500,
            AppError::DatabaseError(_) => 500,
            AppError::NotFound(_) => 404,
            AppError::ExternalApiError(_) => 502,
            AppError::BadRequest(_) => 400,
        }
    }

    /// The body of the answer to a request that ended in this error.
    pub fn error_response(&self) -> (answer: (u16, String))
        ensures
            answer.0 == self.status(),
            answer.1@ == self.body(),
    {
        let text = match self {
            AppError::Database(_) => String::from_str("Database error occurred"),
            AppError::Http(_) => String::from_str("External service error"),
            AppError::Serialization(_) => String::from_str("Invalid data format"),
            AppError::DecimalParsing(_) => String::from_str("Invalid number format"),
            AppError::Internal(m) => m.clone(),
            AppError::DatabaseError(m) => m.clone(),
            AppError::NotFound(m) => m.clone(),
            AppError::ExternalApiError(m) => m.clone(),
            AppError::BadRequest(m) => m.clone(),
        };
        (self.status_code(), text)
    }
}

} // verus!
