//! Error taxonomy of the service: validation, not-found, authorization and
//! unexpected failures, each mapped to one HTTP status. Internal messages
//! never reach a client; only the other three kinds are user-visible.

use vstd::prelude::*;

verus! {

/// Body of every error response.
#[derive(Clone, Debug)]
pub struct ErrorResponse {
    pub detail: String,
}

/// A value from the store could not be interpreted.
#[derive(Clone, Debug)]
pub struct ConversionError {
    pub detail: String,
}

/// Full error set: bad input, hidden or absent resource, missing privilege,
/// or a downstream failure.
#[derive(Clone, Debug)]
pub enum OptionApiError {
    ValidationError(String),
    NotFoundError,
    AuthorizationError(String),
    UnexpectedError(String),
}

/// Errors of routes that can never answer not-found.
#[derive(Clone, Debug)]
pub enum NormalApiError {
    ValidationError(String),
    AuthorizationError(String),
    UnexpectedError(String),
}

/// Errors of plain store writes: bad input or a downstream failure.
#[derive(Clone, Debug)]
pub enum MinimalApiError {
    ValidationError(String),
    UnexpectedError(String),
}

/// Errors of lookups: the row is absent or the store failed.
#[derive(Clone, Debug)]
pub enum NotFoundOrUnexpectedApiError {
    NotFoundError,
    UnexpectedError(String),
}

/// Errors of authorization gates alone.
#[derive(Clone, Debug)]
pub enum AuthOnlyError {
    AuthorizationError(String),
}

/// Errors of existence checks alone.
#[derive(Clone, Debug)]
pub enum NotFoundOnlyError {
    NotFoundError,
}

/// Errors of computations that only a downstream failure can stop.
#[derive(Clone, Debug)]
pub enum UnexpectedOnlyError {
    UnexpectedError(String),
}

/// Fixed text of every not-found answer; a single text keeps a caller from
/// telling a hidden resource from an absent one.
pub open spec fn spec_not_found_text() -> Seq<char> {
    "Resource not found"@
}

/// Fixed text of every unexpected-error answer; the cause stays internal.
pub open spec fn spec_internal_text() -> Seq<char> {
    "Internal server error, contact admin or check logs"@
}

impl OptionApiError {
    /// HTTP status this error maps to.
    pub open spec fn spec_status_code(&self) -> u16 {
        match self {
            OptionApiError::ValidationError(_) => 400,
            OptionApiError::NotFoundError => 404,
            OptionApiError::AuthorizationError(_) => 403,
            OptionApiError::UnexpectedError(_) => 500,
        }
    }

    pub fn status_code(&self) -> (r: u16)
        ensures
            r == self.spec_status_code(),
    {
        match self {
            OptionApiError::ValidationError(_) => 400,
            OptionApiError::NotFoundError => 404,
            OptionApiError::AuthorizationError(_) => 403,
            OptionApiError::UnexpectedError(_) => 500,
        }
    }

    /// The user-visible text: validation and authorization messages pass
    /// through, the other kinds answer with fixed texts.
    pub fn response(&self) -> (r: ErrorResponse)
        ensures
            match self {
                OptionApiError::ValidationError(m) => r.detail@ == m@,
                OptionApiError::NotFoundError => r.detail@ == spec_not_found_text(),
                OptionApiError::AuthorizationError(m) => r.detail@ == m@,
                OptionApiError::UnexpectedError(_) => r.detail@ == spec_internal_text(),
            },
    {
        match self {
            OptionApiError::ValidationError(m) => ErrorResponse { detail: m.clone() },
            OptionApiError::NotFoundError => ErrorResponse {
                detail: "Resource not found".to_string(),
            },
            OptionApiError::AuthorizationError(m) => ErrorResponse { detail: m.clone() },
            OptionApiError::UnexpectedError(_) => ErrorResponse {
                detail: "Internal server error, contact admin or check logs".to_string(),
            },
        }
    }

    pub fn from_normal(value: NormalApiError) -> (r: OptionApiError)
        ensures
            match value {
                NormalApiError::ValidationError(m) => r == OptionApiError::ValidationError(m),
                NormalApiError::AuthorizationError(m) => r == OptionApiError::AuthorizationError(m),
                NormalApiError::UnexpectedError(m) => r == OptionApiError::UnexpectedError(m),
            },
    {
        match value {
            NormalApiError::ValidationError(m) => OptionApiError::ValidationError(m),
            NormalApiError::AuthorizationError(m) => OptionApiError::AuthorizationError(m),
            NormalApiError::UnexpectedError(m) => OptionApiError::UnexpectedError(m),
        }
    }

    pub fn from_minimal(value: MinimalApiError) -> (r: OptionApiError)
        ensures
            match value {
                MinimalApiError::ValidationError(m) => r == OptionApiError::ValidationError(m),
                MinimalApiError::UnexpectedError(m) => r == OptionApiError::UnexpectedError(m),
            },
    {
        match value {
            MinimalApiError::ValidationError(m) => OptionApiError::ValidationError(m),
            MinimalApiError::UnexpectedError(m) => OptionApiError::UnexpectedError(m),
        }
    }

    pub fn from_not_found_or_unexpected(value: NotFoundOrUnexpectedApiError) -> (r: OptionApiError)
        ensures
            match value {
                NotFoundOrUnexpectedApiError::NotFoundError => r == OptionApiError::NotFoundError,
                NotFoundOrUnexpectedApiError::UnexpectedError(m) => r
                    == OptionApiError::UnexpectedError(m),
            },
    {
        match value {
            NotFoundOrUnexpectedApiError::NotFoundError => OptionApiError::NotFoundError,
            NotFoundOrUnexpectedApiError::UnexpectedError(m) => OptionApiError::UnexpectedError(m),
        }
    }

    pub fn from_unexpected(value: UnexpectedOnlyError) -> (r: OptionApiError)
        ensures
            match value {
                UnexpectedOnlyError::UnexpectedError(m) => r == OptionApiError::UnexpectedError(m),
            },
    {
        match value {
            UnexpectedOnlyError::UnexpectedError(m) => OptionApiError::UnexpectedError(m),
        }
    }
}

impl NormalApiError {
    pub open spec fn spec_status_code(&self) -> u16 {
        match self {
            NormalApiError::ValidationError(_) => 400,
            NormalApiError::AuthorizationError(_) => 403,
            NormalApiError::UnexpectedError(_) => 500,
        }
    }

    pub fn status_code(&self) -> (r: u16)
        ensures
            r == self.spec_status_code(),
    {
        match self {
            NormalApiError::ValidationError(_) => 400,
            NormalApiError::AuthorizationError(_) => 403,
            NormalApiError::UnexpectedError(_) => 500,
        }
    }

    pub fn from_unexpected(value: UnexpectedOnlyError) -> (r: NormalApiError)
        ensures
            match value {
                UnexpectedOnlyError::UnexpectedError(m) => r == NormalApiError::UnexpectedError(m),
            },
    {
        match value {
            UnexpectedOnlyError::UnexpectedError(m) => NormalApiError::UnexpectedError(m),
        }
    }
}

impl NotFoundOrUnexpectedApiError {
    pub open spec fn spec_status_code(&self) -> u16 {
        match self {
            NotFoundOrUnexpectedApiError::NotFoundError => 404,
            NotFoundOrUnexpectedApiError::UnexpectedError(_) => 500,
        }
    }

    pub fn status_code(&self) -> (r: u16)
        ensures
            r == self.spec_status_code(),
    {
        match self {
            NotFoundOrUnexpectedApiError::NotFoundError => 404,
            NotFoundOrUnexpectedApiError::UnexpectedError(_) => 500,
        }
    }

    pub fn from_unexpected(value: UnexpectedOnlyError) -> (r: NotFoundOrUnexpectedApiError)
        ensures
            match value {
                UnexpectedOnlyError::UnexpectedError(m) => r
                    == NotFoundOrUnexpectedApiError::UnexpectedError(m),
            },
    {
        match value {
            UnexpectedOnlyError::UnexpectedError(m) => NotFoundOrUnexpectedApiError::UnexpectedError(
                m,
            ),
        }
    }
}

} // verus!
