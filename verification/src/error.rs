//! Error taxonomy: stable numeric codes and their HTTP status mapping.

use vstd::prelude::*;

verus! {

/// The closed set of error kinds that the service surfaces.
#[derive(Clone, Copy, Debug, PartialEq, Eq, Structural)]
pub enum ErrorCode {
    InvalidParameter,
    MissingConfiguration,
    Incompatible,
    PayloadTooLarge,
    RequestTimeout,
    MethodNotAllowed,
    PermissionDenied,
    AccountDisabled,
    OAuth2ItemDisabled,
    MissingRefreshToken,
    ResourceNotFound,
    Forbidden,
    TooManyRequest,
    AlreadyExists,
    NetworkError,
    ConnectionTimeout,
    ConnectionPoolTimeout,
    HttpResponseError,
    ImapCommandFailed,
    ImapAuthenticationFailed,
    ImapUnexpectedResult,
    AutoconfigFetchFailed,
    InternalError,
    IoError,
}

impl ErrorCode {
    /// The stable numeric code of this kind, as sent in JSON responses.
    pub open spec fn spec_code(self) -> u32 {
        match self {
            ErrorCode::InvalidParameter => 10000,
            ErrorCode::MissingConfiguration => 10020,
            ErrorCode::Incompatible => 10030,
            ErrorCode::PayloadTooLarge => 10070,
            ErrorCode::RequestTimeout => 10080,
            ErrorCode::MethodNotAllowed => 10090,
            ErrorCode::PermissionDenied => 20000,
            ErrorCode::AccountDisabled => 20010,
            ErrorCode::OAuth2ItemDisabled => 20050,
            ErrorCode::MissingRefreshToken => 20060,
            ErrorCode::ResourceNotFound => 30000,
            ErrorCode::Forbidden => 30010,
            ErrorCode::TooManyRequest => 30020,
            ErrorCode::AlreadyExists => 30030,
            ErrorCode::NetworkError => 40000,
            ErrorCode::ConnectionTimeout => 40010,
            ErrorCode::ConnectionPoolTimeout => 40020,
            ErrorCode::HttpResponseError => 40030,
            ErrorCode::ImapCommandFailed => 50000,
            ErrorCode::ImapAuthenticationFailed => 50010,
            ErrorCode::ImapUnexpectedResult => 50020,
            ErrorCode::AutoconfigFetchFailed => 50060,
            ErrorCode::InternalError => 70000,
            ErrorCode::IoError => 70020,
        }
    }

    #[verifier::when_used_as_spec(spec_code)]
    pub fn code(self) -> (r: u32)
        ensures
            r == self.spec_code(),
    {
        match self {
            ErrorCode::InvalidParameter => 10000,
            ErrorCode::MissingConfiguration => 10020,
            ErrorCode::Incompatible => 10030,
            ErrorCode::PayloadTooLarge => 10070,
            ErrorCode::RequestTimeout => 10080,
            ErrorCode::MethodNotAllowed => 10090,
            ErrorCode::PermissionDenied => 20000,
            ErrorCode::AccountDisabled => 20010,
            ErrorCode::OAuth2ItemDisabled => 20050,
            ErrorCode::MissingRefreshToken => 20060,
            ErrorCode::ResourceNotFound => 30000,
            ErrorCode::Forbidden => 30010,
            ErrorCode::TooManyRequest => 30020,
            ErrorCode::AlreadyExists => 30030,
            ErrorCode::NetworkError => 40000,
            ErrorCode::ConnectionTimeout => 40010,
            ErrorCode::ConnectionPoolTimeout => 40020,
            ErrorCode::HttpResponseError => 40030,
            ErrorCode::ImapCommandFailed => 50000,
            ErrorCode::ImapAuthenticationFailed => 50010,
            ErrorCode::ImapUnexpectedResult => 50020,
            ErrorCode::AutoconfigFetchFailed => 50060,
            ErrorCode::InternalError => 70000,
            ErrorCode::IoError => 70020,
        }
    }

    /// The HTTP status that each kind maps to.
    pub open spec fn spec_status(self) -> u16 {
        match self {
            ErrorCode::InvalidParameter => 400,
            ErrorCode::MissingConfiguration => 400,
            ErrorCode::Incompatible => 400,
            ErrorCode::PermissionDenied => 401,
            ErrorCode::AccountDisabled => 403,
            ErrorCode::OAuth2ItemDisabled => 403,
            ErrorCode::Forbidden => 403,
            ErrorCode::ResourceNotFound => 404,
            ErrorCode::MethodNotAllowed => 405,
            ErrorCode::RequestTimeout => 408,
            ErrorCode::AlreadyExists => 409,
            ErrorCode::PayloadTooLarge => 413,
            ErrorCode::TooManyRequest => 429,
            _ => 500,
        }
    }

    #[verifier::when_used_as_spec(spec_status)]
    pub fn status(self) -> (r: u16)
        ensures
            r == self.spec_status(),
    {
        match self {
            ErrorCode::InvalidParameter => 400,
            ErrorCode::MissingConfiguration => 400,
            ErrorCode::Incompatible => 400,
            ErrorCode::PermissionDenied => 401,
            ErrorCode::AccountDisabled => 403,
            ErrorCode::OAuth2ItemDisabled => 403,
            ErrorCode::Forbidden => 403,
            ErrorCode::ResourceNotFound => 404,
            ErrorCode::MethodNotAllowed => 405,
            ErrorCode::RequestTimeout => 408,
            ErrorCode::AlreadyExists => 409,
            ErrorCode::PayloadTooLarge => 413,
            ErrorCode::TooManyRequest => 429,
            _ => 500,
        }
    }
}

/// The library's error value: a kind plus a human-readable message.
#[derive(Clone, Debug, PartialEq, Eq)]
pub struct BichonError {
    pub code: ErrorCode,
    pub message: String,
}

impl BichonError {
    pub fn new(code: ErrorCode, message: String) -> (r: BichonError)
        ensures
            r.code == code,
            r.message == message,
    {
        BichonError { code, message }
    }
}

/// The wire shape of an error: numeric code plus message.
#[derive(Clone, Debug, PartialEq, Eq)]
pub struct ApiError {
    pub message: String,
    pub code: u32,
}

impl ApiError {
    pub fn new(message: String, code: u32) -> (r: ApiError)
        ensures
            r.message == message,
            r.code == code,
    {
        ApiError { message, code }
    }

    pub fn new_with_error_code(error: String, code: u32) -> (r: ApiError)
        ensures
            r.message == error,
            r.code == code,
    {
        Self::new(error, code)
    }

    /// Builds the wire error for a library error, carrying its stable code.
    pub fn from_error(e: &BichonError) -> (r: ApiError)
        ensures
            r.code == e.code.spec_code(),
            r.message == e.message,
    {
        ApiError { message: e.message.clone(), code: e.code.code() }
    }
}

} // verus!
