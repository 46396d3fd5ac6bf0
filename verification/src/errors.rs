//! Error kinds of the service and their stable user-facing codes.
//!
//! Each kind carries a numeric code and maps to a broad HTTP status class;
//! the transport layer turns them into wire responses.

use vstd::prelude::*;

verus! {

pub const USER_NOT_FOUND: u32 = 11001;

pub const USER_ALREADY_EXISTS: u32 = 11002;

pub const INVALID_PASSWORD: u32 = 11003;

pub const INVALID_TOKEN: u32 = 12001;

pub const TOKEN_EXPIRED: u32 = 12002;

pub const MISSING_TOKEN: u32 = 12003;

pub const TOKEN_CREATION_ERROR: u32 = 12003;

pub const SOMETHING_WENT_WRONG: u32 = 13001;

pub const UNIQUE_CONSTRAINT_VIOLATION: u32 = 13002;

pub const VALIDATION_ERROR: u32 = 20001;

pub const JSON_REJECTION: u32 = 20002;

pub const SIGNATURE_ERROR: u32 = 20003;

pub const COMMON_REQUEST_ERROR: u32 = 20004;

/// Failure of the durable store or the index store.
#[derive(Debug, Clone)]
pub enum DbError {
    SomethingWentWrong(String),
    UniqueConstraintViolation(String),
}

impl DbError {
    /// Stable user-facing code of this error.
    pub fn get_code(&self) -> (code: u32)
        ensures
            code == (match self {
                DbError::SomethingWentWrong(_) => SOMETHING_WENT_WRONG,
                DbError::UniqueConstraintViolation(_) => UNIQUE_CONSTRAINT_VIOLATION,
            }),
    {
        match self {
            DbError::SomethingWentWrong(_) => SOMETHING_WENT_WRONG,
            DbError::UniqueConstraintViolation(_) => UNIQUE_CONSTRAINT_VIOLATION,
        }
    }

    /// HTTP status class of this error.
    pub fn get_status(&self) -> (status: u16)
        ensures
            status == (match self {
                DbError::SomethingWentWrong(_) => 500u16,
                DbError::UniqueConstraintViolation(_) => 409u16,
            }),
    {
        match self {
            DbError::SomethingWentWrong(_) => 500,
            DbError::UniqueConstraintViolation(_) => 409,
        }
    }
}

/// Failure of the admin bearer-token check.
#[derive(Debug, Clone)]
pub enum TokenError {
    InvalidToken(String),
    TokenExpired,
    MissingToken,
    TokenCreationError(String),
}

impl TokenError {
    /// Stable user-facing code of this error.
    pub fn get_code(&self) -> (code: u32)
        ensures
            code == (match self {
                TokenError::InvalidToken(_) => INVALID_TOKEN,
                TokenError::TokenExpired => TOKEN_EXPIRED,
                TokenError::MissingToken => MISSING_TOKEN,
                TokenError::TokenCreationError(_) => TOKEN_CREATION_ERROR,
            }),
    {
        match self {
            TokenError::InvalidToken(_) => INVALID_TOKEN,
            TokenError::TokenExpired => TOKEN_EXPIRED,
            TokenError::MissingToken => MISSING_TOKEN,
            TokenError::TokenCreationError(_) => TOKEN_CREATION_ERROR,
        }
    }

    /// HTTP status class of this error.
    pub fn get_status(&self) -> (status: u16)
        ensures
            status == (match self {
                TokenError::TokenCreationError(_) => 500u16,
                _ => 401u16,
            }),
    {
        match self {
            TokenError::InvalidToken(_) => 401,
            TokenError::TokenExpired => 401,
            TokenError::MissingToken => 401,
            TokenError::TokenCreationError(_) => 500,
        }
    }
}

/// Failure of the user registration surface.
#[derive(Debug, Clone)]
pub enum UserError {
    UserNotFound,
    UserAlreadyExists,
    InvalidPassword,
}

impl UserError {
    /// Stable user-facing code of this error.
    pub fn get_code(&self) -> (code: u32)
        ensures
            code == (match self {
                UserError::UserNotFound => USER_NOT_FOUND,
                UserError::UserAlreadyExists => USER_ALREADY_EXISTS,
                UserError::InvalidPassword => INVALID_PASSWORD,
            }),
    {
        match self {
            UserError::UserNotFound => USER_NOT_FOUND,
            UserError::UserAlreadyExists => USER_ALREADY_EXISTS,
            UserError::InvalidPassword => INVALID_PASSWORD,
        }
    }

    /// HTTP status class of this error.
    pub fn get_status(&self) -> (status: u16)
        ensures
            status == (match self {
                UserError::UserNotFound => 404u16,
                _ => 400u16,
            }),
    {
        match self {
            UserError::UserNotFound => 404,
            UserError::UserAlreadyExists => 400,
            UserError::InvalidPassword => 400,
        }
    }
}

/// Failure of request decoding, validation or signing.
#[derive(Debug, Clone)]
pub enum RequestError {
    CommonError(String),
    ValidationError(String),
    JsonRejection(String),
    SignatureError,
}

impl RequestError {
    /// Stable user-facing code of this error.
    pub fn get_code(&self) -> (code: u32)
        ensures
            code == (match self {
                RequestError::CommonError(_) => COMMON_REQUEST_ERROR,
                RequestError::ValidationError(_) => VALIDATION_ERROR,
                RequestError::JsonRejection(_) => JSON_REJECTION,
                RequestError::SignatureError => SIGNATURE_ERROR,
            }),
    {
        match self {
            RequestError::CommonError(_) => COMMON_REQUEST_ERROR,
            RequestError::ValidationError(_) => VALIDATION_ERROR,
            RequestError::JsonRejection(_) => JSON_REJECTION,
            RequestError::SignatureError => SIGNATURE_ERROR,
        }
    }

    /// HTTP status class of this error: every request error is the
    /// caller's fault.
    pub fn get_status(&self) -> (status: u16)
        ensures
            status == 400u16,
    {
        400
    }
}

/// Any error a service operation can surface.
#[derive(Debug, Clone)]
pub enum ApiError {
    TokenError(TokenError),
    UserError(UserError),
    DbError(DbError),
    RequestError(RequestError),
}

impl ApiError {
    /// Stable user-facing code of the carried error.
    pub fn get_code(&self) -> (code: u32)
        ensures
            code == (match self {
                ApiError::TokenError(e) => e.spec_code(),
                ApiError::UserError(e) => e.spec_code(),
                ApiError::DbError(e) => e.spec_code(),
                ApiError::RequestError(e) => e.spec_code(),
            }),
    {
        match self {
            ApiError::TokenError(e) => e.get_code(),
            ApiError::UserError(e) => e.get_code(),
            ApiError::DbError(e) => e.get_code(),
            ApiError::RequestError(e) => e.get_code(),
        }
    }
}

impl TokenError {
    /// Code of this error, for contracts.
    pub open spec fn spec_code(&self) -> u32 {
        match self {
            TokenError::InvalidToken(_) => INVALID_TOKEN,
            TokenError::TokenExpired => TOKEN_EXPIRED,
            TokenError::MissingToken => MISSING_TOKEN,
            TokenError::TokenCreationError(_) => TOKEN_CREATION_ERROR,
        }
    }
}

impl UserError {
    /// Code of this error, for contracts.
    pub open spec fn spec_code(&self) -> u32 {
        match self {
            UserError::UserNotFound => USER_NOT_FOUND,
            UserError::UserAlreadyExists => USER_ALREADY_EXISTS,
            UserError::InvalidPassword => INVALID_PASSWORD,
        }
    }
}

impl DbError {
    /// Code of this error, for contracts.
    pub open spec fn spec_code(&self) -> u32 {
        match self {
            DbError::SomethingWentWrong(_) => SOMETHING_WENT_WRONG,
            DbError::UniqueConstraintViolation(_) => UNIQUE_CONSTRAINT_VIOLATION,
        }
    }
}

impl RequestError {
    /// Code of this error, for contracts.
    pub open spec fn spec_code(&self) -> u32 {
        match self {
            RequestError::CommonError(_) => COMMON_REQUEST_ERROR,
            RequestError::ValidationError(_) => VALIDATION_ERROR,
            RequestError::JsonRejection(_) => JSON_REJECTION,
            RequestError::SignatureError => SIGNATURE_ERROR,
        }
    }
}

/// Wire shape of an error reply: user-facing code, message, HTTP status.
#[derive(Debug, Clone)]
pub struct ApiErrorResponse {
    pub code: u32,
    pub msg: Option<String>,
    pub status: u16,
}

impl ApiErrorResponse {
    /// Packs the three parts of an error reply.
    pub fn new(status: u16, code: u32, msg: Option<String>) -> (r: ApiErrorResponse)
        ensures
            r.status == status,
            r.code == code,
            r.msg == msg,
    {
        ApiErrorResponse { code, msg, status }
    }
}

/// Wire shape of a success reply; `data` is absent on bare acknowledgements.
#[derive(Debug, Clone)]
pub struct ApiSuccessResponse<T> {
    pub code: u16,
    pub msg: String,
    pub data: Option<T>,
}

impl<T> ApiSuccessResponse<T> {
    /// A success reply carrying `data`.
    pub fn send(data: T) -> (r: ApiSuccessResponse<T>)
        ensures
            r.code == 0,
            r.msg@ == "success"@,
            r.data == Some(data),
    {
        ApiSuccessResponse { code: 0, msg: String::from_str("success"), data: Some(data) }
    }

    /// A success reply without data.
    pub fn from_with_nodata() -> (r: ApiSuccessResponse<T>)
        ensures
            r.code == 0,
            r.msg@ == "success"@,
            r.data is None,
    {
        ApiSuccessResponse { code: 0, msg: String::from_str("success"), data: None }
    }
}

} // verus!
