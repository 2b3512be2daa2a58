//! Status codes and the error that every operation of the store reports.

use vstd::prelude::*;

verus! {

/// Outcome of an operation: HTTP status codes, and negative codes for failures that have no
/// HTTP equivalent.
#[derive(Debug, Clone, Copy, PartialEq, Eq, Structural)]
pub enum ErrorCode {
    InvalidRequest,
    Interrupt,
    UrlParseError,
    ConnectionError,
    Timeout,
    Unknown,
    Continue,
    OK,
    Created,
    Accepted,
    NoContent,
    BadRequest,
    Unauthorized,
    Forbidden,
    NotFound,
    MethodNotAllowed,
    NotAcceptable,
    RequestTimeout,
    Conflict,
    Gone,
    LengthRequired,
    PreconditionFailed,
    PayloadTooLarge,
    URITooLong,
    UnsupportedMediaType,
    RangeNotSatisfiable,
    ExpectationFailed,
    ImATeapot,
    MisdirectedRequest,
    UnprocessableEntity,
    Locked,
    FailedDependency,
    TooEarly,
    UpgradeRequired,
    PreconditionRequired,
    TooManyRequests,
    RequestHeaderFieldsTooLarge,
    UnavailableForLegalReasons,
    InternalServerError,
    NotImplemented,
    BadGateway,
    ServiceUnavailable,
    GatewayTimeout,
    HTTPVersionNotSupported,
    VariantAlsoNegotiates,
    InsufficientStorage,
    LoopDetected,
    NotExtended,
    NetworkAuthenticationRequired,
}

/// The number that stands for a status on the wire.
pub open spec fn code_number(code: ErrorCode) -> i16 {
    match code {
        ErrorCode::InvalidRequest => -6i16,
        ErrorCode::Interrupt => -5i16,
        ErrorCode::UrlParseError => -4i16,
        ErrorCode::ConnectionError => -3i16,
        ErrorCode::Timeout => -2i16,
        ErrorCode::Unknown => -1i16,
        ErrorCode::Continue => 100i16,
        ErrorCode::OK => 200i16,
        ErrorCode::Created => 201i16,
        ErrorCode::Accepted => 202i16,
        ErrorCode::NoContent => 204i16,
        ErrorCode::BadRequest => 400i16,
        ErrorCode::Unauthorized => 401i16,
        ErrorCode::Forbidden => 403i16,
        ErrorCode::NotFound => 404i16,
        ErrorCode::MethodNotAllowed => 405i16,
        ErrorCode::NotAcceptable => 406i16,
        ErrorCode::RequestTimeout => 408i16,
        ErrorCode::Conflict => 409i16,
        ErrorCode::Gone => 410i16,
        ErrorCode::LengthRequired => 411i16,
        ErrorCode::PreconditionFailed => 412i16,
        ErrorCode::PayloadTooLarge => 413i16,
        ErrorCode::URITooLong => 414i16,
        ErrorCode::UnsupportedMediaType => 415i16,
        ErrorCode::RangeNotSatisfiable => 416i16,
        ErrorCode::ExpectationFailed => 417i16,
        ErrorCode::ImATeapot => 418i16,
        ErrorCode::MisdirectedRequest => 421i16,
        ErrorCode::UnprocessableEntity => 422i16,
        ErrorCode::Locked => 423i16,
        ErrorCode::FailedDependency => 424i16,
        ErrorCode::TooEarly => 425i16,
        ErrorCode::UpgradeRequired => 426i16,
        ErrorCode::PreconditionRequired => 428i16,
        ErrorCode::TooManyRequests => 429i16,
        ErrorCode::RequestHeaderFieldsTooLarge => 431i16,
        ErrorCode::UnavailableForLegalReasons => 451i16,
        ErrorCode::InternalServerError => 500i16,
        ErrorCode::NotImplemented => 501i16,
        ErrorCode::BadGateway => 502i16,
        ErrorCode::ServiceUnavailable => 503i16,
        ErrorCode::GatewayTimeout => 504i16,
        ErrorCode::HTTPVersionNotSupported => 505i16,
        ErrorCode::VariantAlsoNegotiates => 506i16,
        ErrorCode::InsufficientStorage => 507i16,
        ErrorCode::LoopDetected => 508i16,
        ErrorCode::NotExtended => 510i16,
        ErrorCode::NetworkAuthenticationRequired => 511i16,
    }
}

/// The status that a number stands for, if any.
pub open spec fn code_of_number(number: int) -> Option<ErrorCode> {
    if number == -6 {
        Some(ErrorCode::InvalidRequest)
    } else if number == -5 {
        Some(ErrorCode::Interrupt)
    } else if number == -4 {
        Some(ErrorCode::UrlParseError)
    } else if number == -3 {
        Some(ErrorCode::ConnectionError)
    } else if number == -2 {
        Some(ErrorCode::Timeout)
    } else if number == -1 {
        Some(ErrorCode::Unknown)
    } else if number == 100 {
        Some(ErrorCode::Continue)
    } else if number == 200 {
        Some(ErrorCode::OK)
    } else if number == 201 {
        Some(ErrorCode::Created)
    } else if number == 202 {
        Some(ErrorCode::Accepted)
    } else if number == 204 {
        Some(ErrorCode::NoContent)
    } else if number == 400 {
        Some(ErrorCode::BadRequest)
    } else if number == 401 {
        Some(ErrorCode::Unauthorized)
    } else if number == 403 {
        Some(ErrorCode::Forbidden)
    } else if number == 404 {
        Some(ErrorCode::NotFound)
    } else if number == 405 {
        Some(ErrorCode::MethodNotAllowed)
    } else if number == 406 {
        Some(ErrorCode::NotAcceptable)
    } else if number == 408 {
        Some(ErrorCode::RequestTimeout)
    } else if number == 409 {
        Some(ErrorCode::Conflict)
    } else if number == 410 {
        Some(ErrorCode::Gone)
    } else if number == 411 {
        Some(ErrorCode::LengthRequired)
    } else if number == 412 {
        Some(ErrorCode::PreconditionFailed)
    } else if number == 413 {
        Some(ErrorCode::PayloadTooLarge)
    } else if number == 414 {
        Some(ErrorCode::URITooLong)
    } else if number == 415 {
        Some(ErrorCode::UnsupportedMediaType)
    } else if number == 416 {
        Some(ErrorCode::RangeNotSatisfiable)
    } else if number == 417 {
        Some(ErrorCode::ExpectationFailed)
    } else if number == 418 {
        Some(ErrorCode::ImATeapot)
    } else if number == 421 {
        Some(ErrorCode::MisdirectedRequest)
    } else if number == 422 {
        Some(ErrorCode::UnprocessableEntity)
    } else if number == 423 {
        Some(ErrorCode::Locked)
    } else if number == 424 {
        Some(ErrorCode::FailedDependency)
    } else if number == 425 {
        Some(ErrorCode::TooEarly)
    } else if number == 426 {
        Some(ErrorCode::UpgradeRequired)
    } else if number == 428 {
        Some(ErrorCode::PreconditionRequired)
    } else if number == 429 {
        Some(ErrorCode::TooManyRequests)
    } else if number == 431 {
        Some(ErrorCode::RequestHeaderFieldsTooLarge)
    } else if number == 451 {
        Some(ErrorCode::UnavailableForLegalReasons)
    } else if number == 500 {
        Some(ErrorCode::InternalServerError)
    } else if number == 501 {
        Some(ErrorCode::NotImplemented)
    } else if number == 502 {
        Some(ErrorCode::BadGateway)
    } else if number == 503 {
        Some(ErrorCode::ServiceUnavailable)
    } else if number == 504 {
        Some(ErrorCode::GatewayTimeout)
    } else if number == 505 {
        Some(ErrorCode::HTTPVersionNotSupported)
    } else if number == 506 {
        Some(ErrorCode::VariantAlsoNegotiates)
    } else if number == 507 {
        Some(ErrorCode::InsufficientStorage)
    } else if number == 508 {
        Some(ErrorCode::LoopDetected)
    } else if number == 510 {
        Some(ErrorCode::NotExtended)
    } else if number == 511 {
        Some(ErrorCode::NetworkAuthenticationRequired)
    } else {
        None
    }
}

impl ErrorCode {
    /// The number that stands for this status.
    pub fn int_value(self) -> (r: i16)
        ensures
            r == code_number(self),
    {
        match self {
            ErrorCode::InvalidRequest => -6,
            ErrorCode::Interrupt => -5,
            ErrorCode::UrlParseError => -4,
            ErrorCode::ConnectionError => -3,
            ErrorCode::Timeout => -2,
            ErrorCode::Unknown => -1,
            ErrorCode::Continue => 100,
            ErrorCode::OK => 200,
            ErrorCode::Created => 201,
            ErrorCode::Accepted => 202,
            ErrorCode::NoContent => 204,
            ErrorCode::BadRequest => 400,
            ErrorCode::Unauthorized => 401,
            ErrorCode::Forbidden => 403,
            ErrorCode::NotFound => 404,
            ErrorCode::MethodNotAllowed => 405,
            ErrorCode::NotAcceptable => 406,
            ErrorCode::RequestTimeout => 408,
            ErrorCode::Conflict => 409,
            ErrorCode::Gone => 410,
            ErrorCode::LengthRequired => 411,
            ErrorCode::PreconditionFailed => 412,
            ErrorCode::PayloadTooLarge => 413,
            ErrorCode::URITooLong => 414,
            ErrorCode::UnsupportedMediaType => 415,
            ErrorCode::RangeNotSatisfiable => 416,
            ErrorCode::ExpectationFailed => 417,
            ErrorCode::ImATeapot => 418,
            ErrorCode::MisdirectedRequest => 421,
            ErrorCode::UnprocessableEntity => 422,
            ErrorCode::Locked => 423,
            ErrorCode::FailedDependency => 424,
            ErrorCode::TooEarly => 425,
            ErrorCode::UpgradeRequired => 426,
            ErrorCode::PreconditionRequired => 428,
            ErrorCode::TooManyRequests => 429,
            ErrorCode::RequestHeaderFieldsTooLarge => 431,
            ErrorCode::UnavailableForLegalReasons => 451,
            ErrorCode::InternalServerError => 500,
            ErrorCode::NotImplemented => 501,
            ErrorCode::BadGateway => 502,
            ErrorCode::ServiceUnavailable => 503,
            ErrorCode::GatewayTimeout => 504,
            ErrorCode::HTTPVersionNotSupported => 505,
            ErrorCode::VariantAlsoNegotiates => 506,
            ErrorCode::InsufficientStorage => 507,
            ErrorCode::LoopDetected => 508,
            ErrorCode::NotExtended => 510,
            ErrorCode::NetworkAuthenticationRequired => 511,
        }
    }

    /// The status that a number stands for, if any.
    pub fn from_int(number: i64) -> (r: Option<ErrorCode>)
        ensures
            r == code_of_number(number as int),
    {
        match number {
            -6 => Some(ErrorCode::InvalidRequest),
            -5 => Some(ErrorCode::Interrupt),
            -4 => Some(ErrorCode::UrlParseError),
            -3 => Some(ErrorCode::ConnectionError),
            -2 => Some(ErrorCode::Timeout),
            -1 => Some(ErrorCode::Unknown),
            100 => Some(ErrorCode::Continue),
            200 => Some(ErrorCode::OK),
            201 => Some(ErrorCode::Created),
            202 => Some(ErrorCode::Accepted),
            204 => Some(ErrorCode::NoContent),
            400 => Some(ErrorCode::BadRequest),
            401 => Some(ErrorCode::Unauthorized),
            403 => Some(ErrorCode::Forbidden),
            404 => Some(ErrorCode::NotFound),
            405 => Some(ErrorCode::MethodNotAllowed),
            406 => Some(ErrorCode::NotAcceptable),
            408 => Some(ErrorCode::RequestTimeout),
            409 => Some(ErrorCode::Conflict),
            410 => Some(ErrorCode::Gone),
            411 => Some(ErrorCode::LengthRequired),
            412 => Some(ErrorCode::PreconditionFailed),
            413 => Some(ErrorCode::PayloadTooLarge),
            414 => Some(ErrorCode::URITooLong),
            415 => Some(ErrorCode::UnsupportedMediaType),
            416 => Some(ErrorCode::RangeNotSatisfiable),
            417 => Some(ErrorCode::ExpectationFailed),
            418 => Some(ErrorCode::ImATeapot),
            421 => Some(ErrorCode::MisdirectedRequest),
            422 => Some(ErrorCode::UnprocessableEntity),
            423 => Some(ErrorCode::Locked),
            424 => Some(ErrorCode::FailedDependency),
            425 => Some(ErrorCode::TooEarly),
            426 => Some(ErrorCode::UpgradeRequired),
            428 => Some(ErrorCode::PreconditionRequired),
            429 => Some(ErrorCode::TooManyRequests),
            431 => Some(ErrorCode::RequestHeaderFieldsTooLarge),
            451 => Some(ErrorCode::UnavailableForLegalReasons),
            500 => Some(ErrorCode::InternalServerError),
            501 => Some(ErrorCode::NotImplemented),
            502 => Some(ErrorCode::BadGateway),
            503 => Some(ErrorCode::ServiceUnavailable),
            504 => Some(ErrorCode::GatewayTimeout),
            505 => Some(ErrorCode::HTTPVersionNotSupported),
            506 => Some(ErrorCode::VariantAlsoNegotiates),
            507 => Some(ErrorCode::InsufficientStorage),
            508 => Some(ErrorCode::LoopDetected),
            510 => Some(ErrorCode::NotExtended),
            511 => Some(ErrorCode::NetworkAuthenticationRequired),
            _ => None,
        }
    }
}

/// Every status is recovered from its number.
pub proof fn law_code_round_trip(code: ErrorCode)
    ensures
        code_of_number(code_number(code) as int) == Some(code),
{
}

/// A number stands for one status, and that status for the number: no two statuses share one.
pub proof fn law_number_of_a_code(number: int, code: ErrorCode)
    ensures
        code_of_number(number) == Some(code) <==> code_number(code) == number,
{
}

/// An error as its readers see it.
pub struct ErrorView {
    pub status: ErrorCode,
    pub message: Seq<char>,
}

/// A failed operation: a status and a message for the user.
#[derive(Debug, PartialEq)]
pub struct ReductError {
    pub status: ErrorCode,
    pub message: String,
}

impl View for ReductError {
    type V = ErrorView;

    open spec fn view(&self) -> ErrorView {
        ErrorView { status: self.status, message: self.message@ }
    }
}

impl ReductError {
    pub fn new(status: ErrorCode, message: &str) -> (r: ReductError)
        ensures
            r@ == (ErrorView { status, message: message@ }),
    {
        ReductError { status, message: message.to_owned() }
    }

    pub fn status(&self) -> (r: ErrorCode)
        ensures
            r == self@.status,
    {
        self.status
    }

    pub fn message(&self) -> (r: &str)
        ensures
            r@ == self@.message,
    {
        self.message.as_str()
    }
}

impl Clone for ReductError {
    fn clone(&self) -> (r: ReductError)
        ensures
            r@ == self@,
    {
        ReductError { status: self.status, message: self.message.clone() }
    }
}

} // verus!
