use vstd::prelude::*;

verus! {

#[verifier::external_type_specification]
#[verifier::external_body]
pub struct ExAnyhowError(anyhow::Error);

/// Relies on anyhow::Error::msg: builds an error value that carries the given message.
#[verifier::external_body]
pub(crate) fn error_from_message(message: &'static str) -> anyhow::Error {
    anyhow::Error::msg(message)
}

fn joined(lead: &str, detail: &str) -> (r: String)
    ensures
        r@ == lead@ + detail@,
{
    let mut out = lead.to_owned();
    out.append(detail);
    out
}

/// Error of a request handler: any underlying failure, reported as a server fault.
pub struct ServerError(pub anyhow::Error);

/// Status code that a `ServerError` is answered with.
pub const INTERNAL_SERVER_ERROR: u16 = 500;

impl ServerError {
    /// Status code of the response for this error.
    pub fn status_code(&self) -> (r: u16)
        ensures
            r == INTERNAL_SERVER_ERROR,
    {
        INTERNAL_SERVER_ERROR
    }

    /// Body of the response for this error: a fixed lead-in followed by the error's own text.
    pub fn message(&self) -> (r: String)
        ensures
            exists|d: String|
                vstd::string::to_string_from_display_ensures::<anyhow::Error>(&self.0, d)
                    && r@ == "Something went wrong: "@ + d@,
    {
        let detail = self.0.to_string();
        let out = joined("Something went wrong: ", detail.as_str());
        out
    }
}

/// Classified error of a request handler, each kind with its own status code.
pub enum AppError {
    BadRequest(String),
    Unauthorized(String),
    Forbidden(String),
    NotFound(String),
    Internal(anyhow::Error),
    ServiceUnavailable(String),
}

/// Status code that each kind of `AppError` is answered with.
pub open spec fn app_status(e: &AppError) -> u16 {
    match e {
        AppError::BadRequest(_) => 400,
        AppError::Unauthorized(_) => 401,
        AppError::Forbidden(_) => 403,
        AppError::NotFound(_) => 404,
        AppError::Internal(_) => 500,
        AppError::ServiceUnavailable(_) => 503,
    }
}

/// Lead-in of the response body of each kind of `AppError`.
pub open spec fn app_lead(e: &AppError) -> Seq<char> {
    match e {
        AppError::BadRequest(_) => "Bad Request: "@,
        AppError::Unauthorized(_) => "Unauthorized: "@,
        AppError::Forbidden(_) => "Forbidden: "@,
        AppError::NotFound(_) => "Not Found: "@,
        AppError::Internal(_) => "Internal Server Error: "@,
        AppError::ServiceUnavailable(_) => "Service Unavailable: "@,
    }
}


impl AppError {
    /// Wraps any underlying failure as an internal error.
    pub fn internal<E: Into<anyhow::Error>>(err: E) -> (r: AppError)
        ensures
            r is Internal,
    {
        AppError::Internal(err.into())
    }

    /// Status code of the response for this error.
    pub fn status_code(&self) -> (r: u16)
        ensures
            r == app_status(self),
    {
        match self {
            AppError::BadRequest(_) => 400,
            AppError::Unauthorized(_) => 401,
            AppError::Forbidden(_) => 403,
            AppError::NotFound(_) => 404,
            AppError::Internal(_) => 500,
            AppError::ServiceUnavailable(_) => 503,
        }
    }

    /// Body of the response for this error: the kind's lead-in, then the message it carries
    /// (for an internal error, the underlying error's own text).
    pub fn message(&self) -> (r: String)
        ensures
            match self {
                AppError::BadRequest(m) => r@ == app_lead(self) + m@,
                AppError::Unauthorized(m) => r@ == app_lead(self) + m@,
                AppError::Forbidden(m) => r@ == app_lead(self) + m@,
                AppError::NotFound(m) => r@ == app_lead(self) + m@,
                AppError::ServiceUnavailable(m) => r@ == app_lead(self) + m@,
                AppError::Internal(err) => exists|d: String|
                    vstd::string::to_string_from_display_ensures::<anyhow::Error>(err, d)
                        && r@ == app_lead(self) + d@,
            },
    {
        match self {
            AppError::BadRequest(m) => joined("Bad Request: ", m.as_str()),
            AppError::Unauthorized(m) => joined("Unauthorized: ", m.as_str()),
            AppError::Forbidden(m) => joined("Forbidden: ", m.as_str()),
            AppError::NotFound(m) => joined("Not Found: ", m.as_str()),
            AppError::Internal(err) => {
                let detail = err.to_string();
                joined("Internal Server Error: ", detail.as_str())
            },
            AppError::ServiceUnavailable(m) => joined("Service Unavailable: ", m.as_str()),
        }
    }
}

} // verus!
