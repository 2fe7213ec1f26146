//! The ways a request fails, and where each one sends the browser.

use vstd::prelude::*;

verus! {

/// Why a request failed.
#[derive(Debug, Clone, Copy, PartialEq, Eq, Structural)]
pub enum Error {
    NotFound,
    Unauthorized,
    InternalServerError,
    BadRequest,
}

impl Error {
    /// The page the browser is redirected to for this failure.
    pub fn redirect_target(&self) -> (r: &'static str)
        ensures
            *self == Error::Unauthorized ==> r@ == "/"@,
            *self == Error::NotFound ==> r@ == "/badpage"@,
            *self == Error::InternalServerError ==> r@ == "/err"@,
            *self == Error::BadRequest ==> r@ == "/badrequest"@,
    {
        match self {
            Error::Unauthorized => "/",
            Error::NotFound => "/badpage",
            Error::InternalServerError => "/err",
            Error::BadRequest => "/badrequest",
        }
    }
}

} // verus!
