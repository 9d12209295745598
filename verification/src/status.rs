//! The status of an error: a three-digit code as the `http` crate admits it.

use vstd::prelude::*;

verus! {

/// The least code that is a status.
pub const MIN_STATUS: u16 = 100;

/// The greatest code that is a status.
pub const MAX_STATUS: u16 = 999;

/// `code` is a status code: it lies between `MIN_STATUS` and `MAX_STATUS`.
pub open spec fn is_status(code: u16) -> bool {
    MIN_STATUS <= code <= MAX_STATUS
}

/// Calls `http::StatusCode::from_u16` and hands back the code it accepted.
/// That function accepts exactly the codes from 100 to 999, and the status it
/// builds gives the same number back from `as_u16`; it turns every other
/// code down. Trusted: the contract restates this and is not proved.
#[verifier::external_body]
fn checked_status(code: u16) -> (accepted: Option<u16>)
    ensures
        accepted == if is_status(code) {
            Some(code)
        } else {
            None::<u16>
        },
{
    match http::StatusCode::from_u16(code) {
        Ok(status) => Some(status.as_u16()),
        Err(_) => None,
    }
}

/// A status: a code between 100 and 999.
#[derive(Clone, Copy, Debug)]
pub struct StatusCode {
    code: u16,
}

impl View for StatusCode {
    type V = u16;

    closed spec fn view(&self) -> u16 {
        self.code
    }
}

impl StatusCode {
    #[verifier::type_invariant]
    spec fn in_range(self) -> bool {
        is_status(self.code)
    }

    /// The status with the given code, if the code is one.
    pub fn from_u16(code: u16) -> (status: Option<StatusCode>)
        ensures
            status is Some <==> is_status(code),
            status matches Some(s) ==> s@ == code,
    {
        match checked_status(code) {
            Some(accepted) => Some(StatusCode { code: accepted }),
            None => None,
        }
    }

    /// The code of this status.
    pub fn as_u16(&self) -> (code: u16)
        ensures
            code == self@,
            is_status(code),
    {
        proof {
            use_type_invariant(self);
        }
        self.code
    }
}

} // verus!
