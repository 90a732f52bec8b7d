//! The statuses with which requests are answered.
use vstd::prelude::*;

verus! {

/// The status of an answer.
#[derive(Debug, Clone, Copy, PartialEq, Eq, Structural)]
pub enum Status {
    Success,
    Unauthorized,
    InternalServerError,
}

impl Status {
    /// The HTTP status code.
    pub open spec fn spec_code(self) -> u16 {
        match self {
            Status::Success => 200,
            Status::Unauthorized => 401,
            Status::InternalServerError => 500,
        }
    }

    /// The HTTP status code.
    pub fn code(self) -> (code: u16)
        ensures
            code == self.spec_code(),
    {
        match self {
            Status::Success => 200,
            Status::Unauthorized => 401,
            Status::InternalServerError => 500,
        }
    }
}

} // verus!
