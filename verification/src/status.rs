//! Failure conditions and their 32-bit status codes.

use vstd::prelude::*;

verus! {

/// Status code of an operation that succeeded.
pub const S_OK: u32 = 0;

/// Status code: the object does not implement the requested interface.
pub const E_NOINTERFACE: u32 = 0x80004002;

/// Status code: the class cannot be created as part of an aggregate.
pub const CLASS_E_NOAGGREGATION: u32 = 0x80040110;

/// Status code: no factory is known for the requested class.
pub const CLASS_E_CLASSNOTAVAILABLE: u32 = 0x80040111;

/// Status code: some registration record could not be written or removed.
pub const SELFREG_E_CLASS: u32 = 0x80040201;

/// The reportable failures of the runtime.
#[derive(Clone, Copy, Debug, PartialEq, Eq, Structural)]
pub enum ComError {
    NoSuchInterface,
    ClassNotAvailable,
    AggregationNotSupported,
    RegistrationPartialFailure,
}

impl ComError {
    /// The status code that stands for this failure.
    pub open spec fn spec_code(self) -> u32 {
        match self {
            ComError::NoSuchInterface => E_NOINTERFACE,
            ComError::ClassNotAvailable => CLASS_E_CLASSNOTAVAILABLE,
            ComError::AggregationNotSupported => CLASS_E_NOAGGREGATION,
            ComError::RegistrationPartialFailure => SELFREG_E_CLASS,
        }
    }

    /// The status code that stands for this failure.
    #[verifier::when_used_as_spec(spec_code)]
    pub fn code(self) -> (c: u32)
        ensures
            c == self.spec_code(),
            failed(c),
    {
        match self {
            ComError::NoSuchInterface => E_NOINTERFACE,
            ComError::ClassNotAvailable => CLASS_E_CLASSNOTAVAILABLE,
            ComError::AggregationNotSupported => CLASS_E_NOAGGREGATION,
            ComError::RegistrationPartialFailure => SELFREG_E_CLASS,
        }
    }

    /// The failure that a status code stands for, if it stands for one.
    pub fn from_code(code: u32) -> (e: Option<ComError>)
        ensures
            match e {
                Some(err) => err.spec_code() == code,
                None => forall|err: ComError| err.spec_code() != code,
            },
    {
        if code == E_NOINTERFACE {
            Some(ComError::NoSuchInterface)
        } else if code == CLASS_E_CLASSNOTAVAILABLE {
            Some(ComError::ClassNotAvailable)
        } else if code == CLASS_E_NOAGGREGATION {
            Some(ComError::AggregationNotSupported)
        } else if code == SELFREG_E_CLASS {
            Some(ComError::RegistrationPartialFailure)
        } else {
            None
        }
    }
}

/// A status code reports failure exactly when its top bit is set.
pub open spec fn failed(code: u32) -> bool {
    code >= 0x8000_0000
}

/// Whether a status code reports failure.
pub fn is_failure(code: u32) -> (b: bool)
    ensures
        b == failed(code),
{
    code >= 0x8000_0000
}

/// The status code of an outcome: `S_OK` on success, the failure's code otherwise.
pub fn status_code<T>(outcome: &Result<T, ComError>) -> (c: u32)
    ensures
        c == match *outcome {
            Ok(_) => S_OK,
            Err(e) => e.spec_code(),
        },
        failed(c) == outcome.is_err(),
{
    match outcome {
        Ok(_) => S_OK,
        Err(e) => e.code(),
    }
}

} // verus!
