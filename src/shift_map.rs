use vstd::prelude::*;

verus! {

#[verifier::external_type_specification]
#[verifier::external_body]
pub struct ExIoError(std::io::Error);

#[verifier::external_type_specification]
#[verifier::external_body]
pub struct ExParseIntError(core::num::ParseIntError);

#[verifier::external_type_specification]
#[verifier::external_body]
pub struct ExParseFloatError(core::num::ParseFloatError);

/// Why a time-shift map could not be read.
#[derive(Debug)]
pub enum ShiftError {
    /// The file could not be read.
    FileError(std::io::Error),
    /// A board or channel number did not parse.
    ChannelError(core::num::ParseIntError),
    /// A time shift did not parse.
    TimeshiftError(core::num::ParseFloatError),
}

impl From<std::io::Error> for ShiftError {
    fn from(value: std::io::Error) -> (r: ShiftError)
        ensures
            r == ShiftError::FileError(value),
    {
        ShiftError::FileError(value)
    }
}

impl vstd::std_specs::convert::FromSpecImpl<std::io::Error> for ShiftError {
    open spec fn obeys_from_spec() -> bool {
        true
    }

    open spec fn from_spec(v: std::io::Error) -> ShiftError {
        ShiftError::FileError(v)
    }
}

impl From<core::num::ParseIntError> for ShiftError {
    fn from(value: core::num::ParseIntError) -> (r: ShiftError)
        ensures
            r == ShiftError::ChannelError(value),
    {
        ShiftError::ChannelError(value)
    }
}

impl vstd::std_specs::convert::FromSpecImpl<core::num::ParseIntError> for ShiftError {
    open spec fn obeys_from_spec() -> bool {
        true
    }

    open spec fn from_spec(v: core::num::ParseIntError) -> ShiftError {
        ShiftError::ChannelError(v)
    }
}

impl From<core::num::ParseFloatError> for ShiftError {
    fn from(value: core::num::ParseFloatError) -> (r: ShiftError)
        ensures
            r == ShiftError::TimeshiftError(value),
    {
        ShiftError::TimeshiftError(value)
    }
}

impl vstd::std_specs::convert::FromSpecImpl<core::num::ParseFloatError> for ShiftError {
    open spec fn obeys_from_spec() -> bool {
        true
    }

    open spec fn from_spec(v: core::num::ParseFloatError) -> ShiftError {
        ShiftError::TimeshiftError(v)
    }
}

} // verus!
