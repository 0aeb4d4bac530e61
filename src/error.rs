use vstd::prelude::*;

verus! {

/// The errors of this crate.
#[derive(Debug)]
pub enum Errors {
    /// The transport reported an error; the text describes it.
    Transport(String),
    OptionUnwrapOnNoneError,
    WebSocketClosed,
    /// A message of another kind than text came where text was expected.
    WrongMessageType(&'static str),
    /// The text that should have been a decimal number.
    ParseFloatError(String),
    /// The text that should have been an integer.
    ParseIntError(String),
    /// The text that should have been `true` or `false`.
    ParseBoolError(String),
    InvalidRedstoneLevel(i32),
    InvalidChar(char),
    InvalidPeripheralType(String),
    GPSError(GpsError),
    InvalidSideName(String),
    NoneValue,
}

/// Why a gps request failed.
#[derive(Debug, Clone, Copy, PartialEq, Eq, Structural)]
pub enum GpsError {
    /// The computer could not locate itself.
    Failed,
    /// The reply did not hold three coordinates.
    Other,
}

/// Turns a value that may be missing into a result.
pub trait ToErrorsResult: Sized {
    type T;

    spec fn errors_result(self) -> Result<Self::T, Errors>;

    fn to_errors_result(self) -> (r: Result<Self::T, Errors>)
        ensures
            r == self.errors_result(),
    ;
}

impl<T> ToErrorsResult for Option<T> {
    type T = T;

    /// `Some(v)` becomes `Ok(v)`, `None` becomes `Errors::NoneValue`.
    open spec fn errors_result(self) -> Result<T, Errors> {
        match self {
            Some(v) => Ok(v),
            None => Err(Errors::NoneValue),
        }
    }

    fn to_errors_result(self) -> (r: Result<T, Errors>) {
        match self {
            Some(v) => Ok(v),
            None => Err(Errors::NoneValue),
        }
    }
}

} // verus!
