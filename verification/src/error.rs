//! The ways in which a read attempt fails.
use vstd::prelude::*;

verus! {

/// The cause of a failed read attempt.
#[derive(Debug, PartialEq, Eq)]
pub enum ErrorKind<I> {
    /// An operation on the data pin failed with the pin's own error.
    Io(I),
    /// Five bytes arrived, but the fifth is not the checksum of the first
    /// four: `expected` is the low byte of their sum, `actual` the byte that
    /// the sensor sent.
    Checksum { expected: u8, actual: u8 },
    /// The line stayed at one level for the whole tick budget of a pulse.
    Timeout,
}

/// Why a read attempt failed.
#[derive(Debug, PartialEq, Eq)]
pub struct Error<I>(ErrorKind<I>);

impl<I> View for Error<I> {
    type V = ErrorKind<I>;

    /// The cause that the error wraps.
    closed spec fn view(&self) -> ErrorKind<I> {
        self.0
    }
}

impl<I> From<ErrorKind<I>> for Error<I> {
    /// Wraps a cause.
    fn from(kind: ErrorKind<I>) -> (e: Self)
        ensures
            e@ == kind,
    {
        Error(kind)
    }
}

impl<I> vstd::std_specs::convert::FromSpecImpl<ErrorKind<I>> for Error<I> {
    open spec fn obeys_from_spec() -> bool {
        true
    }

    closed spec fn from_spec(kind: ErrorKind<I>) -> Self {
        Error(kind)
    }
}

impl<I> Error<I> {
    /// Returns `true` if a pulse of the sensor did not end within the tick
    /// budget.
    pub fn is_timeout(&self) -> (b: bool)
        ensures
            b == (self@ is Timeout),
    {
        match self.0 {
            ErrorKind::Timeout => true,
            _ => false,
        }
    }

    /// Returns `true` if an operation on the data pin failed.
    pub fn is_io(&self) -> (b: bool)
        ensures
            b == (self@ is Io),
    {
        match self.0 {
            ErrorKind::Io(_) => true,
            _ => false,
        }
    }

    /// Returns `true` if the checksum of the transmission did not match.
    pub fn is_checksum(&self) -> (b: bool)
        ensures
            b == (self@ is Checksum),
    {
        match self.0 {
            ErrorKind::Checksum { .. } => true,
            _ => false,
        }
    }

    /// Hands out the pin's error if that is what the error wraps.
    pub fn into_io(self) -> (io: Option<I>)
        ensures
            io == match self@ {
                ErrorKind::Io(e) => Some(e),
                _ => None,
            },
    {
        match self.0 {
            ErrorKind::Io(io) => Some(io),
            _ => None,
        }
    }
}

} // verus!
