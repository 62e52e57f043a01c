use vstd::prelude::*;

verus! {

/// What went wrong on the byte channel below the protocol.
#[derive(Debug, Clone, Copy, PartialEq, Eq, Structural)]
pub enum IoErrorKind {
    /// The read deadline passed before data arrived.
    TimedOut,
    /// Any other failure of the channel.
    Other,
}

/// Errors of the protocol engine.
#[derive(Debug, Clone, Copy, PartialEq, Eq, Structural)]
pub enum PlError {
    /// The byte channel failed.
    Io(IoErrorKind),
    /// The stick reports that the network of Circles is not online.
    NotOnline,
    /// A Circle returned a timestamp that is not a calendar value.
    InvalidTimestamp,
    /// The awaited response arrived in a form the operation did not expect.
    UnexpectedResponse,
    /// A frame or a payload broke the protocol (framing, CRC or codec).
    Protocol,
}

pub type PlResult<T> = Result<T, PlError>;

impl PlError {
    /// True for the one transport failure that the retry policy absorbs.
    pub open spec fn is_timeout(self) -> bool {
        self == PlError::Io(IoErrorKind::TimedOut)
    }

    /// A human-readable message for the error.
    pub fn description(&self) -> (r: String)
        ensures
            *self == PlError::NotOnline ==> r@ == "Plugwise Circle network not online"@,
            *self == PlError::InvalidTimestamp ==> r@ == "Circle did return a invalid timestamp"@,
            *self == PlError::UnexpectedResponse ==> r@ == "Unexpected response"@,
            *self == PlError::Protocol ==> r@ == "Protocol error"@,
            *self == PlError::Io(IoErrorKind::TimedOut) ==> r@ == "timed out"@,
            *self == PlError::Io(IoErrorKind::Other) ==> r@ == "I/O error"@,
    {
        let s: &str = match self {
            PlError::Io(IoErrorKind::TimedOut) => "timed out",
            PlError::Io(IoErrorKind::Other) => "I/O error",
            PlError::NotOnline => "Plugwise Circle network not online",
            PlError::InvalidTimestamp => "Circle did return a invalid timestamp",
            PlError::UnexpectedResponse => "Unexpected response",
            PlError::Protocol => "Protocol error",
        };
        s.to_string()
    }
}

} // verus!
