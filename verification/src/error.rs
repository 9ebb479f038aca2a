//! What can go wrong between a Stream and a bus.

use vstd::prelude::*;

verus! {

/// The system's own error, carried as it came: only its kind is ever read.
#[verifier::external_type_specification]
#[verifier::external_body]
pub struct ExIoError(std::io::Error);

/// Why a frame, an identifier or a bus failed.
#[derive(Debug)]
pub enum Error {
    /// More than eight data bytes for one frame.
    TooManyBytes,
    /// An identifier over what the frame's format holds.
    IdentifierTooWide,
    /// A target whose identifier, given here, cannot be read.
    NotAnIdentifier(String),
    /// An extended identifier that the kernel bus has no room for.
    WiderThanExtended,
    /// A standard identifier that the kernel bus has no room for.
    WiderThanStandard,
    /// A frame that the kernel bus does not build.
    FrameRefused,
    /// A bus that was quiet from the start.
    NothingArrived,
    /// A round whose bytes came back changed.
    Differs,
    /// A bus that failed at what it was doing, and the system's reason.
    Failed { doing: String, cause: std::io::Error },
}

impl Error {
    /// What `message` says.
    pub open spec fn text(&self) -> Seq<char> {
        match self {
            Error::TooManyBytes => "a classical CAN frame carries at most eight bytes"@,
            Error::IdentifierTooWide => "an identifier wider than the frame"@,
            Error::NotAnIdentifier(hex) => hex@ + " is not a CAN identifier"@,
            Error::WiderThanExtended => "an identifier wider than 29 bits"@,
            Error::WiderThanStandard => "an identifier wider than 11 bits"@,
            Error::FrameRefused => "a frame the bus refused"@,
            Error::NothingArrived => "nothing came over the bus"@,
            Error::Differs => "sent, but what came off the bus differs"@,
            Error::Failed { doing, .. } => doing@,
        }
    }

    /// The error in words. Of a bus that failed, what it was doing: the
    /// reason is the `cause`'s to tell.
    #[must_use]
    pub fn message(&self) -> (text: String)
        ensures
            text@ == self.text(),
    {
        match self {
            Error::TooManyBytes => "a classical CAN frame carries at most eight bytes".to_owned(),
            Error::IdentifierTooWide => "an identifier wider than the frame".to_owned(),
            Error::NotAnIdentifier(hex) => {
                let mut text = hex.clone();
                text.append(" is not a CAN identifier");
                text
            },
            Error::WiderThanExtended => "an identifier wider than 29 bits".to_owned(),
            Error::WiderThanStandard => "an identifier wider than 11 bits".to_owned(),
            Error::FrameRefused => "a frame the bus refused".to_owned(),
            Error::NothingArrived => "nothing came over the bus".to_owned(),
            Error::Differs => "sent, but what came off the bus differs".to_owned(),
            Error::Failed { doing, .. } => doing.clone(),
        }
    }
}

} // verus!
