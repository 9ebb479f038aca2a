//! Frames to and from the Linux kernel bus, as the `socketcan` crate has
//! them. The socket itself is not touched here.

use socketcan::EmbeddedFrame;
use vstd::prelude::*;

use crate::error::Error;
use crate::frame::{Frame, FrameView, DATA_MAX, EXTENDED_MAX, STANDARD_MAX};

verus! {

/// An 11-bit identifier of the `socketcan` crate.
#[verifier::external_type_specification]
#[verifier::external_body]
pub struct ExStandardId(socketcan::StandardId);

/// A 29-bit identifier of the `socketcan` crate.
#[verifier::external_type_specification]
#[verifier::external_body]
pub struct ExExtendedId(socketcan::ExtendedId);

/// A classical frame of the `socketcan` crate: data, remote or error.
#[verifier::external_type_specification]
#[verifier::external_body]
pub struct ExCanFrame(socketcan::CanFrame);

/// A data frame of the `socketcan` crate.
#[verifier::external_type_specification]
#[verifier::external_body]
pub struct ExCanDataFrame(socketcan::CanDataFrame);

/// The number in an 11-bit identifier.
pub uninterp spec fn standard_raw(id: socketcan::StandardId) -> u16;

/// The number in a 29-bit identifier.
pub uninterp spec fn extended_raw(id: socketcan::ExtendedId) -> u32;

/// The data frame that a classical frame is, or `None` for a remote or an
/// error frame.
pub uninterp spec fn data_part(frame: socketcan::CanFrame) -> Option<socketcan::CanDataFrame>;

/// What a data frame holds: identifier, format and data bytes.
pub uninterp spec fn held(frame: socketcan::CanDataFrame) -> FrameView;

/// The length that a data frame claims for its data.
pub uninterp spec fn length_code(frame: socketcan::CanDataFrame) -> usize;

/// Whether the system's error says only that nothing came in time.
pub uninterp spec fn blocked(error: std::io::Error) -> bool;

/// `socketcan::StandardId::new`: an identifier that holds the number, for the
/// numbers of eleven bits and no others.
pub assume_specification[ socketcan::StandardId::new ](raw: u16) -> (id: Option<
    socketcan::StandardId,
>)
    ensures
        id is Some <==> raw <= STANDARD_MAX,
        id matches Some(made) ==> standard_raw(made) == raw,
;

/// `socketcan::ExtendedId::new`: an identifier that holds the number, for the
/// numbers of twenty-nine bits and no others.
pub assume_specification[ socketcan::ExtendedId::new ](raw: u32) -> (id: Option<
    socketcan::ExtendedId,
>)
    ensures
        id is Some <==> raw <= EXTENDED_MAX,
        id matches Some(made) ==> extended_raw(made) == raw,
;

/// An identifier of either format.
enum KernelId {
    Standard(socketcan::StandardId),
    Extended(socketcan::ExtendedId),
}

impl KernelId {
    /// The number in the identifier.
    spec fn raw(self) -> u32 {
        match self {
            KernelId::Standard(id) => standard_raw(id) as u32,
            KernelId::Extended(id) => extended_raw(id),
        }
    }

    /// Whether the number is within the format.
    spec fn in_range(self) -> bool {
        self.raw() <= crate::frame::widest(self is Extended)
    }
}

/// An identifier that was made of a number holds that number, in the format
/// it was made in.
proof fn law_an_identifier_is_its_number(
    standard: u16,
    narrow: socketcan::StandardId,
    extended: u32,
    wide: socketcan::ExtendedId,
)
    requires
        call_ensures(socketcan::StandardId::new, (standard,), Some(narrow)),
        call_ensures(socketcan::ExtendedId::new, (extended,), Some(wide)),
    ensures
        KernelId::Standard(narrow).raw() == standard,
        KernelId::Standard(narrow).in_range(),
        KernelId::Extended(wide).raw() == extended,
        KernelId::Extended(wide).in_range(),
        standard <= 0x7ff,
        extended <= 0x1fff_ffff,
{
}

/// `socketcan::CanFrame::new`: a data frame under the identifier that holds
/// the data, for up to eight bytes and no more.
#[verifier::external_body]
fn data_frame(id: KernelId, data: &[u8]) -> (frame: Option<socketcan::CanFrame>)
    requires
        id.in_range(),
    ensures
        frame is Some <==> data@.len() <= DATA_MAX,
        frame matches Some(made) ==> {
            &&& data_part(made) matches Some(part)
            &&& held(part) == (FrameView { id: id.raw(), extended: id is Extended, data: data@ })
            &&& length_code(part) == data@.len()
        },
{
    match id {
        KernelId::Standard(id) => socketcan::CanFrame::new(id, data),
        KernelId::Extended(id) => socketcan::CanFrame::new(id, data),
    }
}

/// The variants of `socketcan::CanFrame`: the data frame in one, if it is
/// one.
#[verifier::external_body]
fn as_data_frame(frame: socketcan::CanFrame) -> (part: Option<socketcan::CanDataFrame>)
    ensures
        part == data_part(frame),
{
    match frame {
        socketcan::CanFrame::Data(part) => Some(part),
        socketcan::CanFrame::Remote(_) => None,
        socketcan::CanFrame::Error(_) => None,
    }
}

/// `socketcan::CanDataFrame::dlc`: the length that the frame claims.
#[verifier::external_body]
fn claimed_length(frame: &socketcan::CanDataFrame) -> (length: usize)
    ensures
        length == length_code(*frame),
{
    frame.dlc()
}

/// The readers of `socketcan::CanDataFrame`, `id`, `is_extended` and `data`:
/// what the frame holds, an identifier within its format and as many bytes
/// as it claims. `data` panics where a frame claims more than it has room
/// for, so no such frame comes here.
#[verifier::external_body]
fn contents(frame: &socketcan::CanDataFrame) -> (read: Frame)
    requires
        length_code(*frame) <= DATA_MAX,
    ensures
        read@ == held(*frame),
        read.id <= crate::frame::widest(read.extended),
        read.data@.len() == length_code(*frame),
{
    let id = match frame.id() {
        socketcan::Id::Standard(id) => u32::from(id.as_raw()),
        socketcan::Id::Extended(id) => id.as_raw(),
    };
    Frame { id, extended: frame.is_extended(), data: frame.data().to_vec() }
}

/// `std::io::Error::kind`: whether it is `WouldBlock`.
#[verifier::external_body]
fn would_block(error: &std::io::Error) -> (so: bool)
    ensures
        so == blocked(*error),
{
    error.kind() == std::io::ErrorKind::WouldBlock
}

/// What is asked of the kernel bus.
#[derive(Clone, Copy, Debug, PartialEq, Eq, Structural)]
pub enum Step {
    Opening,
    SettingTimeout,
    Reading,
    Writing,
}

impl Step {
    /// The step in words.
    pub open spec fn text(self) -> Seq<char> {
        match self {
            Step::Opening => "opening the CAN interface"@,
            Step::SettingTimeout => "setting the read timeout"@,
            Step::Reading => "reading the bus"@,
            Step::Writing => "writing the bus"@,
        }
    }

    /// The error of a bus that failed at this step.
    #[must_use]
    pub fn failed(self, cause: std::io::Error) -> (error: Error)
        ensures
            error matches Error::Failed { doing, cause: given } && doing@ == self.text() && given
                == cause,
    {
        let doing = match self {
            Step::Opening => "opening the CAN interface".to_owned(),
            Step::SettingTimeout => "setting the read timeout".to_owned(),
            Step::Reading => "reading the bus".to_owned(),
            Step::Writing => "writing the bus".to_owned(),
        };
        Error::Failed { doing, cause }
    }
}

/// What a frame is to the kernel bus: a data frame that holds the same, for
/// every frame that CAN carries; otherwise the identifier is refused before
/// the data.
pub open spec fn encodes(frame: FrameView, outcome: Result<socketcan::CanFrame, Error>) -> bool {
    match outcome {
        Ok(made) => {
            &&& frame.fits()
            &&& data_part(made) matches Some(part)
            &&& held(part) == frame
            &&& length_code(part) == frame.data.len()
        },
        Err(Error::WiderThanExtended) => frame.extended && frame.id > EXTENDED_MAX,
        Err(Error::WiderThanStandard) => !frame.extended && frame.id > STANDARD_MAX,
        Err(Error::FrameRefused) => {
            &&& frame.id <= crate::frame::widest(frame.extended)
            &&& frame.data.len() > DATA_MAX
        },
        Err(_) => false,
    }
}

/// The frame as the kernel bus takes it.
///
/// # Errors
/// Where the identifier or the data do not fit a classical frame.
pub fn encode(frame: &Frame) -> (outcome: Result<socketcan::CanFrame, Error>)
    ensures
        encodes(frame@, outcome),
{
    let id = if frame.extended {
        match socketcan::ExtendedId::new(frame.id) {
            Some(id) => KernelId::Extended(id),
            None => {
                return Err(Error::WiderThanExtended);
            },
        }
    } else {
        let raw: u16 = if frame.id <= 0xffff {
            frame.id as u16
        } else {
            0xffff
        };
        match socketcan::StandardId::new(raw) {
            Some(id) => KernelId::Standard(id),
            None => {
                return Err(Error::WiderThanStandard);
            },
        }
    };
    match data_frame(id, frame.data.as_slice()) {
        Some(made) => Ok(made),
        None => Err(Error::FrameRefused),
    }
}

/// Whether a data frame that was read claims no more data than it has room
/// for.
pub open spec fn sound(read: Result<socketcan::CanFrame, std::io::Error>) -> bool {
    match read {
        Ok(frame) => data_part(frame) matches Some(part) ==> length_code(part) <= DATA_MAX,
        Err(_) => true,
    }
}

/// What a read of the kernel bus gave.
#[derive(Debug, PartialEq, Eq)]
pub enum Heard {
    /// A data frame.
    Frame(Frame),
    /// A remote or an error frame: something arrived, and it carries nothing.
    Other,
    /// Nothing arrived in time.
    Quiet,
}

/// What to do after a read of the kernel bus.
#[derive(Debug, PartialEq, Eq)]
pub enum Next {
    /// Give the frame, or `None`: nothing arrived in time.
    Answer(Option<Frame>),
    /// Read on, for what is left of the time.
    ReadAgain,
}

/// What a read of the kernel bus comes to: a data frame is a frame, a remote
/// or an error frame is something else that arrived, and a read that ran out
/// of time is quiet; any other failure is an error.
pub open spec fn decodes(
    read: Result<socketcan::CanFrame, std::io::Error>,
    outcome: Result<Heard, Error>,
) -> bool {
    match read {
        Ok(frame) => match data_part(frame) {
            Some(part) => outcome matches Ok(Heard::Frame(made)) && made@ == held(part)
                && made@.fits(),
            None => outcome == Ok::<Heard, Error>(Heard::Other),
        },
        Err(error) => if blocked(error) {
            outcome == Ok::<Heard, Error>(Heard::Quiet)
        } else {
            &&& outcome matches Err(Error::Failed { doing, cause })
            &&& doing@ == Step::Reading.text()
            &&& cause == error
        },
    }
}

/// What a read of the kernel bus gave.
///
/// # Errors
/// Where the bus could not be read.
pub fn decode(read: Result<socketcan::CanFrame, std::io::Error>) -> (outcome: Result<
    Heard,
    Error,
>)
    requires
        sound(read),
    ensures
        decodes(read, outcome),
{
    match read {
        Ok(frame) => match as_data_frame(frame) {
            Some(part) => Ok(Heard::Frame(contents(&part))),
            None => Ok(Heard::Other),
        },
        Err(error) => if would_block(&error) {
            Ok(Heard::Quiet)
        } else {
            Err(Step::Reading.failed(error))
        },
    }
}

/// As `decode`, of any read: `None` where a data frame claims more data than
/// it has room for.
pub fn decode_sound(read: Result<socketcan::CanFrame, std::io::Error>) -> (outcome: Option<
    Result<Heard, Error>,
>)
    ensures
        match outcome {
            Some(decoded) => sound(read) && decodes(read, decoded),
            None => !sound(read),
        },
{
    if let Ok(frame) = &read {
        if let Some(part) = as_data_frame(*frame) {
            if claimed_length(&part) > DATA_MAX {
                return None;
            }
        }
    }
    Some(decode(read))
}

impl Heard {
    /// What to do after the read: a frame is the answer, and so is quiet;
    /// what carries nothing is passed over while there is time left to wait
    /// for a frame.
    #[must_use]
    pub fn next(self, time_left: bool) -> (next: Next)
        ensures
            next == match self {
                Heard::Frame(frame) => Next::Answer(Some(frame)),
                Heard::Other => if time_left {
                    Next::ReadAgain
                } else {
                    Next::Answer(None)
                },
                Heard::Quiet => Next::Answer(None),
            },
    {
        match self {
            Heard::Frame(frame) => Next::Answer(Some(frame)),
            Heard::Other => if time_left {
                Next::ReadAgain
            } else {
                Next::Answer(None)
            },
            Heard::Quiet => Next::Answer(None),
        }
    }
}

/// A read is quiet if and only if it ran out of time with nothing arrived.
pub proof fn law_quiet_is_out_of_time(
    read: Result<socketcan::CanFrame, std::io::Error>,
    outcome: Result<Heard, Error>,
)
    requires
        decodes(read, outcome),
    ensures
        outcome == Ok::<Heard, Error>(Heard::Quiet) <==> (read matches Err(error) && blocked(
            error,
        )),
{
}

/// What goes out to the kernel bus, if it is what comes in, is the frame that
/// went out.
pub proof fn law_kernel_frame_reads_back(
    frame: FrameView,
    made: socketcan::CanFrame,
    outcome: Result<Heard, Error>,
)
    requires
        encodes(frame, Ok(made)),
        decodes(Ok(made), outcome),
    ensures
        sound(Ok(made)),
        outcome matches Ok(Heard::Frame(back)) && back@ == frame,
{
}

/// The kernel bus takes a frame if and only if classical CAN carries it, so
/// what it refuses is exactly what `Frame::new` refuses to make.
pub proof fn law_kernel_takes_what_fits(
    frame: FrameView,
    outcome: Result<socketcan::CanFrame, Error>,
    made: Result<Frame, Error>,
)
    requires
        encodes(frame, outcome),
        crate::frame::makes(frame.id, frame.extended, frame.data, made),
    ensures
        outcome is Ok <==> frame.fits(),
        outcome is Err <==> made is Err,
{
}

/// `encode` gives the kernel a data frame with the frame's identifier, format
/// and every byte, for everything that CAN carries; too wide an identifier is
/// told by its format, and after that too many bytes.
pub proof fn law_encode_keeps_the_frame(
    frame: &Frame,
    outcome: Result<socketcan::CanFrame, Error>,
)
    requires
        call_ensures(encode, (frame,), outcome),
    ensures
        match outcome {
            Ok(made) => {
                &&& data_part(made) matches Some(part)
                &&& held(part).id == frame.id
                &&& held(part).extended == frame.extended
                &&& held(part).data == frame.data@
                &&& length_code(part) == frame.data@.len()
            },
            Err(error) => error == if frame.extended && frame.id > 0x1fff_ffff {
                Error::WiderThanExtended
            } else if !frame.extended && frame.id > 0x7ff {
                Error::WiderThanStandard
            } else {
                Error::FrameRefused
            },
        },
        outcome is Ok <==> frame.data@.len() <= 8 && frame.id <= (if frame.extended {
            0x1fff_ffffu32
        } else {
            0x7ffu32
        }),
{
}

/// `decode` gives of a data frame the identifier, the format and every byte;
/// of any other frame that it was one; of a read that ran out of time that it
/// was quiet; and of any other failure that failure, while reading the bus.
pub proof fn law_decode_keeps_the_frame(
    read: Result<socketcan::CanFrame, std::io::Error>,
    outcome: Result<Heard, Error>,
)
    requires
        sound(read),
        call_ensures(decode, (read,), outcome),
    ensures
        match read {
            Ok(frame) => match data_part(frame) {
                Some(part) => {
                    &&& outcome matches Ok(Heard::Frame(made))
                    &&& made.id == held(part).id
                    &&& made.extended == held(part).extended
                    &&& made.data@ == held(part).data
                    &&& made.data@.len() <= 8
                    &&& made.id <= (if made.extended {
                        0x1fff_ffffu32
                    } else {
                        0x7ffu32
                    })
                },
                None => outcome == Ok::<Heard, Error>(Heard::Other),
            },
            Err(error) => {
                &&& blocked(error) ==> outcome == Ok::<Heard, Error>(Heard::Quiet)
                &&& !blocked(error) ==> {
                    &&& outcome matches Err(Error::Failed { doing, cause })
                    &&& doing@ == "reading the bus"@
                    &&& cause == error
                }
            },
        },
{
}

/// `decode_sound` decodes every read but that of a data frame which claims
/// more than eight bytes.
pub proof fn law_only_unsound_frames_are_not_decoded(
    read: Result<socketcan::CanFrame, std::io::Error>,
    outcome: Option<Result<Heard, Error>>,
)
    requires
        call_ensures(decode_sound, (read,), outcome),
    ensures
        outcome is None <==> (read matches Ok(frame) && (data_part(frame) matches Some(part)
            && length_code(part) > 8)),
        outcome matches Some(decoded) ==> decodes(read, decoded),
        sound(read) <==> outcome is Some,
{
}

/// A failed step is told in words, with the system's reason.
pub proof fn law_a_failed_step_is_told(step: Step, cause: std::io::Error, error: Error)
    requires
        call_ensures(Step::failed, (step, cause), error),
    ensures
        error matches Error::Failed { doing, cause: given } && given == cause && doing@
            == match step {
            Step::Opening => "opening the CAN interface"@,
            Step::SettingTimeout => "setting the read timeout"@,
            Step::Reading => "reading the bus"@,
            Step::Writing => "writing the bus"@,
        },
{
}

/// A frame is answered with that frame; the bus is read again if and only if
/// something else arrived and there is time left; and all the rest is
/// answered with none.
pub proof fn law_only_frames_are_answered(heard: Heard, time_left: bool, next: Next)
    requires
        call_ensures(Heard::next, (heard, time_left), next),
    ensures
        heard matches Heard::Frame(frame) ==> next == Next::Answer(Some(frame)),
        next == Next::ReadAgain <==> heard == Heard::Other && time_left,
        next matches Next::Answer(Some(frame)) ==> heard == Heard::Frame(frame),
{
}

} // verus!
