//! The frame: up to eight data bytes under an identifier.

use vstd::prelude::*;

use crate::bytes::same_bytes;
use crate::error::Error;
use crate::uri;

verus! {

/// The widest identifier of a standard frame: eleven bits.
pub const STANDARD_MAX: u32 = 0x7ff;

/// The widest identifier of an extended frame: twenty-nine bits.
pub const EXTENDED_MAX: u32 = 0x1fff_ffff;

/// The most data bytes that one classical frame carries.
pub const DATA_MAX: usize = 8;

/// The widest identifier that a frame of the format holds.
pub open spec fn widest(extended: bool) -> u32 {
    if extended {
        EXTENDED_MAX
    } else {
        STANDARD_MAX
    }
}

/// One classical CAN frame.
#[derive(Debug)]
pub struct Frame {
    pub id: u32,
    pub extended: bool,
    pub data: Vec<u8>,
}

/// A frame as a value.
#[verifier::ext_equal]
pub struct FrameView {
    pub id: u32,
    pub extended: bool,
    pub data: Seq<u8>,
}

impl FrameView {
    /// Whether classical CAN can carry the frame.
    pub open spec fn fits(self) -> bool {
        &&& self.data.len() <= DATA_MAX
        &&& self.id <= widest(self.extended)
    }
}

impl View for Frame {
    type V = FrameView;

    open spec fn view(&self) -> FrameView {
        FrameView { id: self.id, extended: self.extended, data: self.data@ }
    }
}

/// What making a frame comes to: the frame, if and only if CAN carries it,
/// and otherwise too many bytes are refused before too wide an identifier.
pub open spec fn makes(
    id: u32,
    extended: bool,
    data: Seq<u8>,
    made: Result<Frame, Error>,
) -> bool {
    match made {
        Ok(frame) => {
            &&& frame@ == (FrameView { id, extended, data })
            &&& frame@.fits()
        },
        Err(Error::TooManyBytes) => data.len() > DATA_MAX,
        Err(Error::IdentifierTooWide) => data.len() <= DATA_MAX && id > widest(extended),
        Err(_) => false,
    }
}

/// The frames of a sequence, as values.
pub open spec fn views(frames: Seq<Frame>) -> Seq<FrameView> {
    frames.map_values(|frame: Frame| frame@)
}

/// A frame's value is what its fields hold, and a sequence's values are its
/// frames' in turn.
pub proof fn law_a_frame_is_its_fields(frame: Frame, frames: Seq<Frame>)
    ensures
        frame@.id == frame.id,
        frame@.extended == frame.extended,
        frame@.data == frame.data@,
        views(frames).len() == frames.len(),
        forall|i: int| 0 <= i < frames.len() ==> #[trigger] views(frames)[i] == frames[i]@,
{
}

/// Classical CAN carries up to eight bytes, under eleven bits of identifier
/// or, in the extended format, twenty-nine.
pub proof fn law_what_can_carries(frame: FrameView)
    ensures
        frame.fits() <==> frame.data.len() <= 8 && frame.id <= (if frame.extended {
            0x1fff_ffffu32
        } else {
            0x7ffu32
        }),
{
}

/// A frame is made of everything that CAN carries, and holds what it was made
/// of, every byte of it; what CAN does not carry is refused, the data before
/// the identifier.
pub proof fn law_a_frame_holds_what_it_was_made_of(
    id: u32,
    extended: bool,
    data: Seq<u8>,
    made: Result<Frame, Error>,
)
    requires
        makes(id, extended, data, made),
    ensures
        match made {
            Ok(frame) => frame.id == id && frame.extended == extended && frame.data@ == data,
            Err(error) => error == if data.len() > 8 {
                Error::TooManyBytes
            } else {
                Error::IdentifierTooWide
            },
        },
        made is Ok <==> data.len() <= 8 && id <= (if extended {
            0x1fff_ffffu32
        } else {
            0x7ffu32
        }),
{
}

/// Two frames are equal if and only if identifier, format and every data byte
/// are.
pub proof fn law_equal_frames_hold_the_same(left: Frame, right: Frame)
    ensures
        vstd::std_specs::cmp::PartialEqSpec::eq_spec(&left, &right) <==> left.id == right.id
            && left.extended == right.extended && left.data@ == right.data@,
{
}

impl Clone for Frame {
    fn clone(&self) -> (copy: Self)
        ensures
            copy@ == self@,
    {
        Frame {
            id: self.id,
            extended: self.extended,
            data: vstd::slice::slice_to_vec(self.data.as_slice()),
        }
    }
}

impl vstd::std_specs::cmp::PartialEqSpecImpl for Frame {
    open spec fn obeys_eq_spec() -> bool {
        true
    }

    open spec fn eq_spec(&self, other: &Frame) -> bool {
        self@ == other@
    }
}

impl PartialEq for Frame {
    fn eq(&self, other: &Frame) -> (same: bool) {
        self.id == other.id && self.extended == other.extended && same_bytes(
            self.data.as_slice(),
            other.data.as_slice(),
        )
    }
}

impl Eq for Frame {

}

impl Frame {
    /// A frame, refusing what CAN cannot carry: more than eight bytes, an
    /// 11-bit identifier over `0x7ff`, a 29-bit one over `0x1fff_ffff`.
    ///
    /// # Errors
    /// Outside those bounds.
    pub fn new(id: u32, extended: bool, data: &[u8]) -> (made: Result<Self, Error>)
        ensures
            makes(id, extended, data@, made),
    {
        if data.len() > DATA_MAX {
            return Err(Error::TooManyBytes);
        }
        let limit: u32 = if extended {
            EXTENDED_MAX
        } else {
            STANDARD_MAX
        };
        if id > limit {
            return Err(Error::IdentifierTooWide);
        }
        Ok(Frame { id, extended, data: vstd::slice::slice_to_vec(data) })
    }

    /// `can://<bus>/0x<id>?extended=<bool>`.
    #[must_use]
    pub fn origin(&self, bus: &str) -> (text: String)
        ensures
            text@ == uri::origin(bus@, self.id, self.extended),
    {
        uri::write_origin(bus, self.id, self.extended)
    }
}

} // verus!
