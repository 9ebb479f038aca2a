//! Streams: what arrives, how a long one is cut into frames, and how the far
//! end puts it together again.

use vstd::prelude::*;

use crate::bytes::same_bytes;
use crate::error::Error;
use crate::frame::{Frame, FrameView, DATA_MAX};

verus! {

/// A Stream that arrived, and where from.
#[derive(Debug)]
pub struct Arrived {
    pub origin_uri: String,
    pub bytes: Vec<u8>,
}

/// What arrived, as a value.
#[verifier::ext_equal]
pub struct ArrivedView {
    pub origin_uri: Seq<char>,
    pub bytes: Seq<u8>,
}

impl View for Arrived {
    type V = ArrivedView;

    open spec fn view(&self) -> ArrivedView {
        ArrivedView { origin_uri: self.origin_uri@, bytes: self.bytes@ }
    }
}

impl Arrived {
    /// The bytes that came from `origin_uri`.
    #[must_use]
    pub fn new(origin_uri: String, bytes: Vec<u8>) -> (arrived: Self)
        ensures
            arrived.origin_uri == origin_uri,
            arrived.bytes == bytes,
    {
        Arrived { origin_uri, bytes }
    }
}

/// One frame off the bus of that name is one Stream: its data, with its
/// identifier in the origin.
pub open spec fn arrival(bus: Seq<char>, frame: FrameView) -> ArrivedView {
    ArrivedView {
        origin_uri: crate::uri::origin(bus, frame.id, frame.extended),
        bytes: frame.data,
    }
}

/// What arrives is the frame's data, every byte of it, under the bus's own
/// name, the frame's identifier and its format.
pub proof fn law_arrival_tells_its_frame(bus: Seq<char>, frame: FrameView)
    ensures
        arrival(bus, frame).bytes == frame.data,
        arrival(bus, frame).origin_uri == crate::uri::origin(bus, frame.id, frame.extended),
        frame.extended ==> arrival(bus, frame).origin_uri == "can://"@ + bus + "/0x"@
            + crate::hex::hex(frame.id as int) + "?extended=true"@,
        !frame.extended ==> arrival(bus, frame).origin_uri == "can://"@ + bus + "/0x"@
            + crate::hex::hex(frame.id as int) + "?extended=false"@,
{
    crate::uri::law_origin_is_spelled_out(bus, frame.id);
}

/// No two frames off buses of different names have the same origin, nor two
/// with different identifiers or in different formats; and what arrives twice
/// the same was the same frame.
pub proof fn law_arrivals_tell_frames_apart(
    bus: Seq<char>,
    frame: FrameView,
    other_bus: Seq<char>,
    other: FrameView,
)
    ensures
        arrival(bus, frame).origin_uri == arrival(other_bus, other).origin_uri <==> bus
            == other_bus && frame.id == other.id && frame.extended == other.extended,
        arrival(bus, frame) == arrival(other_bus, other) <==> bus == other_bus && frame == other,
{
    if arrival(bus, frame).origin_uri == arrival(other_bus, other).origin_uri {
        crate::uri::law_origin_reads_back(
            bus,
            frame.id,
            frame.extended,
            other_bus,
            other.id,
            other.extended,
        );
    }
}

/// The frame as the Stream that it is, off the bus of that name.
pub fn arrived_from(frame: Frame, bus: &str) -> (arrived: Arrived)
    ensures
        arrived@ == arrival(bus@, frame@),
{
    Arrived::new(frame.origin(bus), frame.data)
}

/// The data of the frames that a Stream travels as: at most eight bytes each,
/// and for an empty Stream one frame with none.
pub open spec fn pieces(payload: Seq<u8>) -> Seq<Seq<u8>>
    decreases payload.len(),
{
    if payload.len() <= DATA_MAX {
        seq![payload]
    } else {
        seq![payload.take(DATA_MAX as int)] + pieces(payload.skip(DATA_MAX as int))
    }
}

/// A Stream's pieces, one behind the other, are the Stream; none is longer
/// than a frame carries, none is empty unless the Stream is, and all but the
/// last are full.
pub proof fn law_pieces_are_the_stream(payload: Seq<u8>)
    ensures
        pieces(payload).flatten() == payload,
        pieces(payload).len() > 0,
        forall|i: int|
            0 <= i < pieces(payload).len() ==> (#[trigger] pieces(payload)[i]).len() <= 8,
        forall|i: int|
            0 <= i < pieces(payload).len() && payload.len() > 0 ==> (
            #[trigger] pieces(payload)[i]).len() > 0,
        forall|i: int|
            0 <= i < pieces(payload).len() - 1 ==> (#[trigger] pieces(payload)[i]).len()
                == 8,
    decreases payload.len(),
{
    if payload.len() <= DATA_MAX {
        assert(pieces(payload).drop_first() =~= Seq::<Seq<u8>>::empty());
        assert(pieces(payload).drop_first().flatten() =~= Seq::<u8>::empty());
        assert(pieces(payload).flatten() =~= payload);
    } else {
        let rest = payload.skip(DATA_MAX as int);
        law_pieces_are_the_stream(rest);
        assert(pieces(payload).drop_first() =~= pieces(rest));
        assert(pieces(payload).flatten() =~= payload.take(DATA_MAX as int) + rest);
        assert(payload.take(DATA_MAX as int) + rest =~= payload);
        assert forall|i: int| 0 < i < pieces(payload).len() implies #[trigger] pieces(payload)[i]
            == pieces(rest)[i - 1] by {}
    }
}

/// The pieces of a Stream are its bytes by the eight, from the first to the
/// last, and the last is what is left.
pub proof fn law_pieces_are_eight_bytes_each(payload: Seq<u8>)
    ensures
        pieces(payload).len() == if payload.len() == 0 {
            1
        } else {
            (payload.len() + 7) / 8
        },
        forall|i: int|
            0 <= i < pieces(payload).len() ==> #[trigger] pieces(payload)[i] == payload.subrange(
                8 * i,
                if 8 * i + 8 < payload.len() {
                    8 * i + 8
                } else {
                    payload.len() as int
                },
            ),
    decreases payload.len(),
{
    if payload.len() <= 8 {
        assert(payload.subrange(0, payload.len() as int) =~= payload);
    } else {
        let rest = payload.skip(8);
        law_pieces_are_eight_bytes_each(rest);
        assert(pieces(payload).len() == 1 + pieces(rest).len());
        assert forall|i: int| 0 <= i < pieces(payload).len() implies #[trigger] pieces(payload)[i]
            == payload.subrange(
            8 * i,
            if 8 * i + 8 < payload.len() {
                8 * i + 8
            } else {
                payload.len() as int
            },
        ) by {
            if i == 0 {
                assert(payload.take(8) =~= payload.subrange(0, 8));
            } else {
                assert(pieces(payload)[i] == pieces(rest)[i - 1]);
                let end = if 8 * i + 8 < payload.len() {
                    8 * i + 8
                } else {
                    payload.len() as int
                };
                assert(rest.subrange(8 * (i - 1), end - 8) =~= payload.subrange(8 * i, end));
            }
        }
    }
}

/// What the far end has read so far.
#[derive(Debug)]
pub struct Gathering {
    origin: Option<String>,
    bytes: Vec<u8>,
}

/// Where the far end stands after a read of the bus.
#[derive(Debug)]
pub enum Gathered {
    /// It reads on, with so much read.
    More(Gathering),
    /// It is done.
    Done(Result<Arrived, Error>),
}

/// What the far end has read so far, as a value: the origin of the last
/// Stream, and the bytes of all of them.
#[verifier::ext_equal]
pub struct GatheringView {
    pub origin: Option<Seq<char>>,
    pub bytes: Seq<u8>,
}

impl GatheringView {
    /// Nothing read.
    pub open spec fn nothing() -> GatheringView {
        GatheringView { origin: None, bytes: Seq::empty() }
    }

    /// One more Stream read.
    pub open spec fn with(self, arrived: ArrivedView) -> GatheringView {
        GatheringView { origin: Some(arrived.origin_uri), bytes: self.bytes + arrived.bytes }
    }

    /// What the far end makes of it once the bus is quiet: all the bytes,
    /// under the last origin, and an error where nothing came.
    pub open spec fn ends_in(self, outcome: Result<Arrived, Error>) -> bool {
        match self.origin {
            Some(origin_uri) => outcome matches Ok(arrived) && arrived@ == (ArrivedView {
                origin_uri,
                bytes: self.bytes,
            }),
            None => outcome == Err::<Arrived, Error>(Error::NothingArrived),
        }
    }
}

impl View for Gathering {
    type V = GatheringView;

    closed spec fn view(&self) -> GatheringView {
        GatheringView {
            origin: match self.origin {
                Some(origin) => Some(origin@),
                None => None,
            },
            bytes: self.bytes@,
        }
    }
}

impl Gathering {
    /// Nothing read yet.
    #[must_use]
    pub fn new() -> (gathering: Self)
        ensures
            gathering@ == GatheringView::nothing(),
    {
        let gathering = Gathering { origin: None, bytes: Vec::new() };
        assert(gathering@ =~= GatheringView::nothing());
        gathering
    }

    /// One more Stream off the bus.
    pub fn take(&mut self, arrived: Arrived)
        ensures
            final(self)@ == old(self)@.with(arrived@),
    {
        let mut bytes = arrived.bytes;
        self.origin = Some(arrived.origin_uri);
        self.bytes.append(&mut bytes);
        assert(self@ =~= old(self)@.with(arrived@));
    }

    /// The bus is quiet.
    ///
    /// # Errors
    /// Where nothing came over it.
    pub fn finish(self) -> (outcome: Result<Arrived, Error>)
        ensures
            self@.ends_in(outcome),
    {
        match self.origin {
            Some(origin) => Ok(Arrived::new(origin, self.bytes)),
            None => Err(Error::NothingArrived),
        }
    }

    /// Where the far end stands after one more read: a Stream is gathered,
    /// quiet ends it, and so does a failure.
    #[must_use]
    pub fn after(self, read: Result<Option<Arrived>, Error>) -> (next: Gathered)
        ensures
            match read {
                Ok(Some(arrived)) => next matches Gathered::More(more) && more@ == self@.with(
                    arrived@,
                ),
                Ok(None) => next matches Gathered::Done(outcome) && self@.ends_in(outcome),
                Err(error) => next == Gathered::Done(Err::<Arrived, Error>(error)),
            },
    {
        match read {
            Ok(Some(arrived)) => {
                let mut more = self;
                more.take(arrived);
                Gathered::More(more)
            },
            Ok(None) => Gathered::Done(self.finish()),
            Err(error) => Gathered::Done(Err(error)),
        }
    }

    /// As `after`, in a round that sent `payload`: what was gathered is held
    /// against it once the bus is quiet.
    #[must_use]
    pub fn after_in_round(
        self,
        payload: &[u8],
        read: Result<Option<Arrived>, Error>,
    ) -> (next: Gathered)
        ensures
            match read {
                Ok(Some(arrived)) => next matches Gathered::More(more) && more@ == self@.with(
                    arrived@,
                ),
                Ok(None) => next matches Gathered::Done(outcome) && exists|
                    taken: Result<Arrived, Error>,
                | #[trigger]
                    self@.ends_in(taken) && concludes(payload@, taken, outcome),
                Err(error) => next == Gathered::Done(Err::<Arrived, Error>(error)),
            },
    {
        match self.after(read) {
            Gathered::More(more) => Gathered::More(more),
            Gathered::Done(taken) => Gathered::Done(conclude(payload, taken)),
        }
    }
}

/// What a round makes of what came back: it, where the bytes are those that
/// were sent, and an error where they differ.
pub open spec fn confirms(
    payload: Seq<u8>,
    arrived: Arrived,
    outcome: Result<Arrived, Error>,
) -> bool {
    if arrived.bytes@ == payload {
        outcome == Ok::<Arrived, Error>(arrived)
    } else {
        outcome == Err::<Arrived, Error>(Error::Differs)
    }
}

/// What a round makes of what the far end took: what `confirms` says of it,
/// and the far end's error where it took nothing.
pub open spec fn concludes(
    payload: Seq<u8>,
    taken: Result<Arrived, Error>,
    outcome: Result<Arrived, Error>,
) -> bool {
    match taken {
        Ok(arrived) => confirms(payload, arrived, outcome),
        Err(error) => outcome == Err::<Arrived, Error>(error),
    }
}

/// Whatever was gathered, one more Stream puts its bytes behind the others
/// and its origin in their origin's place; and once the bus is quiet that is
/// what there is.
pub proof fn law_gathering_loses_nothing(
    gathered: GatheringView,
    arrived: ArrivedView,
    outcome: Result<Arrived, Error>,
)
    requires
        gathered.with(arrived).ends_in(outcome),
    ensures
        gathered.with(arrived).bytes == gathered.bytes + arrived.bytes,
        outcome matches Ok(all) && all.bytes@ == gathered.bytes + arrived.bytes
            && all.origin_uri@ == arrived.origin_uri,
{
}

/// A far end that read nothing has nothing, and nothing else is its error.
pub proof fn law_nothing_gathered_is_an_error(
    gathered: GatheringView,
    outcome: Result<Arrived, Error>,
)
    requires
        gathered.ends_in(outcome),
    ensures
        GatheringView::nothing().origin is None,
        GatheringView::nothing().bytes.len() == 0,
        match outcome {
            Ok(all) => gathered.origin == Some(all.origin_uri@) && all.bytes@ == gathered.bytes,
            Err(error) => gathered.origin is None && error == Error::NothingArrived,
        },
{
}

/// A round succeeds if and only if the far end took the bytes that were sent,
/// and then gives what it took; changed bytes are told, and a failure of the
/// far end stands.
pub proof fn law_a_round_returns_what_was_sent(
    payload: Seq<u8>,
    taken: Result<Arrived, Error>,
    outcome: Result<Arrived, Error>,
)
    requires
        concludes(payload, taken, outcome),
    ensures
        match taken {
            Ok(arrived) => {
                &&& arrived.bytes@ == payload ==> outcome == Ok::<Arrived, Error>(arrived)
                &&& arrived.bytes@ != payload ==> outcome == Err::<Arrived, Error>(Error::Differs)
                &&& confirms(payload, arrived, outcome)
            },
            Err(error) => outcome == Err::<Arrived, Error>(error),
        },
        outcome matches Ok(arrived) ==> arrived.bytes@ == payload && taken == Ok::<
            Arrived,
            Error,
        >(arrived),
{
}

/// End a round with what the far end took.
///
/// # Errors
/// The far end's, and where the bytes differ from `payload`.
pub fn conclude(payload: &[u8], taken: Result<Arrived, Error>) -> (outcome: Result<
    Arrived,
    Error,
>)
    ensures
        concludes(payload@, taken, outcome),
{
    match taken {
        Ok(arrived) => confirm(payload, arrived),
        Err(error) => Err(error),
    }
}

/// Hold what came back against what was sent.
///
/// # Errors
/// Where the bytes differ.
pub fn confirm(payload: &[u8], arrived: Arrived) -> (outcome: Result<Arrived, Error>)
    ensures
        confirms(payload@, arrived, outcome),
{
    if same_bytes(arrived.bytes.as_slice(), payload) {
        Ok(arrived)
    } else {
        Err(Error::Differs)
    }
}

} // verus!
