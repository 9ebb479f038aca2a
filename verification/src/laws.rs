//! What holds of the library as a whole.

use std::time::Duration;

use vstd::prelude::*;

use crate::bus::{Bus, Loopback};
use crate::error::Error;
use crate::frame::{Frame, FrameView, DATA_MAX};
use crate::loopback::{Node, NodeView, SessionView};
use crate::stream::{Arrived, ArrivedView, GatheringView};
use crate::transport::CanTransport;
use crate::uri;

verus! {

/// Something done to a bus: a frame put on it, or a read and what it gave.
pub enum Event {
    Put(FrameView),
    Read(Option<Frame>),
}

/// `before` becomes `after` as the event happens to it.
pub open spec fn step<B: Bus>(before: B, timeout: Duration, event: Event, after: B) -> bool {
    match event {
        Event::Put(frame) => before.may_transmit(frame, Ok(()), &after),
        Event::Read(read) => before.may_receive(timeout, Ok(read), &after),
    }
}

/// `before` becomes `after` as the events happen to it, each of them
/// successfully.
pub open spec fn happens<B: Bus>(
    before: B,
    timeout: Duration,
    events: Seq<Event>,
    after: B,
) -> bool
    decreases events.len(),
{
    if events.len() == 0 {
        after == before
    } else {
        exists|next: B| #[trigger]
            step(before, timeout, events[0], next) && happens(
                next,
                timeout,
                events.drop_first(),
                after,
            )
    }
}

/// The frames put on the bus, in order.
pub open spec fn put(events: Seq<Event>) -> Seq<FrameView>
    decreases events.len(),
{
    if events.len() == 0 {
        Seq::empty()
    } else {
        match events[0] {
            Event::Put(frame) => seq![frame] + put(events.drop_first()),
            Event::Read(_) => put(events.drop_first()),
        }
    }
}

/// The frames read off the bus, in order.
pub open spec fn read(events: Seq<Event>) -> Seq<FrameView>
    decreases events.len(),
{
    if events.len() == 0 {
        Seq::empty()
    } else {
        match events[0] {
            Event::Read(Some(frame)) => seq![frame@] + read(events.drop_first()),
            _ => read(events.drop_first()),
        }
    }
}

/// What is transmitted is received, in order: whatever is put on the
/// in-process bus and read off it, in whatever turns, the frames read and
/// then those still on it are the frames that were on it and then those put
/// on it.
pub proof fn law_loopback_keeps_order(
    before: Loopback,
    timeout: Duration,
    events: Seq<Event>,
    after: Loopback,
)
    requires
        happens(before, timeout, events, after),
    ensures
        read(events) + after@ == before@ + put(events),
    decreases events.len(),
{
    if events.len() == 0 {
        assert(read(events) + after@ =~= before@ + put(events));
    } else {
        let next = choose|next: Loopback| #[trigger]
            step(before, timeout, events[0], next) && happens(
                next,
                timeout,
                events.drop_first(),
                after,
            );
        law_loopback_keeps_order(next, timeout, events.drop_first(), after);
        let rest = events.drop_first();
        match events[0] {
            Event::Put(frame) => {
                assert(next@ + put(rest) =~= before@ + put(events));
            },
            Event::Read(Some(frame)) => {
                assert(before@ =~= seq![frame@] + next@);
                assert(read(events) + after@ =~= seq![frame@] + (read(rest) + after@));
                assert(seq![frame@] + (next@ + put(rest)) =~= before@ + put(events));
            },
            Event::Read(None) => {},
        }
    }
}

/// The in-process bus is quiet only when nothing is on it, and quiet changes
/// nothing.
pub proof fn law_loopback_quiet_is_empty(before: Loopback, timeout: Duration, after: Loopback)
    requires
        before.may_receive(timeout, Ok(None), &after),
    ensures
        before@.len() == 0,
        after@ == before@,
{
}

/// The frame that a transport makes of `bytes` under `id`: extended where the
/// transport is or the identifier has to be.
pub open spec fn frame_under<B: Bus>(
    transport: CanTransport<B>,
    id: u32,
    bytes: Seq<u8>,
) -> FrameView {
    FrameView { id, extended: transport.extended() || id > 0x7ff, data: bytes }
}

/// Whatever a transport puts on a bus is a frame that CAN carries, under the
/// identifier that the target names or else its own. Anything else is
/// refused, and the transport and its bus are as they were.
pub proof fn law_only_fitting_frames_go_out<B: Bus>(
    before: CanTransport<B>,
    target: Seq<char>,
    bytes: Seq<u8>,
    outcome: Result<(), Error>,
    after: CanTransport<B>,
)
    requires
        before.sends(target, bytes, outcome, after),
    ensures
        match uri::identifier(target, before.id()) {
            Some(id) if frame_under(before, id, bytes).fits() => {
                &&& before.bus().may_transmit(
                    frame_under(before, id, bytes),
                    outcome,
                    &after.bus(),
                )
                &&& before.set_up_as(after)
            },
            _ => outcome is Err && after == before,
        },
{
}

/// Bytes to be sent, and where.
pub struct Sending {
    pub target: Seq<char>,
    pub bytes: Seq<u8>,
}

/// A read of the bus, and what the bus then calls itself.
pub struct Reading {
    pub read: Result<Option<Frame>, Error>,
    pub name: Seq<char>,
}

/// `before` becomes `after` as one thing after the other is sent, with the
/// outcomes given.
pub open spec fn sends_each<B: Bus>(
    before: CanTransport<B>,
    sendings: Seq<Sending>,
    outcomes: Seq<Result<(), Error>>,
    after: CanTransport<B>,
) -> bool
    decreases sendings.len(),
{
    &&& outcomes.len() == sendings.len()
    &&& if sendings.len() == 0 {
        after == before
    } else {
        exists|next: CanTransport<B>| #[trigger]
            before.sends(sendings[0].target, sendings[0].bytes, outcomes[0], next) && sends_each(
                next,
                sendings.drop_first(),
                outcomes.drop_first(),
                after,
            )
    }
}

/// `before` becomes `after` as the bus is read again and again.
pub open spec fn reads_each<B: Bus>(
    before: CanTransport<B>,
    readings: Seq<Reading>,
    after: CanTransport<B>,
) -> bool
    decreases readings.len(),
{
    if readings.len() == 0 {
        after == before
    } else {
        exists|next: CanTransport<B>| #[trigger]
            before.reads(readings[0].read, readings[0].name, next) && reads_each(
                next,
                readings.drop_first(),
                after,
            )
    }
}

/// The frame that a transport makes of a sending, where its target can be
/// read.
pub open spec fn frame_of<B: Bus>(
    transport: CanTransport<B>,
    sending: Sending,
) -> Option<FrameView> {
    match uri::identifier(sending.target, transport.id()) {
        Some(id) => Some(frame_under(transport, id, sending.bytes)),
        None => None,
    }
}

/// Whether a transport can send it.
pub open spec fn sendable<B: Bus>(transport: CanTransport<B>, sending: Sending) -> bool {
    frame_of(transport, sending) matches Some(frame) && frame.fits()
}

/// The frames that a transport makes of the sendings.
pub open spec fn frames_of<B: Bus>(
    transport: CanTransport<B>,
    sendings: Seq<Sending>,
) -> Seq<FrameView> {
    sendings.map_values(|sending: Sending| frame_of(transport, sending)->0)
}

proof fn lemma_loopback_takes_each(
    before: CanTransport<Loopback>,
    sendings: Seq<Sending>,
    outcomes: Seq<Result<(), Error>>,
    after: CanTransport<Loopback>,
)
    requires
        forall|i: int| 0 <= i < sendings.len() ==> sendable(before, #[trigger] sendings[i]),
        sends_each(before, sendings, outcomes, after),
    ensures
        forall|i: int| 0 <= i < outcomes.len() ==> (#[trigger] outcomes[i]) is Ok,
        before.set_up_as(after),
        after.bus()@ == before.bus()@ + frames_of(before, sendings),
    decreases sendings.len(),
{
    if sendings.len() > 0 {
        let rest = sendings.drop_first();
        let next = choose|next: CanTransport<Loopback>| #[trigger]
            before.sends(sendings[0].target, sendings[0].bytes, outcomes[0], next) && sends_each(
                next,
                rest,
                outcomes.drop_first(),
                after,
            );
        assert(sendable(before, sendings[0]));
        assert forall|i: int| 0 <= i < rest.len() implies sendable(next, #[trigger] rest[i]) by {
            assert(sendable(before, sendings[i + 1]));
        }
        lemma_loopback_takes_each(next, rest, outcomes.drop_first(), after);
        assert forall|i: int| 0 <= i < outcomes.len() implies (#[trigger] outcomes[i]) is Ok by {
            if i > 0 {
                assert(outcomes[i] == outcomes.drop_first()[i - 1]);
            }
        }
        assert(frames_of(next, rest) =~= frames_of(before, rest));
        assert(frames_of(before, sendings) =~= seq![frame_of(before, sendings[0])->0] + frames_of(
            before,
            rest,
        ));
    }
    assert(after.bus()@ =~= before.bus()@ + frames_of(before, sendings));
}

proof fn lemma_loopback_gives_each(
    before: CanTransport<Loopback>,
    readings: Seq<Reading>,
    after: CanTransport<Loopback>,
)
    requires
        readings.len() <= before.bus()@.len(),
        reads_each(before, readings, after),
    ensures
        forall|i: int|
            0 <= i < readings.len() ==> {
                &&& (#[trigger] readings[i]).read matches Ok(Some(frame))
                &&& frame@ == before.bus()@[i]
                &&& readings[i].name == "loopback"@
            },
        before.set_up_as(after),
        after.bus()@ == before.bus()@.skip(readings.len() as int),
    decreases readings.len(),
{
    if readings.len() > 0 {
        let rest = readings.drop_first();
        let next = choose|next: CanTransport<Loopback>| #[trigger]
            before.reads(readings[0].read, readings[0].name, next) && reads_each(
                next,
                rest,
                after,
            );
        lemma_loopback_gives_each(next, rest, after);
        assert forall|i: int| 0 <= i < readings.len() implies {
            &&& (#[trigger] readings[i]).read matches Ok(Some(frame))
            &&& frame@ == before.bus()@[i]
            &&& readings[i].name == "loopback"@
        } by {
            if i > 0 {
                assert(readings[i] == rest[i - 1]);
            }
        }
    }
    assert(after.bus()@ =~= before.bus()@.skip(readings.len() as int));
}

/// One frame is one Stream, in order: whatever is sent over an in-process bus
/// with nothing on it, as often as may be, is what as many reads then give,
/// each the bytes sent, with the identifier and the format in the origin. The
/// bus is then quiet again.
pub proof fn law_what_is_sent_arrives(
    before: CanTransport<Loopback>,
    sendings: Seq<Sending>,
    outcomes: Seq<Result<(), Error>>,
    full: CanTransport<Loopback>,
    readings: Seq<Reading>,
    after: CanTransport<Loopback>,
)
    requires
        before.bus()@.len() == 0,
        forall|i: int| 0 <= i < sendings.len() ==> sendable(before, #[trigger] sendings[i]),
        sends_each(before, sendings, outcomes, full),
        readings.len() == sendings.len(),
        reads_each(full, readings, after),
    ensures
        forall|i: int| 0 <= i < outcomes.len() ==> (#[trigger] outcomes[i]) is Ok,
        forall|i: int|
            0 <= i < readings.len() ==> {
                let sent = frame_of(before, sendings[i])->0;
                &&& (#[trigger] readings[i]).read matches Ok(Some(frame))
                &&& crate::stream::arrival(readings[i].name, frame@) == (ArrivedView {
                    origin_uri: uri::origin("loopback"@, sent.id, sent.extended),
                    bytes: sendings[i].bytes,
                })
            },
        after.bus()@.len() == 0,
        before.set_up_as(after),
{
    lemma_loopback_takes_each(before, sendings, outcomes, full);
    lemma_loopback_gives_each(full, readings, after);
    assert forall|i: int| 0 <= i < readings.len() implies {
        let sent = frame_of(before, sendings[i])->0;
        &&& (#[trigger] readings[i]).read matches Ok(Some(frame))
        &&& crate::stream::arrival(readings[i].name, frame@) == (ArrivedView {
            origin_uri: uri::origin("loopback"@, sent.id, sent.extended),
            bytes: sendings[i].bytes,
        })
    } by {
        assert(sendable(before, sendings[i]));
        assert(full.bus()@[i] == frames_of(before, sendings)[i]);
    }
}

proof fn lemma_sending_keeps_setup<B: Bus>(
    before: CanTransport<B>,
    target: Seq<char>,
    pieces: Seq<Seq<u8>>,
    outcome: Result<(), Error>,
    after: CanTransport<B>,
)
    requires
        before.sends_all(target, pieces, outcome, after),
    ensures
        before.set_up_as(after),
    decreases pieces.len(),
{
    if pieces.len() > 0 {
        let (sent, next) = choose|sent: Result<(), Error>, next: CanTransport<B>| #[trigger]
            before.sends(target, pieces[0], sent, next) && match sent {
                Ok(_) => next.sends_all(target, pieces.drop_first(), outcome, after),
                Err(error) => outcome == Err::<(), Error>(error) && after == next,
            };
        if sent is Ok {
            lemma_sending_keeps_setup(next, target, pieces.drop_first(), outcome, after);
        }
    }
}

proof fn lemma_draining_keeps_setup<B: Bus>(
    before: CanTransport<B>,
    count: nat,
    so_far: GatheringView,
    outcome: Result<Arrived, Error>,
    after: CanTransport<B>,
)
    requires
        before.drains(count, so_far, outcome, after),
    ensures
        before.set_up_as(after),
    decreases count,
{
    let (read, name, next) = choose|
        read: Result<Option<Frame>, Error>,
        name: Seq<char>,
        next: CanTransport<B>,
    | #[trigger]
        before.reads(read, name, next) && match read {
            Ok(Some(frame)) => count > 0 && next.drains(
                (count - 1) as nat,
                so_far.with(crate::stream::arrival(name, frame@)),
                outcome,
                after,
            ),
            Ok(None) => count == 0 && so_far.ends_in(outcome) && after == next,
            Err(error) => {
                &&& count == 0
                &&& outcome == Err::<Arrived, Error>(error)
                &&& after == next
            },
        };
    if let Ok(Some(frame)) = read {
        lemma_draining_keeps_setup(
            next,
            (count - 1) as nat,
            so_far.with(crate::stream::arrival(name, frame@)),
            outcome,
            after,
        );
    }
}

/// Over whatever bus: a round that succeeds returns the bytes that were sent,
/// and no round changes the transport's identifier, format or timeout.
pub proof fn law_round_is_honest<B: Bus>(
    before: CanTransport<B>,
    payload: Seq<u8>,
    outcome: Result<Arrived, Error>,
    after: CanTransport<B>,
)
    requires
        before.rounds(payload, outcome, after),
    ensures
        outcome matches Ok(arrived) ==> arrived@.bytes == payload,
        before.set_up_as(after),
{
    let pieces = crate::stream::pieces(payload);
    let (sent, full) = choose|sent: Result<(), Error>, full: CanTransport<B>| #[trigger]
        before.begins_round(payload, sent, full) && match sent {
            Ok(_) => exists|taken: Result<Arrived, Error>| #[trigger]
                full.takes_one(taken, after) && crate::stream::concludes(
                    payload,
                    taken,
                    outcome,
                ),
            Err(error) => outcome == Err::<Arrived, Error>(error) && after == full,
        };
    let name = choose|name: Seq<char>| #[trigger]
        before.bus().may_be_named(name) && before.sends_all(
            uri::target(name, before.id()),
            pieces,
            sent,
            full,
        );
    let target = uri::target(name, before.id());
    lemma_sending_keeps_setup(before, target, pieces, sent, full);
    if sent is Ok {
        let taken = choose|taken: Result<Arrived, Error>| #[trigger]
            full.takes_one(taken, after) && crate::stream::concludes(payload, taken, outcome);
        let count = choose|count: nat|
            full.drains(count, GatheringView::nothing(), taken, after);
        lemma_draining_keeps_setup(full, count, GatheringView::nothing(), taken, after);
    }
}

/// What comes of reading the bus `count` times more and asking
/// `Gathering::after_in_round` after each read, with `gathered` read before,
/// until it is done.
pub open spec fn steps_on<B: Bus>(
    before: CanTransport<B>,
    count: nat,
    gathered: GatheringView,
    payload: Seq<u8>,
    outcome: Result<Arrived, Error>,
    after: CanTransport<B>,
) -> bool
    decreases count,
{
    exists|read: Result<Option<Frame>, Error>, name: Seq<char>, next: CanTransport<B>| #[trigger]
        before.reads(read, name, next) && match read {
            Ok(Some(frame)) => count > 0 && steps_on(
                next,
                (count - 1) as nat,
                gathered.with(crate::stream::arrival(name, frame@)),
                payload,
                outcome,
                after,
            ),
            Ok(None) => count == 0 && after == next && exists|
                taken: Result<Arrived, Error>,
            | #[trigger]
                gathered.ends_in(taken) && crate::stream::concludes(payload, taken, outcome),
            Err(error) => {
                &&& count == 0
                &&& outcome == Err::<Arrived, Error>(error)
                &&& after == next
            },
        }
}

proof fn lemma_steps_drain<B: Bus>(
    before: CanTransport<B>,
    count: nat,
    so_far: GatheringView,
    payload: Seq<u8>,
    outcome: Result<Arrived, Error>,
    after: CanTransport<B>,
) -> (taken: Result<Arrived, Error>)
    requires
        steps_on(before, count, so_far, payload, outcome, after),
    ensures
        before.drains(count, so_far, taken, after),
        crate::stream::concludes(payload, taken, outcome),
    decreases count,
{
    let (read, name, next) = choose|
        read: Result<Option<Frame>, Error>,
        name: Seq<char>,
        next: CanTransport<B>,
    | #[trigger]
        before.reads(read, name, next) && match read {
            Ok(Some(frame)) => count > 0 && steps_on(
                next,
                (count - 1) as nat,
                so_far.with(crate::stream::arrival(name, frame@)),
                payload,
                outcome,
                after,
            ),
            Ok(None) => count == 0 && after == next && exists|
                taken: Result<Arrived, Error>,
            | #[trigger]
                so_far.ends_in(taken) && crate::stream::concludes(payload, taken, outcome),
            Err(error) => {
                &&& count == 0
                &&& outcome == Err::<Arrived, Error>(error)
                &&& after == next
            },
        };
    let taken = match read {
        Ok(Some(frame)) => lemma_steps_drain(
            next,
            (count - 1) as nat,
            so_far.with(crate::stream::arrival(name, frame@)),
            payload,
            outcome,
            after,
        ),
        Ok(None) => choose|taken: Result<Arrived, Error>| #[trigger]
            so_far.ends_in(taken) && crate::stream::concludes(payload, taken, outcome),
        Err(error) => Err(error),
    };
    assert(before.reads(read, name, next));
    taken
}

/// A round taken step by step, over whatever bus, is a round: begun, and then
/// read on until it is done.
pub proof fn law_steps_make_a_round<B: Bus>(
    before: CanTransport<B>,
    payload: Seq<u8>,
    full: CanTransport<B>,
    count: nat,
    outcome: Result<Arrived, Error>,
    after: CanTransport<B>,
)
    requires
        before.begins_round(payload, Ok(()), full),
        steps_on(full, count, GatheringView::nothing(), payload, outcome, after),
    ensures
        before.rounds(payload, outcome, after),
{
    let taken = lemma_steps_drain(
        full,
        count,
        GatheringView::nothing(),
        payload,
        outcome,
        after,
    );
    assert(full.takes_one(taken, after));
}

/// The frames that carry the pieces of a Stream.
pub open spec fn frames_under(id: u32, extended: bool, pieces: Seq<Seq<u8>>) -> Seq<FrameView> {
    pieces.map_values(|piece: Seq<u8>| FrameView { id, extended, data: piece })
}

/// Everything that the frames carry, one behind the other.
pub open spec fn data_of(frames: Seq<FrameView>) -> Seq<u8>
    decreases frames.len(),
{
    if frames.len() == 0 {
        Seq::empty()
    } else {
        frames[0].data + data_of(frames.drop_first())
    }
}

/// What the far end has gathered once it has read the frames.
pub open spec fn gathered(so_far: GatheringView, frames: Seq<FrameView>) -> GatheringView
    decreases frames.len(),
{
    if frames.len() == 0 {
        so_far
    } else {
        gathered(
            so_far.with(crate::stream::arrival("loopback"@, frames[0])),
            frames.drop_first(),
        )
    }
}

proof fn lemma_data_of_both(first: Seq<FrameView>, second: Seq<FrameView>)
    ensures
        data_of(first + second) == data_of(first) + data_of(second),
    decreases first.len(),
{
    if first.len() == 0 {
        assert(first + second =~= second);
    } else {
        lemma_data_of_both(first.drop_first(), second);
        assert((first + second).drop_first() =~= first.drop_first() + second);
    }
    assert(data_of(first + second) =~= data_of(first) + data_of(second));
}

proof fn lemma_data_of_pieces(id: u32, extended: bool, pieces: Seq<Seq<u8>>)
    ensures
        data_of(frames_under(id, extended, pieces)) == pieces.flatten(),
    decreases pieces.len(),
{
    let frames = frames_under(id, extended, pieces);
    if pieces.len() > 0 {
        lemma_data_of_pieces(id, extended, pieces.drop_first());
        assert(frames.drop_first() =~= frames_under(id, extended, pieces.drop_first()));
    }
    assert(data_of(frames) =~= pieces.flatten());
}

proof fn lemma_gathered(so_far: GatheringView, frames: Seq<FrameView>)
    ensures
        gathered(so_far, frames).bytes == so_far.bytes + data_of(frames),
        gathered(so_far, frames).origin == if frames.len() == 0 {
            so_far.origin
        } else {
            Some(uri::origin("loopback"@, frames.last().id, frames.last().extended))
        },
    decreases frames.len(),
{
    if frames.len() > 0 {
        lemma_gathered(
            so_far.with(crate::stream::arrival("loopback"@, frames[0])),
            frames.drop_first(),
        );
        if frames.len() > 1 {
            assert(frames.drop_first().last() == frames.last());
        }
    }
    assert(gathered(so_far, frames).bytes =~= so_far.bytes + data_of(frames));
}

/// Sending pieces that fit, over the in-process bus, puts each of them on it.
pub proof fn law_loopback_takes_every_piece(
    before: CanTransport<Loopback>,
    target: Seq<char>,
    id: u32,
    pieces: Seq<Seq<u8>>,
    outcome: Result<(), Error>,
    after: CanTransport<Loopback>,
)
    requires
        uri::identifier(target, before.id()) == Some(id),
        forall|i: int|
            0 <= i < pieces.len() ==> frame_under(before, id, #[trigger] pieces[i]).fits(),
        before.sends_all(target, pieces, outcome, after),
    ensures
        outcome is Ok,
        before.set_up_as(after),
        after.bus()@ == before.bus()@ + frames_under(
            id,
            before.extended() || id > 0x7ff,
            pieces,
        ),
    decreases pieces.len(),
{
    let extended = before.extended() || id > 0x7ff;
    if pieces.len() > 0 {
        let (sent, next) = choose|sent: Result<(), Error>, next: CanTransport<Loopback>| #[trigger]
            before.sends(target, pieces[0], sent, next) && match sent {
                Ok(_) => next.sends_all(target, pieces.drop_first(), outcome, after),
                Err(error) => outcome == Err::<(), Error>(error) && after == next,
            };
        assert(frame_under(before, id, pieces[0]).fits());
        assert forall|i: int| 0 <= i < pieces.drop_first().len() implies frame_under(
            next,
            id,
            #[trigger] pieces.drop_first()[i],
        ).fits() by {
            assert(frame_under(before, id, pieces[i + 1]).fits());
        }
        law_loopback_takes_every_piece(next, target, id, pieces.drop_first(), outcome, after);
        assert(frames_under(id, extended, pieces) =~= seq![frame_under(before, id, pieces[0])]
            + frames_under(id, extended, pieces.drop_first()));
    }
    assert(after.bus()@ =~= before.bus()@ + frames_under(id, extended, pieces));
}

/// Reading the in-process bus until it is quiet takes everything off it.
proof fn lemma_loopback_drains(
    before: CanTransport<Loopback>,
    count: nat,
    so_far: GatheringView,
    outcome: Result<Arrived, Error>,
    after: CanTransport<Loopback>,
)
    requires
        before.drains(count, so_far, outcome, after),
    ensures
        before.set_up_as(after),
        after.bus()@.len() == 0,
        gathered(so_far, before.bus()@).ends_in(outcome),
    decreases count,
{
    let (read, name, next) = choose|
        read: Result<Option<Frame>, Error>,
        name: Seq<char>,
        next: CanTransport<Loopback>,
    | #[trigger]
        before.reads(read, name, next) && match read {
            Ok(Some(frame)) => count > 0 && next.drains(
                (count - 1) as nat,
                so_far.with(crate::stream::arrival(name, frame@)),
                outcome,
                after,
            ),
            Ok(None) => count == 0 && so_far.ends_in(outcome) && after == next,
            Err(error) => {
                &&& count == 0
                &&& outcome == Err::<Arrived, Error>(error)
                &&& after == next
            },
        };
    if let Ok(Some(frame)) = read {
        lemma_loopback_drains(
            next,
            (count - 1) as nat,
            so_far.with(crate::stream::arrival("loopback"@, frame@)),
            outcome,
            after,
        );
    }
}

/// The far end takes everything off the in-process bus as one Stream, under
/// the last frame's origin; off a bus with nothing on it, it takes nothing.
pub proof fn law_far_end_takes_everything(
    before: CanTransport<Loopback>,
    outcome: Result<Arrived, Error>,
    after: CanTransport<Loopback>,
)
    requires
        before.takes_one(outcome, after),
    ensures
        before.set_up_as(after),
        after.bus()@.len() == 0,
        if before.bus()@.len() == 0 {
            outcome == Err::<Arrived, Error>(Error::NothingArrived)
        } else {
            &&& outcome matches Ok(arrived)
            &&& arrived@ == (ArrivedView {
                origin_uri: uri::origin(
                    "loopback"@,
                    before.bus()@.last().id,
                    before.bus()@.last().extended,
                ),
                bytes: data_of(before.bus()@),
            })
        },
{
    let count = choose|count: nat| before.drains(count, GatheringView::nothing(), outcome, after);
    lemma_loopback_drains(before, count, GatheringView::nothing(), outcome, after);
    lemma_gathered(GatheringView::nothing(), before.bus()@);
    assert(Seq::<u8>::empty() + data_of(before.bus()@) =~= data_of(before.bus()@));
}

/// A round over the in-process bus. Under an identifier that fits, a Stream of
/// any length, the empty one too, comes back whole, with the identifier and
/// the format in the origin, provided that no byte was on the bus before;
/// bytes left there by someone else are noticed. Either way the bus is empty
/// afterwards. Under an identifier that does not fit nothing is sent.
pub proof fn law_round_returns_the_stream(
    before: CanTransport<Loopback>,
    payload: Seq<u8>,
    outcome: Result<Arrived, Error>,
    after: CanTransport<Loopback>,
)
    requires
        before.rounds(payload, outcome, after),
    ensures
        if !frame_under(before, before.id(), Seq::empty()).fits() {
            outcome == Err::<Arrived, Error>(Error::IdentifierTooWide) && after == before
        } else {
            &&& before.set_up_as(after)
            &&& after.bus()@.len() == 0
            &&& if data_of(before.bus()@).len() == 0 {
                outcome matches Ok(arrived) && arrived@ == (ArrivedView {
                    origin_uri: uri::origin(
                        "loopback"@,
                        before.id(),
                        before.extended() || before.id() > 0x7ff,
                    ),
                    bytes: payload,
                })
            } else {
                outcome == Err::<Arrived, Error>(Error::Differs)
            }
        },
{
    let id = before.id();
    let extended = before.extended() || id > 0x7ff;
    let pieces = crate::stream::pieces(payload);
    let (sent, full) = choose|sent: Result<(), Error>, full: CanTransport<Loopback>| #[trigger]
        before.begins_round(payload, sent, full) && match sent {
            Ok(_) => exists|taken: Result<Arrived, Error>| #[trigger]
                full.takes_one(taken, after) && crate::stream::concludes(
                    payload,
                    taken,
                    outcome,
                ),
            Err(error) => outcome == Err::<Arrived, Error>(error) && after == full,
        };
    let name = choose|name: Seq<char>| #[trigger]
        before.bus().may_be_named(name) && before.sends_all(
            uri::target(name, before.id()),
            pieces,
            sent,
            full,
        );
    let target = uri::target(name, before.id());
    uri::law_target_names_its_identifier(name, id, id);
    crate::stream::law_pieces_are_the_stream(payload);
    assert(pieces[0].len() <= DATA_MAX);
    if frame_under(before, id, Seq::empty()).fits() {
        law_loopback_takes_every_piece(before, target, id, pieces, sent, full);
        let taken = choose|taken: Result<Arrived, Error>| #[trigger]
            full.takes_one(taken, after) && crate::stream::concludes(payload, taken, outcome);
        law_far_end_takes_everything(full, taken, after);
        let frames = frames_under(id, extended, pieces);
        assert(full.bus()@.last() == frames.last());
        assert(frames.last() == FrameView { id, extended, data: pieces.last() });
        lemma_data_of_both(before.bus()@, frames);
        lemma_data_of_pieces(id, extended, pieces);
        assert(data_of(full.bus()@) == data_of(before.bus()@) + payload);
        if data_of(before.bus()@).len() == 0 {
            assert(data_of(full.bus()@) =~= payload);
        }
    }
}

/// Whatever a node does, in whatever turns, it hears what was on its way to it, in
/// order, and what it says stands behind what it said before, in order.
pub proof fn law_a_node_keeps_order<'a>(
    before: Node<'a>,
    timeout: Duration,
    events: Seq<Event>,
    after: Node<'a>,
)
    requires
        happens(before, timeout, events, after),
    ensures
        read(events) + after@.heard == before@.heard,
        after@.said == before@.said + put(events),
    decreases events.len(),
{
    if events.len() > 0 {
        let rest = events.drop_first();
        let next = choose|next: Node<'a>| #[trigger]
            step(before, timeout, events[0], next) && happens(next, timeout, rest, after);
        law_a_node_keeps_order(next, timeout, rest, after);
        match events[0] {
            Event::Put(frame) => {
                assert(next@.said + put(rest) =~= before@.said + put(events));
            },
            Event::Read(Some(frame)) => {
                assert(before@.heard =~= seq![frame@] + next@.heard);
                assert(read(events) + after@.heard =~= seq![frame@] + (read(rest)
                    + after@.heard));
            },
            Event::Read(None) => {},
        }
    }
    assert(read(events) + after@.heard =~= before@.heard);
    assert(after@.said =~= before@.said + put(events));
}

/// What is not a transport's to change: its timeout, its identifier and its
/// format.
pub proof fn law_set_up_is_all_but_the_bus<B>(before: CanTransport<B>, after: CanTransport<B>)
    ensures
        before.set_up_as(after) <==> after.timeout() == before.timeout() && after.id()
            == before.id() && after.extended() == before.extended(),
{
}

/// A read asks the bus for one frame, for as long as the transport waits, and
/// for its name where one came; the transport is set up as it was.
pub proof fn law_a_read_is_one_read_of_the_bus<B: Bus>(
    before: CanTransport<B>,
    read: Result<Option<Frame>, Error>,
    name: Seq<char>,
    after: CanTransport<B>,
)
    requires
        before.reads(read, name, after),
    ensures
        before.bus().may_receive(before.timeout(), read, &after.bus()),
        read matches Ok(Some(_)) ==> after.bus().may_be_named(name),
        after.timeout() == before.timeout(),
        after.id() == before.id(),
        after.extended() == before.extended(),
{
}

/// What a read of whatever bus is to whoever reads Streams: a frame is its
/// data, under an origin that names that bus, the frame's identifier and its
/// format; quiet is quiet, and a failure the same failure.
pub proof fn law_what_is_read_arrives(
    bus: Seq<char>,
    read: Result<Option<Frame>, Error>,
    outcome: Result<Option<Arrived>, Error>,
)
    requires
        crate::transport::arrives(bus, read, outcome),
    ensures
        match read {
            Ok(Some(frame)) => {
                &&& outcome matches Ok(Some(arrived))
                &&& arrived.bytes@ == frame.data@
                &&& arrived.origin_uri@ == uri::origin(bus, frame.id, frame.extended)
            },
            Ok(None) => outcome == Ok::<Option<Arrived>, Error>(None),
            Err(error) => outcome == Err::<Option<Arrived>, Error>(error),
        },
{
}

/// Two Streams read off buses of different names never have the same origin,
/// nor two of different identifiers or formats.
pub proof fn law_origins_tell_buses_apart(
    bus: Seq<char>,
    frame: Frame,
    arrived: Arrived,
    other_bus: Seq<char>,
    other: Frame,
    other_arrived: Arrived,
)
    requires
        crate::transport::arrives(bus, Ok(Some(frame)), Ok(Some(arrived))),
        crate::transport::arrives(other_bus, Ok(Some(other)), Ok(Some(other_arrived))),
    ensures
        arrived.origin_uri@ == other_arrived.origin_uri@ <==> bus == other_bus && frame.id
            == other.id && frame.extended == other.extended,
{
    crate::stream::law_arrivals_tell_frames_apart(bus, frame@, other_bus, other@);
}

/// Everything that sending comes to, on whatever bus. A target whose
/// identifier cannot be read is told by its last segment; more than eight
/// bytes and then an identifier of more than twenty-nine bits are refused;
/// all else is handed to the bus, one frame with every byte, extended where
/// the transport is or the identifier has more than eleven bits. What is
/// refused changes nothing.
pub proof fn law_a_send_is_one_frame<B: Bus>(
    before: CanTransport<B>,
    target: Seq<char>,
    bytes: Seq<u8>,
    outcome: Result<(), Error>,
    after: CanTransport<B>,
)
    requires
        before.sends(target, bytes, outcome, after),
    ensures
        match uri::identifier(target, before.id()) {
            None => {
                &&& outcome matches Err(Error::NotAnIdentifier(segment))
                &&& segment@ == uri::last_segment(target)
                &&& after == before
            },
            Some(id) => {
                &&& bytes.len() > 8 ==> outcome == Err::<(), Error>(Error::TooManyBytes) && after
                    == before
                &&& bytes.len() <= 8 && id > 0x1fff_ffff ==> outcome == Err::<(), Error>(
                    Error::IdentifierTooWide,
                ) && after == before
                &&& bytes.len() <= 8 && id <= 0x1fff_ffff ==> {
                    &&& before.bus().may_transmit(
                        FrameView {
                            id,
                            extended: before.extended() || id > 0x7ff,
                            data: bytes,
                        },
                        outcome,
                        &after.bus(),
                    )
                    &&& after.timeout() == before.timeout()
                    &&& after.id() == before.id()
                    &&& after.extended() == before.extended()
                }
            },
        },
{
}

proof fn lemma_done_is_done(outcome: Result<(), Error>)
    requires
        outcome is Ok,
    ensures
        outcome == Ok::<(), Error>(()),
{
    if let Ok(unit) = outcome {
        let () = unit;
    }
}

/// The pieces of a Stream go out one after the other, on whatever bus: each is
/// sent where the one before it left off and succeeded, and the first failure
/// is the outcome and the end. `states` are what the transport goes through.
pub proof fn law_pieces_go_out_in_turn<B: Bus>(
    before: CanTransport<B>,
    target: Seq<char>,
    pieces: Seq<Seq<u8>>,
    outcome: Result<(), Error>,
    after: CanTransport<B>,
) -> (states: Seq<CanTransport<B>>)
    requires
        before.sends_all(target, pieces, outcome, after),
    ensures
        0 < states.len() <= pieces.len() + 1,
        states.first() == before,
        states.last() == after,
        forall|i: int|
            0 <= i < states.len() - 1 ==> states[i].sends(
                target,
                #[trigger] pieces[i],
                if i == states.len() - 2 {
                    outcome
                } else {
                    Ok(())
                },
                states[i + 1],
            ),
        outcome is Ok ==> states.len() == pieces.len() + 1,
        outcome is Err ==> states.len() > 1,
    decreases pieces.len(),
{
    if pieces.len() == 0 {
        seq![before]
    } else {
        let (sent, next) = choose|sent: Result<(), Error>, next: CanTransport<B>| #[trigger]
            before.sends(target, pieces[0], sent, next) && match sent {
                Ok(_) => next.sends_all(target, pieces.drop_first(), outcome, after),
                Err(error) => outcome == Err::<(), Error>(error) && after == next,
            };
        if sent is Ok {
            let rest = law_pieces_go_out_in_turn(
                next,
                target,
                pieces.drop_first(),
                outcome,
                after,
            );
            let states = seq![before] + rest;
            assert forall|i: int| 0 <= i < states.len() - 1 implies states[i].sends(
                target,
                #[trigger] pieces[i],
                if i == states.len() - 2 {
                    outcome
                } else {
                    Ok(())
                },
                states[i + 1],
            ) by {
                if i > 0 {
                    assert(states[i] == rest[i - 1]);
                    assert(states[i + 1] == rest[i]);
                    assert(pieces.drop_first()[i - 1] == pieces[i]);
                } else {
                    lemma_done_is_done(sent);
                    if rest.len() == 1 {
                        lemma_done_is_done(outcome);
                    }
                    assert(states[1] == rest.first());
                }
            }
            states
        } else {
            seq![before, next]
        }
    }
}

/// As `law_the_far_end_reads_until_quiet`, with something gathered before.
proof fn lemma_drains_in_turn<B: Bus>(
    before: CanTransport<B>,
    count: nat,
    so_far: GatheringView,
    outcome: Result<Arrived, Error>,
    after: CanTransport<B>,
) -> (trace: (Seq<CanTransport<B>>, Seq<Reading>))
    requires
        before.drains(count, so_far, outcome, after),
    ensures
        trace.1.len() == count + 1,
        trace.0.len() == trace.1.len() + 1,
        trace.0.first() == before,
        trace.0.last() == after,
        forall|i: int|
            0 <= i < trace.1.len() ==> trace.0[i].reads(
                (#[trigger] trace.1[i]).read,
                trace.1[i].name,
                trace.0[i + 1],
            ),
        forall|i: int|
            0 <= i < trace.1.len() - 1 ==> ((#[trigger] trace.1[i]).read matches Ok(Some(_))),
        match trace.1.last().read {
            Ok(Some(_)) => false,
            Ok(None) => if trace.1.len() == 1 {
                so_far.ends_in(outcome)
            } else {
                let last = trace.1[trace.1.len() - 2];
                let frame = last.read->Ok_0->Some_0;
                &&& outcome matches Ok(arrived)
                &&& arrived.bytes@ == so_far.bytes + trace.1.drop_last().map_values(
                    |reading: Reading| reading.read->Ok_0->Some_0.data@,
                ).flatten()
                &&& arrived.origin_uri@ == uri::origin(last.name, frame.id, frame.extended)
            },
            Err(error) => outcome == Err::<Arrived, Error>(error),
        },
    decreases count,
{
    let (read, name, next) = choose|
        read: Result<Option<Frame>, Error>,
        name: Seq<char>,
        next: CanTransport<B>,
    | #[trigger]
        before.reads(read, name, next) && match read {
            Ok(Some(frame)) => count > 0 && next.drains(
                (count - 1) as nat,
                so_far.with(crate::stream::arrival(name, frame@)),
                outcome,
                after,
            ),
            Ok(None) => count == 0 && so_far.ends_in(outcome) && after == next,
            Err(error) => {
                &&& count == 0
                &&& outcome == Err::<Arrived, Error>(error)
                &&& after == next
            },
        };
    let reading = Reading { read, name };
    match read {
        Ok(Some(frame)) => {
            let arrival = crate::stream::arrival(name, frame@);
            let (rest_states, rest) = lemma_drains_in_turn(
                next,
                (count - 1) as nat,
                so_far.with(arrival),
                outcome,
                after,
            );
            let states = seq![before] + rest_states;
            let readings = seq![reading] + rest;
            assert forall|i: int| 0 <= i < readings.len() implies states[i].reads(
                (#[trigger] readings[i]).read,
                readings[i].name,
                states[i + 1],
            ) by {
                if i > 0 {
                    assert(states[i] == rest_states[i - 1]);
                    assert(states[i + 1] == rest_states[i]);
                    assert(readings[i] == rest[i - 1]);
                }
            }
            assert forall|i: int| 0 <= i < readings.len() - 1 implies ((#[trigger] readings[i]).read
                matches Ok(Some(_))) by {
                if i > 0 {
                    assert(readings[i] == rest[i - 1]);
                }
            }
            let data = |reading: Reading| reading.read->Ok_0->Some_0.data@;
            let all = readings.drop_last().map_values(data);
            assert(all.drop_first() =~= rest.drop_last().map_values(data));
            assert(all.first() == frame.data@);
            assert(all.flatten() == frame.data@ + all.drop_first().flatten());
            assert(so_far.bytes + all.flatten() =~= (so_far.bytes + frame.data@)
                + all.drop_first().flatten());
            assert(readings.last() == rest.last());
            if rest.len() > 1 {
                assert(readings[readings.len() - 2] == rest[rest.len() - 2]);
            } else {
                assert(rest.drop_last().map_values(data) =~= Seq::<Seq<u8>>::empty());
                assert(so_far.with(arrival).bytes =~= so_far.bytes + all.flatten());
            }
            (states, readings)
        },
        _ => (seq![before, next], seq![reading]),
    }
}

/// The far end, on whatever bus, reads one frame after the other until the
/// bus is quiet or fails, and no further. A failure is the outcome; quiet from
/// the start is told; and otherwise it takes the data of every frame it read,
/// one behind the other, under the last one's origin. `trace` is what the
/// transport goes through, and the readings.
pub proof fn law_the_far_end_reads_until_quiet<B: Bus>(
    before: CanTransport<B>,
    outcome: Result<Arrived, Error>,
    after: CanTransport<B>,
) -> (trace: (Seq<CanTransport<B>>, Seq<Reading>))
    requires
        before.takes_one(outcome, after),
    ensures
        trace.1.len() > 0,
        trace.0.len() == trace.1.len() + 1,
        trace.0.first() == before,
        trace.0.last() == after,
        forall|i: int|
            0 <= i < trace.1.len() ==> trace.0[i].reads(
                (#[trigger] trace.1[i]).read,
                trace.1[i].name,
                trace.0[i + 1],
            ),
        forall|i: int|
            0 <= i < trace.1.len() - 1 ==> ((#[trigger] trace.1[i]).read matches Ok(Some(_))),
        match trace.1.last().read {
            Ok(Some(_)) => false,
            Ok(None) => if trace.1.len() == 1 {
                outcome == Err::<Arrived, Error>(Error::NothingArrived)
            } else {
                let last = trace.1[trace.1.len() - 2];
                let frame = last.read->Ok_0->Some_0;
                &&& outcome matches Ok(arrived)
                &&& arrived.bytes@ == trace.1.drop_last().map_values(
                    |reading: Reading| reading.read->Ok_0->Some_0.data@,
                ).flatten()
                &&& arrived.origin_uri@ == uri::origin(last.name, frame.id, frame.extended)
            },
            Err(error) => outcome == Err::<Arrived, Error>(error),
        },
{
    let count = choose|count: nat| before.drains(count, GatheringView::nothing(), outcome, after);
    let trace = lemma_drains_in_turn(before, count, GatheringView::nothing(), outcome, after);
    if let Ok(arrived) = outcome {
        assert(arrived.bytes@ =~= trace.1.drop_last().map_values(
            |reading: Reading| reading.read->Ok_0->Some_0.data@,
        ).flatten());
    }
    trace
}

/// Beginning a round puts the whole Stream on the bus, under a name that the
/// bus gives and the transport's own identifier. `name` is that name.
pub proof fn law_a_round_begins_with_the_stream<B: Bus>(
    before: CanTransport<B>,
    payload: Seq<u8>,
    sent: Result<(), Error>,
    after: CanTransport<B>,
) -> (name: Seq<char>)
    requires
        before.begins_round(payload, sent, after),
    ensures
        before.bus().may_be_named(name),
        before.sends_all(
            "can://"@ + name + "/0x"@ + crate::hex::hex(before.id() as int),
            crate::stream::pieces(payload),
            sent,
            after,
        ),
{
    choose|name: Seq<char>| #[trigger]
        before.bus().may_be_named(name) && before.sends_all(
            uri::target(name, before.id()),
            crate::stream::pieces(payload),
            sent,
            after,
        )
}

/// A round, on whatever bus, is a Stream sent and then taken: what could not
/// be sent is not read, and what was taken is held against what was sent.
/// `middle` is what sending came to, what it left, and, where something was
/// read, what the far end took.
pub proof fn law_a_round_sends_then_takes<B: Bus>(
    before: CanTransport<B>,
    payload: Seq<u8>,
    outcome: Result<Arrived, Error>,
    after: CanTransport<B>,
) -> (middle: (Result<(), Error>, CanTransport<B>, Option<Result<Arrived, Error>>))
    requires
        before.rounds(payload, outcome, after),
    ensures
        before.begins_round(payload, middle.0, middle.1),
        match middle.0 {
            Err(error) => {
                &&& middle.2 is None
                &&& outcome == Err::<Arrived, Error>(error)
                &&& after == middle.1
            },
            Ok(_) => {
                &&& middle.2 matches Some(taken)
                &&& middle.1.takes_one(taken, after)
                &&& match taken {
                    Ok(arrived) => outcome == if arrived.bytes@ == payload {
                        Ok::<Arrived, Error>(arrived)
                    } else {
                        Err(Error::Differs)
                    },
                    Err(error) => outcome == Err::<Arrived, Error>(error),
                }
            },
        },
{
    let (sent, full) = choose|sent: Result<(), Error>, full: CanTransport<B>| #[trigger]
        before.begins_round(payload, sent, full) && match sent {
            Ok(_) => exists|taken: Result<Arrived, Error>| #[trigger]
                full.takes_one(taken, after) && crate::stream::concludes(
                    payload,
                    taken,
                    outcome,
                ),
            Err(error) => outcome == Err::<Arrived, Error>(error) && after == full,
        };
    if sent is Ok {
        let taken = choose|taken: Result<Arrived, Error>| #[trigger]
            full.takes_one(taken, after) && crate::stream::concludes(payload, taken, outcome);
        (sent, full, Some(taken))
    } else {
        (sent, full, None)
    }
}

/// Something done by one of a session's two nodes.
pub enum Turn {
    Near(Event),
    Far(Event),
}

/// A node that stands as `before` does what the event says, waiting however
/// long for what it reads, and then stands as `after`.
pub open spec fn node_step(before: NodeView, event: Event, after: NodeView) -> bool {
    exists|node: Node<'static>, timeout: Duration, left: Node<'static>| #[trigger]
        step(node, timeout, event, left) && node@ == before && left@ == after
}

/// `before` becomes `after` in one turn.
pub open spec fn turn_step(before: SessionView, turn: Turn, after: SessionView) -> bool {
    match turn {
        Turn::Near(event) => node_step(before.near(), event, after.near()),
        Turn::Far(event) => node_step(before.far(), event, after.far()),
    }
}

/// `before` becomes `after` as the two nodes take their turns.
pub open spec fn turns_happen(
    before: SessionView,
    turns: Seq<Turn>,
    after: SessionView,
) -> bool
    decreases turns.len(),
{
    if turns.len() == 0 {
        after == before
    } else {
        exists|next: SessionView| #[trigger]
            turn_step(before, turns[0], next) && turns_happen(next, turns.drop_first(), after)
    }
}

/// What the near node did.
pub open spec fn by_near(turns: Seq<Turn>) -> Seq<Event>
    decreases turns.len(),
{
    if turns.len() == 0 {
        Seq::empty()
    } else {
        match turns[0] {
            Turn::Near(event) => seq![event] + by_near(turns.drop_first()),
            Turn::Far(_) => by_near(turns.drop_first()),
        }
    }
}

/// What the far node did.
pub open spec fn by_far(turns: Seq<Turn>) -> Seq<Event>
    decreases turns.len(),
{
    if turns.len() == 0 {
        Seq::empty()
    } else {
        match turns[0] {
            Turn::Near(_) => by_far(turns.drop_first()),
            Turn::Far(event) => seq![event] + by_far(turns.drop_first()),
        }
    }
}

/// Each node hears the other and not itself: in whatever turns the two nodes
/// transmit and receive, what the far node has received and what is still on
/// its way to it is what was on its way and what the near node transmitted,
/// in order; and the other way round.
pub proof fn law_each_node_hears_the_other(
    before: SessionView,
    turns: Seq<Turn>,
    after: SessionView,
)
    requires
        turns_happen(before, turns, after),
    ensures
        read(by_far(turns)) + after.to_far == before.to_far + put(by_near(turns)),
        read(by_near(turns)) + after.to_near == before.to_near + put(by_far(turns)),
    decreases turns.len(),
{
    if turns.len() == 0 {
        assert(read(by_far(turns)) + after.to_far =~= before.to_far + put(by_near(turns)));
        assert(read(by_near(turns)) + after.to_near =~= before.to_near + put(by_far(turns)));
    } else {
        let rest = turns.drop_first();
        let next = choose|next: SessionView| #[trigger]
            turn_step(before, turns[0], next) && turns_happen(next, rest, after);
        law_each_node_hears_the_other(next, rest, after);
        match turns[0] {
            Turn::Near(event) => {
                lemma_one_more_event(event, by_near(rest));
                lemma_order_kept(
                    before.near(),
                    event,
                    next.near(),
                    read(by_near(rest)) + after.to_near,
                    put(by_far(rest)),
                    put(by_near(rest)),
                );
                assert(read(by_near(turns)) + after.to_near =~= read(seq![event]) + (read(
                    by_near(rest),
                ) + after.to_near));
                assert(put(by_near(turns)) =~= put(seq![event]) + put(by_near(rest)));
            },
            Turn::Far(event) => {
                lemma_one_more_event(event, by_far(rest));
                lemma_order_kept(
                    before.far(),
                    event,
                    next.far(),
                    read(by_far(rest)) + after.to_far,
                    put(by_near(rest)),
                    put(by_far(rest)),
                );
                assert(read(by_far(turns)) + after.to_far =~= read(seq![event]) + (read(
                    by_far(rest),
                ) + after.to_far));
                assert(put(by_far(turns)) =~= put(seq![event]) + put(by_far(rest)));
            },
        }
    }
}

proof fn lemma_one_more_event(event: Event, rest: Seq<Event>)
    ensures
        put(seq![event] + rest) == put(seq![event]) + put(rest),
        read(seq![event] + rest) == read(seq![event]) + read(rest),
{
    let one = seq![event];
    assert((one + rest).drop_first() =~= rest);
    assert(one.drop_first() =~= Seq::<Event>::empty());
    assert(put(one.drop_first()) =~= Seq::<FrameView>::empty());
    assert(read(one.drop_first()) =~= Seq::<FrameView>::empty());
    assert(put(one + rest) =~= put(one) + put(rest));
    assert(read(one + rest) =~= read(one) + read(rest));
}

/// One event at a node, with what follows it: `to_come` is all that the node
/// will have heard, `incoming` and `outgoing` what is put on either way later.
proof fn lemma_order_kept(
    before: NodeView,
    event: Event,
    next: NodeView,
    to_come: Seq<FrameView>,
    incoming: Seq<FrameView>,
    outgoing: Seq<FrameView>,
)
    requires
        node_step(before, event, next),
        to_come == next.heard + incoming,
    ensures
        read(seq![event]) + to_come == before.heard + incoming,
        next.said + outgoing == before.said + (put(seq![event]) + outgoing),
{
    let one = seq![event];
    let (node, timeout, left) = choose|
        node: Node<'static>,
        timeout: Duration,
        left: Node<'static>,
    | #[trigger]
        step(node, timeout, event, left) && node@ == before && left@ == next;
    assert(one.drop_first() =~= Seq::<Event>::empty());
    assert(put(one.drop_first()) =~= Seq::<FrameView>::empty());
    assert(read(one.drop_first()) =~= Seq::<FrameView>::empty());
    match event {
        Event::Put(frame) => {
            assert(put(one) =~= seq![frame]);
            assert(read(one) =~= Seq::<FrameView>::empty());
        },
        Event::Read(Some(frame)) => {
            assert(read(one) =~= seq![frame@]);
            assert(put(one) =~= Seq::<FrameView>::empty());
            assert(before.heard =~= seq![frame@] + next.heard);
        },
        Event::Read(None) => {},
    }
    assert(read(one) + to_come =~= before.heard + incoming);
    assert(next.said + outgoing =~= before.said + (put(one) + outgoing));
}

} // verus!
