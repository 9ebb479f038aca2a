//! The transport: Streams over a bus, one frame each.

use std::time::Duration;

use vstd::prelude::*;

use crate::bus::{Bus, Loopback};
use crate::error::Error;
use crate::frame::{Frame, FrameView, DATA_MAX, STANDARD_MAX};
use crate::stream::{arrived_from, conclude, Arrived, Gathered, Gathering, GatheringView};
use crate::uri;

verus! {

/// The span of so many whole seconds, as `Duration::from_secs` gives it.
pub uninterp spec fn whole_seconds(secs: u64) -> Duration;

/// `std::time::Duration::from_secs`: the span is the one that the number of
/// seconds stands for, and nothing else decides it.
pub assume_specification[ Duration::from_secs ](secs: u64) -> (span: Duration)
    ensures
        span == whole_seconds(secs),
;

/// Which ways Streams travel.
#[derive(Clone, Copy, Debug, PartialEq, Eq, Structural)]
pub struct Directions {
    pub receives: bool,
    pub sends: bool,
}

/// Streams over a CAN bus.
pub struct CanTransport<B> {
    bus: B,
    receive_timeout: Duration,
    id: u32,
    extended: bool,
}

/// What a read of the bus is to whoever reads Streams off it.
pub open spec fn arrives(
    bus: Seq<char>,
    read: Result<Option<Frame>, Error>,
    outcome: Result<Option<Arrived>, Error>,
) -> bool {
    match read {
        Ok(Some(frame)) => outcome matches Ok(Some(arrived)) && arrived@
            == crate::stream::arrival(bus, frame@),
        Ok(None) => outcome == Ok::<Option<Arrived>, Error>(None),
        Err(error) => outcome == Err::<Option<Arrived>, Error>(error),
    }
}

impl<B> CanTransport<B> {
    /// The bus as it is now.
    pub closed spec fn bus(self) -> B {
        self.bus
    }

    /// How long a read waits for a frame.
    pub closed spec fn timeout(self) -> Duration {
        self.receive_timeout
    }

    /// The identifier to send under where a target names none.
    pub closed spec fn id(self) -> u32 {
        self.id
    }

    /// Whether every frame goes out in the extended format.
    pub closed spec fn extended(self) -> bool {
        self.extended
    }

    /// Whether `after` is set up as this transport is; the buses may differ.
    pub open spec fn set_up_as(self, after: Self) -> bool {
        &&& after.timeout() == self.timeout()
        &&& after.id() == self.id()
        &&& after.extended() == self.extended()
    }
}

impl<B: Bus> CanTransport<B> {
    /// `read` is a read of the bus, `after` what it leaves, and `name` what the
    /// bus then calls itself, which is asked only when a frame came.
    pub open spec fn reads(
        self,
        read: Result<Option<Frame>, Error>,
        name: Seq<char>,
        after: Self,
    ) -> bool {
        &&& self.set_up_as(after)
        &&& self.bus().may_receive(self.timeout(), read, &after.bus())
        &&& read matches Ok(Some(_)) ==> after.bus().may_be_named(name)
    }

    /// What sending `bytes` to `target` comes to: an identifier that cannot
    /// be read, too many bytes or too wide an identifier are refused, in that
    /// order, with the bus untouched; anything else is one frame, and the
    /// bus's to take.
    pub open spec fn sends(
        self,
        target: Seq<char>,
        bytes: Seq<u8>,
        outcome: Result<(), Error>,
        after: Self,
    ) -> bool {
        match uri::identifier(target, self.id()) {
            None => {
                &&& outcome matches Err(Error::NotAnIdentifier(segment))
                &&& segment@ == uri::last_segment(target)
                &&& after == self
            },
            Some(id) => {
                let extended = self.extended() || id > STANDARD_MAX;
                if bytes.len() > DATA_MAX {
                    outcome == Err::<(), Error>(Error::TooManyBytes) && after == self
                } else if id > crate::frame::widest(extended) {
                    outcome == Err::<(), Error>(Error::IdentifierTooWide) && after == self
                } else {
                    &&& self.set_up_as(after)
                    &&& self.bus().may_transmit(
                        FrameView { id, extended, data: bytes },
                        outcome,
                        &after.bus(),
                    )
                }
            },
        }
    }

    /// What sending the pieces one after the other comes to: all of them, or
    /// as far as the first that fails.
    pub open spec fn sends_all(
        self,
        target: Seq<char>,
        pieces: Seq<Seq<u8>>,
        outcome: Result<(), Error>,
        after: Self,
    ) -> bool
        decreases pieces.len(),
    {
        if pieces.len() == 0 {
            outcome is Ok && after == self
        } else {
            exists|sent: Result<(), Error>, next: Self| #[trigger]
                self.sends(target, pieces[0], sent, next) && match sent {
                    Ok(_) => next.sends_all(target, pieces.drop_first(), outcome, after),
                    Err(error) => outcome == Err::<(), Error>(error) && after == next,
                }
        }
    }

    /// What reading the bus until it is quiet comes to, with `gathered` read
    /// before and `count` frames to come.
    pub open spec fn drains(
        self,
        count: nat,
        gathered: GatheringView,
        outcome: Result<Arrived, Error>,
        after: Self,
    ) -> bool
        decreases count,
    {
        exists|read: Result<Option<Frame>, Error>, name: Seq<char>, next: Self| #[trigger]
            self.reads(read, name, next) && match read {
                Ok(Some(frame)) => count > 0 && next.drains(
                    (count - 1) as nat,
                    gathered.with(crate::stream::arrival(name, frame@)),
                    outcome,
                    after,
                ),
                Ok(None) => count == 0 && gathered.ends_in(outcome) && after == next,
                Err(error) => {
                    &&& count == 0
                    &&& outcome == Err::<Arrived, Error>(error)
                    &&& after == next
                },
            }
    }

    /// What the far end takes off the bus.
    pub open spec fn takes_one(self, outcome: Result<Arrived, Error>, after: Self) -> bool {
        exists|count: nat| self.drains(count, GatheringView::nothing(), outcome, after)
    }

    /// What beginning a round comes to: the pieces go on the bus, under a name
    /// that it gives and the transport's own identifier.
    pub open spec fn begins_round(
        self,
        payload: Seq<u8>,
        sent: Result<(), Error>,
        after: Self,
    ) -> bool {
        exists|name: Seq<char>| #[trigger]
            self.bus().may_be_named(name) && self.sends_all(
                uri::target(name, self.id()),
                crate::stream::pieces(payload),
                sent,
                after,
            )
    }

    /// What a round comes to: the pieces go on the bus, the far end takes them
    /// off, and what came back is held against what was sent. Nothing is read
    /// where the pieces could not be sent.
    pub open spec fn rounds(
        self,
        payload: Seq<u8>,
        outcome: Result<Arrived, Error>,
        after: Self,
    ) -> bool {
        exists|sent: Result<(), Error>, full: Self| #[trigger]
            self.begins_round(payload, sent, full) && match sent {
                Ok(_) => exists|taken: Result<Arrived, Error>| #[trigger]
                    full.takes_one(taken, after) && crate::stream::concludes(
                        payload,
                        taken,
                        outcome,
                    ),
                Err(error) => outcome == Err::<Arrived, Error>(error) && after == full,
            }
    }

    /// A transport over `bus`, sending under identifier `id`.
    #[must_use]
    pub fn new(bus: B, id: u32) -> (transport: Self)
        ensures
            transport.bus() == bus,
            transport.timeout() == whole_seconds(1),
            transport.id() == id,
            transport.extended() == (id > STANDARD_MAX),
    {
        CanTransport {
            bus,
            receive_timeout: Duration::from_secs(1),
            id,
            extended: id > STANDARD_MAX,
        }
    }

    /// The same transport, with reads that wait for `timeout`.
    #[must_use]
    pub fn timing_out_after(self, timeout: Duration) -> (transport: Self)
        ensures
            transport.bus() == self.bus(),
            transport.timeout() == timeout,
            transport.id() == self.id(),
            transport.extended() == self.extended(),
    {
        CanTransport {
            bus: self.bus,
            receive_timeout: timeout,
            id: self.id,
            extended: self.extended,
        }
    }

    /// The next frame on the bus as a Stream, or `None` when the bus is quiet.
    ///
    /// # Errors
    /// Where the bus could not be read.
    pub fn receive_one(&mut self) -> (outcome: Result<Option<Arrived>, Error>)
        ensures
            exists|read: Result<Option<Frame>, Error>, name: Seq<char>| #[trigger]
                old(self).reads(read, name, *final(self)) && arrives(name, read, outcome),
            outcome matches Ok(Some(_)) ==> crate::bus::nearer_to_quiet(
                old(self).bus().backlog(),
                final(self).bus().backlog(),
            ),
            old(self).bus().backlog() is Some ==> final(self).bus().backlog() is Some,
    {
        let read = self.bus.receive(self.receive_timeout);
        match read {
            Ok(Some(frame)) => {
                let name = self.bus.name();
                assert(old(self).reads(read, name@, *self));
                Ok(Some(arrived_from(frame, name)))
            },
            Ok(None) => {
                assert(old(self).reads(read, Seq::empty(), *self));
                Ok(None)
            },
            Err(error) => {
                assert(old(self).reads(read, Seq::empty(), *self));
                Err(error)
            },
        }
    }

    /// The transport's name.
    #[must_use]
    pub fn name(&self) -> (name: &'static str)
        ensures
            name@ == "can-bus"@,
    {
        "can-bus"
    }

    /// Both ways.
    #[must_use]
    pub fn directions(&self) -> (directions: Directions)
        ensures
            directions == (Directions { receives: true, sends: true }),
    {
        Directions { receives: true, sends: true }
    }

    /// A bus leaves no artefact to claim.
    #[must_use]
    pub fn claims(&self) -> (artefact: Option<String>)
        ensures
            artefact is None,
    {
        None
    }

    /// What is on the bus. Nothing on it is not an error: an empty vector.
    ///
    /// # Errors
    /// Where the bus could not be read.
    pub fn receive(&mut self) -> (outcome: Result<Vec<Arrived>, Error>)
        ensures
            exists|read: Result<Option<Frame>, Error>, name: Seq<char>| #[trigger]
                old(self).reads(read, name, *final(self)) && match read {
                    Ok(Some(frame)) => {
                        &&& outcome matches Ok(all)
                        &&& all@.len() == 1
                        &&& all@[0]@ == crate::stream::arrival(name, frame@)
                    },
                    Ok(None) => outcome matches Ok(all) && all@.len() == 0,
                    Err(error) => outcome == Err::<Vec<Arrived>, Error>(error),
                },
            outcome matches Ok(all) ==> (all@.len() > 0 ==> crate::bus::nearer_to_quiet(
                old(self).bus().backlog(),
                final(self).bus().backlog(),
            )),
            old(self).bus().backlog() is Some ==> final(self).bus().backlog() is Some,
    {
        let mut all: Vec<Arrived> = Vec::new();
        match self.receive_one() {
            Ok(Some(arrived)) => {
                all.push(arrived);
                Ok(all)
            },
            Ok(None) => Ok(all),
            Err(error) => Err(error),
        }
    }

    /// Put `bytes` on the bus as one frame. `target` may name an identifier,
    /// `0x181`, overriding the transport's.
    ///
    /// # Errors
    /// Where the identifier cannot be read, the frame cannot be built, or the
    /// bus refused it.
    pub fn send(&mut self, target: &str, bytes: &[u8]) -> (outcome: Result<(), Error>)
        ensures
            old(self).sends(target@, bytes@, outcome, *final(self)),
            old(self).bus().backlog() is Some ==> final(self).bus().backlog() is Some,
    {
        let id: u32 = match uri::read_identifier(target, self.id) {
            Ok(id) => id,
            Err(error) => {
                return Err(error);
            },
        };
        let extended = self.extended || id > STANDARD_MAX;
        match Frame::new(id, extended, bytes) {
            Ok(frame) => self.bus.transmit(&frame),
            Err(error) => Err(error),
        }
    }

    /// `can://<bus>/0x<id>`: where the near end sends.
    fn target(&self) -> (text: String)
        ensures
            exists|name: Seq<char>| #[trigger]
                self.bus().may_be_named(name) && text@ == uri::target(name, self.id()),
    {
        let name = self.bus.name();
        assert(self.bus().may_be_named(name@));
        uri::write_target(name, self.id)
    }

    /// The longest Stream that a round carries: there is none.
    #[must_use]
    pub fn ceiling(&self) -> (bytes: Option<usize>)
        ensures
            bytes is None,
    {
        None
    }

    /// Why a round would not carry `payload`: for no bytes that it may hold.
    #[must_use]
    pub fn refuses(&self, payload: &[u8]) -> (reason: Option<String>)
        ensures
            reason is None,
    {
        None
    }

    /// The far end of a round over this transport's bus.
    ///
    /// # Errors
    /// None: the bus is there.
    pub fn far_end(&self) -> (far: Result<OnTheBus, Error>)
        ensures
            far matches Ok(end) && exists|name: Seq<char>| #[trigger]
                self.bus().may_be_named(name) && end.address_text() == uri::target(
                    name,
                    self.id(),
                ),
    {
        Ok(OnTheBus { address: self.target() })
    }

    /// Send a Stream of any length: as frames of at most eight bytes under
    /// one identifier. An empty Stream is one frame with no data.
    ///
    /// # Errors
    /// Where one of the frames could not be sent; those before it are on the
    /// bus.
    pub fn send_to(&mut self, address: &str, payload: &[u8]) -> (outcome: Result<(), Error>)
        ensures
            old(self).sends_all(
                address@,
                crate::stream::pieces(payload@),
                outcome,
                *final(self),
            ),
            old(self).bus().backlog() is Some ==> final(self).bus().backlog() is Some,
    {
        let mut at: usize = 0;
        assert(payload@.skip(0) =~= payload@);
        loop
            invariant
                at <= payload@.len(),
                forall|outcome: Result<(), Error>, after: Self| #[trigger]
                    self.sends_all(
                        address@,
                        crate::stream::pieces(payload@.skip(at as int)),
                        outcome,
                        after,
                    ) ==> old(self).sends_all(
                        address@,
                        crate::stream::pieces(payload@),
                        outcome,
                        after,
                    ),
                old(self).bus().backlog() is Some ==> self.bus().backlog() is Some,
            decreases payload@.len() - at,
        {
            let ghost before = *self;
            let ghost rest = payload@.skip(at as int);
            let ghost to_go = crate::stream::pieces(rest);
            let end: usize = if payload.len() - at > DATA_MAX {
                at + DATA_MAX
            } else {
                payload.len()
            };
            let piece = vstd::slice::slice_subrange(payload, at, end);
            assert(piece@ =~= to_go[0]);
            let sent = self.send(address, piece);
            assert(before.sends(address@, to_go[0], sent, *self));
            match sent {
                Ok(()) => {},
                Err(error) => {
                    let outcome = Err(error);
                    assert(before.sends_all(address@, to_go, outcome, *self));
                    return outcome;
                },
            }
            if end == payload.len() {
                assert(self.sends_all(address@, to_go.drop_first(), Ok(()), *self));
                assert(before.sends_all(address@, to_go, Ok(()), *self));
                return Ok(());
            }
            assert(rest.skip(DATA_MAX as int) =~= payload@.skip(end as int));
            assert(to_go.drop_first() =~= crate::stream::pieces(payload@.skip(end as int)));
            assert forall|outcome: Result<(), Error>, after: Self| #[trigger]
                self.sends_all(
                    address@,
                    crate::stream::pieces(payload@.skip(end as int)),
                    outcome,
                    after,
                ) implies before.sends_all(address@, to_go, outcome, after) by {
                assert(before.sends(address@, to_go[0], sent, *self));
            }
            at = end;
        }
    }

    /// The first half of a round: the Stream goes on the bus, under the
    /// transport's own identifier, and the gathering that is given back is
    /// ready to take it off again.
    ///
    /// # Errors
    /// Where the Stream could not be sent; then there is nothing to gather.
    pub fn begin_round(&mut self, payload: &[u8]) -> (begun: Result<Gathering, Error>)
        ensures
            exists|sent: Result<(), Error>| #[trigger]
                old(self).begins_round(payload@, sent, *final(self)) && match sent {
                    Ok(_) => begun matches Ok(gathering) && gathering@
                        == GatheringView::nothing(),
                    Err(error) => begun == Err::<Gathering, Error>(error),
                },
            old(self).bus().backlog() is Some ==> final(self).bus().backlog() is Some,
    {
        let far = match self.far_end() {
            Ok(far) => far,
            Err(error) => {
                return Err(error);
            },
        };
        let sent = self.send_to(far.address(), payload);
        assert(old(self).begins_round(payload@, sent, *self));
        match sent {
            Ok(()) => Ok(Gathering::new()),
            Err(error) => Err(error),
        }
    }

    /// The bus read until it is quiet, on top of what was gathered before.
    fn drain(&mut self, so_far: Gathering) -> (outcome: Result<Arrived, Error>)
        requires
            old(self).bus().backlog() is Some,
        ensures
            exists|count: nat| #[trigger]
                old(self).drains(count, so_far@, outcome, *final(self)),
            final(self).bus().backlog() is Some,
    {
        let mut gathering = so_far;
        let ghost mut count: nat = 0;
        loop
            invariant
                self.bus().backlog() is Some,
                forall|more: nat, outcome: Result<Arrived, Error>, after: Self| #[trigger]
                    self.drains(more, gathering@, outcome, after) ==> old(self).drains(
                        more + count,
                        so_far@,
                        outcome,
                        after,
                    ),
            decreases self.bus().backlog()->0,
        {
            let ghost before = *self;
            let ghost gathered = gathering@;
            let outcome = self.receive_one();
            let ghost (read, name) = choose|
                read: Result<Option<Frame>, Error>,
                name: Seq<char>,
            | #[trigger]
                before.reads(read, name, *self) && arrives(name, read, outcome);
            match gathering.after(outcome) {
                Gathered::More(more) => {
                    gathering = more;
                    assert forall|more: nat, outcome: Result<Arrived, Error>, after: Self|
                        #[trigger]
                        self.drains(more, gathering@, outcome, after) implies old(self).drains(
                        more + (count + 1),
                        so_far@,
                        outcome,
                        after,
                    ) by {
                        assert(before.reads(read, name, *self));
                        assert(before.drains(more + 1, gathered, outcome, after));
                    }
                    proof {
                        count = count + 1;
                    }
                },
                Gathered::Done(outcome) => {
                    assert(before.drains(0, gathered, outcome, *self));
                    return outcome;
                },
            }
        }
    }

    /// A Stream out and back. In order on one thread: a bus does not listen,
    /// so the frames go on first and the read-back takes them off, until the
    /// bus is quiet. As in `OnTheBus::take_one`, its backlog has to be known;
    /// where it is not, `begin_round` and `Gathering::after_in_round` are the
    /// same round step by step.
    ///
    /// # Errors
    /// Where the Stream could not be sent or read back, or came back changed.
    pub fn round(&mut self, payload: &[u8]) -> (outcome: Result<Arrived, Error>)
        requires
            old(self).bus().backlog() is Some,
        ensures
            old(self).rounds(payload@, outcome, *final(self)),
            final(self).bus().backlog() is Some,
    {
        let begun = self.begin_round(payload);
        let ghost full = *self;
        match begun {
            Ok(gathering) => {
                let taken = self.drain(gathering);
                assert(full.takes_one(taken, *self));
                conclude(payload, taken)
            },
            Err(error) => Err(error),
        }
    }
}

impl CanTransport<Loopback> {
    /// Both ends on one in-process bus, under identifier `0x181`, with reads
    /// that would wait for `timeout` where a kernel bus waits for quiet.
    #[must_use]
    pub fn loopback(timeout: Duration) -> (transport: Self)
        ensures
            transport.bus()@ == Seq::<FrameView>::empty(),
            transport.timeout() == timeout,
            transport.id() == 0x181,
            !transport.extended(),
    {
        CanTransport::new(Loopback::new(), 0x181).timing_out_after(timeout)
    }
}

/// The bus the frames went on. Nothing waits: the round is in order, and
/// the far end reads the bus until it is quiet.
pub struct OnTheBus {
    address: String,
}

impl OnTheBus {
    /// What `address` says.
    pub closed spec fn address_text(&self) -> Seq<char> {
        self.address@
    }

    /// Where the near end sends.
    #[must_use]
    pub fn address(&self) -> (address: &str)
        ensures
            address@ == self.address_text(),
    {
        self.address.as_str()
    }

    /// Everything on the bus as one Stream, under the last frame's origin.
    /// The bus is read until it is quiet, so its backlog has to be known: a
    /// bus that never goes quiet would be read for ever.
    ///
    /// # Errors
    /// Where the bus could not be read or nothing was on it.
    pub fn take_one<B: Bus>(self, transport: &mut CanTransport<B>) -> (outcome: Result<
        Arrived,
        Error,
    >)
        requires
            old(transport).bus().backlog() is Some,
        ensures
            old(transport).takes_one(outcome, *final(transport)),
            final(transport).bus().backlog() is Some,
    {
        transport.drain(Gathering::new())
    }
}

} // verus!
