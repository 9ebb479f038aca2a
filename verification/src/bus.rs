//! The bus: where frames go and come from.

use std::collections::VecDeque;
use std::time::Duration;

use vstd::prelude::*;

use crate::error::Error;
use crate::frame::{Frame, FrameView};

verus! {

/// Whether a bus with a known backlog has come nearer to being quiet.
pub open spec fn nearer_to_quiet(before: Option<nat>, after: Option<nat>) -> bool {
    match before {
        Some(count) => after matches Some(left) && left < count,
        None => true,
    }
}

/// Where frames go and come from.
///
/// A bus may say of itself which names it gives, which outcomes a read and a
/// write may have, and what the bus then is. One that says nothing promises
/// nothing: any name, any outcome, and no telling when it will be quiet.
pub trait Bus: Send + Sync {
    /// Whether the bus may give `name` as its name.
    open spec fn may_be_named(&self, name: Seq<char>) -> bool {
        true
    }

    /// Whether reading the bus for `timeout` may end in `outcome`, and leave
    /// `after`.
    open spec fn may_receive(
        &self,
        timeout: Duration,
        outcome: Result<Option<Frame>, Error>,
        after: &Self,
    ) -> bool {
        true
    }

    /// Whether putting `frame` on the bus may end in `outcome`, and leave
    /// `after`.
    open spec fn may_transmit(
        &self,
        frame: FrameView,
        outcome: Result<(), Error>,
        after: &Self,
    ) -> bool {
        true
    }

    /// How many frames can still be read off the bus, at most, if nothing
    /// more is put on it; `None` where there is no telling, as on a bus that
    /// other machines write to.
    open spec fn backlog(&self) -> Option<nat> {
        None
    }

    /// The bus's name, for the origin URI.
    fn name(&self) -> (name: &str)
        ensures
            self.may_be_named(name@),
    ;

    /// The next frame, or `None` when nothing arrived within `timeout`.
    ///
    /// # Errors
    /// Where the bus could not be read.
    fn receive(&mut self, timeout: Duration) -> (outcome: Result<Option<Frame>, Error>)
        ensures
            old(self).may_receive(timeout, outcome, final(self)),
            outcome matches Ok(Some(_)) ==> nearer_to_quiet(
                old(self).backlog(),
                final(self).backlog(),
            ),
            old(self).backlog() is Some ==> final(self).backlog() is Some,
    ;

    /// Put a frame on the bus.
    ///
    /// # Errors
    /// Where the bus refused it.
    fn transmit(&mut self, frame: &Frame) -> (outcome: Result<(), Error>)
        ensures
            old(self).may_transmit(frame@, outcome, final(self)),
            old(self).backlog() is Some ==> final(self).backlog() is Some,
    ;
}

/// What reading the front of a queue of frames gives, and leaves.
pub open spec fn takes_front(
    queue: Seq<FrameView>,
    outcome: Result<Option<Frame>, Error>,
    after: Seq<FrameView>,
) -> bool {
    match outcome {
        Ok(Some(frame)) => queue.len() > 0 && frame@ == queue[0] && after == queue.drop_first(),
        Ok(None) => queue.len() == 0 && after == queue,
        Err(_) => false,
    }
}

/// An in-process bus: what is transmitted is received, in order.
pub struct Loopback {
    frames: VecDeque<Frame>,
}

impl View for Loopback {
    type V = Seq<FrameView>;

    /// The frames on the bus, the next one to be received first.
    closed spec fn view(&self) -> Seq<FrameView> {
        crate::frame::views(self.frames@)
    }
}

impl Loopback {
    /// A bus with nothing on it.
    #[must_use]
    pub fn new() -> (bus: Self)
        ensures
            bus@ == Seq::<FrameView>::empty(),
    {
        let bus = Loopback { frames: VecDeque::new() };
        assert(bus@ =~= Seq::<FrameView>::empty());
        bus
    }
}

impl Default for Loopback {
    fn default() -> (bus: Self)
        ensures
            bus@ == Seq::<FrameView>::empty(),
    {
        Loopback::new()
    }
}

impl Bus for Loopback {
    /// It is always called the same.
    open spec fn may_be_named(&self, name: Seq<char>) -> bool {
        name == "loopback"@
    }

    /// The first frame leaves the bus, whatever the timeout; a bus with none
    /// is quiet. Nothing fails.
    open spec fn may_receive(
        &self,
        timeout: Duration,
        outcome: Result<Option<Frame>, Error>,
        after: &Self,
    ) -> bool {
        takes_front(self@, outcome, after@)
    }

    /// The frame stands last on the bus. Nothing fails.
    open spec fn may_transmit(
        &self,
        frame: FrameView,
        outcome: Result<(), Error>,
        after: &Self,
    ) -> bool {
        outcome is Ok && after@ == self@.push(frame)
    }

    open spec fn backlog(&self) -> Option<nat> {
        Some(self@.len())
    }

    fn name(&self) -> &str {
        "loopback"
    }

    fn receive(&mut self, timeout: Duration) -> Result<Option<Frame>, Error> {
        let frame = self.frames.pop_front();
        assert(frame is Some ==> self@ =~= old(self)@.drop_first());
        Ok(frame)
    }

    fn transmit(&mut self, frame: &Frame) -> Result<(), Error> {
        self.frames.push_back(frame.clone());
        assert(self@ =~= old(self)@.push(frame@));
        Ok(())
    }
}

/// Putting a frame on the in-process bus succeeds, however many are on it,
/// and the frames on it are those before and then this one.
pub proof fn law_loopback_takes_every_frame(
    before: Loopback,
    frame: FrameView,
    outcome: Result<(), Error>,
    after: Loopback,
)
    requires
        before.may_transmit(frame, outcome, &after),
    ensures
        outcome is Ok,
        after@.len() == before@.len() + 1,
        forall|i: int| 0 <= i < before@.len() ==> after@[i] == before@[i],
        after@.last() == frame,
{
}

/// Reading the in-process bus gives the first frame on it, whatever the
/// timeout, and leaves the others as they were; with none on it, it is quiet
/// and stays as it is.
pub proof fn law_loopback_gives_the_first(
    before: Loopback,
    timeout: Duration,
    outcome: Result<Option<Frame>, Error>,
    after: Loopback,
)
    requires
        before.may_receive(timeout, outcome, &after),
    ensures
        if before@.len() == 0 {
            outcome == Ok::<Option<Frame>, Error>(None) && after@.len() == 0
        } else {
            &&& outcome matches Ok(Some(frame))
            &&& frame@ == before@[0]
            &&& after@.len() == before@.len() - 1
            &&& forall|i: int| 0 <= i < after@.len() ==> #[trigger] after@[i] == before@[i + 1]
        },
{
}

/// The in-process bus has one name, and its backlog is what is on it.
pub proof fn law_loopback_tells_its_name_and_backlog(bus: Loopback, name: Seq<char>)
    ensures
        bus.may_be_named(name) <==> name == "loopback"@,
        bus.backlog() == Some(bus@.len()),
{
}

/// A bus with a known backlog is nearer to quiet when fewer frames are left,
/// and only then; of one without there is no telling.
pub proof fn law_nearer_to_quiet_is_fewer(before: Option<nat>, after: Option<nat>)
    ensures
        before matches Some(count) ==> (nearer_to_quiet(before, after) <==> (after matches Some(
            left,
        ) && left < count)),
        before is None ==> nearer_to_quiet(before, after),
{
}

} // verus!
