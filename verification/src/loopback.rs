//! The two nodes every loopback over CAN stands up: a near node and a far
//! node on one fresh simulated bus, each hearing what the other transmits.
//!
//! One pair for every technology riding on CAN. What the two nodes say to
//! each other is the technology's, and the bus they say it on is this
//! library's.

use std::collections::VecDeque;
use std::time::Duration;

use vstd::prelude::*;

use crate::bus::Bus;
use crate::error::Error;
use crate::frame::{Frame, FrameView};

verus! {

/// One loopback session: the near node and the far node on one simulated
/// bus. A session is two nodes because the in-process bus, like a real one,
/// does not hand a node its own frames.
pub struct Session {
    to_near: VecDeque<Frame>,
    to_far: VecDeque<Frame>,
}

/// A session as a value: the frames on their way to either node, the next
/// one to be received first.
#[verifier::ext_equal]
pub struct SessionView {
    pub to_near: Seq<FrameView>,
    pub to_far: Seq<FrameView>,
}

/// A node as a value: the frames on their way to it, and those on their way
/// to the other node.
#[verifier::ext_equal]
pub struct NodeView {
    pub heard: Seq<FrameView>,
    pub said: Seq<FrameView>,
}

impl SessionView {
    /// The session from the near node.
    pub open spec fn near(self) -> NodeView {
        NodeView { heard: self.to_near, said: self.to_far }
    }

    /// The session from the far node.
    pub open spec fn far(self) -> NodeView {
        NodeView { heard: self.to_far, said: self.to_near }
    }
}

impl NodeView {
    /// The node reads the next frame that is on its way to it.
    pub open spec fn receives(
        self,
        outcome: Result<Option<Frame>, Error>,
        after: NodeView,
    ) -> bool {
        &&& crate::bus::takes_front(self.heard, outcome, after.heard)
        &&& after.said == self.said
    }

    /// The node puts a frame on its way to the other node.
    pub open spec fn transmits(
        self,
        frame: FrameView,
        outcome: Result<(), Error>,
        after: NodeView,
    ) -> bool {
        &&& outcome is Ok
        &&& after.said == self.said.push(frame)
        &&& after.heard == self.heard
    }
}

impl View for Session {
    type V = SessionView;

    closed spec fn view(&self) -> SessionView {
        SessionView {
            to_near: crate::frame::views(self.to_near@),
            to_far: crate::frame::views(self.to_far@),
        }
    }
}

/// A node on a session's bus, for as long as it holds the bus.
pub struct Node<'a> {
    pub inbox: &'a mut VecDeque<Frame>,
    pub outbox: &'a mut VecDeque<Frame>,
}

impl<'a> Node<'a> {
    /// The node as a value.
    pub open spec fn view(&self) -> NodeView {
        NodeView {
            heard: crate::frame::views(self.inbox@),
            said: crate::frame::views(self.outbox@),
        }
    }
}

impl Session {
    /// A fresh bus with the two nodes on it.
    #[must_use]
    pub fn fresh() -> (session: Self)
        ensures
            session@ == (SessionView { to_near: Seq::empty(), to_far: Seq::empty() }),
    {
        let session = Session { to_near: VecDeque::new(), to_far: VecDeque::new() };
        assert(session@ =~= (SessionView { to_near: Seq::empty(), to_far: Seq::empty() }));
        session
    }

    /// The node the near end transmits from.
    #[must_use]
    pub fn near(&mut self) -> (node: Node<'_>)
        ensures
            node@ == old(self)@.near(),
            final(self)@.near() == (NodeView {
                heard: crate::frame::views(final(node.inbox)@),
                said: crate::frame::views(final(node.outbox)@),
            }),
    {
        Node { inbox: &mut self.to_near, outbox: &mut self.to_far }
    }

    /// The node the far end listens on.
    #[must_use]
    pub fn far(&mut self) -> (node: Node<'_>)
        ensures
            node@ == old(self)@.far(),
            final(self)@.far() == (NodeView {
                heard: crate::frame::views(final(node.inbox)@),
                said: crate::frame::views(final(node.outbox)@),
            }),
    {
        Node { inbox: &mut self.to_far, outbox: &mut self.to_near }
    }
}

impl<'a> Bus for Node<'a> {
    open spec fn may_be_named(&self, name: Seq<char>) -> bool {
        name == "loopback"@
    }

    open spec fn may_receive(
        &self,
        timeout: Duration,
        outcome: Result<Option<Frame>, Error>,
        after: &Self,
    ) -> bool {
        self@.receives(outcome, after@)
    }

    open spec fn may_transmit(
        &self,
        frame: FrameView,
        outcome: Result<(), Error>,
        after: &Self,
    ) -> bool {
        self@.transmits(frame, outcome, after@)
    }

    open spec fn backlog(&self) -> Option<nat> {
        Some(self@.heard.len())
    }

    fn name(&self) -> &str {
        "loopback"
    }

    fn receive(&mut self, timeout: Duration) -> (outcome: Result<Option<Frame>, Error>)
        ensures
            *final(final(self).inbox) == *final(old(self).inbox),
            *final(final(self).outbox) == *final(old(self).outbox),
    {
        let frame = self.inbox.pop_front();
        assert(frame is Some ==> self@.heard =~= old(self)@.heard.drop_first());
        Ok(frame)
    }

    fn transmit(&mut self, frame: &Frame) -> (outcome: Result<(), Error>)
        ensures
            *final(final(self).inbox) == *final(old(self).inbox),
            *final(final(self).outbox) == *final(old(self).outbox),
    {
        self.outbox.push_back(frame.clone());
        assert(self@.said =~= old(self)@.said.push(frame@));
        Ok(())
    }
}

/// From the near node the frames on their way to it are those on their way to
/// the near node, and those it said are on their way to the far node; from
/// the far node it is the other way round. So each hears what the other said,
/// and not what it said itself.
pub proof fn law_the_nodes_face_each_other(session: SessionView)
    ensures
        session.near().heard == session.to_near,
        session.near().said == session.to_far,
        session.far().heard == session.near().said,
        session.far().said == session.near().heard,
{
}

/// Whatever node transmits whatever frame, however many are on their way
/// already: it succeeds, the frames on their way to the other node are those
/// before and then this one, and those on their way to the node itself are as
/// they were. (`old` reads what a queue holds while the node has it.)
pub proof fn law_a_node_puts_its_frame_last<'a>(
    before: Node<'a>,
    frame: FrameView,
    outcome: Result<(), Error>,
    after: Node<'a>,
)
    requires
        before.may_transmit(frame, outcome, &after),
    ensures
        outcome is Ok,
        old(after.outbox)@.len() == old(before.outbox)@.len() + 1,
        forall|i: int|
            0 <= i < old(before.outbox)@.len() ==> (#[trigger] old(after.outbox)@[i])@ == old(before.outbox)@[i]@,
        old(after.outbox)@.last()@ == frame,
        old(after.inbox)@.len() == old(before.inbox)@.len(),
        forall|i: int|
            0 <= i < old(before.inbox)@.len() ==> (#[trigger] old(after.inbox)@[i])@ == old(before.inbox)@[i]@,
{
    let outbox = crate::frame::views(after.outbox@);
    let inbox = crate::frame::views(after.inbox@);
    assert(outbox.len() == after.outbox@.len());
    assert(inbox.len() == after.inbox@.len());
    assert forall|i: int| 0 <= i < before.outbox@.len() implies (#[trigger] after.outbox@[i])@
        == before.outbox@[i]@ by {
        assert(outbox[i] == crate::frame::views(before.outbox@)[i]);
    }
    assert(outbox.last() == frame);
    assert forall|i: int| 0 <= i < before.inbox@.len() implies (#[trigger] after.inbox@[i])@
        == before.inbox@[i]@ by {
        assert(inbox[i] == crate::frame::views(before.inbox@)[i]);
    }
}

/// Whatever node receives, for whatever timeout: it is given the first frame
/// on its way to it, which is then gone while the others are as they were; a
/// node with none is given none. What it said itself is as it was.
pub proof fn law_a_node_takes_the_first<'a>(
    before: Node<'a>,
    timeout: Duration,
    outcome: Result<Option<Frame>, Error>,
    after: Node<'a>,
)
    requires
        before.may_receive(timeout, outcome, &after),
    ensures
        if old(before.inbox)@.len() == 0 {
            outcome == Ok::<Option<Frame>, Error>(None) && old(after.inbox)@.len() == 0
        } else {
            &&& outcome matches Ok(Some(frame))
            &&& frame@ == old(before.inbox)@[0]@
            &&& old(after.inbox)@.len() == old(before.inbox)@.len() - 1
            &&& forall|i: int|
                0 <= i < old(after.inbox)@.len() ==> (#[trigger] old(after.inbox)@[i])@ == old(before.inbox)@[i
                    + 1]@
        },
        old(after.outbox)@.len() == old(before.outbox)@.len(),
        forall|i: int|
            0 <= i < old(before.outbox)@.len() ==> (#[trigger] old(after.outbox)@[i])@ == old(before.outbox)@[i]@,
{
    let outbox = crate::frame::views(after.outbox@);
    let inbox = crate::frame::views(after.inbox@);
    let heard = crate::frame::views(before.inbox@);
    assert(outbox.len() == after.outbox@.len());
    assert(inbox.len() == after.inbox@.len());
    assert(heard.len() == before.inbox@.len());
    assert forall|i: int| 0 <= i < before.outbox@.len() implies (#[trigger] after.outbox@[i])@
        == before.outbox@[i]@ by {
        assert(outbox[i] == crate::frame::views(before.outbox@)[i]);
    }
    if heard.len() > 0 {
        assert forall|i: int| 0 <= i < after.inbox@.len() implies (#[trigger] after.inbox@[i])@
            == before.inbox@[i + 1]@ by {
            assert(inbox[i] == heard[i + 1]);
        }
    }
}

/// A node is called what the in-process bus is, and its backlog is what is on
/// its way to it.
pub proof fn law_a_node_tells_its_name_and_backlog<'a>(node: Node<'a>, name: Seq<char>)
    ensures
        node.may_be_named(name) <==> name == "loopback"@,
        node.backlog() == Some(old(node.inbox)@.len()),
{
}

} // verus!
