//! What each call does, said of the call itself: of what goes into it and
//! what comes out of it.

use std::time::Duration;

use vstd::arithmetic::power;
use vstd::prelude::*;

use crate::bus::{Bus, Loopback};
use crate::error::Error;
use crate::frame::{Frame, FrameView};
use crate::loopback::{Node, Session};
use crate::stream::{Arrived, Gathered, Gathering};
use crate::transport::{CanTransport, Directions, OnTheBus};
use crate::{hex, stream, uri};

verus! {

/// `append_hex` leaves what was there and puts the number's digits behind it,
/// as many as the number needs and no more.
pub proof fn law_append_hex_writes_the_number(text: &mut String, n: u32)
    requires
        call_ensures(hex::append_hex, (text, n), ()),
    ensures
        old(text)@.is_prefix_of(final(text)@),
        ({
            let digits = final(text)@.skip(old(text)@.len() as int);
            &&& digits.len() > 0
            &&& n < power::pow(16, digits.len())
            &&& digits.len() > 1 ==> digits[0] != '0'
            &&& forall|place: int|
                0 <= place < digits.len() ==> #[trigger] digits[digits.len() - 1 - place]
                    == "0123456789abcdef"@[(n as int / power::pow(16, place as nat)) % 16]
        }),
{
    hex::law_hex_by_places(n as int);
    assert(final(text)@.skip(old(text)@.len() as int) =~= hex::hex(n as int));
    assert(final(text)@.subrange(0, old(text)@.len() as int) =~= old(text)@);
}

/// `parse_hex` gives the number that digits of either case come to in places
/// of sixteen, with or without a plus sign before them, if 32 bits hold it.
pub proof fn law_parse_hex_reads_the_number(
    chars: &[char],
    from: usize,
    number: Option<u32>,
    signed: bool,
    digits: Seq<char>,
    values: Seq<int>,
)
    requires
        from <= chars@.len(),
        call_ensures(hex::parse_hex, (chars, from), number),
        chars@.skip(from as int) == (if signed {
            seq!['+'] + digits
        } else {
            digits
        }),
        digits.len() == values.len(),
        digits.len() > 0,
        forall|i: int|
            0 <= i < values.len() ==> {
                &&& 0 <= #[trigger] values[i] < 16
                &&& digits[i] == "0123456789abcdef"@[values[i]] || digits[i]
                    == "0123456789ABCDEF"@[values[i]]
            },
    ensures
        ({
            let worth = values.fold_left(0int, |high: int, value: int| high * 16 + value);
            number == if worth <= 0xffff_ffff {
                Some(worth as u32)
            } else {
                None
            }
        }),
{
    hex::law_parsed_by_places(digits, values);
}

/// `parse_hex` gives nothing where there is no digit, or anything but digits
/// behind an optional plus sign.
pub proof fn law_parse_hex_refuses_the_rest(
    chars: &[char],
    from: usize,
    number: Option<u32>,
    at: int,
)
    requires
        from <= chars@.len(),
        call_ensures(hex::parse_hex, (chars, from), number),
        ({
            let text = chars@.skip(from as int);
            ||| text.len() == 0
            ||| text == seq!['+']
            ||| {
                &&& 0 <= at < text.len()
                &&& !"0123456789abcdefABCDEF"@.contains(text[at])
                &&& at != 0 || text[0] != '+'
            }
        }),
    ensures
        number is None,
{
    let text = chars@.skip(from as int);
    hex::law_parsed_refuses(text, at);
    assert(text.len() == 0 ==> text =~= Seq::<char>::empty());
}

/// `write_target` and `write_origin` spell the bus's own name, the identifier
/// and the format.
pub proof fn law_uris_are_written_out(
    bus: &str,
    id: u32,
    extended: bool,
    target: String,
    origin: String,
)
    requires
        call_ensures(uri::write_target, (bus, id), target),
        call_ensures(uri::write_origin, (bus, id, extended), origin),
    ensures
        target@ == "can://"@ + bus@ + "/0x"@ + hex::hex(id as int),
        origin@ == target@ + (if extended {
            "?extended=true"@
        } else {
            "?extended=false"@
        }),
{
    uri::law_origin_is_spelled_out(bus@, id);
}

/// `read_identifier` goes by what stands behind the last slash: `0x` and a
/// number is that number, `0x` and anything else is an error that tells it,
/// and text that starts otherwise leaves the sender its own.
pub proof fn law_read_identifier_goes_by_the_last_segment(
    target: &str,
    own: u32,
    id: Result<u32, Error>,
    before: Seq<char>,
    segment: Seq<char>,
)
    requires
        call_ensures(uri::read_identifier, (target, own), id),
        !segment.contains('/'),
        target@ == segment || target@ == before + "/"@ + segment,
    ensures
        if "0x"@.is_prefix_of(segment) {
            match hex::parsed(segment.skip(2)) {
                Some(named) => id == Ok::<u32, Error>(named),
                None => id matches Err(Error::NotAnIdentifier(told)) && told@ == segment,
            }
        } else {
            id == Ok::<u32, Error>(own)
        },
{
    uri::law_identifier_behind_the_last_slash(before, segment, own);
    uri::law_segment_behind_the_last_slash(before, segment);
}

/// `Frame::new` makes a frame of everything that CAN carries, which holds what
/// it was made of, every byte of it; too many bytes and then too wide an
/// identifier are refused.
pub proof fn law_frame_new_holds_what_it_is_given(
    id: u32,
    extended: bool,
    data: &[u8],
    made: Result<Frame, Error>,
)
    requires
        call_ensures(Frame::new, (id, extended, data), made),
    ensures
        match made {
            Ok(frame) => frame.id == id && frame.extended == extended && frame.data@ == data@,
            Err(error) => error == if data@.len() > 8 {
                Error::TooManyBytes
            } else {
                Error::IdentifierTooWide
            },
        },
        made is Ok <==> data@.len() <= 8 && id <= (if extended {
            0x1fff_ffffu32
        } else {
            0x7ffu32
        }),
{
    crate::frame::law_a_frame_holds_what_it_was_made_of(id, extended, data@, made);
}

/// `Frame::origin` names the bus it is given, and the frame's identifier and
/// format; a clone has all the fields of the frame.
pub proof fn law_frame_tells_its_fields(frame: &Frame, bus: &str, origin: String, copy: Frame)
    requires
        call_ensures(Frame::origin, (frame, bus), origin),
        call_ensures(<Frame as Clone>::clone, (frame,), copy),
    ensures
        origin@ == "can://"@ + bus@ + "/0x"@ + hex::hex(frame.id as int) + (if frame.extended {
            "?extended=true"@
        } else {
            "?extended=false"@
        }),
        copy.id == frame.id,
        copy.extended == frame.extended,
        copy.data@ == frame.data@,
{
    uri::law_origin_is_spelled_out(bus@, frame.id);
}

/// `arrived_from` gives the frame's data, every byte of it, under an origin
/// that names the bus it is given and the frame's identifier and format.
pub proof fn law_arrived_from_tells_bus_and_frame(frame: Frame, bus: &str, arrived: Arrived)
    requires
        call_ensures(stream::arrived_from, (frame, bus), arrived),
    ensures
        arrived.bytes@ == frame.data@,
        arrived.origin_uri@ == "can://"@ + bus@ + "/0x"@ + hex::hex(frame.id as int) + (
        if frame.extended {
            "?extended=true"@
        } else {
            "?extended=false"@
        }),
{
    stream::law_arrival_tells_its_frame(bus@, frame@);
}

/// Two calls of `arrived_from` give the same origin only for buses of the same
/// name, and frames of one identifier and format.
pub proof fn law_arrived_from_tells_buses_apart(
    frame: Frame,
    bus: &str,
    arrived: Arrived,
    other: Frame,
    other_bus: &str,
    other_arrived: Arrived,
)
    requires
        call_ensures(stream::arrived_from, (frame, bus), arrived),
        call_ensures(stream::arrived_from, (other, other_bus), other_arrived),
    ensures
        arrived.origin_uri@ == other_arrived.origin_uri@ <==> bus@ == other_bus@ && frame.id
            == other.id && frame.extended == other.extended,
{
    stream::law_arrivals_tell_frames_apart(bus@, frame@, other_bus@, other@);
}

/// `same_bytes` tells whether two runs are equally long and hold the same
/// byte in every place.
pub proof fn law_same_bytes_compares_every_byte(left: &[u8], right: &[u8], same: bool)
    requires
        call_ensures(crate::bytes::same_bytes, (left, right), same),
    ensures
        same <==> left@.len() == right@.len() && forall|i: int|
            0 <= i < left@.len() ==> #[trigger] left@[i] == right@[i],
{
    if left@.len() == right@.len() && forall|i: int|
        0 <= i < left@.len() ==> #[trigger] left@[i] == right@[i] {
        assert(left@ =~= right@);
    }
}

/// Every error says what went wrong, and an identifier that cannot be read is
/// told as it stands.
pub proof fn law_messages_say_what_went_wrong(error: &Error, text: String)
    requires
        call_ensures(Error::message, (error,), text),
    ensures
        text@ == match *error {
            Error::TooManyBytes => "a classical CAN frame carries at most eight bytes"@,
            Error::IdentifierTooWide => "an identifier wider than the frame"@,
            Error::NotAnIdentifier(segment) => segment@ + " is not a CAN identifier"@,
            Error::WiderThanExtended => "an identifier wider than 29 bits"@,
            Error::WiderThanStandard => "an identifier wider than 11 bits"@,
            Error::FrameRefused => "a frame the bus refused"@,
            Error::NothingArrived => "nothing came over the bus"@,
            Error::Differs => "sent, but what came off the bus differs"@,
            Error::Failed { doing, .. } => doing@,
        },
{
}

/// Whatever bus it is keeps its word: the name it gives is one that it may
/// give, and a read and a write, of the very frame and for the very timeout,
/// come to what they may come to.
pub proof fn law_a_bus_keeps_its_word<B: Bus>(
    named: &B,
    name: &str,
    reader: &mut B,
    timeout: Duration,
    read: Result<Option<Frame>, Error>,
    writer: &mut B,
    frame: &Frame,
    written: Result<(), Error>,
)
    requires
        call_ensures(B::name, (named,), name),
        call_ensures(B::receive, (reader, timeout), read),
        call_ensures(B::transmit, (writer, frame), written),
    ensures
        named.may_be_named(name@),
        old(reader).may_receive(timeout, read, final(reader)),
        old(writer).may_transmit(
            FrameView { id: frame.id, extended: frame.extended, data: frame.data@ },
            written,
            final(writer),
        ),
{
}

/// A new in-process bus has nothing on it, and says that it is `loopback`.
pub proof fn law_a_new_loopback_is_empty(
    made: Loopback,
    default: Loopback,
    bus: &Loopback,
    name: &str,
)
    requires
        call_ensures(Loopback::new, (), made),
        call_ensures(<Loopback as Default>::default, (), default),
        call_ensures(<Loopback as Bus>::name, (bus,), name),
    ensures
        made@.len() == 0,
        default@.len() == 0,
        name@ == "loopback"@,
{
}

/// `Loopback::transmit` succeeds, however many frames are on the bus, and the
/// frames on it are then those before and this one, with all its bytes.
pub proof fn law_loopback_transmit_puts_it_last(
    bus: &mut Loopback,
    frame: &Frame,
    outcome: Result<(), Error>,
)
    requires
        call_ensures(<Loopback as Bus>::transmit, (bus, frame), outcome),
    ensures
        outcome is Ok,
        final(bus)@ == old(bus)@.push(
            FrameView { id: frame.id, extended: frame.extended, data: frame.data@ },
        ),
{
}

/// `Loopback::receive` gives the first frame on the bus, with all its bytes,
/// and leaves the others; with none on it, it gives none.
pub proof fn law_loopback_receive_takes_the_first(
    bus: &mut Loopback,
    timeout: Duration,
    outcome: Result<Option<Frame>, Error>,
)
    requires
        call_ensures(<Loopback as Bus>::receive, (bus, timeout), outcome),
    ensures
        if old(bus)@.len() == 0 {
            outcome == Ok::<Option<Frame>, Error>(None) && final(bus)@.len() == 0
        } else {
            &&& outcome matches Ok(Some(frame))
            &&& old(bus)@.first().id == frame.id
            &&& old(bus)@.first().extended == frame.extended
            &&& old(bus)@.first().data == frame.data@
            &&& final(bus)@ == old(bus)@.skip(1)
        },
{
}

/// `Arrived::new` holds what it is given.
pub proof fn law_arrived_holds_what_it_is_given(
    origin_uri: String,
    bytes: Vec<u8>,
    arrived: Arrived,
)
    requires
        call_ensures(Arrived::new, (origin_uri, bytes), arrived),
    ensures
        arrived.origin_uri@ == origin_uri@,
        arrived.bytes@ == bytes@,
        arrived@.origin_uri == origin_uri@,
        arrived@.bytes == bytes@,
{
}

/// A new gathering has read nothing; one more Stream puts its bytes behind
/// those read before and its origin in the place of theirs.
pub proof fn law_gathering_takes_every_byte(
    new: Gathering,
    gathering: &mut Gathering,
    arrived: Arrived,
)
    requires
        call_ensures(Gathering::new, (), new),
        call_ensures(Gathering::take, (gathering, arrived), ()),
    ensures
        new@.origin is None,
        new@.bytes.len() == 0,
        final(gathering)@.origin == Some(arrived.origin_uri@),
        final(gathering)@.bytes == old(gathering)@.bytes + arrived.bytes@,
{
}

/// A gathering ends in everything that it read, under the last origin, and in
/// an error where it read nothing.
pub proof fn law_finishing_gives_every_byte(
    gathering: Gathering,
    outcome: Result<Arrived, Error>,
)
    requires
        call_ensures(Gathering::finish, (gathering,), outcome),
    ensures
        match gathering@.origin {
            Some(origin_uri) => {
                &&& outcome matches Ok(arrived)
                &&& arrived.origin_uri@ == origin_uri
                &&& arrived.bytes@ == gathering@.bytes
            },
            None => outcome == Err::<Arrived, Error>(Error::NothingArrived),
        },
{
}

/// After a read, alone or in a round: a Stream is gathered, a failure is the
/// end, and quiet is the end too, with all that was gathered; in a round it
/// has to be what was sent.
pub proof fn law_a_read_is_gathered_or_the_end(
    gathering: Gathering,
    payload: &[u8],
    read: Result<Option<Arrived>, Error>,
    next: Gathered,
    next_in_round: Gathered,
)
    requires
        call_ensures(Gathering::after, (gathering, read), next),
        call_ensures(Gathering::after_in_round, (gathering, payload, read), next_in_round),
    ensures
        match read {
            Ok(Some(arrived)) => {
                &&& next matches Gathered::More(more)
                &&& more@.origin == Some(arrived.origin_uri@)
                &&& more@.bytes == gathering@.bytes + arrived.bytes@
                &&& next_in_round matches Gathered::More(more)
                &&& more@.origin == Some(arrived.origin_uri@)
                &&& more@.bytes == gathering@.bytes + arrived.bytes@
            },
            Ok(None) => match gathering@.origin {
                Some(origin_uri) => {
                    &&& next matches Gathered::Done(Ok(all))
                    &&& all.origin_uri@ == origin_uri
                    &&& all.bytes@ == gathering@.bytes
                    &&& gathering@.bytes == payload@ ==> {
                        &&& next_in_round matches Gathered::Done(Ok(all))
                        &&& all.origin_uri@ == origin_uri
                        &&& all.bytes@ == payload@
                    }
                    &&& gathering@.bytes != payload@ ==> next_in_round == Gathered::Done(
                        Err(Error::Differs),
                    )
                },
                None => {
                    &&& next == Gathered::Done(Err(Error::NothingArrived))
                    &&& next_in_round == Gathered::Done(Err(Error::NothingArrived))
                },
            },
            Err(error) => {
                &&& next == Gathered::Done(Err(error))
                &&& next_in_round == Gathered::Done(Err(error))
            },
        },
{
}

/// `confirm` and `conclude` give what was taken if and only if its bytes are
/// those that were sent.
pub proof fn law_only_what_was_sent_is_confirmed(
    payload: &[u8],
    arrived: Arrived,
    confirmed: Result<Arrived, Error>,
    taken: Result<Arrived, Error>,
    concluded: Result<Arrived, Error>,
)
    requires
        call_ensures(stream::confirm, (payload, arrived), confirmed),
        call_ensures(stream::conclude, (payload, taken), concluded),
    ensures
        confirmed == if arrived.bytes@ == payload@ {
            Ok::<Arrived, Error>(arrived)
        } else {
            Err(Error::Differs)
        },
        concluded == match taken {
            Ok(back) => if back.bytes@ == payload@ {
                Ok::<Arrived, Error>(back)
            } else {
                Err(Error::Differs)
            },
            Err(error) => Err(error),
        },
{
}

/// A fresh session has nothing on its way to either node.
pub proof fn law_a_fresh_session_is_empty(session: Session)
    requires
        call_ensures(Session::fresh, (), session),
    ensures
        session@.to_near.len() == 0,
        session@.to_far.len() == 0,
{
}

/// The near node hears what is on its way to it, and what it says is on its
/// way to the far node; what it leaves is what the session then holds.
pub proof fn law_near_hears_what_is_on_its_way<'a>(session: &'a mut Session, node: Node<'a>)
    requires
        call_ensures(Session::near, (session,), node),
    ensures
        crate::frame::views(old(node.inbox)@) == old(session)@.to_near,
        crate::frame::views(old(node.outbox)@) == old(session)@.to_far,
        crate::frame::views(final(node.inbox)@) == final(session)@.to_near,
        crate::frame::views(final(node.outbox)@) == final(session)@.to_far,
{
}

/// The far node hears what is on its way to it, and what it says is on its
/// way to the near node; what it leaves is what the session then holds.
pub proof fn law_far_hears_what_is_on_its_way<'a>(session: &'a mut Session, node: Node<'a>)
    requires
        call_ensures(Session::far, (session,), node),
    ensures
        crate::frame::views(old(node.inbox)@) == old(session)@.to_far,
        crate::frame::views(old(node.outbox)@) == old(session)@.to_near,
        crate::frame::views(final(node.inbox)@) == final(session)@.to_far,
        crate::frame::views(final(node.outbox)@) == final(session)@.to_near,
{
}

/// `Node::transmit` succeeds, however many frames are on their way to the
/// other node: those are then the ones before and this one. Those on their
/// way to the node itself are as they were.
pub proof fn law_node_transmit_puts_it_last<'a>(
    node: &mut Node<'a>,
    frame: &Frame,
    outcome: Result<(), Error>,
)
    requires
        call_ensures(<Node<'a> as Bus>::transmit, (node, frame), outcome),
    ensures
        outcome is Ok,
        final(node)@.said == old(node)@.said.push(
            FrameView { id: frame.id, extended: frame.extended, data: frame.data@ },
        ),
        final(node)@.heard == old(node)@.heard,
{
}

/// `Node::receive` gives the first frame on its way to the node, which is then
/// gone; with none on its way it gives none. What the node said is as it was.
pub proof fn law_node_receive_takes_the_first<'a>(
    node: &mut Node<'a>,
    timeout: Duration,
    outcome: Result<Option<Frame>, Error>,
)
    requires
        call_ensures(<Node<'a> as Bus>::receive, (node, timeout), outcome),
    ensures
        if old(node)@.heard.len() == 0 {
            outcome == Ok::<Option<Frame>, Error>(None) && final(node)@.heard.len() == 0
        } else {
            &&& outcome matches Ok(Some(frame))
            &&& old(node)@.heard.first().id == frame.id
            &&& old(node)@.heard.first().extended == frame.extended
            &&& old(node)@.heard.first().data == frame.data@
            &&& final(node)@.heard == old(node)@.heard.skip(1)
        },
        final(node)@.said == old(node)@.said,
{
}

/// What the near node says is on its way to the far node, behind what was, and
/// the session is otherwise as it was.
pub proof fn law_far_will_hear_what_near_says<'a>(
    session: &'a mut Session,
    near: &mut Node<'a>,
    frame: &Frame,
    outcome: Result<(), Error>,
)
    requires
        call_ensures(Session::near, (session,), *old(near)),
        call_ensures(<Node<'a> as Bus>::transmit, (near, frame), outcome),
        has_resolved(*final(near)),
    ensures
        outcome is Ok,
        final(session)@.to_far == old(session)@.to_far.push(
            FrameView { id: frame.id, extended: frame.extended, data: frame.data@ },
        ),
        final(session)@.to_near == old(session)@.to_near,
{
}

/// What the far node says is on its way to the near node, behind what was, and
/// the session is otherwise as it was.
pub proof fn law_near_will_hear_what_far_says<'a>(
    session: &'a mut Session,
    far: &mut Node<'a>,
    frame: &Frame,
    outcome: Result<(), Error>,
)
    requires
        call_ensures(Session::far, (session,), *old(far)),
        call_ensures(<Node<'a> as Bus>::transmit, (far, frame), outcome),
        has_resolved(*final(far)),
    ensures
        outcome is Ok,
        final(session)@.to_near == old(session)@.to_near.push(
            FrameView { id: frame.id, extended: frame.extended, data: frame.data@ },
        ),
        final(session)@.to_far == old(session)@.to_far,
{
}

/// What the near node receives was the first frame on its way to it, and the
/// session is otherwise as it was; with none on its way, it is as it was.
pub proof fn law_near_hears_the_first<'a>(
    session: &'a mut Session,
    near: &mut Node<'a>,
    timeout: Duration,
    outcome: Result<Option<Frame>, Error>,
)
    requires
        call_ensures(Session::near, (session,), *old(near)),
        call_ensures(<Node<'a> as Bus>::receive, (near, timeout), outcome),
        has_resolved(*final(near)),
    ensures
        if old(session)@.to_near.len() == 0 {
            outcome == Ok::<Option<Frame>, Error>(None) && final(session)@.to_near.len() == 0
        } else {
            &&& outcome matches Ok(Some(frame))
            &&& frame@ == old(session)@.to_near.first()
            &&& final(session)@.to_near == old(session)@.to_near.skip(1)
        },
        final(session)@.to_far == old(session)@.to_far,
{
}

/// What the far node receives was the first frame on its way to it, and the
/// session is otherwise as it was; with none on its way, it is as it was.
pub proof fn law_far_hears_the_first<'a>(
    session: &'a mut Session,
    far: &mut Node<'a>,
    timeout: Duration,
    outcome: Result<Option<Frame>, Error>,
)
    requires
        call_ensures(Session::far, (session,), *old(far)),
        call_ensures(<Node<'a> as Bus>::receive, (far, timeout), outcome),
        has_resolved(*final(far)),
    ensures
        if old(session)@.to_far.len() == 0 {
            outcome == Ok::<Option<Frame>, Error>(None) && final(session)@.to_far.len() == 0
        } else {
            &&& outcome matches Ok(Some(frame))
            &&& frame@ == old(session)@.to_far.first()
            &&& final(session)@.to_far == old(session)@.to_far.skip(1)
        },
        final(session)@.to_near == old(session)@.to_near,
{
}

/// A node says that it is `loopback`, and stands for its two queues.
pub proof fn law_a_node_is_its_queues<'a>(node: &Node<'a>, name: &str)
    requires
        call_ensures(<Node<'a> as Bus>::name, (node,), name),
    ensures
        name@ == "loopback"@,
        node@.heard.len() == old(node.inbox)@.len(),
        node@.said.len() == old(node.outbox)@.len(),
        forall|i: int|
            0 <= i < node@.heard.len() ==> #[trigger] node@.heard[i] == old(node.inbox)@[i]@,
        forall|i: int|
            0 <= i < node@.said.len() ==> #[trigger] node@.said[i] == old(node.outbox)@[i]@,
{
}

/// A new transport has the bus and the identifier it is given, waits for one
/// second, and sends extended frames if the identifier has more than eleven
/// bits.
pub proof fn law_a_new_transport_is_set_up<B: Bus>(
    bus: B,
    id: u32,
    transport: CanTransport<B>,
    timeout: Duration,
    patient: CanTransport<B>,
)
    requires
        call_ensures(CanTransport::<B>::new, (bus, id), transport),
        call_ensures(CanTransport::<B>::timing_out_after, (transport, timeout), patient),
    ensures
        transport.bus() == bus,
        transport.id() == id,
        transport.extended() <==> id > 0x7ff,
        transport.timeout() == crate::transport::whole_seconds(1),
        patient.bus() == bus,
        patient.id() == id,
        patient.extended() <==> id > 0x7ff,
        patient.timeout() == timeout,
{
}

/// The in-process transport has an empty bus, the identifier `0x181` in the
/// standard format, and the timeout it is given.
pub proof fn law_the_loopback_transport_is_set_up(
    timeout: Duration,
    transport: CanTransport<Loopback>,
)
    requires
        call_ensures(CanTransport::<Loopback>::loopback, (timeout,), transport),
    ensures
        transport.bus()@.len() == 0,
        transport.id() == 0x181,
        !transport.extended(),
        transport.timeout() == timeout,
{
}

/// What every transport says of itself: its name, that it goes both ways,
/// leaves nothing to claim, and carries a Stream of any length.
pub proof fn law_a_transport_says_what_it_is<B: Bus>(
    transport: &CanTransport<B>,
    name: &'static str,
    directions: Directions,
    claimed: Option<String>,
    ceiling: Option<usize>,
    payload: &[u8],
    refused: Option<String>,
)
    requires
        call_ensures(CanTransport::<B>::name, (transport,), name),
        call_ensures(CanTransport::<B>::directions, (transport,), directions),
        call_ensures(CanTransport::<B>::claims, (transport,), claimed),
        call_ensures(CanTransport::<B>::ceiling, (transport,), ceiling),
        call_ensures(CanTransport::<B>::refuses, (transport, payload), refused),
    ensures
        name@ == "can-bus"@,
        directions.receives,
        directions.sends,
        claimed is None,
        ceiling is None,
        refused is None,
{
}

/// `receive_one`, on whatever bus: one read for as long as the transport
/// waits, and of the frame that came every byte, under an origin that names
/// that bus and the frame.
pub proof fn law_receive_one_gives_what_was_read<B: Bus>(
    transport: &mut CanTransport<B>,
    outcome: Result<Option<Arrived>, Error>,
)
    requires
        call_ensures(CanTransport::<B>::receive_one, (transport,), outcome),
    ensures
        exists|read: Result<Option<Frame>, Error>, name: Seq<char>|
            #![trigger old(transport).reads(read, name, *final(transport))]
            {
                &&& old(transport).bus().may_receive(
                    old(transport).timeout(),
                    read,
                    &final(transport).bus(),
                )
                &&& match read {
                    Ok(Some(frame)) => {
                        &&& final(transport).bus().may_be_named(name)
                        &&& outcome matches Ok(Some(arrived))
                        &&& arrived.bytes@ == frame.data@
                        &&& arrived.origin_uri@ == "can://"@ + name + "/0x"@ + hex::hex(
                            frame.id as int,
                        ) + (if frame.extended {
                            "?extended=true"@
                        } else {
                            "?extended=false"@
                        })
                    },
                    Ok(None) => outcome == Ok::<Option<Arrived>, Error>(None),
                    Err(error) => outcome == Err::<Option<Arrived>, Error>(error),
                }
            },
        final(transport).timeout() == old(transport).timeout(),
        final(transport).id() == old(transport).id(),
        final(transport).extended() == old(transport).extended(),
        outcome matches Ok(Some(_)) ==> (old(transport).bus().backlog() matches Some(count) ==> (
        final(transport).bus().backlog() matches Some(left) && left < count)),
        old(transport).bus().backlog() is Some ==> final(transport).bus().backlog() is Some,
{
    let (read, name) = choose|read: Result<Option<Frame>, Error>, name: Seq<char>| #[trigger]
        old(transport).reads(read, name, *final(transport)) && crate::transport::arrives(
            name,
            read,
            outcome,
        );
    if let Ok(Some(frame)) = read {
        stream::law_arrival_tells_its_frame(name, frame@);
    }
    assert(old(transport).reads(read, name, *final(transport)));
}

/// `receive` gives the one Stream that `receive_one` would, and none where
/// the bus is quiet.
pub proof fn law_receive_gives_what_was_read<B: Bus>(
    transport: &mut CanTransport<B>,
    outcome: Result<Vec<Arrived>, Error>,
)
    requires
        call_ensures(CanTransport::<B>::receive, (transport,), outcome),
    ensures
        exists|read: Result<Option<Frame>, Error>, name: Seq<char>|
            #![trigger old(transport).reads(read, name, *final(transport))]
            {
                &&& old(transport).bus().may_receive(
                    old(transport).timeout(),
                    read,
                    &final(transport).bus(),
                )
                &&& match read {
                    Ok(Some(frame)) => {
                        &&& final(transport).bus().may_be_named(name)
                        &&& outcome matches Ok(all)
                        &&& all@.len() == 1
                        &&& all@[0].bytes@ == frame.data@
                        &&& all@[0].origin_uri@ == "can://"@ + name + "/0x"@ + hex::hex(
                            frame.id as int,
                        ) + (if frame.extended {
                            "?extended=true"@
                        } else {
                            "?extended=false"@
                        })
                    },
                    Ok(None) => outcome matches Ok(all) && all@.len() == 0,
                    Err(error) => outcome == Err::<Vec<Arrived>, Error>(error),
                }
            },
        final(transport).timeout() == old(transport).timeout(),
        final(transport).id() == old(transport).id(),
        final(transport).extended() == old(transport).extended(),
        old(transport).bus().backlog() is Some ==> final(transport).bus().backlog() is Some,
{
    let (read, name) = choose|read: Result<Option<Frame>, Error>, name: Seq<char>| #[trigger]
        old(transport).reads(read, name, *final(transport)) && match read {
            Ok(Some(frame)) => {
                &&& outcome matches Ok(all)
                &&& all@.len() == 1
                &&& all@[0]@ == stream::arrival(name, frame@)
            },
            Ok(None) => outcome matches Ok(all) && all@.len() == 0,
            Err(error) => outcome == Err::<Vec<Arrived>, Error>(error),
        };
    if let Ok(Some(frame)) = read {
        stream::law_arrival_tells_its_frame(name, frame@);
    }
    assert(old(transport).reads(read, name, *final(transport)));
}

/// `send`, on whatever bus, to a target that ends in `segment`: `0x` and
/// anything but a number is told; more than eight bytes and then an
/// identifier of more than twenty-nine bits are refused; all else is handed
/// to the bus as one frame with every byte, under the identifier that the
/// segment names or else the transport's own.
pub proof fn law_send_hands_over_one_frame<B: Bus>(
    transport: &mut CanTransport<B>,
    target: &str,
    bytes: &[u8],
    outcome: Result<(), Error>,
    start: Seq<char>,
    segment: Seq<char>,
)
    requires
        call_ensures(CanTransport::<B>::send, (transport, target, bytes), outcome),
        !segment.contains('/'),
        target@ == segment || target@ == start + "/"@ + segment,
    ensures
        match if "0x"@.is_prefix_of(segment) {
            hex::parsed(segment.skip(2))
        } else {
            Some(old(transport).id())
        } {
            None => {
                &&& outcome matches Err(Error::NotAnIdentifier(told))
                &&& told@ == segment
                &&& *final(transport) == *old(transport)
            },
            Some(id) => {
                &&& bytes@.len() > 8 ==> outcome == Err::<(), Error>(Error::TooManyBytes)
                    && *final(transport) == *old(transport)
                &&& bytes@.len() <= 8 && id > 0x1fff_ffff ==> outcome == Err::<(), Error>(
                    Error::IdentifierTooWide,
                ) && *final(transport) == *old(transport)
                &&& bytes@.len() <= 8 && id <= 0x1fff_ffff ==> old(transport).bus().may_transmit(
                    FrameView {
                        id,
                        extended: old(transport).extended() || id > 0x7ff,
                        data: bytes@,
                    },
                    outcome,
                    &final(transport).bus(),
                )
            },
        },
        final(transport).timeout() == old(transport).timeout(),
        final(transport).id() == old(transport).id(),
        final(transport).extended() == old(transport).extended(),
{
    uri::law_identifier_behind_the_last_slash(start, segment, old(transport).id());
    uri::law_segment_behind_the_last_slash(start, segment);
}

/// `send_to`, `begin_round`, `round` and `take_one` are the sending of a
/// Stream's pieces, the beginning of a round, a round and the far end's
/// taking, and nothing in between is lost: a round begun is ready to gather.
pub proof fn law_rounds_are_made_of_these<B: Bus>(
    sender: &mut CanTransport<B>,
    address: &str,
    payload: &[u8],
    sent: Result<(), Error>,
    beginner: &mut CanTransport<B>,
    begun: Result<Gathering, Error>,
    rounder: &mut CanTransport<B>,
    returned: Result<Arrived, Error>,
    far: OnTheBus,
    reader: &mut CanTransport<B>,
    taken: Result<Arrived, Error>,
)
    requires
        call_ensures(CanTransport::<B>::send_to, (sender, address, payload), sent),
        call_ensures(CanTransport::<B>::begin_round, (beginner, payload), begun),
        call_ensures(CanTransport::<B>::round, (rounder, payload), returned),
        call_ensures(OnTheBus::take_one::<B>, (far, reader), taken),
    ensures
        old(sender).sends_all(address@, stream::pieces(payload@), sent, *final(sender)),
        match begun {
            Ok(gathering) => {
                &&& old(beginner).begins_round(payload@, Ok(()), *final(beginner))
                &&& gathering@.origin is None
                &&& gathering@.bytes.len() == 0
            },
            Err(error) => old(beginner).begins_round(payload@, Err(error), *final(beginner)),
        },
        old(rounder).rounds(payload@, returned, *final(rounder)),
        old(reader).takes_one(taken, *final(reader)),
{
    let begins = choose|begins: Result<(), Error>| #[trigger]
        old(beginner).begins_round(payload@, begins, *final(beginner)) && match begins {
            Ok(_) => begun matches Ok(gathering) && gathering@
                == stream::GatheringView::nothing(),
            Err(error) => begun == Err::<Gathering, Error>(error),
        };
    if let Ok(unit) = begins {
        let () = unit;
    }
}

/// The far end is reached under a name that the bus gives and the transport's
/// own identifier.
pub proof fn law_the_far_end_has_an_address<B: Bus>(
    transport: &CanTransport<B>,
    far: Result<OnTheBus, Error>,
    end: &OnTheBus,
    address: &str,
)
    requires
        call_ensures(CanTransport::<B>::far_end, (transport,), far),
        far == Ok::<OnTheBus, Error>(*end),
        call_ensures(OnTheBus::address, (end,), address),
    ensures
        exists|name: Seq<char>| #[trigger]
            transport.bus().may_be_named(name) && address@ == "can://"@ + name + "/0x"@ + hex::hex(
                transport.id() as int,
            ),
{
}

/// The far end is always there.
pub proof fn law_there_is_a_far_end<B: Bus>(
    transport: &CanTransport<B>,
    far: Result<OnTheBus, Error>,
)
    requires
        call_ensures(CanTransport::<B>::far_end, (transport,), far),
    ensures
        far is Ok,
{
}

} // verus!
