use std::time::Duration;

use can_bus::loopback::Session;
use can_bus::{Bus, CanTransport, Error, Frame, Loopback};

const QUIET: Duration = Duration::from_millis(10);

/// The shapes a protocol breaks on.
fn edge_payloads() -> Vec<(&'static str, Vec<u8>)> {
    vec![
        ("empty", Vec::new()),
        ("one byte", vec![0x2a]),
        ("every byte", (0..=255).collect()),
        ("nul run", vec![0; 512]),
        ("high bytes", vec![0xff; 512]),
        ("crlf storm", b"\r\n".repeat(400)),
    ]
}

#[test]
fn a_loopback_round_carries_a_stream_as_frames() {
    let mut loopback = CanTransport::loopback(QUIET);
    let arrived = loopback.round(b"seventeen bytes!!").expect("three frames");
    assert_eq!(arrived.bytes, b"seventeen bytes!!");
    assert_eq!(arrived.origin_uri, "can://loopback/0x181?extended=false");
    let arrived = loopback.round(b"").expect("one empty frame");
    assert!(arrived.bytes.is_empty());
    assert_eq!(arrived.origin_uri, "can://loopback/0x181?extended=false");
    assert!(loopback.ceiling().is_none());
    assert!(loopback.refuses(b"seventeen bytes!!").is_none());
}

#[test]
fn the_loopback_returns_the_edges_whole() {
    let mut loopback = CanTransport::loopback(QUIET);
    for (name, bytes) in edge_payloads() {
        let arrived = loopback
            .round(&bytes)
            .unwrap_or_else(|error| panic!("{name}: {}", error.message()));
        assert_eq!(arrived.bytes, bytes, "{name}");
    }
}

#[test]
fn a_frame_is_at_most_eight_bytes_under_a_fitting_identifier() {
    assert!(Frame::new(0x181, false, &[1, 2, 3]).is_ok());
    assert!(Frame::new(0x181, false, &[0; 9]).is_err());
    assert!(Frame::new(0x800, false, &[]).is_err());
    assert!(Frame::new(0x18fe_f100, true, &[0; 8]).is_ok());
    assert_eq!(
        Frame::new(0x181, false, &[]).expect("frame").origin("can0"),
        "can://can0/0x181?extended=false"
    );
}

#[test]
fn the_loopback_bus_carries_frames_in_order_and_the_transport_reads_them() {
    let bus = Loopback::new();
    let mut transport = CanTransport::new(bus, 0x181);
    transport
        .send("can://loopback/0x181", &[0xaa])
        .expect("sending");
    transport
        .send("can://loopback/0x18fef100", &[0xbb, 0xcc])
        .expect("sending extended");
    let first = transport
        .receive_one()
        .expect("receiving")
        .expect("a frame");
    assert_eq!(first.bytes, [0xaa]);
    assert_eq!(first.origin_uri, "can://loopback/0x181?extended=false");
    let second = transport
        .receive_one()
        .expect("receiving")
        .expect("a frame");
    assert_eq!(second.origin_uri, "can://loopback/0x18fef100?extended=true");
    assert!(
        transport.receive().expect("quiet").is_empty(),
        "nothing is not an error"
    );
    assert!(transport.send("can://loopback/0xzz", &[]).is_err());
}

#[test]
fn a_bus_has_no_artefact_to_claim() {
    let transport = CanTransport::new(Loopback::new(), 0x181);
    assert!(transport.claims().is_none());
    assert_eq!(transport.name(), "can-bus");
}

#[test]
fn each_node_hears_the_other_and_not_itself() {
    let mut session = Session::fresh();
    let frame = Frame::new(0x181, false, b"hi").expect("frame");

    session.near().transmit(&frame).expect("transmit");

    let quiet = Duration::from_millis(10);
    assert_eq!(session.far().receive(quiet).expect("read"), Some(frame));
    assert_eq!(session.near().receive(quiet).expect("read"), None);
    assert_eq!(session.far().name(), "loopback");
}

#[test]
fn both_nodes_are_heard_in_the_order_they_spoke() {
    let mut session = Session::fresh();
    let one = Frame::new(1, false, b"one").expect("frame");
    let two = Frame::new(2, false, b"two").expect("frame");
    let three = Frame::new(0x800, true, b"three").expect("frame");
    session.near().transmit(&one).expect("transmit");
    session.far().transmit(&three).expect("transmit");
    session.near().transmit(&two).expect("transmit");
    assert_eq!(session.far().receive(QUIET).expect("read"), Some(one));
    assert_eq!(session.near().receive(QUIET).expect("read"), Some(three));
    assert_eq!(session.far().receive(QUIET).expect("read"), Some(two));
    assert_eq!(session.far().receive(QUIET).expect("read"), None);
    assert_eq!(session.near().name(), "loopback");
}

#[test]
fn a_transport_on_a_node_reaches_the_other_node() {
    let mut session = Session::fresh();
    CanTransport::new(session.near(), 0x7e0)
        .send("0x7e8", b"ping")
        .expect("sending");
    let arrived = CanTransport::new(session.far(), 0x7e8)
        .receive_one()
        .expect("reading")
        .expect("a frame");
    assert_eq!(arrived.bytes, b"ping");
    assert_eq!(arrived.origin_uri, "can://loopback/0x7e8?extended=false");
}

#[test]
fn the_loopback_bus_is_first_in_first_out_in_whatever_turns() {
    let mut bus = Loopback::default();
    let frames: Vec<Frame> = (0u8..5)
        .map(|n| Frame::new(u32::from(n), false, &[n]).expect("frame"))
        .collect();
    bus.transmit(&frames[0]).expect("transmit");
    bus.transmit(&frames[1]).expect("transmit");
    assert_eq!(bus.receive(QUIET).expect("read"), Some(frames[0].clone()));
    bus.transmit(&frames[2]).expect("transmit");
    assert_eq!(bus.receive(QUIET).expect("read"), Some(frames[1].clone()));
    assert_eq!(bus.receive(QUIET).expect("read"), Some(frames[2].clone()));
    assert_eq!(bus.receive(QUIET).expect("read"), None);
    bus.transmit(&frames[3]).expect("transmit");
    bus.transmit(&frames[4]).expect("transmit");
    assert_eq!(bus.receive(QUIET).expect("read"), Some(frames[3].clone()));
    assert_eq!(bus.receive(QUIET).expect("read"), Some(frames[4].clone()));
    assert_eq!(bus.name(), "loopback");
}

#[test]
fn bytes_left_on_the_bus_are_noticed_and_taken_off() {
    let mut transport = CanTransport::loopback(QUIET);
    transport.send("", b"left").expect("sending");
    let error = transport.round(b"payload").expect_err("differs");
    assert!(matches!(error, Error::Differs));
    assert_eq!(error.message(), "sent, but what came off the bus differs");
    let arrived = transport.round(b"payload").expect("clean again");
    assert_eq!(arrived.bytes, b"payload");
}

#[test]
fn an_empty_frame_left_on_the_bus_does_no_harm() {
    let mut transport = CanTransport::loopback(QUIET);
    transport.send("0x1", b"").expect("sending");
    let arrived = transport.round(b"payload").expect("whole");
    assert_eq!(arrived.bytes, b"payload");
    assert_eq!(arrived.origin_uri, "can://loopback/0x181?extended=false");
}

#[test]
fn a_round_under_an_extended_identifier_says_so() {
    let mut transport = CanTransport::new(Loopback::new(), 0x18fe_f100);
    let arrived = transport.round(&[7; 24]).expect("three full frames");
    assert_eq!(arrived.bytes, [7; 24]);
    assert_eq!(arrived.origin_uri, "can://loopback/0x18fef100?extended=true");
}

#[test]
fn a_round_under_too_wide_an_identifier_sends_nothing() {
    let mut transport = CanTransport::new(Loopback::new(), 0x2000_0000);
    let error = transport.round(b"x").expect_err("too wide");
    assert!(matches!(error, Error::IdentifierTooWide));
    assert!(transport.receive().expect("quiet").is_empty());
}

#[test]
fn the_far_end_of_a_quiet_bus_takes_nothing() {
    let mut transport = CanTransport::loopback(QUIET);
    let far = transport.far_end().expect("far end");
    assert_eq!(far.address(), "can://loopback/0x181");
    let error = far.take_one(&mut transport).expect_err("nothing");
    assert!(matches!(error, Error::NothingArrived));
    assert_eq!(error.message(), "nothing came over the bus");
}

#[test]
fn the_far_end_takes_everything_under_the_last_origin() {
    let mut transport = CanTransport::loopback(QUIET);
    transport.send("0x1", b"ab").expect("sending");
    transport.send("0x2", b"cd").expect("sending");
    let far = transport.far_end().expect("far end");
    let arrived = far.take_one(&mut transport).expect("both");
    assert_eq!(arrived.bytes, b"abcd");
    assert_eq!(arrived.origin_uri, "can://loopback/0x2?extended=false");
}

#[test]
fn directions_are_both() {
    let directions = CanTransport::new(Loopback::new(), 1).directions();
    assert!(directions.receives);
    assert!(directions.sends);
}

#[test]
fn as_many_streams_arrive_as_were_sent_and_in_order() {
    let mut transport = CanTransport::new(Loopback::new(), 0x181);
    let sendings = [("0x1", &b"a"[..]), ("own", b""), ("can://x/0x800", b"eight by"), ("0x1", b"b")];
    for (target, bytes) in sendings {
        transport.send(target, bytes).expect("sending");
    }
    let origins = ["0x1?extended=false", "0x181?extended=false", "0x800?extended=true", "0x1?extended=false"];
    for ((_, bytes), origin) in sendings.iter().zip(origins) {
        let arrived = transport.receive_one().expect("reading").expect("a frame");
        assert_eq!(arrived.bytes, *bytes);
        assert_eq!(arrived.origin_uri, format!("can://loopback/{origin}"));
    }
    assert!(transport.receive_one().expect("quiet").is_none());
}
