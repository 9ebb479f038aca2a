use can_bus::uri::{read_identifier, write_origin, write_target};
use can_bus::{CanTransport, Error, Frame, Loopback};

/// The segment that `read_identifier` could not read.
fn unreadable(target: &str) -> String {
    match read_identifier(target, 7) {
        Err(Error::NotAnIdentifier(segment)) => segment,
        other => panic!("{target}: {other:?}"),
    }
}

#[test]
fn a_target_is_written_in_lower_case_hexadecimal() {
    assert_eq!(write_target("can0", 0), "can://can0/0x0");
    assert_eq!(write_target("can0", 0x18fe_f100), "can://can0/0x18fef100");
    for id in [0, 1, 9, 10, 15, 16, 255, 256, 0x7ff, 0x0fff_ffff, 0x1000_0000, u32::MAX] {
        assert_eq!(write_target("b", id), format!("can://b/{id:#x}"));
    }
}

#[test]
fn an_origin_tells_bus_identifier_and_format() {
    assert_eq!(write_origin("can0", 0x181, false), "can://can0/0x181?extended=false");
    assert_eq!(write_origin("", 0, true), "can:///0x0?extended=true");
    assert_eq!(
        Frame::new(0x1fff_ffff, true, b"").expect("frame").origin("vcan1"),
        "can://vcan1/0x1fffffff?extended=true"
    );
    assert_ne!(write_origin("a", 1, false), write_origin("a", 1, true));
    assert_ne!(write_origin("a", 1, false), write_origin("a", 0x11, false));
    assert_ne!(write_origin("a/0x1", 1, false), write_origin("a", 1, false));
}

#[test]
fn a_target_names_the_identifier_behind_its_last_slash() {
    assert_eq!(read_identifier("can://can0/0x181", 7).expect("named"), 0x181);
    assert_eq!(read_identifier("can0/0x181", 7).expect("named"), 0x181);
    assert_eq!(read_identifier("0x181", 7).expect("named"), 0x181);
    assert_eq!(read_identifier("can://can://can0/0x5", 7).expect("named"), 5);
    assert_eq!(read_identifier("can://0xff/0x5", 7).expect("named"), 5);
    assert_eq!(read_identifier("0xABcd", 7).expect("named"), 0xabcd);
    assert_eq!(read_identifier("0x+181", 7).expect("named"), 0x181);
    assert_eq!(read_identifier("0x00000000000000181", 7).expect("named"), 0x181);
    assert_eq!(read_identifier("0xffffffff", 7).expect("named"), u32::MAX);
}

#[test]
fn a_target_that_names_none_leaves_the_own_identifier() {
    for target in ["", "can0", "can://can0", "can://can0/", "0x181/", "0X181", "181", "0", "x0"] {
        assert_eq!(read_identifier(target, 7).expect("own"), 7, "{target}");
    }
}

#[test]
fn an_identifier_that_cannot_be_read_is_given_back() {
    assert_eq!(unreadable("can://loopback/0xzz"), "0xzz");
    assert_eq!(unreadable("0x"), "0x");
    assert_eq!(unreadable("can0/0x+"), "0x+");
    assert_eq!(unreadable("can0/0x-1"), "0x-1");
    assert_eq!(unreadable("can0/0x++1"), "0x++1");
    assert_eq!(unreadable("can0/0x100000000"), "0x100000000");
    assert_eq!(unreadable("can0/0x1_0"), "0x1_0");
    assert_eq!(unreadable("b\u{fc}s/0x1\u{e9}2"), "0x1\u{e9}2");
    let error = read_identifier("can://loopback/0xzz", 7).expect_err("no digits");
    assert_eq!(error.message(), "0xzz is not a CAN identifier");
}

#[test]
fn digits_are_read_as_the_standard_library_reads_them() {
    let samples = [
        "", "0", "00", "+", "++", "-", "-0", "+0", "+f", "F", "g", "1 ", " 1", "ffffffff",
        "100000000", "0ffffffff", "00000000000000000001", "fffffffff", "fffffffg", "123456789g",
        "1.",
    ];
    for sample in samples {
        let target = format!("bus/0x{sample}");
        assert_eq!(
            read_identifier(&target, 7).ok(),
            u32::from_str_radix(sample, 16).ok(),
            "{sample}"
        );
    }
}

#[test]
fn every_target_names_the_identifier_it_was_written_with() {
    for id in [0, 1, 0x10, 0x181, 0x7ff, 0x800, 0x1fff_ffff, u32::MAX] {
        for bus in ["can0", "", "a/b", "0x9"] {
            let target = write_target(bus, id);
            assert_eq!(read_identifier(&target, 7).expect("named"), id, "{target}");
        }
    }
}

#[test]
fn the_scheme_does_not_matter() {
    for rest in ["can0/0x5", "0x5", "can0", "", "/", "0xzz"] {
        let with = read_identifier(&format!("can://{rest}"), 7);
        let without = read_identifier(rest, 7);
        assert_eq!(with.ok(), without.ok(), "{rest}");
    }
}

#[test]
fn an_origin_is_no_target() {
    let origin = write_origin("can0", 0x181, false);
    assert_eq!(unreadable(&origin), "0x181?extended=false");
}

#[test]
fn the_bounds_of_a_frame() {
    assert!(Frame::new(0x7ff, false, &[0; 8]).is_ok());
    assert!(matches!(Frame::new(0x800, false, &[]), Err(Error::IdentifierTooWide)));
    assert!(Frame::new(0x1fff_ffff, true, &[]).is_ok());
    assert!(matches!(Frame::new(0x2000_0000, true, &[]), Err(Error::IdentifierTooWide)));
    assert!(matches!(Frame::new(0x2000_0000, true, &[0; 9]), Err(Error::TooManyBytes)));
    assert_eq!(
        Error::TooManyBytes.message(),
        "a classical CAN frame carries at most eight bytes"
    );
    assert_eq!(Error::IdentifierTooWide.message(), "an identifier wider than the frame");
    let frame = Frame::new(0x181, false, &[1, 2]).expect("frame");
    assert_eq!(frame.id, 0x181);
    assert!(!frame.extended);
    assert_eq!(frame.data, [1, 2]);
    assert_eq!(frame.clone(), frame);
    assert_ne!(Frame::new(0x181, true, &[1, 2]).expect("frame"), frame);
    assert_ne!(Frame::new(0x180, false, &[1, 2]).expect("frame"), frame);
    assert_ne!(Frame::new(0x181, false, &[1, 3]).expect("frame"), frame);
    assert_ne!(Frame::new(0x181, false, &[1]).expect("frame"), frame);
}

#[test]
fn what_cannot_be_sent_leaves_the_bus_quiet() {
    let mut transport = CanTransport::new(Loopback::new(), 0x181);
    assert!(matches!(transport.send("0x1", &[0; 9]), Err(Error::TooManyBytes)));
    assert!(matches!(transport.send("0x20000000", &[]), Err(Error::IdentifierTooWide)));
    assert!(matches!(transport.send("0xg", &[0; 9]), Err(Error::NotAnIdentifier(_))));
    assert!(transport.receive().expect("quiet").is_empty());
}

#[test]
fn an_extended_transport_sends_every_identifier_extended() {
    let mut transport = CanTransport::new(Loopback::new(), 0x800);
    transport.send("0x1", &[1]).expect("sending");
    transport.send("own", &[2]).expect("sending");
    let first = transport.receive().expect("reading");
    assert_eq!(first.len(), 1);
    assert_eq!(first[0].origin_uri, "can://loopback/0x1?extended=true");
    let second = transport.receive_one().expect("reading").expect("a frame");
    assert_eq!(second.origin_uri, "can://loopback/0x800?extended=true");
    assert_eq!(second.bytes, [2]);
}
