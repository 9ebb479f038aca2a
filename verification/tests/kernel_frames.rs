use std::io;

use can_bus::kernel::{decode, decode_sound, encode, Heard, Next, Step};
use can_bus::{Error, Frame};
use socketcan::frame::can_frame_default;
use socketcan::{CanFrame, EmbeddedFrame, ExtendedId, StandardId};

fn frame(id: u32, extended: bool, data: &[u8]) -> Frame {
    Frame { id, extended, data: data.to_vec() }
}

#[test]
fn a_frame_goes_to_the_kernel_and_comes_back() {
    for sent in [
        frame(0, false, b""),
        frame(0x7ff, false, b"eight by"),
        frame(0, true, b"x"),
        frame(0x1fff_ffff, true, &[0xff; 8]),
    ] {
        let made = encode(&sent).expect("fits");
        assert_eq!(made.is_extended(), sent.extended);
        assert_eq!(made.data(), sent.data);
        assert_eq!(decode(Ok(made)).expect("read"), Heard::Frame(sent));
    }
}

#[test]
fn the_kernel_frame_is_the_one_that_the_crate_builds() {
    let standard = CanFrame::new(StandardId::new(0x181).expect("id"), &[1, 2]).expect("frame");
    assert_eq!(encode(&frame(0x181, false, &[1, 2])).expect("fits"), standard);
    let extended = CanFrame::new(ExtendedId::new(0x181).expect("id"), &[1, 2]).expect("frame");
    assert_eq!(encode(&frame(0x181, true, &[1, 2])).expect("fits"), extended);
}

#[test]
fn what_does_not_fit_is_refused_identifier_first() {
    let error = encode(&frame(0x2000_0000, true, &[0; 9])).expect_err("wide");
    assert!(matches!(error, Error::WiderThanExtended));
    assert_eq!(error.message(), "an identifier wider than 29 bits");
    for id in [0x800, 0xffff, 0x1_0000, 0x1_0181, u32::MAX] {
        let error = encode(&frame(id, false, &[])).expect_err("wide");
        assert!(matches!(error, Error::WiderThanStandard));
        assert_eq!(error.message(), "an identifier wider than 11 bits");
    }
    let error = encode(&frame(1, false, &[0; 9])).expect_err("long");
    assert!(matches!(error, Error::FrameRefused));
    assert_eq!(error.message(), "a frame the bus refused");
}

#[test]
fn a_remote_frame_and_an_error_frame_arrive_without_being_quiet() {
    let remote = CanFrame::new_remote(StandardId::new(1).expect("id"), 4).expect("remote");
    assert_eq!(decode(Ok(remote)).expect("read"), Heard::Other);
    let mut raw = can_frame_default();
    raw.can_id = 0x2000_0000;
    raw.can_dlc = 8;
    let error = CanFrame::from(raw);
    assert!(matches!(error, CanFrame::Error(_)));
    assert_eq!(decode(Ok(error)).expect("read"), Heard::Other);
    assert_eq!(decode_sound(Ok(remote)).expect("sound").expect("read"), Heard::Other);
}

#[test]
fn running_out_of_time_is_quiet_and_anything_else_fails() {
    let late = io::Error::from(io::ErrorKind::WouldBlock);
    assert_eq!(decode(Err(late)).expect("quiet"), Heard::Quiet);
    match decode(Err(io::Error::from(io::ErrorKind::NotConnected))) {
        Err(Error::Failed { doing, cause }) => {
            assert_eq!(doing, "reading the bus");
            assert_eq!(cause.kind(), io::ErrorKind::NotConnected);
        }
        other => panic!("{other:?}"),
    }
    let error = decode(Err(io::Error::from(io::ErrorKind::NotConnected))).expect_err("failed");
    assert_eq!(error.message(), "reading the bus");
}

#[test]
fn a_frame_that_claims_too_much_is_not_read() {
    let mut raw = can_frame_default();
    raw.can_id = 0x181;
    raw.can_dlc = 9;
    assert!(decode_sound(Ok(CanFrame::from(raw))).is_none());
    raw.can_dlc = 2;
    raw.data[1] = 7;
    let read = decode_sound(Ok(CanFrame::from(raw))).expect("sound");
    assert_eq!(read.expect("read"), Heard::Frame(frame(0x181, false, &[0, 7])));
    let late = io::Error::from(io::ErrorKind::WouldBlock);
    assert_eq!(decode_sound(Err(late)).expect("sound").expect("quiet"), Heard::Quiet);
}

#[test]
fn a_failed_step_says_what_it_was_and_why() {
    for (step, text) in [
        (Step::Opening, "opening the CAN interface"),
        (Step::SettingTimeout, "setting the read timeout"),
        (Step::Reading, "reading the bus"),
        (Step::Writing, "writing the bus"),
    ] {
        match step.failed(io::Error::from(io::ErrorKind::NotFound)) {
            Error::Failed { doing, cause } => {
                assert_eq!(doing, text);
                assert_eq!(cause.kind(), io::ErrorKind::NotFound);
            }
            other => panic!("{other:?}"),
        }
    }
}

#[test]
fn what_carries_nothing_is_passed_over_while_there_is_time() {
    for time_left in [true, false] {
        let data = frame(0x181, false, &[1]);
        assert_eq!(
            Heard::Frame(data.clone()).next(time_left),
            Next::Answer(Some(data))
        );
        assert_eq!(Heard::Quiet.next(time_left), Next::Answer(None));
    }
    assert_eq!(Heard::Other.next(true), Next::ReadAgain);
    assert_eq!(Heard::Other.next(false), Next::Answer(None));
}

#[test]
fn the_kernel_refuses_what_frame_new_refuses() {
    for extended in [false, true] {
        for id in [0, 0x7ff, 0x800, 0x1fff_ffff, 0x2000_0000, u32::MAX] {
            for length in [0, 8, 9] {
                let data = vec![1; length];
                assert_eq!(
                    encode(&frame(id, extended, &data)).is_ok(),
                    Frame::new(id, extended, &data).is_ok()
                );
            }
        }
    }
}
