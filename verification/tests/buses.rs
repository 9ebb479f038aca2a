use std::io;
use std::sync::{Arc, Mutex};
use std::time::Duration;

use can_bus::stream::{conclude, confirm, Gathered, Gathering};
use can_bus::{Arrived, Bus, CanTransport, Error, Frame, Loopback};

/// What a bus was asked to do.
#[derive(Default)]
struct Log {
    timeouts: Vec<Duration>,
    frames: Vec<Frame>,
}

/// A bus that keeps a log, holds what it is given, and fails once it holds
/// `room` frames.
struct Watched {
    log: Arc<Mutex<Log>>,
    room: usize,
}

fn watched(room: usize) -> (Watched, Arc<Mutex<Log>>) {
    let log = Arc::new(Mutex::new(Log::default()));
    (Watched { log: Arc::clone(&log), room }, log)
}

impl Bus for Watched {
    fn name(&self) -> &str {
        "watched"
    }

    fn receive(&mut self, timeout: Duration) -> Result<Option<Frame>, Error> {
        self.log.lock().unwrap().timeouts.push(timeout);
        Err(Error::Failed {
            doing: "reading the bus".to_owned(),
            cause: io::Error::from(io::ErrorKind::BrokenPipe),
        })
    }

    fn transmit(&mut self, frame: &Frame) -> Result<(), Error> {
        let mut log = self.log.lock().unwrap();
        if log.frames.len() == self.room {
            return Err(Error::FrameRefused);
        }
        log.frames.push(frame.clone());
        Ok(())
    }
}

/// A bus that takes every frame and gives none back.
struct Swallows;

impl Bus for Swallows {
    fn name(&self) -> &str {
        "hole"
    }

    fn receive(&mut self, _timeout: Duration) -> Result<Option<Frame>, Error> {
        Ok(None)
    }

    fn transmit(&mut self, _frame: &Frame) -> Result<(), Error> {
        Ok(())
    }
}

#[test]
fn a_read_waits_for_one_second_unless_told_otherwise() {
    let (bus, log) = watched(0);
    let mut transport = CanTransport::new(bus, 1);
    assert!(transport.receive_one().is_err());
    let mut transport = transport.timing_out_after(Duration::from_millis(250));
    assert!(transport.receive().is_err());
    assert_eq!(
        log.lock().unwrap().timeouts,
        [Duration::from_secs(1), Duration::from_millis(250)]
    );
}

#[test]
fn a_failing_bus_is_reported_as_it_failed() {
    let (bus, _log) = watched(9);
    let mut transport = CanTransport::new(bus, 1);
    transport.send("", b"x").expect("sending");
    match transport.receive() {
        Err(Error::Failed { doing, cause }) => {
            assert_eq!(doing, "reading the bus");
            assert_eq!(cause.kind(), io::ErrorKind::BrokenPipe);
        }
        other => panic!("{other:?}"),
    }
}

#[test]
fn a_stream_travels_as_frames_of_at_most_eight_bytes() {
    for (length, expected) in [
        (0, vec![0]),
        (1, vec![1]),
        (8, vec![8]),
        (9, vec![8, 1]),
        (16, vec![8, 8]),
        (17, vec![8, 8, 1]),
    ] {
        let (bus, log) = watched(9);
        let mut transport = CanTransport::new(bus, 0x181);
        let payload: Vec<u8> = (0..length).collect();
        transport.send_to("can://watched/0x182", &payload).expect("sending");
        let log = log.lock().unwrap();
        let lengths: Vec<usize> = log.frames.iter().map(|frame| frame.data.len()).collect();
        assert_eq!(lengths, expected);
        let bytes: Vec<u8> = log.frames.iter().flat_map(|frame| frame.data.clone()).collect();
        assert_eq!(bytes, payload);
        assert!(log.frames.iter().all(|frame| frame.id == 0x182 && !frame.extended));
    }
}

#[test]
fn a_stream_is_sent_as_far_as_the_bus_takes_it() {
    let (bus, log) = watched(2);
    let mut transport = CanTransport::new(bus, 0x181);
    let error = transport.send_to("", &[5; 30]).expect_err("full");
    assert!(matches!(error, Error::FrameRefused));
    assert_eq!(log.lock().unwrap().frames.len(), 2);
}

#[test]
fn a_bus_that_gives_nothing_back_is_quiet() {
    let mut transport = CanTransport::new(Swallows, 0x181);
    let far = transport.far_end().expect("far end");
    assert_eq!(far.address(), "can://hole/0x181");
    transport.send_to(far.address(), b"x").expect("sending");
    assert!(transport.receive_one().expect("quiet").is_none());
}

#[test]
fn what_is_gathered_is_all_the_bytes_under_the_last_origin() {
    let mut gathering = Gathering::new();
    gathering.take(Arrived::new("first".to_owned(), vec![1, 2]));
    gathering.take(Arrived::new("second".to_owned(), vec![]));
    gathering.take(Arrived::new("third".to_owned(), vec![3]));
    let arrived = gathering.finish().expect("something");
    assert_eq!(arrived.origin_uri, "third");
    assert_eq!(arrived.bytes, [1, 2, 3]);
    assert!(matches!(Gathering::new().finish(), Err(Error::NothingArrived)));
}

#[test]
fn a_round_is_confirmed_only_by_the_bytes_that_were_sent() {
    let same = confirm(b"abc", Arrived::new("o".to_owned(), b"abc".to_vec()));
    assert_eq!(same.expect("same").origin_uri, "o");
    for other in [&b"abd"[..], b"ab", b"abcd", b""] {
        let outcome = confirm(b"abc", Arrived::new("o".to_owned(), other.to_vec()));
        assert!(matches!(outcome, Err(Error::Differs)));
    }
}

#[test]
fn the_far_end_reads_on_until_the_bus_is_quiet_or_fails() {
    let one = Arrived::new("first".to_owned(), vec![1]);
    let two = Arrived::new("second".to_owned(), vec![2]);
    let Gathered::More(more) = Gathering::new().after(Ok(Some(one))) else {
        panic!("a Stream ends nothing");
    };
    let Gathered::More(more) = more.after(Ok(Some(two))) else {
        panic!("a Stream ends nothing");
    };
    let Gathered::Done(Ok(arrived)) = more.after(Ok(None)) else {
        panic!("quiet ends it");
    };
    assert_eq!(arrived.origin_uri, "second");
    assert_eq!(arrived.bytes, [1, 2]);
    assert!(matches!(
        Gathering::new().after(Ok(None)),
        Gathered::Done(Err(Error::NothingArrived))
    ));
    let mut begun = Gathering::new();
    begun.take(Arrived::new("first".to_owned(), vec![1]));
    assert!(matches!(
        begun.after(Err(Error::FrameRefused)),
        Gathered::Done(Err(Error::FrameRefused))
    ));
}

/// A round step by step, as a holder of any bus runs it.
fn stepped<B: Bus>(transport: &mut CanTransport<B>, payload: &[u8]) -> Result<Arrived, Error> {
    let mut gathering = transport.begin_round(payload)?;
    loop {
        let read = transport.receive_one();
        match gathering.after_in_round(payload, read) {
            Gathered::More(more) => gathering = more,
            Gathered::Done(outcome) => return outcome,
        }
    }
}

#[test]
fn a_round_step_by_step_is_a_round() {
    let payload: Vec<u8> = (0..=255).collect();
    let mut transport = CanTransport::new(Loopback::new(), 0x181);
    let by_steps = stepped(&mut transport, &payload).expect("by steps");
    let at_once = transport.round(&payload).expect("at once");
    assert_eq!(by_steps.bytes, payload);
    assert_eq!(at_once.bytes, payload);
    assert_eq!(by_steps.origin_uri, at_once.origin_uri);
    transport.send("", b"left").expect("sending");
    assert!(matches!(stepped(&mut transport, b"x"), Err(Error::Differs)));
    let mut hole = CanTransport::new(Swallows, 1);
    assert!(matches!(stepped(&mut hole, b"x"), Err(Error::NothingArrived)));
}

#[test]
fn a_round_that_cannot_be_sent_reads_nothing() {
    let (bus, log) = watched(1);
    let mut transport = CanTransport::new(bus, 0x181);
    assert!(matches!(stepped(&mut transport, &[0; 9]), Err(Error::FrameRefused)));
    assert_eq!(log.lock().unwrap().frames.len(), 1);
    assert!(log.lock().unwrap().timeouts.is_empty());
    let (bus, log) = watched(9);
    let mut transport = CanTransport::new(bus, 0x181);
    assert!(matches!(stepped(&mut transport, &[0; 9]), Err(Error::Failed { .. })));
    assert_eq!(log.lock().unwrap().frames.len(), 2);
    assert_eq!(log.lock().unwrap().timeouts.len(), 1);
}

#[test]
fn a_round_ends_as_the_far_end_did_unless_the_bytes_differ() {
    let came = Arrived::new("o".to_owned(), vec![1]);
    assert_eq!(conclude(&[1], Ok(came)).expect("same").origin_uri, "o");
    let came = Arrived::new("o".to_owned(), vec![1]);
    assert!(matches!(conclude(&[2], Ok(came)), Err(Error::Differs)));
    assert!(matches!(
        conclude(&[], Err(Error::NothingArrived)),
        Err(Error::NothingArrived)
    ));
}
