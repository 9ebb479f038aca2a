//! Streams that arrive as CAN frames. One classical CAN frame is one Stream:
//! up to eight data bytes, with the identifier beside them.
//!
//! CAN is the vehicle and the machine: every `ECU`, every drive, every safety
//! controller on a two-wire bus. The frame is tiny and the identifier is most
//! of the meaning, so this transport carries the identifier in the origin
//! URI, `can://can0/0x181?extended=false`, and the protocols above it read it
//! back from there. Which frames belong together is theirs.
//!
//! [`Bus`] is the boundary; [`Loopback`] is an in-process bus that every test
//! and every box without a CAN interface can drive. Frames for the Linux
//! kernel bus are made and read in [`kernel`]. A [`CanTransport`] is built on
//! whichever bus the node has.

pub mod bus;
pub mod bytes;
pub mod calls;
pub mod error;
pub mod frame;
pub mod hex;
pub mod kernel;
pub mod laws;
pub mod loopback;
pub mod stream;
pub mod transport;
pub mod uri;

pub use bus::{Bus, Loopback};
pub use error::Error;
pub use frame::Frame;
pub use stream::Arrived;
pub use transport::CanTransport;
