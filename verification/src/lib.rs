//! The logic of a driver for the Nintendo Switch Online GameCube controller.
//!
//! The controller is read over USB or Bluetooth LE. Its buttons, sticks and
//! triggers stream only after a handshake, and the raw axis values mean nothing
//! until the calibration in its flash has been read. What comes out goes to the
//! Dolphin emulator through a named pipe.
//!
//! Everything here takes plain values and gives plain values back: which bytes to
//! send, what a report says, what to write next. A program around it does the
//! reading and writing.
//!
//! * [`protocol`] has what both transports share: command frames, the input
//!   report, and calibration.
//! * [`transport`] has what is particular to each: recognising the controller,
//!   bringing it up, and telling its packets apart.
//! * [`output`] has the commands that Dolphin reads, and the way they get there.
//! * [`latency`] and [`meter`] measure the link.
//! * [`driver`] decides which way to go, what to do with each report, and when to
//!   stop.
//!
//! Sticks and triggers are readings in single precision, and rates come out of
//! double precision. [`rounding`] states that arithmetic over whole numbers, and
//! [`reading`] and [`double`] carry it out, so what is promised of a reading or a
//! rate holds to the last bit.
pub mod clock;
pub mod digits;
pub mod double;
pub mod driver;
pub mod latency;
pub mod meter;
pub mod output;
pub mod protocol;
pub mod reading;
pub mod rounding;
pub mod text;
pub mod transport;
