//! Register driver for the barometric pressure sensor.

pub mod registers;
pub mod flags;
pub mod framing;
pub mod driver;
