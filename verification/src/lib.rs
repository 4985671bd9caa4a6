//! Drivers for the peripherals on a board's serial links.
//!
//! [`spi`] models exclusive access to a serial bus that several devices
//! share: a transport is written as a pair of capability types, idle and
//! selected, and [`spi::conn::Spi`] keeps a ghost history of every exchange
//! made through it. [`baro`] is a register driver for a barometric pressure
//! sensor built on that connection; its contracts say which bytes cross the
//! wire for each read and how the sensor's bitfields are decoded. [`gps`]
//! holds the framing rules of the positioning receiver's serial link.

pub mod spi;
pub mod baro;
pub mod gps;
