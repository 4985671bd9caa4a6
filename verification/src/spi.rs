//! The shared serial bus: transport capabilities, the history of a
//! connection, and the connection itself.

pub mod spi_device;
pub mod trace;
pub mod laws;
pub mod progress;
pub mod conn;
