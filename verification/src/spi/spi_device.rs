//! The capability interface of a transport.
//!
//! A transport comes as two types. A value of the idle type owns the bus
//! lines of one device while its chip-select is released; a value of the
//! selected type owns them while it is asserted. `select` and `deselect`
//! consume one and hand out the other, so a byte can only be exchanged
//! between the two, and a device cannot be selected twice. When a transition
//! fails, the capability that went in comes back with the error: no
//! connection is ever lost.
//!
//! The methods carry no contract. Nothing is assumed of the hardware behind
//! them; what the library guarantees is stated over the history that
//! [`Spi`](crate::spi::conn::Spi) records around each call.

use vstd::prelude::*;

verus! {

/// What can go wrong on the bus.
#[derive(Debug, Clone, Copy, PartialEq, Eq, Structural)]
pub enum SpiError {
    /// The chip-select line could not be driven.
    SelectError,
    /// A byte could not be sent.
    WriteError,
    /// A byte could not be received.
    ReadError,
}

/// A device whose chip-select is asserted: the only state in which bytes
/// are exchanged.
pub trait SelectedSpiDeviceConn: Sized {
    /// The idle capability that releasing the device gives back.
    type SpiDeviceConn;

    /// Releases chip-select. On failure the device is still selected and the
    /// capability is returned as it was.
    fn deselect(self) -> Result<Self::SpiDeviceConn, (Self, SpiError)>;

    /// Sends exactly one byte to the device.
    fn write_byte(&mut self, byte: u8) -> Result<(), SpiError>;

    /// Receives exactly one byte from the device.
    fn read_byte(&mut self) -> Result<u8, SpiError>;
}

/// A device whose chip-select is released.
pub trait SpiDeviceConn: Sized {
    /// The capability held while this device is selected.
    type Selected: SelectedSpiDeviceConn<SpiDeviceConn = Self>;

    /// Asserts chip-select. On failure the device is not selected and the
    /// capability is returned as it was.
    fn select(self) -> Result<Self::Selected, (Self, SpiError)>;
}

} // verus!
