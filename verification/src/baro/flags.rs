//! The sensor's status and fault bitfields, and the driver's error type.

use vstd::prelude::*;
use crate::spi::spi_device::SpiError;

verus! {

/// The operating status that the sensor reports in its status register.
#[derive(Debug, Clone, Copy, PartialEq, Eq, Structural)]
pub struct BaroStatus {
    /// A temperature sample is ready (bit 6).
    pub temp_rdy: bool,
    /// A pressure sample is ready (bit 5).
    pub pres_rdy: bool,
    /// The sensor accepts a command (bit 4).
    pub cmd_rdy: bool,
}

impl BaroStatus {
    /// What a value of the status register means.
    pub open spec fn decode(val: u8) -> BaroStatus {
        BaroStatus {
            temp_rdy: val & 0b0100_0000 != 0,
            pres_rdy: val & 0b0010_0000 != 0,
            cmd_rdy: val & 0b0001_0000 != 0,
        }
    }

    /// Decodes a value of the status register.
    pub fn new(val: u8) -> (status: Self)
        ensures
            status == Self::decode(val),
    {
        Self {
            temp_rdy: (val & 0b0100_0000) != 0,
            pres_rdy: (val & 0b0010_0000) != 0,
            cmd_rdy: (val & 0b0001_0000) != 0,
        }
    }
}

/// The faults that the sensor reports in its error register.
#[derive(Debug, Clone, Copy, PartialEq, Eq, Structural)]
pub struct BaroDevError {
    /// The sensor's configuration is not valid (bit 0).
    pub conf_err: bool,
    /// A command failed (bit 1).
    pub cmd_err: bool,
    /// The sensor met a fatal error (bit 2).
    pub fatal_err: bool,
}

impl BaroDevError {
    /// What a value of the error register means.
    pub open spec fn decode(val: u8) -> BaroDevError {
        BaroDevError {
            conf_err: val & 0b001 != 0,
            cmd_err: val & 0b010 != 0,
            fatal_err: val & 0b100 != 0,
        }
    }

    /// Decodes a value of the error register.
    pub fn new(val: u8) -> (faults: Self)
        ensures
            faults == Self::decode(val),
    {
        Self {
            conf_err: (val & 0b001) != 0,
            cmd_err: (val & 0b010) != 0,
            fatal_err: (val & 0b100) != 0,
        }
    }
}

/// Why a read of the sensor failed: either the bus did, or the bus worked
/// and the sensor reported a fault.
#[derive(Debug, Clone, Copy, PartialEq, Eq, Structural)]
pub enum BaroError {
    /// The bus failed; the error is the transport's own.
    MessageErr(SpiError),
    /// The error register was not zero; these are its flags.
    DeviceErr(BaroDevError),
}

} // verus!
