//! The sensor's register map.

use vstd::prelude::*;

verus! {

/// A register of the sensor. Registers are addressed by name; the offset of
/// each is fixed by the device.
#[derive(Debug, Clone, Copy, PartialEq, Eq, Structural)]
pub enum BaroRegister {
    /// Chip identity.
    ChipID,
    /// Fault flags.
    ErrReg,
    /// Data-ready and command-ready flags.
    Status,
    /// Pressure, lowest byte.
    Data0,
    /// Pressure, middle byte.
    Data1,
    /// Pressure, highest byte.
    Data2,
    /// Temperature, lowest byte.
    Data3,
    /// Temperature, middle byte.
    Data4,
    /// Temperature, highest byte.
    Data5,
    /// Sensor time, lowest byte.
    SensorTime0,
    /// Sensor time, middle byte.
    SensorTime1,
    /// Sensor time, highest byte.
    SensorTime2,
    /// Power-on and interface events.
    Event,
    /// Interrupt status.
    IntStatus,
    /// FIFO fill level, low byte.
    FifoLength0,
    /// FIFO fill level, high byte.
    FifoLength1,
    /// FIFO data output.
    FifoData,
    /// FIFO watermark, low byte.
    FifoWtm0,
    /// FIFO watermark, high byte.
    FifoWtm1,
    /// FIFO mode.
    FifoConfig1,
    /// FIFO data selection.
    FifoConfig2,
    /// Interrupt pin control.
    IntCtrl,
    /// Serial interface settings.
    IfConf,
    /// Sensor enables and power mode.
    PwrCtrl,
    /// Oversampling.
    OSR,
    /// Output data rate.
    ODR,
    /// Filter coefficient.
    Config,
    /// Command register.
    Cmd,
}

impl BaroRegister {
    /// The register's offset in the device's address space.
    pub open spec fn offset(self) -> u8 {
        match self {
            BaroRegister::ChipID => 0x00,
            BaroRegister::ErrReg => 0x02,
            BaroRegister::Status => 0x03,
            BaroRegister::Data0 => 0x04,
            BaroRegister::Data1 => 0x05,
            BaroRegister::Data2 => 0x06,
            BaroRegister::Data3 => 0x07,
            BaroRegister::Data4 => 0x08,
            BaroRegister::Data5 => 0x09,
            BaroRegister::SensorTime0 => 0x0C,
            BaroRegister::SensorTime1 => 0x0D,
            BaroRegister::SensorTime2 => 0x0E,
            BaroRegister::Event => 0x10,
            BaroRegister::IntStatus => 0x11,
            BaroRegister::FifoLength0 => 0x12,
            BaroRegister::FifoLength1 => 0x13,
            BaroRegister::FifoData => 0x14,
            BaroRegister::FifoWtm0 => 0x15,
            BaroRegister::FifoWtm1 => 0x16,
            BaroRegister::FifoConfig1 => 0x17,
            BaroRegister::FifoConfig2 => 0x18,
            BaroRegister::IntCtrl => 0x19,
            BaroRegister::IfConf => 0x1A,
            BaroRegister::PwrCtrl => 0x1B,
            BaroRegister::OSR => 0x1C,
            BaroRegister::ODR => 0x1D,
            BaroRegister::Config => 0x1F,
            BaroRegister::Cmd => 0x7E,
        }
    }

    /// The register's offset in the device's address space.
    pub fn addr(self) -> (a: u8)
        ensures
            a == self.offset(),
            a < 0x80,
    {
        match self {
            BaroRegister::ChipID => 0x00,
            BaroRegister::ErrReg => 0x02,
            BaroRegister::Status => 0x03,
            BaroRegister::Data0 => 0x04,
            BaroRegister::Data1 => 0x05,
            BaroRegister::Data2 => 0x06,
            BaroRegister::Data3 => 0x07,
            BaroRegister::Data4 => 0x08,
            BaroRegister::Data5 => 0x09,
            BaroRegister::SensorTime0 => 0x0C,
            BaroRegister::SensorTime1 => 0x0D,
            BaroRegister::SensorTime2 => 0x0E,
            BaroRegister::Event => 0x10,
            BaroRegister::IntStatus => 0x11,
            BaroRegister::FifoLength0 => 0x12,
            BaroRegister::FifoLength1 => 0x13,
            BaroRegister::FifoData => 0x14,
            BaroRegister::FifoWtm0 => 0x15,
            BaroRegister::FifoWtm1 => 0x16,
            BaroRegister::FifoConfig1 => 0x17,
            BaroRegister::FifoConfig2 => 0x18,
            BaroRegister::IntCtrl => 0x19,
            BaroRegister::IfConf => 0x1A,
            BaroRegister::PwrCtrl => 0x1B,
            BaroRegister::OSR => 0x1C,
            BaroRegister::ODR => 0x1D,
            BaroRegister::Config => 0x1F,
            BaroRegister::Cmd => 0x7E,
        }
    }

    /// The address byte that opens a read of this register: the offset with
    /// the top bit set.
    pub open spec fn read_command(self) -> u8 {
        self.offset() | 0x80
    }
}

/// The address byte of a read has bit 7 set and the register's offset in
/// its lower seven bits.
pub proof fn lemma_read_command(reg: BaroRegister)
    ensures
        reg.read_command() & 0x80 == 0x80,
        reg.read_command() & 0x7F == reg.offset(),
        reg.read_command() == reg.offset() + 0x80,
{
    let a = reg.offset();
    assert(a < 0x80);
    assert((a | 0x80) & 0x80 == 0x80) by (bit_vector);
    assert(a < 0x80 ==> (a | 0x80) & 0x7F == a) by (bit_vector);
    assert(a < 0x80 ==> (a | 0x80) == a + 0x80) by (bit_vector);
}

} // verus!
