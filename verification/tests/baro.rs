use sirin::baro::driver::{u24_le, Baro};
use sirin::baro::flags::{BaroDevError, BaroError, BaroStatus};
use sirin::baro::registers::BaroRegister;
use sirin::spi::conn::Spi;
use sirin::spi::spi_device::{SelectedSpiDeviceConn, SpiDeviceConn, SpiError};

use std::cell::RefCell;
use std::collections::VecDeque;
use std::rc::Rc;

/// What the transport was asked to do.
#[derive(Debug, Clone, Copy, PartialEq, Eq)]
enum Op {
    Select,
    Deselect,
    Write(u8),
    Read,
}

/// How the transport answers one request.
#[derive(Debug, Clone, Copy)]
enum Reply {
    Done,
    Byte(u8),
    Fail(SpiError),
}

/// A transport that answers from a script and keeps a record of every
/// request. Once the script is used up every request succeeds and reads
/// deliver zero.
#[derive(Clone)]
struct Wire {
    script: Rc<RefCell<VecDeque<Reply>>>,
    seen: Rc<RefCell<Vec<Op>>>,
}

impl Wire {
    fn new(script: Vec<Reply>) -> Wire {
        Wire {
            script: Rc::new(RefCell::new(script.into_iter().collect())),
            seen: Rc::new(RefCell::new(Vec::new())),
        }
    }

    fn answer(&self, op: Op) -> Result<u8, SpiError> {
        self.seen.borrow_mut().push(op);
        match self.script.borrow_mut().pop_front() {
            None | Some(Reply::Done) => Ok(0),
            Some(Reply::Byte(b)) => Ok(b),
            Some(Reply::Fail(e)) => Err(e),
        }
    }

    fn seen(&self) -> Vec<Op> {
        self.seen.borrow().clone()
    }

    fn idle(&self) -> Released {
        Released(self.clone())
    }
}

struct Released(Wire);

struct Asserted(Wire);

impl SpiDeviceConn for Released {
    type Selected = Asserted;

    fn select(self) -> Result<Asserted, (Released, SpiError)> {
        match self.0.answer(Op::Select) {
            Ok(_) => Ok(Asserted(self.0)),
            Err(e) => Err((self, e)),
        }
    }
}

impl SelectedSpiDeviceConn for Asserted {
    type SpiDeviceConn = Released;

    fn deselect(self) -> Result<Released, (Asserted, SpiError)> {
        match self.0.answer(Op::Deselect) {
            Ok(_) => Ok(Released(self.0)),
            Err(e) => Err((self, e)),
        }
    }

    fn write_byte(&mut self, byte: u8) -> Result<(), SpiError> {
        self.0.answer(Op::Write(byte)).map(|_| ())
    }

    fn read_byte(&mut self) -> Result<u8, SpiError> {
        self.0.answer(Op::Read)
    }
}

fn sensor(wire: &Wire) -> Baro<Released> {
    Baro::new(Spi::new(wire.idle()))
}

const ALL_REGISTERS: [(BaroRegister, u8); 28] = [
    (BaroRegister::ChipID, 0x00),
    (BaroRegister::ErrReg, 0x02),
    (BaroRegister::Status, 0x03),
    (BaroRegister::Data0, 0x04),
    (BaroRegister::Data1, 0x05),
    (BaroRegister::Data2, 0x06),
    (BaroRegister::Data3, 0x07),
    (BaroRegister::Data4, 0x08),
    (BaroRegister::Data5, 0x09),
    (BaroRegister::SensorTime0, 0x0C),
    (BaroRegister::SensorTime1, 0x0D),
    (BaroRegister::SensorTime2, 0x0E),
    (BaroRegister::Event, 0x10),
    (BaroRegister::IntStatus, 0x11),
    (BaroRegister::FifoLength0, 0x12),
    (BaroRegister::FifoLength1, 0x13),
    (BaroRegister::FifoData, 0x14),
    (BaroRegister::FifoWtm0, 0x15),
    (BaroRegister::FifoWtm1, 0x16),
    (BaroRegister::FifoConfig1, 0x17),
    (BaroRegister::FifoConfig2, 0x18),
    (BaroRegister::IntCtrl, 0x19),
    (BaroRegister::IfConf, 0x1A),
    (BaroRegister::PwrCtrl, 0x1B),
    (BaroRegister::OSR, 0x1C),
    (BaroRegister::ODR, 0x1D),
    (BaroRegister::Config, 0x1F),
    (BaroRegister::Cmd, 0x7E),
];

#[test]
fn register_offsets_match_the_device() {
    for (reg, offset) in ALL_REGISTERS {
        assert_eq!(reg.addr(), offset);
    }
}

#[test]
fn status_decodes_bits_six_five_four() {
    let status = BaroStatus::new(0b0110_0000);
    assert!(status.temp_rdy);
    assert!(status.pres_rdy);
    assert!(!status.cmd_rdy);
}

#[test]
fn status_flags_are_independent() {
    assert_eq!(
        BaroStatus::new(0b0100_0000),
        BaroStatus { temp_rdy: true, pres_rdy: false, cmd_rdy: false }
    );
    assert_eq!(
        BaroStatus::new(0b0010_0000),
        BaroStatus { temp_rdy: false, pres_rdy: true, cmd_rdy: false }
    );
    assert_eq!(
        BaroStatus::new(0b0001_0000),
        BaroStatus { temp_rdy: false, pres_rdy: false, cmd_rdy: true }
    );
    assert_eq!(
        BaroStatus::new(0b1000_1111),
        BaroStatus { temp_rdy: false, pres_rdy: false, cmd_rdy: false }
    );
    assert_eq!(
        BaroStatus::new(0xFF),
        BaroStatus { temp_rdy: true, pres_rdy: true, cmd_rdy: true }
    );
}

#[test]
fn faults_decode_bits_zero_one_two() {
    let faults = BaroDevError::new(0b0000_0101);
    assert!(faults.conf_err);
    assert!(!faults.cmd_err);
    assert!(faults.fatal_err);
}

#[test]
fn fault_flags_are_independent() {
    assert_eq!(
        BaroDevError::new(0b001),
        BaroDevError { conf_err: true, cmd_err: false, fatal_err: false }
    );
    assert_eq!(
        BaroDevError::new(0b010),
        BaroDevError { conf_err: false, cmd_err: true, fatal_err: false }
    );
    assert_eq!(
        BaroDevError::new(0b100),
        BaroDevError { conf_err: false, cmd_err: false, fatal_err: true }
    );
    assert_eq!(
        BaroDevError::new(0b1111_1000),
        BaroDevError { conf_err: false, cmd_err: false, fatal_err: false }
    );
    assert_eq!(
        BaroDevError::new(0),
        BaroDevError { conf_err: false, cmd_err: false, fatal_err: false }
    );
}

#[test]
fn three_bytes_read_lowest_first() {
    assert_eq!(u24_le(&[0x10, 0x20, 0x00]), 0x0000_2010);
    assert_eq!(u24_le(&[0x01, 0x02, 0x03]), 0x0003_0201);
    assert_eq!(u24_le(&[0xFF, 0xFF, 0xFF]), 0x00FF_FFFF);
    assert_eq!(u24_le(&[0, 0, 0]), 0);
}

#[test]
fn read_register_frames_every_register_alike() {
    for (reg, offset) in ALL_REGISTERS {
        let wire = Wire::new(vec![Reply::Done, Reply::Done, Reply::Byte(0xEE), Reply::Byte(0x5A)]);
        let mut baro = sensor(&wire);
        assert_eq!(baro.read_register(reg), Ok(0x5A));
        assert!(!baro.spi.is_selected());
        assert_eq!(
            wire.seen(),
            vec![Op::Select, Op::Write(offset | 0x80), Op::Read, Op::Read, Op::Deselect]
        );
    }
}

#[test]
fn read_register_discards_the_turnaround_byte() {
    let wire = Wire::new(vec![Reply::Done, Reply::Done, Reply::Byte(0x50), Reply::Byte(0x00)]);
    let mut baro = sensor(&wire);
    assert_eq!(baro.read_register(BaroRegister::ChipID), Ok(0x00));
}

#[test]
fn read_block_sends_the_address_once() {
    let wire = Wire::new(vec![
        Reply::Done,
        Reply::Done,
        Reply::Byte(0xEE),
        Reply::Byte(1),
        Reply::Byte(2),
        Reply::Byte(3),
        Reply::Byte(4),
        Reply::Byte(5),
        Reply::Byte(6),
    ]);
    let mut baro = sensor(&wire);
    assert_eq!(baro.read_block::<6>(BaroRegister::Data0), Ok([1, 2, 3, 4, 5, 6]));
    assert_eq!(
        wire.seen(),
        vec![
            Op::Select,
            Op::Write(0x84),
            Op::Read,
            Op::Read,
            Op::Read,
            Op::Read,
            Op::Read,
            Op::Read,
            Op::Read,
            Op::Deselect
        ]
    );
}

#[test]
fn read_block_of_nothing_still_takes_the_turnaround_byte() {
    let wire = Wire::new(vec![]);
    let mut baro = sensor(&wire);
    assert_eq!(baro.read_block::<0>(BaroRegister::Status), Ok([]));
    assert_eq!(
        wire.seen(),
        vec![Op::Select, Op::Write(0x83), Op::Read, Op::Deselect]
    );
}

#[test]
fn read_block_stops_at_a_failed_data_byte() {
    let wire = Wire::new(vec![
        Reply::Done,
        Reply::Done,
        Reply::Byte(0xEE),
        Reply::Byte(1),
        Reply::Fail(SpiError::ReadError),
    ]);
    let mut baro = sensor(&wire);
    assert_eq!(
        baro.read_block::<3>(BaroRegister::Data3),
        Err(BaroError::MessageErr(SpiError::ReadError))
    );
    assert!(!baro.spi.is_selected());
    assert_eq!(
        wire.seen(),
        vec![Op::Select, Op::Write(0x87), Op::Read, Op::Read, Op::Read, Op::Deselect]
    );
}

#[test]
fn failed_address_write_skips_every_read() {
    let wire = Wire::new(vec![Reply::Done, Reply::Fail(SpiError::WriteError)]);
    let mut baro = sensor(&wire);
    assert_eq!(
        baro.read_register(BaroRegister::Status),
        Err(BaroError::MessageErr(SpiError::WriteError))
    );
    assert!(!baro.spi.is_selected());
    assert_eq!(wire.seen(), vec![Op::Select, Op::Write(0x83), Op::Deselect]);
}

#[test]
fn failed_address_write_carries_the_transport_error() {
    for e in [SpiError::SelectError, SpiError::WriteError, SpiError::ReadError] {
        let wire = Wire::new(vec![Reply::Done, Reply::Fail(e)]);
        let mut baro = sensor(&wire);
        assert_eq!(
            baro.read_block::<3>(BaroRegister::Data0),
            Err(BaroError::MessageErr(e))
        );
        assert_eq!(wire.seen(), vec![Op::Select, Op::Write(0x84), Op::Deselect]);
    }
}

#[test]
fn failed_turnaround_read_skips_the_data() {
    let wire = Wire::new(vec![Reply::Done, Reply::Done, Reply::Fail(SpiError::ReadError)]);
    let mut baro = sensor(&wire);
    assert_eq!(
        baro.read_register(BaroRegister::ChipID),
        Err(BaroError::MessageErr(SpiError::ReadError))
    );
    assert_eq!(wire.seen(), vec![Op::Select, Op::Write(0x80), Op::Read, Op::Deselect]);
}

#[test]
fn failed_select_exchanges_nothing() {
    let wire = Wire::new(vec![Reply::Fail(SpiError::SelectError)]);
    let mut baro = sensor(&wire);
    assert_eq!(
        baro.read_register(BaroRegister::ChipID),
        Err(BaroError::MessageErr(SpiError::SelectError))
    );
    assert!(!baro.spi.is_selected());
    assert_eq!(wire.seen(), vec![Op::Select]);
}

#[test]
fn failed_release_is_reported_and_leaves_the_device_selected() {
    let wire = Wire::new(vec![
        Reply::Done,
        Reply::Done,
        Reply::Byte(0xEE),
        Reply::Byte(0x42),
        Reply::Fail(SpiError::SelectError),
    ]);
    let mut baro = sensor(&wire);
    assert_eq!(
        baro.read_register(BaroRegister::ChipID),
        Err(BaroError::MessageErr(SpiError::SelectError))
    );
    assert!(baro.spi.is_selected());
    assert_eq!(
        baro.read_register(BaroRegister::ChipID),
        Err(BaroError::MessageErr(SpiError::SelectError))
    );
    assert_eq!(wire.seen().len(), 5);
    assert_eq!(baro.spi.deselect(), Ok(()));
    assert_eq!(baro.read_register(BaroRegister::ChipID), Ok(0));
}

#[test]
fn temperature_reads_three_bytes_lowest_first() {
    let wire = Wire::new(vec![
        Reply::Done,
        Reply::Done,
        Reply::Byte(0xEE),
        Reply::Byte(0x00),
        Reply::Done,
        Reply::Done,
        Reply::Done,
        Reply::Byte(0xEE),
        Reply::Byte(0x10),
        Reply::Byte(0x20),
        Reply::Byte(0x00),
    ]);
    let mut baro = sensor(&wire);
    assert_eq!(baro.temp(), Ok(0x0000_2010));
    assert!(!baro.spi.is_selected());
    assert_eq!(
        wire.seen(),
        vec![
            Op::Select,
            Op::Write(0x82),
            Op::Read,
            Op::Read,
            Op::Deselect,
            Op::Select,
            Op::Write(0x87),
            Op::Read,
            Op::Read,
            Op::Read,
            Op::Read,
            Op::Deselect
        ]
    );
}

#[test]
fn temperature_with_fatal_fault_reads_no_data() {
    let wire = Wire::new(vec![Reply::Done, Reply::Done, Reply::Byte(0xEE), Reply::Byte(0x04)]);
    let mut baro = sensor(&wire);
    assert_eq!(
        baro.temp(),
        Err(BaroError::DeviceErr(BaroDevError {
            conf_err: false,
            cmd_err: false,
            fatal_err: true
        }))
    );
    assert_eq!(
        wire.seen(),
        vec![Op::Select, Op::Write(0x82), Op::Read, Op::Read, Op::Deselect]
    );
}

#[test]
fn pressure_reads_from_the_first_data_register() {
    let wire = Wire::new(vec![
        Reply::Done,
        Reply::Done,
        Reply::Done,
        Reply::Byte(0x00),
        Reply::Done,
        Reply::Done,
        Reply::Done,
        Reply::Done,
        Reply::Byte(0xCD),
        Reply::Byte(0xAB),
        Reply::Byte(0x7F),
    ]);
    let mut baro = sensor(&wire);
    assert_eq!(baro.pres(), Ok(0x007F_ABCD));
    assert_eq!(wire.seen()[1], Op::Write(0x82));
    assert_eq!(wire.seen()[6], Op::Write(0x84));
    assert_eq!(wire.seen().len(), 12);
}

#[test]
fn sensor_time_reads_from_its_first_register() {
    let wire = Wire::new(vec![
        Reply::Done,
        Reply::Done,
        Reply::Done,
        Reply::Byte(0x00),
        Reply::Done,
        Reply::Done,
        Reply::Done,
        Reply::Done,
        Reply::Byte(0x01),
        Reply::Byte(0x00),
        Reply::Byte(0x80),
    ]);
    let mut baro = sensor(&wire);
    assert_eq!(baro.sensorTime(), Ok(0x0080_0001));
    assert_eq!(wire.seen()[1], Op::Write(0x82));
    assert_eq!(wire.seen()[6], Op::Write(0x8C));
    assert_eq!(wire.seen().len(), 12);
}

#[test]
fn measurement_reports_every_fault_flag() {
    let wire = Wire::new(vec![Reply::Done, Reply::Done, Reply::Done, Reply::Byte(0b011)]);
    let mut baro = sensor(&wire);
    assert_eq!(
        baro.pres(),
        Err(BaroError::DeviceErr(BaroDevError {
            conf_err: true,
            cmd_err: true,
            fatal_err: false
        }))
    );
    assert_eq!(wire.seen().len(), 5);
}

#[test]
fn measurement_with_unknown_error_bits_reads_no_data() {
    let wire = Wire::new(vec![Reply::Done, Reply::Done, Reply::Done, Reply::Byte(0x80)]);
    let mut baro = sensor(&wire);
    assert_eq!(
        baro.sensorTime(),
        Err(BaroError::DeviceErr(BaroDevError {
            conf_err: false,
            cmd_err: false,
            fatal_err: false
        }))
    );
    assert_eq!(wire.seen().len(), 5);
}

#[test]
fn measurement_stops_when_the_fault_check_fails() {
    let wire = Wire::new(vec![
        Reply::Done,
        Reply::Done,
        Reply::Done,
        Reply::Fail(SpiError::ReadError),
    ]);
    let mut baro = sensor(&wire);
    assert_eq!(baro.temp(), Err(BaroError::MessageErr(SpiError::ReadError)));
    assert_eq!(
        wire.seen(),
        vec![Op::Select, Op::Write(0x82), Op::Read, Op::Read, Op::Deselect]
    );
}

#[test]
fn measurement_reports_a_failed_data_read() {
    let wire = Wire::new(vec![
        Reply::Done,
        Reply::Done,
        Reply::Done,
        Reply::Byte(0x00),
        Reply::Done,
        Reply::Done,
        Reply::Fail(SpiError::WriteError),
    ]);
    let mut baro = sensor(&wire);
    assert_eq!(baro.temp(), Err(BaroError::MessageErr(SpiError::WriteError)));
    assert_eq!(
        wire.seen(),
        vec![
            Op::Select,
            Op::Write(0x82),
            Op::Read,
            Op::Read,
            Op::Deselect,
            Op::Select,
            Op::Write(0x87),
            Op::Deselect
        ]
    );
}

#[test]
fn measurement_on_a_held_connection_is_refused() {
    let wire = Wire::new(vec![]);
    let mut spi = Spi::new(wire.idle());
    assert_eq!(spi.select(), Ok(()));
    let mut baro = Baro::new(spi);
    assert_eq!(baro.temp(), Err(BaroError::MessageErr(SpiError::SelectError)));
    assert!(baro.spi.is_selected());
    assert_eq!(wire.seen(), vec![Op::Select]);
}
