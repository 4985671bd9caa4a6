//! Addressed reads and measurements.

use vstd::prelude::*;
use crate::baro::flags::{BaroDevError, BaroError};
use crate::baro::framing::{frame_span, lemma_clean_read, read_frame};
use crate::baro::registers::BaroRegister;
use crate::spi::conn::Spi;
use crate::spi::laws::lemma_clean_transaction;
use crate::spi::progress::{
    attempted, in_progress, lemma_advance, lemma_begin, lemma_end, lemma_not_begun,
};
use crate::spi::spi_device::{SpiDeviceConn, SpiError};
use crate::spi::trace::{
    added, bytes_read, is_transaction, still_held, transaction_result, BusEvent, BusState,
};

verus! {

/// The value of three bytes read as one number, lowest byte first.
pub open spec fn u24_le_value(bytes: Seq<u8>) -> u32 {
    (bytes[0] + 256 * bytes[1] + 65536 * bytes[2]) as u32
}

/// Reads three bytes as one number, lowest byte first, with the top byte of
/// the result zero.
pub fn u24_le(bytes: &[u8; 3]) -> (value: u32)
    ensures
        value == u24_le_value(bytes@),
        value < 0x100_0000,
{
    let low: u32 = bytes[0] as u32;
    let mid: u32 = bytes[1] as u32;
    let high: u32 = bytes[2] as u32;
    low + 256 * mid + 65536 * high
}

/// Where the read of the error register ends in a measurement that takes a
/// connection from `pre` to `post`: an addressed read of one register makes
/// at most `frame_span(1)` attempts, and exactly that many when none fails.
pub open spec fn fault_check_end(pre: BusState, post: BusState) -> BusState {
    if pre.selected {
        pre
    } else {
        let t = added(pre, post);
        let check = if t.len() <= frame_span(1) {
            t
        } else {
            t.take(frame_span(1) as int)
        };
        BusState { selected: still_held(check), trace: pre.trace + check }
    }
}

/// `post` is `pre` after a measurement of the three bytes at `reg`: one
/// addressed read of the error register and, only if that read succeeded
/// and returned zero, one addressed read of three bytes at `reg`.
pub open spec fn is_measurement(pre: BusState, post: BusState, reg: BaroRegister) -> bool {
    let mid = fault_check_end(pre, post);
    &&& is_transaction(pre, mid, read_frame(BaroRegister::ErrReg, 1))
    &&& match transaction_result(pre, mid) {
        Ok(faults) if faults[1] == 0 => is_transaction(mid, post, read_frame(reg, 3)),
        _ => post == mid,
    }
}

/// What the measurement from `pre` to `post` returns: the bus error of
/// whichever read failed; else the decoded faults if the error register was
/// not zero; else the three data bytes as one number, lowest byte first.
pub open spec fn measurement_result(pre: BusState, post: BusState) -> Result<u32, BaroError> {
    let mid = fault_check_end(pre, post);
    match transaction_result(pre, mid) {
        Err(e) => Err(BaroError::MessageErr(e)),
        Ok(faults) => if faults[1] != 0 {
            Err(BaroError::DeviceErr(BaroDevError::decode(faults[1])))
        } else {
            match transaction_result(mid, post) {
                Err(e) => Err(BaroError::MessageErr(e)),
                Ok(data) => Ok(u24_le_value(data.skip(1))),
            }
        },
    }
}

/// A measurement that stops after the read of the error register ends where
/// that read ends.
proof fn lemma_check_only(pre: BusState, mid: BusState)
    requires
        is_transaction(pre, mid, read_frame(BaroRegister::ErrReg, 1)),
    ensures
        fault_check_end(pre, mid) == mid,
{
    if !pre.selected {
        assert(fault_check_end(pre, mid).trace =~= mid.trace);
    }
}

/// A measurement that goes on to read its data has the read of the error
/// register as its first `frame_span(1)` attempts.
proof fn lemma_check_then_read(pre: BusState, mid: BusState, post: BusState, reg: BaroRegister)
    requires
        is_transaction(pre, mid, read_frame(BaroRegister::ErrReg, 1)),
        transaction_result(pre, mid) is Ok,
        is_transaction(mid, post, read_frame(reg, 3)),
    ensures
        fault_check_end(pre, post) == mid,
{
    let check = added(pre, mid);
    lemma_clean_transaction(read_frame(BaroRegister::ErrReg, 1), check);
    let data = added(mid, post);
    let t = added(pre, post);
    assert(t =~= check + data);
    assert(t.take(frame_span(1) as int) =~= check);
    assert(fault_check_end(pre, post).trace =~= mid.trace);
}

/// A measurement that finds the error register not zero stops there: its
/// only transaction is the read of the error register, the data registers
/// are never addressed, and the decoded faults are returned.
pub proof fn lemma_fault_stops_measurement(pre: BusState, post: BusState, reg: BaroRegister)
    requires
        is_measurement(pre, post, reg),
        transaction_result(pre, fault_check_end(pre, post)) matches Ok(faults) && faults[1] != 0,
    ensures
        ({
            let t = added(pre, post);
            let faults = bytes_read(t)[1];
            &&& t.len() == frame_span(1)
            &&& t[1] == BusEvent::Write(BaroRegister::ErrReg.read_command(), Ok(()))
            &&& forall|i: int| 0 <= i < t.len() && i != 1 ==> !((#[trigger] t[i]) is Write)
            &&& !post.selected
            &&& measurement_result(pre, post) == Err::<u32, BaroError>(
                BaroError::DeviceErr(BaroDevError::decode(faults)),
            )
        }),
{
    let t = added(pre, post);
    lemma_clean_read(BaroRegister::ErrReg, 1, t);
    assert forall|i: int| 0 <= i < t.len() && i != 1 implies !((#[trigger] t[i]) is Write) by {
        if 2 <= i < 4 {
            assert(t[i] matches BusEvent::Read(Ok(_)));
        }
    }
}

/// The sensor, reached over its own connection to the bus.
pub struct Baro<C: SpiDeviceConn> {
    pub spi: Spi<C>,
}

impl<C: SpiDeviceConn> Baro<C> {
    /// A driver for the sensor behind `spi`. Nothing is exchanged yet.
    pub fn new(spi: Spi<C>) -> (baro: Self)
        ensures
            baro.spi == spi,
    {
        Self { spi }
    }

    /// Reads `N` consecutive registers starting at `reg` in one transaction.
    ///
    /// The read stops at the first attempt that fails; the device is
    /// released all the same, and the earlier error is the one returned.
    pub fn read_block<const N: usize>(&mut self, reg: BaroRegister) -> (r: Result<
        [u8; N],
        BaroError,
    >)
        requires
            old(self).spi.wf(),
        ensures
            final(self).spi.wf(),
            is_transaction(old(self).spi@, final(self).spi@, read_frame(reg, N as nat)),
            match transaction_result(old(self).spi@, final(self).spi@) {
                Ok(bytes) => bytes.len() == N + 1 && r is Ok && r->Ok_0@ == bytes.skip(1),
                Err(e) => r == Err::<[u8; N], BaroError>(BaroError::MessageErr(e)),
            },
    {
        let ghost pre = self.spi@;
        let ghost steps = read_frame(reg, N as nat);
        if self.spi.is_selected() {
            return Err(BaroError::MessageErr(SpiError::SelectError));
        }
        let selected = self.spi.select();
        if let Err(e) = selected {
            proof {
                lemma_not_begun(pre, steps, e);
            }
            return Err(BaroError::MessageErr(e));
        }
        proof {
            // `()` has a single value, so `selected` is `Ok(())`.
            assert(selected->Ok_0 == ());
            lemma_begin(pre, steps);
        }
        let mut buf: [u8; N] = [0u8; N];
        let mut failure: Option<SpiError> = None;
        let command: u8 = reg.addr() | 0x80;
        let ghost cur = self.spi@;
        let sent = self.spi.write_byte(command);
        proof {
            lemma_advance(pre, cur, steps, BusEvent::Write(command, sent));
        }
        match sent {
            Err(e) => {
                failure = Some(e);
            },
            Ok(_) => {
                let ghost cur = self.spi@;
                let turnaround = self.spi.read_byte();
                proof {
                    lemma_advance(pre, cur, steps, BusEvent::Read(turnaround));
                }
                match turnaround {
                    Err(e) => {
                        failure = Some(e);
                    },
                    Ok(_) => {
                        let mut i: usize = 0;
                        while i < N && failure.is_none()
                            invariant
                                self.spi.wf(),
                                steps == read_frame(reg, N as nat),
                                in_progress(pre, self.spi@, steps, failure),
                                attempted(pre, self.spi@) == i + 2,
                                i <= N,
                                failure is None ==> bytes_read(added(pre, self.spi@)).len() == i + 1,
                                failure is None ==> buf@.take(i as int) == bytes_read(
                                    added(pre, self.spi@),
                                ).skip(1),
                            decreases N - i,
                        {
                            let ghost cur = self.spi@;
                            let reply = self.spi.read_byte();
                            proof {
                                lemma_advance(pre, cur, steps, BusEvent::Read(reply));
                            }
                            match reply {
                                Ok(byte) => {
                                    let ghost before = buf@;
                                    let ghost got = bytes_read(added(pre, cur));
                                    buf[i] = byte;
                                    proof {
                                        assert forall|j: int| 0 <= j < i + 1 implies buf@.take(
                                            i + 1,
                                        )[j] == got.push(byte).skip(1)[j] by {
                                            if j < i {
                                                assert(before.take(i as int)[j] == got.skip(1)[j]);
                                            }
                                        }
                                        assert(buf@.take(i + 1) =~= got.push(byte).skip(1));
                                    }
                                },
                                Err(e) => {
                                    failure = Some(e);
                                },
                            }
                            i += 1;
                        }
                    },
                }
            },
        }
        let ghost cur = self.spi@;
        let released = self.spi.deselect();
        proof {
            lemma_end(pre, cur, steps, failure, released);
            assert(failure is None ==> buf@.take(N as int) =~= buf@);
        }
        match failure {
            Some(e) => Err(BaroError::MessageErr(e)),
            None => match released {
                Ok(()) => Ok(buf),
                Err(e) => Err(BaroError::MessageErr(e)),
            },
        }
    }

    /// Reads one register in one transaction.
    pub fn read_register(&mut self, reg: BaroRegister) -> (r: Result<u8, BaroError>)
        requires
            old(self).spi.wf(),
        ensures
            final(self).spi.wf(),
            is_transaction(old(self).spi@, final(self).spi@, read_frame(reg, 1)),
            r == match transaction_result(old(self).spi@, final(self).spi@) {
                Ok(bytes) => Ok::<u8, BaroError>(bytes[1]),
                Err(e) => Err(BaroError::MessageErr(e)),
            },
    {
        match self.read_block::<1>(reg) {
            Ok(bytes) => {
                proof {
                    let all = transaction_result(old(self).spi@, self.spi@)->Ok_0;
                    assert(all.skip(1)[0] == all[1]);
                }
                Ok(bytes[0])
            },
            Err(e) => Err(e),
        }
    }

    /// Reads the three bytes at `reg` as one number, after making sure that
    /// the sensor reports no fault.
    fn measure(&mut self, reg: BaroRegister) -> (r: Result<u32, BaroError>)
        requires
            old(self).spi.wf(),
        ensures
            final(self).spi.wf(),
            is_measurement(old(self).spi@, final(self).spi@, reg),
            r == measurement_result(old(self).spi@, final(self).spi@),
    {
        let ghost pre = self.spi@;
        let faults = self.read_register(BaroRegister::ErrReg);
        let ghost mid = self.spi@;
        match faults {
            Err(e) => {
                proof {
                    lemma_check_only(pre, mid);
                }
                Err(e)
            },
            Ok(flags) => {
                if flags != 0 {
                    proof {
                        lemma_check_only(pre, mid);
                    }
                    Err(BaroError::DeviceErr(BaroDevError::new(flags)))
                } else {
                    let data = self.read_block::<3>(reg);
                    proof {
                        lemma_check_then_read(pre, mid, self.spi@, reg);
                    }
                    match data {
                        Ok(bytes) => Ok(u24_le(&bytes)),
                        Err(e) => Err(e),
                    }
                }
            },
        }
    }

    /// The raw temperature: the three bytes from `Data3` on.
    pub fn temp(&mut self) -> (r: Result<u32, BaroError>)
        requires
            old(self).spi.wf(),
        ensures
            final(self).spi.wf(),
            is_measurement(old(self).spi@, final(self).spi@, BaroRegister::Data3),
            r == measurement_result(old(self).spi@, final(self).spi@),
    {
        self.measure(BaroRegister::Data3)
    }

    /// The raw pressure: the three bytes from `Data0` on.
    pub fn pres(&mut self) -> (r: Result<u32, BaroError>)
        requires
            old(self).spi.wf(),
        ensures
            final(self).spi.wf(),
            is_measurement(old(self).spi@, final(self).spi@, BaroRegister::Data0),
            r == measurement_result(old(self).spi@, final(self).spi@),
    {
        self.measure(BaroRegister::Data0)
    }

    /// The sensor's clock: the three bytes from `SensorTime0` on.
    #[allow(non_snake_case)]
    pub fn sensorTime(&mut self) -> (r: Result<u32, BaroError>)
        requires
            old(self).spi.wf(),
        ensures
            final(self).spi.wf(),
            is_measurement(old(self).spi@, final(self).spi@, BaroRegister::SensorTime0),
            r == measurement_result(old(self).spi@, final(self).spi@),
    {
        self.measure(BaroRegister::SensorTime0)
    }
}

} // verus!
