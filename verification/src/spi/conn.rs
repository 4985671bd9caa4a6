//! A connection to one device on the bus.

use vstd::prelude::*;
use crate::spi::progress::{
    attempted, in_progress, lemma_advance, lemma_begin, lemma_end, lemma_not_begun,
};
use crate::spi::spi_device::{SelectedSpiDeviceConn, SpiDeviceConn, SpiError};
use crate::spi::trace::{
    added, bytes_read, is_transaction, reads, swaps, transaction_result, writes, BusEvent,
    BusState,
};

verus! {

/// One device's connection to the shared bus.
///
/// It holds the transport in whichever of its two capabilities is current
/// and records every attempt made on the wire. Asking for an operation that
/// the current state does not allow reaches no hardware: it is answered with
/// an error and leaves the connection as it was.
pub struct Spi<C: SpiDeviceConn> {
    idle: Option<C>,
    held: Option<C::Selected>,
    log: Ghost<Seq<BusEvent>>,
}

impl<C: SpiDeviceConn> View for Spi<C> {
    type V = BusState;

    closed spec fn view(&self) -> BusState {
        BusState { selected: self.held is Some, trace: self.log@ }
    }
}

impl<C: SpiDeviceConn> Spi<C> {
    /// Exactly one of the two capabilities is held.
    pub closed spec fn wf(&self) -> bool {
        self.idle is Some <==> self.held is None
    }

    /// Takes charge of an idle transport. Nothing has happened on it yet.
    pub fn new(conn: C) -> (spi: Self)
        ensures
            spi.wf(),
            spi@ == (BusState { selected: false, trace: Seq::empty() }),
    {
        Spi { idle: Some(conn), held: None, log: Ghost(Seq::empty()) }
    }

    /// Whether the device is selected.
    pub fn is_selected(&self) -> (b: bool)
        ensures
            b == self@.selected,
    {
        self.held.is_some()
    }

    /// Asserts chip-select. On a connection that is already selected this is
    /// refused with `SelectError`; otherwise the transport's own answer is
    /// passed on.
    pub fn select(&mut self) -> (r: Result<(), SpiError>)
        requires
            old(self).wf(),
        ensures
            final(self).wf(),
            final(self)@ == old(self)@.select(r),
            old(self)@.selected ==> r == Err::<(), SpiError>(SpiError::SelectError),
    {
        match self.idle.take() {
            None => Err(SpiError::SelectError),
            Some(conn) => match conn.select() {
                Ok(selected) => {
                    self.held = Some(selected);
                    proof {
                        self.log@ = self.log@.push(BusEvent::Select(Ok(())));
                    }
                    Ok(())
                },
                Err((conn, e)) => {
                    self.idle = Some(conn);
                    proof {
                        self.log@ = self.log@.push(BusEvent::Select(Err(e)));
                    }
                    Err(e)
                },
            },
        }
    }

    /// Releases chip-select. On an idle connection this is refused with
    /// `SelectError`; otherwise the transport's own answer is passed on, and
    /// after a failure the device counts as still selected.
    pub fn deselect(&mut self) -> (r: Result<(), SpiError>)
        requires
            old(self).wf(),
        ensures
            final(self).wf(),
            final(self)@ == old(self)@.deselect(r),
            !old(self)@.selected ==> r == Err::<(), SpiError>(SpiError::SelectError),
    {
        match self.held.take() {
            None => Err(SpiError::SelectError),
            Some(selected) => match selected.deselect() {
                Ok(conn) => {
                    self.idle = Some(conn);
                    proof {
                        self.log@ = self.log@.push(BusEvent::Deselect(Ok(())));
                    }
                    Ok(())
                },
                Err((selected, e)) => {
                    self.held = Some(selected);
                    proof {
                        self.log@ = self.log@.push(BusEvent::Deselect(Err(e)));
                    }
                    Err(e)
                },
            },
        }
    }

    /// Sends one byte. On an idle connection this is refused with
    /// `WriteError`; otherwise the transport's own answer is passed on.
    pub fn write_byte(&mut self, byte: u8) -> (r: Result<(), SpiError>)
        requires
            old(self).wf(),
        ensures
            final(self).wf(),
            final(self)@ == old(self)@.write_byte(byte, r),
            !old(self)@.selected ==> r == Err::<(), SpiError>(SpiError::WriteError),
    {
        match &mut self.held {
            None => Err(SpiError::WriteError),
            Some(selected) => {
                let r = selected.write_byte(byte);
                proof {
                    self.log@ = self.log@.push(BusEvent::Write(byte, r));
                }
                r
            },
        }
    }

    /// Receives one byte. On an idle connection this is refused with
    /// `ReadError`; otherwise the transport's own answer is passed on.
    pub fn read_byte(&mut self) -> (r: Result<u8, SpiError>)
        requires
            old(self).wf(),
        ensures
            final(self).wf(),
            final(self)@ == old(self)@.read_byte(r),
            !old(self)@.selected ==> r == Err::<u8, SpiError>(SpiError::ReadError),
    {
        match &mut self.held {
            None => Err(SpiError::ReadError),
            Some(selected) => {
                let r = selected.read_byte();
                proof {
                    self.log@ = self.log@.push(BusEvent::Read(r));
                }
                r
            },
        }
    }

    /// Selects the device, sends `data` byte by byte and releases the device.
    ///
    /// Sending stops at the first byte that fails; the device is released
    /// all the same, and the earlier error is the one returned.
    pub fn write(&mut self, data: &[u8]) -> (r: Result<(), SpiError>)
        requires
            old(self).wf(),
        ensures
            final(self).wf(),
            is_transaction(old(self)@, final(self)@, writes(data@)),
            r == match transaction_result(old(self)@, final(self)@) {
                Ok(_) => Ok::<(), SpiError>(()),
                Err(e) => Err(e),
            },
    {
        if self.is_selected() {
            return Err(SpiError::SelectError);
        }
        let selected = self.select();
        if let Err(e) = selected {
            proof {
                lemma_not_begun(old(self)@, writes(data@), e);
            }
            return Err(e);
        }
        proof {
            // `()` has a single value, so `selected` is `Ok(())`.
            assert(selected->Ok_0 == ());
            lemma_begin(old(self)@, writes(data@));
        }
        let mut failure: Option<SpiError> = None;
        let mut i: usize = 0;
        while i < data.len() && failure.is_none()
            invariant
                self.wf(),
                in_progress(old(self)@, self@, writes(data@), failure),
                attempted(old(self)@, self@) == i,
                i <= data.len(),
            decreases data.len() - i,
        {
            let ghost cur = self@;
            let sent = self.write_byte(data[i]);
            proof {
                lemma_advance(old(self)@, cur, writes(data@), BusEvent::Write(data[i as int], sent));
            }
            if let Err(e) = sent {
                failure = Some(e);
            }
            i += 1;
        }
        let ghost cur = self@;
        let released = self.deselect();
        proof {
            lemma_end(old(self)@, cur, writes(data@), failure, released);
        }
        match failure {
            Some(e) => Err(e),
            None => match released {
                Ok(()) => Ok(()),
                Err(e) => Err(e),
            },
        }
    }

    /// Selects the device, receives `N` bytes and releases the device.
    ///
    /// Receiving stops at the first byte that fails; the device is released
    /// all the same, and the earlier error is the one returned.
    pub fn read<const N: usize>(&mut self) -> (r: Result<[u8; N], SpiError>)
        requires
            old(self).wf(),
        ensures
            final(self).wf(),
            is_transaction(old(self)@, final(self)@, reads(N as nat)),
            match transaction_result(old(self)@, final(self)@) {
                Ok(bytes) => r is Ok && r->Ok_0@ == bytes,
                Err(e) => r == Err::<[u8; N], SpiError>(e),
            },
    {
        if self.is_selected() {
            return Err(SpiError::SelectError);
        }
        let selected = self.select();
        if let Err(e) = selected {
            proof {
                lemma_not_begun(old(self)@, reads(N as nat), e);
            }
            return Err(e);
        }
        proof {
            // `()` has a single value, so `selected` is `Ok(())`.
            assert(selected->Ok_0 == ());
            lemma_begin(old(self)@, reads(N as nat));
        }
        let mut buf: [u8; N] = [0u8; N];
        let mut failure: Option<SpiError> = None;
        let mut i: usize = 0;
        while i < N && failure.is_none()
            invariant
                self.wf(),
                in_progress(old(self)@, self@, reads(N as nat), failure),
                attempted(old(self)@, self@) == i,
                i <= N,
                failure is None ==> buf@.take(i as int) == bytes_read(added(old(self)@, self@)),
            decreases N - i,
        {
            let ghost cur = self@;
            let got = self.read_byte();
            proof {
                lemma_advance(old(self)@, cur, reads(N as nat), BusEvent::Read(got));
            }
            match got {
                Ok(byte) => {
                    buf[i] = byte;
                    assert(buf@.take(i + 1) =~= bytes_read(added(old(self)@, cur)).push(byte));
                },
                Err(e) => {
                    failure = Some(e);
                },
            }
            i += 1;
        }
        let ghost cur = self@;
        let released = self.deselect();
        proof {
            lemma_end(old(self)@, cur, reads(N as nat), failure, released);
            assert(failure is None ==> buf@.take(N as int) =~= buf@);
        }
        match failure {
            Some(e) => Err(e),
            None => match released {
                Ok(()) => Ok(buf),
                Err(e) => Err(e),
            },
        }
    }

    /// Selects the device, exchanges `data` byte by byte and releases the
    /// device: each byte is sent and then replaced by the byte received for
    /// it.
    ///
    /// The exchange stops at the first attempt that fails; the device is
    /// released all the same, and the earlier error is the one returned. The
    /// bytes exchanged until then have been replaced, the rest are as they
    /// were.
    pub fn swap<const N: usize>(&mut self, data: &mut [u8; N]) -> (r: Result<(), SpiError>)
        requires
            old(self).wf(),
        ensures
            final(self).wf(),
            is_transaction(old(self)@, final(self)@, swaps(old(data)@)),
            r == match transaction_result(old(self)@, final(self)@) {
                Ok(_) => Ok::<(), SpiError>(()),
                Err(e) => Err(e),
            },
            old(self)@.selected ==> final(data)@ == old(data)@,
            !old(self)@.selected ==> ({
                let received = bytes_read(added(old(self)@, final(self)@));
                &&& received.len() <= N
                &&& final(data)@ == received + old(data)@.skip(received.len() as int)
            }),
    {
        if self.is_selected() {
            return Err(SpiError::SelectError);
        }
        let selected = self.select();
        if let Err(e) = selected {
            proof {
                lemma_not_begun(old(self)@, swaps(old(data)@), e);
                assert(data@ =~= Seq::<u8>::empty() + old(data)@.skip(0));
            }
            return Err(e);
        }
        proof {
            // `()` has a single value, so `selected` is `Ok(())`.
            assert(selected->Ok_0 == ());
            lemma_begin(old(self)@, swaps(old(data)@));
            assert(data@ =~= Seq::<u8>::empty() + old(data)@.skip(0));
        }
        let mut failure: Option<SpiError> = None;
        let mut i: usize = 0;
        while i < N && failure.is_none()
            invariant
                self.wf(),
                in_progress(old(self)@, self@, swaps(old(data)@), failure),
                failure is None ==> attempted(old(self)@, self@) == 2 * i,
                i <= N,
                bytes_read(added(old(self)@, self@)).len() == i,
                data@ == bytes_read(added(old(self)@, self@)) + old(data)@.skip(i as int),
            decreases
                N - i + (if failure is None { 1int } else { 0int }),
        {
            let ghost cur = self@;
            let byte: u8 = data[i];
            assert(byte == old(data)@[i as int]);
            let sent = self.write_byte(byte);
            proof {
                lemma_advance(old(self)@, cur, swaps(old(data)@), BusEvent::Write(byte, sent));
            }
            match sent {
                Err(e) => {
                    failure = Some(e);
                },
                Ok(_) => {
                    let ghost mid = self@;
                    let got = self.read_byte();
                    proof {
                        lemma_advance(old(self)@, mid, swaps(old(data)@), BusEvent::Read(got));
                    }
                    match got {
                        Ok(reply) => {
                            data[i] = reply;
                            i += 1;
                            assert(data@ =~= bytes_read(added(old(self)@, self@)) + old(data)@.skip(
                                i as int,
                            ));
                        },
                        Err(e) => {
                            failure = Some(e);
                        },
                    }
                },
            }
        }
        let ghost cur = self@;
        let released = self.deselect();
        proof {
            lemma_end(old(self)@, cur, swaps(old(data)@), failure, released);
        }
        match failure {
            Some(e) => Err(e),
            None => match released {
                Ok(()) => Ok(()),
                Err(e) => Err(e),
            },
        }
    }
}

} // verus!
