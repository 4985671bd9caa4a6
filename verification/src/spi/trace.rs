//! The history of a connection and the shape of a transaction.

use vstd::prelude::*;
use crate::spi::spi_device::SpiError;

verus! {

/// One attempt on the wire, with how it ended.
pub enum BusEvent {
    /// Chip-select was driven to its asserted level.
    Select(Result<(), SpiError>),
    /// The byte was sent.
    Write(u8, Result<(), SpiError>),
    /// A byte was asked for; on success, the byte that came.
    Read(Result<u8, SpiError>),
    /// Chip-select was driven to its released level.
    Deselect(Result<(), SpiError>),
}

impl BusEvent {
    /// The error this attempt ended with, if it failed.
    pub open spec fn error(self) -> Option<SpiError> {
        match self {
            BusEvent::Select(r) => r.err(),
            BusEvent::Write(_, r) => r.err(),
            BusEvent::Read(r) => r.err(),
            BusEvent::Deselect(r) => r.err(),
        }
    }

    /// Whether this attempt put a byte on the data lines or asked for one.
    pub open spec fn is_exchange(self) -> bool {
        self is Write || self is Read
    }

    /// Whether this attempt is the one that `step` asks for.
    pub open spec fn performs(self, step: Step) -> bool {
        match step {
            Step::Write(byte) => self matches BusEvent::Write(b, _) && b == byte,
            Step::Read => self is Read,
        }
    }
}

/// One byte exchange that a transaction plans to make.
pub enum Step {
    /// Send this byte.
    Write(u8),
    /// Receive one byte.
    Read,
}

/// What a connection is, as far as contracts are concerned: whether its
/// device is selected, and everything attempted on the wire so far, oldest
/// first.
pub struct BusState {
    /// The device's chip-select is asserted.
    pub selected: bool,
    /// Every attempt made on the wire, oldest first.
    pub trace: Seq<BusEvent>,
}

impl BusState {
    /// The state after an attempt to select that ended with `r`. A selected
    /// connection makes no attempt.
    pub open spec fn select(self, r: Result<(), SpiError>) -> BusState {
        if self.selected {
            self
        } else {
            BusState { selected: r is Ok, trace: self.trace.push(BusEvent::Select(r)) }
        }
    }

    /// The state after an attempt to release that ended with `r`. An idle
    /// connection makes no attempt.
    pub open spec fn deselect(self, r: Result<(), SpiError>) -> BusState {
        if self.selected {
            BusState { selected: r is Err, trace: self.trace.push(BusEvent::Deselect(r)) }
        } else {
            self
        }
    }

    /// The state after an attempt to send `byte` that ended with `r`. An idle
    /// connection makes no attempt.
    pub open spec fn write_byte(self, byte: u8, r: Result<(), SpiError>) -> BusState {
        if self.selected {
            BusState { selected: true, trace: self.trace.push(BusEvent::Write(byte, r)) }
        } else {
            self
        }
    }

    /// The state after an attempt to receive a byte that ended with `r`. An
    /// idle connection makes no attempt.
    pub open spec fn read_byte(self, r: Result<u8, SpiError>) -> BusState {
        if self.selected {
            BusState { selected: true, trace: self.trace.push(BusEvent::Read(r)) }
        } else {
            self
        }
    }
}

/// The steps that send `data`, byte by byte.
pub open spec fn writes(data: Seq<u8>) -> Seq<Step> {
    Seq::new(data.len(), |i: int| Step::Write(data[i]))
}

/// The steps that receive `count` bytes.
pub open spec fn reads(count: nat) -> Seq<Step> {
    Seq::new(count, |i: int| Step::Read)
}

/// The steps that exchange `data` byte by byte: each byte is sent, then one
/// is received in its place.
pub open spec fn swaps(data: Seq<u8>) -> Seq<Step> {
    Seq::new(
        2 * data.len(),
        |i: int|
            if i % 2 == 0 {
                Step::Write(data[i / 2])
            } else {
                Step::Read
            },
    )
}

/// The error of the earliest failed attempt in `t`.
pub open spec fn first_error(t: Seq<BusEvent>) -> Option<SpiError>
    decreases t.len(),
{
    if t.len() == 0 {
        None
    } else {
        match first_error(t.drop_last()) {
            Some(e) => Some(e),
            None => t.last().error(),
        }
    }
}

/// The bytes that the successful reads in `t` delivered, oldest first.
pub open spec fn bytes_read(t: Seq<BusEvent>) -> Seq<u8>
    decreases t.len(),
{
    if t.len() == 0 {
        Seq::empty()
    } else {
        match t.last() {
            BusEvent::Read(Ok(byte)) => bytes_read(t.drop_last()).push(byte),
            _ => bytes_read(t.drop_last()),
        }
    }
}

/// What a stretch of history amounts to: its earliest error, or else the
/// bytes it received.
pub open spec fn outcome(t: Seq<BusEvent>) -> Result<Seq<u8>, SpiError> {
    match first_error(t) {
        Some(e) => Err(e),
        None => Ok(bytes_read(t)),
    }
}

/// The byte traffic in `t`: its attempts to send or receive, in order. This
/// is all that a device gets to see of a history besides its select line.
pub open spec fn exchanges(t: Seq<BusEvent>) -> Seq<BusEvent>
    decreases t.len(),
{
    if t.len() == 0 {
        Seq::empty()
    } else if t.last().is_exchange() {
        exchanges(t.drop_last()).push(t.last())
    } else {
        exchanges(t.drop_last())
    }
}

/// `t` carries out `steps` in order, one attempt per step, and stops at the
/// first attempt that fails.
pub open spec fn is_run(steps: Seq<Step>, t: Seq<BusEvent>) -> bool {
    &&& t.len() <= steps.len()
    &&& forall|i: int| 0 <= i < t.len() ==> (#[trigger] t[i]).performs(steps[i])
    &&& forall|i: int| 0 <= i < t.len() - 1 ==> (#[trigger] t[i]).error() is None
    &&& t.len() < steps.len() ==> t.len() > 0 && t.last().error() is Some
}

/// `t` is one whole transaction over `steps`: an attempt to select; if that
/// succeeded, a run of the steps and, whether or not the run failed, one
/// attempt to release.
pub open spec fn is_bracket(steps: Seq<Step>, t: Seq<BusEvent>) -> bool {
    &&& t.len() >= 1
    &&& t[0] is Select
    &&& if t[0].error() is Some {
        t.len() == 1
    } else {
        &&& t.len() >= 2
        &&& t.last() is Deselect
        &&& is_run(steps, t.subrange(1, t.len() - 1))
    }
}

/// Whether the transaction `t` leaves the device selected: it does when its
/// attempt to release failed.
pub open spec fn still_held(t: Seq<BusEvent>) -> bool {
    t.len() >= 2 && t.last() is Deselect && t.last().error() is Some
}

/// The attempts made between two states of one connection.
pub open spec fn added(pre: BusState, post: BusState) -> Seq<BusEvent> {
    post.trace.skip(pre.trace.len() as int)
}

/// `post` is `pre` after one transaction over `steps`. A connection that is
/// selected to begin with is left as it was.
pub open spec fn is_transaction(pre: BusState, post: BusState, steps: Seq<Step>) -> bool {
    if pre.selected {
        post == pre
    } else {
        &&& pre.trace.len() <= post.trace.len()
        &&& post.trace == pre.trace + added(pre, post)
        &&& is_bracket(steps, added(pre, post))
        &&& post.selected == still_held(added(pre, post))
    }
}

/// What the transaction from `pre` to `post` returns: `SelectError` if the
/// connection was selected to begin with, else the earliest error among its
/// attempts, else the bytes it received.
pub open spec fn transaction_result(pre: BusState, post: BusState) -> Result<Seq<u8>, SpiError> {
    if pre.selected {
        Err(SpiError::SelectError)
    } else {
        outcome(added(pre, post))
    }
}

} // verus!
