//! How a read of the sensor's registers is framed on the wire.

use vstd::prelude::*;
use crate::baro::registers::BaroRegister;
use crate::spi::laws::{lemma_bytes_read_tail, lemma_clean_transaction, lemma_short_circuit};
use crate::spi::spi_device::SpiError;
use crate::spi::trace::{bytes_read, first_error, is_bracket, outcome, reads, BusEvent, Step};

verus! {

/// The steps of an addressed read of `count` bytes starting at `reg`: the
/// address byte with the read flag, one turnaround byte to discard, then the
/// data bytes. The device moves on to the next register by itself, so the
/// address is sent once.
pub open spec fn read_frame(reg: BaroRegister, count: nat) -> Seq<Step> {
    seq![Step::Write(reg.read_command())] + reads(count + 1)
}

/// The most attempts that an addressed read of `count` bytes makes, and the
/// number it makes when none fails: select, address, turnaround, the data
/// bytes, release.
pub open spec fn frame_span(count: nat) -> nat {
    count + 4
}

/// An addressed read in which no attempt failed puts on the wire, between
/// one select and one release and in this order: the address byte, once;
/// one read whose byte is discarded; and `count` reads of data. The bytes it
/// received are the bytes of those reads, the discarded one first.
pub proof fn lemma_clean_read(reg: BaroRegister, count: nat, t: Seq<BusEvent>)
    requires
        is_bracket(read_frame(reg, count), t),
        first_error(t) is None,
    ensures
        t.len() == frame_span(count),
        t[0] == BusEvent::Select(Ok(())),
        t[1] == BusEvent::Write(reg.read_command(), Ok(())),
        forall|i: int| 2 <= i < count + 3 ==> (#[trigger] t[i]) matches BusEvent::Read(Ok(_)),
        t[(count + 3) as int] == BusEvent::Deselect(Ok(())),
        bytes_read(t).len() == count + 1,
        forall|k: int| 0 <= k <= count ==> (#[trigger] t[k + 2]) == BusEvent::Read(Ok(bytes_read(t)[k])),
{
    let steps = read_frame(reg, count);
    lemma_clean_transaction(steps, t);
    assert(t[0int + 1].performs(steps[0]));
    assert(t[1]->Write_1->Ok_0 == ());
    assert forall|i: int| 2 <= i < count + 3 implies (#[trigger] t[i]) matches BusEvent::Read(Ok(_)) by {
        assert(t[(i - 1) + 1].performs(steps[i - 1]));
        assert(t[i].error() is None);
    }
    let front = t.drop_last();
    assert(bytes_read(t) == bytes_read(front));
    lemma_bytes_read_tail(front, count + 1);
    let head = front.take(2);
    assert(head.drop_last().drop_last() =~= Seq::<BusEvent>::empty());
    assert(head.drop_last().last() == t[0]);
    assert(head.last() == t[1]);
    assert(bytes_read(head.drop_last().drop_last()) == Seq::<u8>::empty());
    assert(bytes_read(head.drop_last()) == Seq::<u8>::empty());
    assert(bytes_read(head) == Seq::<u8>::empty());
    assert forall|k: int| 0 <= k <= count implies (#[trigger] t[k + 2]) == BusEvent::Read(Ok(bytes_read(t)[k])) by {
        assert(t[k + 2] matches BusEvent::Read(Ok(_)));
        assert(front[front.len() - (count + 1) + k] == t[k + 2]);
    }
}

/// When the address byte of an addressed read cannot be sent, no read is
/// attempted, not even the one for the turnaround byte: the device is
/// released and the transport's error is the outcome.
pub proof fn lemma_address_failure(reg: BaroRegister, count: nat, t: Seq<BusEvent>, e: SpiError)
    requires
        is_bracket(read_frame(reg, count), t),
        t.len() >= 2,
        t[1] == BusEvent::Write(reg.read_command(), Err(e)),
    ensures
        t.len() == 3,
        t[0] == BusEvent::Select(Ok(())),
        t[2] is Deselect,
        forall|i: int| 0 <= i < t.len() ==> !((#[trigger] t[i]) is Read),
        outcome(t) == Err::<Seq<u8>, SpiError>(e),
{
    lemma_short_circuit(read_frame(reg, count), t, 1);
    assert(t[0]->Select_0->Ok_0 == ());
}

} // verus!
