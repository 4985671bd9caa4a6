//! What holds of every history and of every transaction.

use vstd::prelude::*;
use crate::spi::spi_device::SpiError;
use crate::spi::trace::{
    bytes_read, exchanges, first_error, is_bracket, still_held, BusEvent, BusState, Step,
};

verus! {

/// Selecting an idle device and releasing it at once exchanges no byte,
/// however the two attempts end: the history only gains attempts on the
/// select line. When both succeed the connection is idle again, and the
/// two attempts are all that the history gained.
pub proof fn lemma_select_deselect(
    pre: BusState,
    selected: Result<(), SpiError>,
    released: Result<(), SpiError>,
)
    requires
        !pre.selected,
    ensures
        ({
            let post = pre.select(selected).deselect(released);
            &&& exchanges(post.trace) == exchanges(pre.trace)
            &&& post.selected == (selected is Ok && released is Err)
            &&& selected is Ok && released is Ok ==> post.trace == pre.trace + seq![
                BusEvent::Select(Ok(())),
                BusEvent::Deselect(Ok(())),
            ]
        }),
{
    let mid = pre.select(selected);
    let post = mid.deselect(released);
    assert(mid.trace.drop_last() =~= pre.trace);
    assert(!mid.trace.last().is_exchange());
    assert(exchanges(mid.trace) == exchanges(pre.trace));
    if selected is Ok {
        assert(post.trace.drop_last() =~= mid.trace);
        assert(!post.trace.last().is_exchange());
        assert(exchanges(post.trace) == exchanges(mid.trace));
        if released is Ok {
            assert(selected->Ok_0 == ());
            assert(released->Ok_0 == ());
            assert(post.trace =~= pre.trace + seq![
                BusEvent::Select(Ok(())),
                BusEvent::Deselect(Ok(())),
            ]);
        }
    }
}

/// A transaction in which no attempt failed has made every step once and in
/// order, between one select and one release, and leaves the device
/// released.
pub proof fn lemma_clean_transaction(steps: Seq<Step>, t: Seq<BusEvent>)
    requires
        is_bracket(steps, t),
        first_error(t) is None,
    ensures
        t.len() == steps.len() + 2,
        t[0] == BusEvent::Select(Ok(())),
        t.last() == BusEvent::Deselect(Ok(())),
        forall|i: int| 0 <= i < steps.len() ==> (#[trigger] t[i + 1]).performs(steps[i]),
        forall|i: int| 0 <= i < t.len() ==> (#[trigger] t[i]).error() is None,
        !still_held(t),
{
    lemma_clean_prefix(t);
    assert(t[0].error() is None);
    assert(t.last().error() is None);
    let run = t.subrange(1, t.len() - 1);
    if run.len() < steps.len() {
        assert(run.last() == t[t.len() - 2]);
    }
    assert forall|i: int| 0 <= i < steps.len() implies (#[trigger] t[i + 1]).performs(
        steps[i],
    ) by {
        assert(run[i].performs(steps[i]));
    }
    assert(t[0]->Select_0->Ok_0 == ());
    assert(t.last()->Deselect_0->Ok_0 == ());
}

/// A failure cuts a transaction short. If selecting fails nothing follows;
/// if a step fails only the release follows, and the step's error is the
/// first of the transaction.
pub proof fn lemma_short_circuit(steps: Seq<Step>, t: Seq<BusEvent>, at: int)
    requires
        is_bracket(steps, t),
        0 <= at < t.len(),
        t[at].error() is Some,
    ensures
        at == 0 ==> t.len() == 1,
        at == 0 || at >= t.len() - 2,
        at < t.len() - 1 ==> first_error(t) == t[at].error(),
        at > 0 ==> t.last() is Deselect,
{
    if at == 0 {
        lemma_first_error_at(t, 0);
    } else {
        let run = t.subrange(1, t.len() - 1);
        if at < t.len() - 1 {
            assert(run[at - 1] == t[at]);
            assert forall|i: int| 0 <= i < at implies (#[trigger] t[i]).error() is None by {
                if i > 0 {
                    assert(run[i - 1] == t[i]);
                }
            }
            lemma_first_error_at(t, at);
        }
    }
}

/// The first error of a history is the error of its earliest failed
/// attempt.
pub proof fn lemma_first_error_at(t: Seq<BusEvent>, at: int)
    requires
        0 <= at < t.len(),
        t[at].error() is Some,
        forall|i: int| 0 <= i < at ==> (#[trigger] t[i]).error() is None,
    ensures
        first_error(t) == t[at].error(),
    decreases t.len(),
{
    let front = t.drop_last();
    if at == t.len() - 1 {
        assert forall|i: int| 0 <= i < front.len() implies (#[trigger] front[i]).error() is None by {
            assert(t[i].error() is None);
        }
        lemma_no_error(front);
    } else {
        assert(front[at] == t[at]);
        assert forall|i: int| 0 <= i < at implies (#[trigger] front[i]).error() is None by {
            assert(t[i].error() is None);
        }
        lemma_first_error_at(front, at);
    }
}

/// A history in which no attempt failed has no first error.
pub proof fn lemma_no_error(t: Seq<BusEvent>)
    requires
        forall|i: int| 0 <= i < t.len() ==> (#[trigger] t[i]).error() is None,
    ensures
        first_error(t) is None,
    decreases t.len(),
{
    if t.len() > 0 {
        assert forall|i: int| 0 <= i < t.drop_last().len() implies (#[trigger] t.drop_last()[i]).error() is None by {
            assert(t[i].error() is None);
        }
        lemma_no_error(t.drop_last());
    }
}

/// A history without a first error holds no failed attempt.
pub proof fn lemma_clean_prefix(t: Seq<BusEvent>)
    requires
        first_error(t) is None,
    ensures
        forall|i: int| 0 <= i < t.len() ==> (#[trigger] t[i]).error() is None,
    decreases t.len(),
{
    if t.len() > 0 {
        lemma_clean_prefix(t.drop_last());
        assert forall|i: int| 0 <= i < t.len() implies (#[trigger] t[i]).error() is None by {
            if i < t.len() - 1 {
                assert(t.drop_last()[i] == t[i]);
            }
        }
    }
}

/// Appending an attempt to a history keeps the history's first error, or
/// makes the attempt's error the first if there was none, and adds the
/// attempt's byte if it was a successful read.
pub proof fn lemma_push(t: Seq<BusEvent>, event: BusEvent)
    ensures
        first_error(t.push(event)) == match first_error(t) {
            Some(e) => Some(e),
            None => event.error(),
        },
        bytes_read(t.push(event)) == match event {
            BusEvent::Read(Ok(byte)) => bytes_read(t).push(byte),
            _ => bytes_read(t),
        },
{
    assert(t.push(event).drop_last() =~= t);
}

/// When the last `count` attempts of a history are successful reads, the
/// bytes it received end with the bytes of those reads.
pub proof fn lemma_bytes_read_tail(t: Seq<BusEvent>, count: nat)
    requires
        count <= t.len(),
        forall|i: int| t.len() - count <= i < t.len() ==> (#[trigger] t[i]) matches BusEvent::Read(Ok(_)),
    ensures
        bytes_read(t) == bytes_read(t.take(t.len() - count)) + Seq::new(
            count,
            |k: int| t[t.len() - count + k]->Read_0->Ok_0,
        ),
    decreases count,
{
    let head = t.take(t.len() - count);
    let tail = Seq::new(count, |k: int| t[t.len() - count + k]->Read_0->Ok_0);
    if count == 0 {
        assert(head =~= t);
        assert(bytes_read(t) =~= bytes_read(head) + tail);
    } else {
        let front = t.drop_last();
        assert forall|i: int| front.len() - (count - 1) <= i < front.len() implies (#[trigger] front[i]) matches BusEvent::Read(Ok(_)) by {
            assert(t[i] matches BusEvent::Read(Ok(_)));
        }
        lemma_bytes_read_tail(front, (count - 1) as nat);
        assert(front.take(front.len() - (count - 1)) =~= head);
        let front_tail = Seq::new(
            (count - 1) as nat,
            |k: int| front[front.len() - (count - 1) + k]->Read_0->Ok_0,
        );
        assert(t.last() matches BusEvent::Read(Ok(_)));
        assert(tail =~= front_tail.push(t.last()->Read_0->Ok_0));
        assert(bytes_read(t) =~= bytes_read(head) + tail);
    }
}

} // verus!
