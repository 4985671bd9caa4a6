//! Proof steps for code that carries out a transaction attempt by attempt.
//!
//! A function that selects a device, works through its steps with the byte
//! operations of [`Spi`](crate::spi::conn::Spi) and releases the device
//! keeps [`in_progress`] as its loop invariant and calls one lemma here
//! after each operation; [`lemma_end`] then gives it
//! [`is_transaction`](crate::spi::trace::is_transaction) and its result.

use vstd::prelude::*;
use crate::spi::laws::{lemma_clean_prefix, lemma_push};
use crate::spi::spi_device::SpiError;
use crate::spi::trace::{
    added, bytes_read, first_error, is_transaction, transaction_result, BusEvent, BusState, Step,
};

verus! {

/// `cur` is `pre` part-way through a transaction over `steps`: the device
/// has been selected, a prefix of the steps has been attempted, and
/// `failure` is the error of the latest attempt, if it failed.
pub open spec fn in_progress(
    pre: BusState,
    cur: BusState,
    steps: Seq<Step>,
    failure: Option<SpiError>,
) -> bool {
    let t = added(pre, cur);
    let run = t.skip(1);
    &&& !pre.selected
    &&& cur.selected
    &&& pre.trace.len() < cur.trace.len()
    &&& cur.trace == pre.trace + t
    &&& t[0] == BusEvent::Select(Ok(()))
    &&& run.len() <= steps.len()
    &&& forall|i: int| 0 <= i < run.len() ==> (#[trigger] run[i]).performs(steps[i])
    &&& forall|i: int| 0 <= i < run.len() - 1 ==> (#[trigger] run[i]).error() is None
    &&& first_error(t) == failure
    &&& failure is Some ==> run.len() > 0 && run.last().error() == failure
}

/// The number of steps attempted so far.
pub open spec fn attempted(pre: BusState, cur: BusState) -> int {
    cur.trace.len() - pre.trace.len() - 1
}

/// Selecting an idle connection begins a transaction.
pub proof fn lemma_begin(pre: BusState, steps: Seq<Step>)
    requires
        !pre.selected,
    ensures
        in_progress(pre, pre.select(Ok(())), steps, None),
        attempted(pre, pre.select(Ok(()))) == 0,
        bytes_read(added(pre, pre.select(Ok(())))) == Seq::<u8>::empty(),
{
    let cur = pre.select(Ok(()));
    let t = added(pre, cur);
    assert(t =~= Seq::<BusEvent>::empty().push(BusEvent::Select(Ok(()))));
    lemma_push(Seq::<BusEvent>::empty(), BusEvent::Select(Ok(())));
    assert(cur.trace =~= pre.trace + t);
}

/// Attempting the next step of a transaction that has not failed carries it
/// one step further.
pub proof fn lemma_advance(
    pre: BusState,
    cur: BusState,
    steps: Seq<Step>,
    event: BusEvent,
)
    requires
        in_progress(pre, cur, steps, None),
        attempted(pre, cur) < steps.len(),
        event.performs(steps[attempted(pre, cur)]),
    ensures
        ({
            let next = BusState { selected: true, trace: cur.trace.push(event) };
            &&& in_progress(pre, next, steps, event.error())
            &&& attempted(pre, next) == attempted(pre, cur) + 1
            &&& bytes_read(added(pre, next)) == match event {
                BusEvent::Read(Ok(byte)) => bytes_read(added(pre, cur)).push(byte),
                _ => bytes_read(added(pre, cur)),
            }
        }),
{
    let next = BusState { selected: true, trace: cur.trace.push(event) };
    let t = added(pre, cur);
    let u = added(pre, next);
    assert(u =~= t.push(event));
    lemma_push(t, event);
    assert(next.trace =~= pre.trace + u);
    let run = t.skip(1);
    let run2 = u.skip(1);
    assert(run2 =~= run.push(event));
    assert forall|i: int| 0 <= i < run2.len() - 1 implies (#[trigger] run2[i]).error() is None by {
        if i < run.len() - 1 {
            assert(run[i].error() is None);
        } else {
            lemma_clean_prefix(t);
            assert(run[i] == t[i + 1]);
        }
    }
    assert forall|i: int| 0 <= i < run2.len() implies (#[trigger] run2[i]).performs(steps[i]) by {
        if i < run.len() {
            assert(run[i].performs(steps[i]));
        }
    }
}

/// Releasing the device after the run has failed or is complete ends the
/// transaction. It returns the run's error if it had one, else the error of
/// the release if that failed, else the bytes received.
pub proof fn lemma_end(
    pre: BusState,
    cur: BusState,
    steps: Seq<Step>,
    failure: Option<SpiError>,
    released: Result<(), SpiError>,
)
    requires
        in_progress(pre, cur, steps, failure),
        failure is Some || attempted(pre, cur) == steps.len(),
    ensures
        is_transaction(pre, cur.deselect(released), steps),
        transaction_result(pre, cur.deselect(released)) == match failure {
            Some(e) => Err::<Seq<u8>, SpiError>(e),
            None => match released {
                Err(e) => Err(e),
                Ok(_) => Ok(bytes_read(added(pre, cur))),
            },
        },
        bytes_read(added(pre, cur.deselect(released))) == bytes_read(added(pre, cur)),
{
    let post = cur.deselect(released);
    let t = added(pre, cur);
    let u = added(pre, post);
    assert(u =~= t.push(BusEvent::Deselect(released)));
    lemma_push(t, BusEvent::Deselect(released));
    assert(post.trace =~= pre.trace + u);
    assert(u.subrange(1, u.len() - 1) =~= t.skip(1));
}

/// A transaction that cannot select is over at once.
pub proof fn lemma_not_begun(pre: BusState, steps: Seq<Step>, e: SpiError)
    requires
        !pre.selected,
    ensures
        is_transaction(pre, pre.select(Err(e)), steps),
        transaction_result(pre, pre.select(Err(e))) == Err::<Seq<u8>, SpiError>(e),
        bytes_read(added(pre, pre.select(Err(e)))) == Seq::<u8>::empty(),
{
    let post = pre.select(Err(e));
    let u = added(pre, post);
    assert(u =~= Seq::<BusEvent>::empty().push(BusEvent::Select(Err(e))));
    lemma_push(Seq::<BusEvent>::empty(), BusEvent::Select(Err(e)));
    assert(post.trace =~= pre.trace + u);
}

} // verus!
