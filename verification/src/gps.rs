//! Framing on the serial link to the positioning receiver.
//!
//! The receiver sends text sentences, each closed by a carriage return and a
//! line feed, and takes binary commands. Reading the link and parsing the
//! sentences is left to the caller; this module decides when a line is
//! complete and builds the command that sets how often sentences are sent.

use vstd::prelude::*;

verus! {

/// The sentence kinds whose output interval can be set.
#[derive(Debug, Clone, Copy, PartialEq, Eq, Structural)]
pub enum NMEAType {
    RMC,
    VTG,
    GGA,
    GLL,
}

/// `raw` ends with a carriage return followed by a line feed.
pub open spec fn ends_line(raw: Seq<u8>) -> bool {
    raw.len() >= 2 && raw[raw.len() - 2] == 13 && raw[raw.len() - 1] == 10
}

/// Whether the bytes received so far end a line, so that they can be handed
/// to the parser.
pub fn line_complete(raw: &[u8]) -> (done: bool)
    ensures
        done == ends_line(raw@),
{
    let n: usize = raw.len();
    n >= 2 && raw[n - 2] == 13 && raw[n - 1] == 10
}

/// The interval to ask for sentences of `kind`: `interval` if `msgtype`
/// names the kind, and zero, which turns the sentence off, if not.
pub open spec fn interval_for(msgtype: Seq<NMEAType>, kind: NMEAType, interval: u8) -> u8 {
    if msgtype.contains(kind) {
        interval
    } else {
        0
    }
}

/// The command that sets the output intervals: header, payload length, the
/// message identifier, one interval per sentence kind in the receiver's
/// order, and the trailer.
pub open spec fn interval_command_bytes(msgtype: Seq<NMEAType>, interval: u8) -> Seq<u8> {
    seq![
        160u8,
        161u8,
        0u8,
        9u8,
        8u8,
        interval_for(msgtype, NMEAType::GGA, interval),
        0u8,
        0u8,
        interval_for(msgtype, NMEAType::GLL, interval),
        interval_for(msgtype, NMEAType::RMC, interval),
        interval_for(msgtype, NMEAType::VTG, interval),
        0u8,
        8u8,
        13u8,
        10u8,
    ]
}

/// Whether `msgtype` names `kind`.
fn names(msgtype: &[NMEAType], kind: NMEAType) -> (found: bool)
    ensures
        found == msgtype@.contains(kind),
{
    let mut i: usize = 0;
    while i < msgtype.len()
        invariant
            i <= msgtype.len(),
            forall|j: int| 0 <= j < i ==> msgtype@[j] != kind,
        decreases msgtype.len() - i,
    {
        if msgtype[i] == kind {
            return true;
        }
        i += 1;
    }
    false
}

/// Builds the command that makes the receiver send the sentences in
/// `msgtype` at the given interval and stop sending the others.
pub fn interval_command(msgtype: &[NMEAType], interval: u8) -> (cmd: [u8; 15])
    ensures
        cmd@ == interval_command_bytes(msgtype@, interval),
{
    let gga: u8 = if names(msgtype, NMEAType::GGA) { interval } else { 0 };
    let gll: u8 = if names(msgtype, NMEAType::GLL) { interval } else { 0 };
    let rmc: u8 = if names(msgtype, NMEAType::RMC) { interval } else { 0 };
    let vtg: u8 = if names(msgtype, NMEAType::VTG) { interval } else { 0 };
    let cmd: [u8; 15] = [160, 161, 0, 9, 8, gga, 0, 0, gll, rmc, vtg, 0, 8, 13, 10];
    assert(cmd@ =~= interval_command_bytes(msgtype@, interval));
    cmd
}

} // verus!
