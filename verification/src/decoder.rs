//! The decoding pass: a scan over buffered bytes that takes every whole,
//! checksum-valid reply into the snapshot and steps over everything else one
//! byte at a time.

use crate::frame::{
    classify, step_at, Step, CMD_GET, FRAME_OVERHEAD, HEADER_INPUT, MIN_SCAN,
};
use crate::state::{notice, DeviceState, Notice, Report};
use vstd::prelude::*;
use vstd::slice::slice_subrange;

verus! {

/// The outcome of a pass over a buffer.
pub struct Pass {
    /// Index at which the pass ended; the bytes from here on are kept.
    pub rest: int,
    /// The snapshot after the pass.
    pub state: DeviceState,
    /// How many frames the pass took.
    pub frames: nat,
    /// What the pass reported, in stream order.
    pub reports: Seq<Notice>,
}

/// Classifies position `pos` of `buf` for replies from the device.
pub open spec fn reply_at(buf: Seq<u8>, pos: int) -> Step {
    step_at(buf, pos, HEADER_INPUT, CMD_GET)
}

/// The payload of the frame that starts at `pos` and holds `length` bytes.
pub open spec fn payload_at(buf: Seq<u8>, pos: int, length: u8) -> Seq<u8> {
    buf.subrange(pos + 4, pos + 4 + length)
}

/// The reports of a pass, with `first` put before them where there is one.
pub open spec fn with_notice(first: Option<Notice>, rest: Seq<Notice>) -> Seq<Notice> {
    match first {
        Some(n) => seq![n] + rest,
        None => rest,
    }
}

/// The pass that starts at `pos` of `buf` with snapshot `state`.
///
/// Where no frame starts, and where a frame's checksum fails, the pass moves
/// on by one byte; a whole valid frame is taken and stepped over; the pass
/// ends where too few bytes are left to decide.
pub open spec fn scan(buf: Seq<u8>, pos: int, state: DeviceState) -> Pass
    decreases buf.len() - pos,
{
    match reply_at(buf, pos) {
        Step::Stop => Pass { rest: pos, state, frames: 0, reports: Seq::empty() },
        Step::Skip => scan(buf, pos + 1, state),
        Step::Mismatch { computed, received } => {
            let later = scan(buf, pos + 1, state);
            Pass {
                reports: seq![Notice::ChecksumMismatch { computed, received }] + later.reports,
                ..later
            }
        },
        Step::Frame { field_id, length } => {
            let payload = payload_at(buf, pos, length);
            let later = scan(buf, pos + length + FRAME_OVERHEAD, state.applied(field_id, payload));
            Pass {
                frames: later.frames + 1,
                reports: with_notice(notice(field_id, payload), later.reports),
                ..later
            }
        },
    }
}

/// A pass ends inside the buffer, at a position where it cannot decide.
pub proof fn lemma_scan_ends_at_stop(buf: Seq<u8>, pos: int, state: DeviceState)
    requires
        0 <= pos <= buf.len(),
    ensures
        pos <= scan(buf, pos, state).rest <= buf.len(),
        reply_at(buf, scan(buf, pos, state).rest) is Stop,
    decreases buf.len() - pos,
{
    match reply_at(buf, pos) {
        Step::Stop => {},
        Step::Skip => {
            lemma_scan_ends_at_stop(buf, pos + 1, state);
        },
        Step::Mismatch { .. } => {
            lemma_scan_ends_at_stop(buf, pos + 1, state);
        },
        Step::Frame { field_id, length } => {
            lemma_scan_ends_at_stop(
                buf,
                pos + length + FRAME_OVERHEAD,
                state.applied(field_id, payload_at(buf, pos, length)),
            );
        },
    }
}

/// What stands at a position does not depend on the bytes dropped before it.
pub proof fn lemma_step_after_skip(buf: Seq<u8>, dropped: int, pos: int, header: u8, command: u8)
    requires
        0 <= dropped <= pos,
        dropped <= buf.len(),
    ensures
        step_at(buf.skip(dropped), pos - dropped, header, command) == step_at(
            buf,
            pos,
            header,
            command,
        ),
{
    let tail = buf.skip(dropped);
    if buf.len() - pos >= MIN_SCAN {
        let length = buf[pos + 3];
        if buf.len() - pos >= length + FRAME_OVERHEAD {
            assert(tail.subrange(pos - dropped + 2, pos - dropped + 4 + length) =~= buf.subrange(
                pos + 2,
                pos + 4 + length,
            ));
        }
    }
}

/// The content of a list of reports.
pub open spec fn notices(reports: Seq<Report>) -> Seq<Notice> {
    reports.map_values(|r: Report| r@)
}

/// What [`decode`] hands back besides the snapshot.
#[derive(Debug)]
pub struct Decoded {
    /// Bytes at the front of the buffer that are done with.
    pub consumed: usize,
    /// Whether at least one frame was taken.
    pub updated: bool,
    /// What the pass reported, in stream order.
    pub reports: Vec<Report>,
}

/// Runs one pass over `buf` from its start, taking frames into `state`.
pub fn decode(buf: &[u8], state: &mut DeviceState) -> (out: Decoded)
    ensures
        *final(state) == scan(buf@, 0, *old(state)).state,
        out.consumed <= buf@.len(),
        out.consumed == scan(buf@, 0, *old(state)).rest,
        out.updated == (scan(buf@, 0, *old(state)).frames > 0),
        notices(out.reports@) == scan(buf@, 0, *old(state)).reports,
{
    let ghost total = scan(buf@, 0, *state);
    let ghost mut frames: nat = 0;
    let len: usize = buf.len();
    let mut pos: usize = 0;
    let mut updated = false;
    let mut reports: Vec<Report> = Vec::new();
    proof {
        assert(notices(reports@) =~= Seq::<Notice>::empty());
        assert(notices(reports@) + total.reports =~= total.reports);
    }
    loop
        invariant
            pos <= len == buf@.len(),
            updated == (frames > 0),
            total.rest == scan(buf@, pos as int, *state).rest,
            total.state == scan(buf@, pos as int, *state).state,
            total.frames == frames + scan(buf@, pos as int, *state).frames,
            total.reports == notices(reports@) + scan(buf@, pos as int, *state).reports,
        ensures
            reply_at(buf@, pos as int) is Stop,
        decreases buf@.len() - pos,
    {
        let ghost here = scan(buf@, pos as int, *state);
        let ghost before = notices(reports@);
        match classify(buf, pos, HEADER_INPUT, CMD_GET) {
            Step::Stop => {
                break ;
            },
            Step::Skip => {
                pos += 1;
            },
            Step::Mismatch { computed, received } => {
                reports.push(Report::ChecksumMismatch { computed, received });
                pos += 1;
                proof {
                    let n = Notice::ChecksumMismatch { computed, received };
                    assert(notices(reports@) =~= before.push(n));
                    assert(before + here.reports =~= before.push(n) + scan(
                        buf@,
                        pos as int,
                        *state,
                    ).reports);
                }
            },
            Step::Frame { field_id, length } => {
                let start: usize = pos + 4;
                let payload = slice_subrange(buf, start, start + length as usize);
                let ghost later = scan(
                    buf@,
                    pos + length + FRAME_OVERHEAD,
                    state.applied(field_id, payload@),
                );
                match state.apply(field_id, payload) {
                    Some(report) => {
                        let ghost n = report@;
                        reports.push(report);
                        proof {
                            assert(notices(reports@) =~= before.push(n));
                            assert(before + here.reports =~= before.push(n) + later.reports);
                        }
                    },
                    None => {},
                }
                pos += length as usize + FRAME_OVERHEAD;
                updated = true;
                proof {
                    frames = frames + 1;
                }
            },
        }
    }
    Decoded { consumed: pos, updated, reports }
}

} // verus!
