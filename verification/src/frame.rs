//! The wire format: how a frame is laid out, how an outgoing frame is built,
//! and what stands at a given position of an incoming byte stream.

use crate::codec::{byte_sum, checksum, checksum_of};
use vstd::prelude::*;
use vstd::slice::slice_subrange;

verus! {

/// First byte of a frame sent by the device.
pub const HEADER_INPUT: u8 = 0xf0;

/// First byte of a frame sent to the device.
pub const HEADER_OUTPUT: u8 = 0xf1;

/// Command code of a read request, and of every reply.
pub const CMD_GET: u8 = 0xa1;

/// Command code of a write request.
pub const CMD_SET: u8 = 0xb1;

/// Command code that selects the link's bit rate while a session is set up.
pub const CMD_BAUD: u8 = 0xc0;

/// Command code that opens a session.
pub const CMD_SESSION: u8 = 0xc1;

/// Bytes of a frame besides its payload: header, command, field, length, checksum.
pub const FRAME_OVERHEAD: usize = 5;

/// The decoder looks at a position only once this many bytes stand there.
pub const MIN_SCAN: usize = 6;

/// The bytes of the frame that carries `payload` for `field_id`.
pub open spec fn frame_bytes(header: u8, command: u8, field_id: u8, payload: Seq<u8>) -> Seq<u8>
    recommends
        payload.len() <= 255,
{
    seq![header, command, field_id, payload.len() as u8] + payload + seq![
        checksum(seq![field_id, payload.len() as u8] + payload),
    ]
}

/// What the decoder finds at one position of the stream.
#[derive(Clone, Copy, Debug, PartialEq, Eq, Structural)]
pub enum Step {
    /// Too few bytes to decide: the pass ends here and the bytes are kept.
    Stop,
    /// No frame starts here.
    Skip,
    /// A frame's header and length stand here, but its checksum byte is wrong.
    Mismatch { computed: u8, received: u8 },
    /// A whole frame with a matching checksum stands here.
    Frame { field_id: u8, length: u8 },
}

/// Classifies position `pos` of `buf` for frames that start with `header`, `command`.
pub open spec fn step_at(buf: Seq<u8>, pos: int, header: u8, command: u8) -> Step {
    if buf.len() - pos < MIN_SCAN {
        Step::Stop
    } else if buf[pos] != header || buf[pos + 1] != command {
        Step::Skip
    } else if buf.len() - pos < buf[pos + 3] + FRAME_OVERHEAD {
        Step::Stop
    } else {
        let length = buf[pos + 3];
        let computed = checksum(buf.subrange(pos + 2, pos + 4 + length));
        let received = buf[pos + 4 + length];
        if computed == received {
            Step::Frame { field_id: buf[pos + 2], length }
        } else {
            Step::Mismatch { computed, received }
        }
    }
}

/// The checksum of a one-byte payload covers the field, the length 1 and the value.
pub proof fn lemma_checksum_one_byte(field_id: u8, value: u8)
    ensures
        checksum(seq![field_id, 1u8] + seq![value]) == ((field_id + 1 + value) % 256) as u8,
{
    let covered = seq![field_id, 1u8] + seq![value];
    assert(covered.drop_last() =~= seq![field_id, 1u8]);
    assert(covered.drop_last().drop_last() =~= seq![field_id]);
    assert(covered.drop_last().drop_last().drop_last() =~= Seq::<u8>::empty());
    reveal_with_fuel(byte_sum, 4);
}

/// Builds the six bytes of an outgoing frame with a one-byte payload.
pub fn encode(direction: u8, command: u8, field_id: u8, value: u8) -> (frame: [u8; 6])
    ensures
        frame@ == seq![
            direction,
            command,
            field_id,
            1u8,
            value,
            ((field_id + 1 + value) % 256) as u8,
        ],
        frame@ == frame_bytes(direction, command, field_id, seq![value]),
{
    let sum: u8 = field_id.wrapping_add(1).wrapping_add(value);
    let frame: [u8; 6] = [direction, command, field_id, 1, value, sum];
    proof {
        lemma_checksum_one_byte(field_id, value);
        assert(frame@ =~= seq![direction, command, field_id, 1u8, value, sum]);
        assert(frame@ =~= frame_bytes(direction, command, field_id, seq![value]));
    }
    frame
}

/// Classifies position `pos` of `buf` for frames that start with `header`, `command`.
pub fn classify(buf: &[u8], pos: usize, header: u8, command: u8) -> (step: Step)
    requires
        pos <= buf@.len(),
    ensures
        step == step_at(buf@, pos as int, header, command),
{
    let remaining: usize = buf.len() - pos;
    if remaining < MIN_SCAN {
        return Step::Stop;
    }
    if buf[pos] != header || buf[pos + 1] != command {
        return Step::Skip;
    }
    let length: u8 = buf[pos + 3];
    if remaining < length as usize + FRAME_OVERHEAD {
        return Step::Stop;
    }
    let end: usize = pos + 4 + length as usize;
    let computed: u8 = checksum_of(slice_subrange(buf, pos + 2, end));
    let received: u8 = buf[end];
    if computed == received {
        Step::Frame { field_id: buf[pos + 2], length }
    } else {
        Step::Mismatch { computed, received }
    }
}

} // verus!
