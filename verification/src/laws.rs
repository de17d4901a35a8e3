//! Laws of the protocol engine, proved over the models that the contracts
//! of the executable functions use.

use crate::codec::checksum;
use crate::controller::Session;
use crate::decoder::{
    lemma_scan_ends_at_stop, lemma_step_after_skip, payload_at, reply_at, scan, with_notice, Pass,
};
use crate::field::field_of;
use crate::frame::{
    frame_bytes, lemma_checksum_one_byte, step_at, Step, CMD_GET, FRAME_OVERHEAD, HEADER_INPUT,
    MIN_SCAN,
};
use crate::state::{notice, DeviceState, Notice};
use vstd::prelude::*;

verus! {

/// The bytes of a reply from the device for `field_id` with `payload`.
pub open spec fn reply_bytes(field_id: u8, payload: Seq<u8>) -> Seq<u8> {
    frame_bytes(HEADER_INPUT, CMD_GET, field_id, payload)
}

/// A frame is recognised wherever it stands in a stream, with its field and
/// payload, once the stream holds it whole and holds at least six bytes from
/// its start.
pub proof fn lemma_frame_recognised(
    before: Seq<u8>,
    header: u8,
    command: u8,
    field_id: u8,
    payload: Seq<u8>,
    after: Seq<u8>,
)
    requires
        payload.len() <= 255,
        payload.len() + after.len() >= 1,
    ensures
        step_at(
            before + frame_bytes(header, command, field_id, payload) + after,
            before.len() as int,
            header,
            command,
        ) == (Step::Frame { field_id, length: payload.len() as u8 }),
        payload_at(
            before + frame_bytes(header, command, field_id, payload) + after,
            before.len() as int,
            payload.len() as u8,
        ) == payload,
{
    let frame = frame_bytes(header, command, field_id, payload);
    let buf = before + frame + after;
    let pos = before.len() as int;
    let length = payload.len() as u8;
    assert(frame.len() == payload.len() + FRAME_OVERHEAD);
    assert(buf.len() - pos >= MIN_SCAN);
    assert(buf[pos] == frame[0] && frame[0] == header);
    assert(buf[pos + 1] == frame[1] && frame[1] == command);
    assert(buf[pos + 2] == frame[2] && frame[2] == field_id);
    assert(buf[pos + 3] == frame[3] && frame[3] == length);
    assert(buf.subrange(pos + 2, pos + 4 + length) =~= seq![field_id, length] + payload);
    assert(buf[pos + 4 + length] == frame[4 + length]);
    assert(frame[4 + length] == checksum(seq![field_id, length] + payload));
    assert(buf.subrange(pos + 4, pos + 4 + length) =~= payload);
}

/// Encoding and recognising agree: the six bytes that the encoder builds for
/// a one-byte payload are a frame with that field and value, and their last
/// byte is the sum of field, length and value modulo 256.
pub proof fn lemma_encode_round_trip(direction: u8, command: u8, field_id: u8, value: u8)
    ensures
        frame_bytes(direction, command, field_id, seq![value]).len() == 6,
        frame_bytes(direction, command, field_id, seq![value])[5] == ((field_id + 1 + value)
            % 256) as u8,
        step_at(frame_bytes(direction, command, field_id, seq![value]), 0, direction, command)
            == (Step::Frame { field_id, length: 1 }),
        payload_at(frame_bytes(direction, command, field_id, seq![value]), 0, 1) == seq![value],
{
    let frame = frame_bytes(direction, command, field_id, seq![value]);
    lemma_checksum_one_byte(field_id, value);
    lemma_frame_recognised(
        Seq::empty(),
        direction,
        command,
        field_id,
        seq![value],
        Seq::empty(),
    );
    assert(Seq::<u8>::empty() + frame + Seq::<u8>::empty() =~= frame);
}

/// A frame for an identifier that names no decoded field leaves the snapshot
/// as it was, and is reported as ignored.
pub proof fn lemma_unknown_field_ignored(state: DeviceState, field_id: u8, payload: Seq<u8>)
    requires
        field_of(field_id) is None,
    ensures
        state.applied(field_id, payload) == state,
        notice(field_id, payload) == Some(Notice::UnknownField { field_id }),
{
}

/// A pass does not depend on the bytes dropped before its start: over the
/// rest of the buffer it gives the same snapshot, frames and reports, and
/// ends at the same byte.
pub proof fn lemma_scan_after_skip(buf: Seq<u8>, dropped: int, pos: int, state: DeviceState)
    requires
        0 <= dropped <= pos <= buf.len(),
    ensures
        scan(buf.skip(dropped), pos - dropped, state) == (Pass {
            rest: scan(buf, pos, state).rest - dropped,
            ..scan(buf, pos, state)
        }),
    decreases buf.len() - pos,
{
    let tail = buf.skip(dropped);
    lemma_step_after_skip(buf, dropped, pos, HEADER_INPUT, CMD_GET);
    match reply_at(buf, pos) {
        Step::Stop => {},
        Step::Skip => {
            lemma_scan_after_skip(buf, dropped, pos + 1, state);
        },
        Step::Mismatch { .. } => {
            lemma_scan_after_skip(buf, dropped, pos + 1, state);
        },
        Step::Frame { field_id, length } => {
            assert(payload_at(tail, pos - dropped, length) =~= payload_at(buf, pos, length));
            lemma_scan_after_skip(
                buf,
                dropped,
                pos + length + FRAME_OVERHEAD,
                state.applied(field_id, payload_at(buf, pos, length)),
            );
        },
    }
}

/// Where a buffer holds enough to decide on a position, bytes that arrive
/// later do not change the decision.
pub proof fn lemma_step_settled(
    buf: Seq<u8>,
    more: Seq<u8>,
    pos: int,
    header: u8,
    command: u8,
)
    requires
        0 <= pos,
        !(step_at(buf, pos, header, command) is Stop),
    ensures
        step_at(buf + more, pos, header, command) == step_at(buf, pos, header, command),
        step_at(buf, pos, header, command) matches Step::Frame { length, .. } ==> payload_at(
            buf + more,
            pos,
            length,
        ) == payload_at(buf, pos, length),
{
    let whole = buf + more;
    assert(whole[pos] == buf[pos]);
    assert(whole[pos + 1] == buf[pos + 1]);
    assert(whole[pos + 2] == buf[pos + 2]);
    assert(whole[pos + 3] == buf[pos + 3]);
    if buf[pos] == header && buf[pos + 1] == command {
        let length = buf[pos + 3];
        assert(whole.subrange(pos + 2, pos + 4 + length) =~= buf.subrange(
            pos + 2,
            pos + 4 + length,
        ));
        assert(whole[pos + 4 + length] == buf[pos + 4 + length]);
        assert(payload_at(whole, pos, length) =~= payload_at(buf, pos, length));
    }
}

/// A pass over a buffer that has grown does first what the pass over the
/// shorter buffer did, and then goes on from where that pass ended.
pub proof fn lemma_scan_resumes(buf: Seq<u8>, more: Seq<u8>, pos: int, state: DeviceState)
    requires
        0 <= pos <= buf.len(),
    ensures
        ({
            let first = scan(buf, pos, state);
            let second = scan(buf + more, first.rest, first.state);
            scan(buf + more, pos, state) == (Pass {
                rest: second.rest,
                state: second.state,
                frames: first.frames + second.frames,
                reports: first.reports + second.reports,
            })
        }),
    decreases buf.len() - pos,
{
    let whole = buf + more;
    let first = scan(buf, pos, state);
    let second = scan(whole, first.rest, first.state);
    match reply_at(buf, pos) {
        Step::Stop => {
            assert(first.reports + second.reports =~= second.reports);
        },
        Step::Skip => {
            lemma_step_settled(buf, more, pos, HEADER_INPUT, CMD_GET);
            lemma_scan_resumes(buf, more, pos + 1, state);
        },
        Step::Mismatch { computed, received } => {
            lemma_step_settled(buf, more, pos, HEADER_INPUT, CMD_GET);
            lemma_scan_resumes(buf, more, pos + 1, state);
            let n = seq![Notice::ChecksumMismatch { computed, received }];
            let inner = scan(buf, pos + 1, state);
            assert(n + (inner.reports + second.reports) =~= (n + inner.reports) + second.reports);
        },
        Step::Frame { field_id, length } => {
            lemma_step_settled(buf, more, pos, HEADER_INPUT, CMD_GET);
            let payload = payload_at(buf, pos, length);
            let next = state.applied(field_id, payload);
            lemma_scan_resumes(buf, more, pos + length + FRAME_OVERHEAD, next);
            let inner = scan(buf, pos + length + FRAME_OVERHEAD, next);
            let first_notice = notice(field_id, payload);
            assert(with_notice(first_notice, inner.reports + second.reports) =~= with_notice(
                first_notice,
                inner.reports,
            ) + second.reports);
        },
    }
}

/// Fragmented reads decode as one: feeding `a` and then `b` leaves the same
/// snapshot and the same pending bytes as feeding `a + b` at once, takes as
/// many frames, and reports the same in the same order.
pub proof fn lemma_feed_split(s: Session, a: Seq<u8>, b: Seq<u8>)
    ensures
        s.feed(a).feed(b).state == s.feed(a + b).state,
        s.feed(a).feed(b).pending == s.feed(a + b).pending,
        s.feed(a).reports + s.feed(a).feed(b).reports == s.feed(a + b).reports,
        s.pass(a).frames + s.feed(a).pass(b).frames == s.pass(a + b).frames,
{
    let buf = s.pending + a;
    let whole = buf + b;
    assert(s.pending + (a + b) =~= whole);
    let first = scan(buf, 0, s.state);
    lemma_scan_ends_at_stop(buf, 0, s.state);
    lemma_scan_resumes(buf, b, 0, s.state);
    lemma_scan_after_skip(whole, first.rest, first.rest, first.state);
    assert(whole.skip(first.rest) =~= buf.skip(first.rest) + b);
    let second = scan(whole, first.rest, first.state);
    lemma_scan_ends_at_stop(whole, first.rest, first.state);
    assert(whole.skip(first.rest).skip(second.rest - first.rest) =~= whole.skip(second.rest));
}

/// Whether the decoder moves through `buf` one byte at a time from `from`
/// up to `to`: at each of these positions either no frame starts or a
/// frame's checksum fails.
pub open spec fn steps_bytewise(buf: Seq<u8>, from: int, to: int) -> bool {
    forall|i: int|
        from <= i < to ==> #[trigger] reply_at(buf, i) is Skip || reply_at(buf, i) is Mismatch
}

/// The checksum failures that the decoder reports between `from` and `to`.
pub open spec fn mismatches(buf: Seq<u8>, from: int, to: int) -> Seq<Notice>
    decreases to - from,
{
    if from >= to {
        Seq::empty()
    } else {
        match reply_at(buf, from) {
            Step::Mismatch { computed, received } => seq![
                Notice::ChecksumMismatch { computed, received },
            ] + mismatches(buf, from + 1, to),
            _ => mismatches(buf, from + 1, to),
        }
    }
}

/// Whether `bytes` nowhere holds the two bytes with which a reply starts.
pub open spec fn header_free(bytes: Seq<u8>) -> bool {
    forall|i: int|
        0 <= i && i + 1 < bytes.len() ==> !(#[trigger] bytes[i] == HEADER_INPUT && bytes[i + 1]
            == CMD_GET)
}

/// Resynchronisation: over a stretch through which the decoder moves one
/// byte at a time, a pass changes nothing and takes no frame; it reports the
/// checksum failures of the stretch and then does what a pass from the end
/// of the stretch does.
pub proof fn lemma_resync(buf: Seq<u8>, from: int, to: int, state: DeviceState)
    requires
        from <= to,
        steps_bytewise(buf, from, to),
    ensures
        scan(buf, from, state) == (Pass {
            reports: mismatches(buf, from, to) + scan(buf, to, state).reports,
            ..scan(buf, to, state)
        }),
    decreases to - from,
{
    let later = scan(buf, to, state);
    if from == to {
        assert(mismatches(buf, from, to) + later.reports =~= later.reports);
    } else {
        assert(reply_at(buf, from) is Skip || reply_at(buf, from) is Mismatch);
        lemma_resync(buf, from + 1, to, state);
        match reply_at(buf, from) {
            Step::Mismatch { computed, received } => {
                let n = seq![Notice::ChecksumMismatch { computed, received }];
                let inner = mismatches(buf, from + 1, to);
                assert(n + (inner + later.reports) =~= (n + inner) + later.reports);
            },
            _ => {},
        }
    }
}

/// A stretch in which no reply header starts, and which at least five more
/// bytes follow, is one through which the decoder moves one byte at a time
/// without a report.
pub proof fn lemma_header_free_stretch(buf: Seq<u8>, from: int, to: int)
    requires
        0 <= from <= to,
        to + MIN_SCAN - 1 <= buf.len(),
        forall|i: int|
            from <= i < to ==> !(#[trigger] buf[i] == HEADER_INPUT && buf[i + 1] == CMD_GET),
    ensures
        steps_bytewise(buf, from, to),
        mismatches(buf, from, to) == Seq::<Notice>::empty(),
    decreases to - from,
{
    if from < to {
        assert(!(buf[from] == HEADER_INPUT && buf[from + 1] == CMD_GET));
        assert(reply_at(buf, from) is Skip);
        lemma_header_free_stretch(buf, from + 1, to);
        assert forall|i: int| from <= i < to implies #[trigger] reply_at(buf, i) is Skip
            || reply_at(buf, i) is Mismatch by {
            assert(!(buf[i] == HEADER_INPUT && buf[i + 1] == CMD_GET));
        }
    }
}

/// A pass over one whole reply with a payload of at least one byte takes the
/// frame and ends behind it.
pub proof fn lemma_scan_one_reply(
    before: Seq<u8>,
    field_id: u8,
    payload: Seq<u8>,
    state: DeviceState,
)
    requires
        1 <= payload.len() <= 255,
    ensures
        scan(before + reply_bytes(field_id, payload), before.len() as int, state) == (Pass {
            rest: before.len() + payload.len() + FRAME_OVERHEAD,
            state: state.applied(field_id, payload),
            frames: 1,
            reports: with_notice(notice(field_id, payload), Seq::empty()),
        }),
{
    let frame = reply_bytes(field_id, payload);
    let buf = before + frame;
    lemma_frame_recognised(before, HEADER_INPUT, CMD_GET, field_id, payload, Seq::empty());
    assert(before + frame + Seq::<u8>::empty() =~= buf);
    let pos = before.len() as int;
    let length = payload.len() as u8;
    let end = pos + length + FRAME_OVERHEAD;
    let next = state.applied(field_id, payload);
    assert(buf.len() == end);
    assert(reply_at(buf, pos) == (Step::Frame { field_id, length }));
    assert(payload_at(buf, pos, length) == payload);
    assert(reply_at(buf, end) is Stop);
    assert(scan(buf, end, next) == (Pass {
        rest: end,
        state: next,
        frames: 0,
        reports: Seq::empty(),
    }));
}

/// Garbage before a reply is discarded: where the garbage nowhere holds the
/// two bytes with which a reply starts, and the reply carries at least one
/// payload byte, a pass over both takes exactly that one frame, reports
/// nothing of the garbage, and consumes every byte.
pub proof fn lemma_garbage_then_reply(
    garbage: Seq<u8>,
    field_id: u8,
    payload: Seq<u8>,
    state: DeviceState,
)
    requires
        header_free(garbage),
        1 <= payload.len() <= 255,
    ensures
        scan(garbage + reply_bytes(field_id, payload), 0, state) == (Pass {
            rest: garbage.len() + payload.len() + FRAME_OVERHEAD,
            state: state.applied(field_id, payload),
            frames: 1,
            reports: with_notice(notice(field_id, payload), Seq::empty()),
        }),
{
    let frame = reply_bytes(field_id, payload);
    let buf = garbage + frame;
    let to = garbage.len() as int;
    assert forall|i: int| 0 <= i < to implies !(#[trigger] buf[i] == HEADER_INPUT && buf[i + 1]
        == CMD_GET) by {
        if i + 1 < to {
            assert(buf[i] == garbage[i]);
            assert(buf[i + 1] == garbage[i + 1]);
        } else {
            assert(buf[i + 1] == frame[0]);
        }
    }
    lemma_header_free_stretch(buf, 0, to);
    lemma_resync(buf, 0, to, state);
    lemma_scan_one_reply(garbage, field_id, payload, state);
    let later = scan(buf, to, state);
    assert(mismatches(buf, 0, to) + later.reports =~= later.reports);
}

/// The same for a controller: with nothing but garbage pending and arriving
/// before it, one reply is taken, and no byte stays behind.
pub proof fn lemma_feed_garbage_then_reply(
    s: Session,
    garbage: Seq<u8>,
    field_id: u8,
    payload: Seq<u8>,
)
    requires
        header_free(s.pending + garbage),
        1 <= payload.len() <= 255,
    ensures
        s.pass(garbage + reply_bytes(field_id, payload)).frames == 1,
        s.feed(garbage + reply_bytes(field_id, payload)) == (Session {
            pending: Seq::empty(),
            state: s.state.applied(field_id, payload),
            reports: with_notice(notice(field_id, payload), Seq::empty()),
        }),
{
    let frame = reply_bytes(field_id, payload);
    let buf = s.pending + (garbage + frame);
    assert(buf =~= (s.pending + garbage) + frame);
    lemma_garbage_then_reply(s.pending + garbage, field_id, payload, s.state);
    assert(buf.skip(buf.len() as int) =~= Seq::<u8>::empty());
}

/// The bytes of a reply whose checksum byte was replaced by `wrong`.
pub open spec fn corrupted_reply(field_id: u8, payload: Seq<u8>, wrong: u8) -> Seq<u8> {
    reply_bytes(field_id, payload).update(payload.len() as int + 4, wrong)
}

/// A reply with a wrong checksum byte is rejected where it starts. Where the
/// decoder then moves through the rest of it one byte at a time, the pass
/// goes on behind it exactly as a pass over the following bytes alone: same
/// snapshot, same frames, same reports after those of the checksum failures.
pub proof fn lemma_corrupted_reply_skipped(
    field_id: u8,
    payload: Seq<u8>,
    wrong: u8,
    tail: Seq<u8>,
    state: DeviceState,
)
    requires
        payload.len() <= 255,
        wrong != checksum(seq![field_id, payload.len() as u8] + payload),
        steps_bytewise(
            corrupted_reply(field_id, payload, wrong) + tail,
            1,
            payload.len() + FRAME_OVERHEAD,
        ),
    ensures
        reply_at(corrupted_reply(field_id, payload, wrong) + tail, 0) == (Step::Mismatch {
            computed: checksum(seq![field_id, payload.len() as u8] + payload),
            received: wrong,
        }),
        scan(corrupted_reply(field_id, payload, wrong) + tail, 0, state) == (Pass {
            rest: payload.len() + FRAME_OVERHEAD + scan(tail, 0, state).rest,
            reports: mismatches(
                corrupted_reply(field_id, payload, wrong) + tail,
                0,
                payload.len() + FRAME_OVERHEAD,
            ) + scan(tail, 0, state).reports,
            ..scan(tail, 0, state)
        }),
{
    let bad = corrupted_reply(field_id, payload, wrong);
    let buf = bad + tail;
    let length = payload.len() as u8;
    let n = payload.len() + FRAME_OVERHEAD;
    assert(bad.len() == n);
    assert(reply_at(buf, 1) is Skip || reply_at(buf, 1) is Mismatch);
    assert(buf[0] == bad[0] && buf[1] == bad[1] && buf[2] == bad[2] && buf[3] == bad[3]);
    assert(buf.subrange(2, 4 + length) =~= seq![field_id, length] + payload);
    assert(buf[4 + length] == bad[4 + length]);
    assert forall|i: int| 0 <= i < n implies #[trigger] reply_at(buf, i) is Skip || reply_at(
        buf,
        i,
    ) is Mismatch by {
        if i >= 1 {
            assert(reply_at(buf, i) is Skip || reply_at(buf, i) is Mismatch);
        }
    }
    lemma_resync(buf, 0, n, state);
    lemma_scan_after_skip(buf, n, n, state);
    assert(buf.skip(n) =~= tail);
}

/// A corrupted reply does not cost the reply behind it: under the condition
/// of [`lemma_corrupted_reply_skipped`], a pass over a corrupted reply and a
/// good one with at least one payload byte takes exactly the good one and
/// consumes every byte.
pub proof fn lemma_reply_after_corrupted(
    bad_field: u8,
    bad_payload: Seq<u8>,
    wrong: u8,
    field_id: u8,
    payload: Seq<u8>,
    state: DeviceState,
)
    requires
        bad_payload.len() <= 255,
        wrong != checksum(seq![bad_field, bad_payload.len() as u8] + bad_payload),
        1 <= payload.len() <= 255,
        steps_bytewise(
            corrupted_reply(bad_field, bad_payload, wrong) + reply_bytes(field_id, payload),
            1,
            bad_payload.len() + FRAME_OVERHEAD,
        ),
    ensures
        ({
            let stream = corrupted_reply(bad_field, bad_payload, wrong) + reply_bytes(
                field_id,
                payload,
            );
            let pass = scan(stream, 0, state);
            &&& pass.rest == stream.len()
            &&& pass.state == state.applied(field_id, payload)
            &&& pass.frames == 1
        }),
{
    let good = reply_bytes(field_id, payload);
    lemma_corrupted_reply_skipped(bad_field, bad_payload, wrong, good, state);
    lemma_scan_one_reply(Seq::empty(), field_id, payload, state);
    assert(Seq::<u8>::empty() + good =~= good);
}

/// A read that brings no byte is no update: the snapshot and the pending
/// bytes stay, no frame is taken and nothing is reported.
pub proof fn lemma_empty_read(s: Session)
    requires
        s.wf(),
    ensures
        s.feed(Seq::empty()) == s.idle(),
        s.pass(Seq::empty()).frames == 0,
{
    assert(s.pending + Seq::<u8>::empty() =~= s.pending);
    assert(s.pending.skip(0) =~= s.pending);
}

/// The pending bytes never pile up: whatever arrived, a pass leaves fewer
/// bytes pending than the longest frame holds.
pub proof fn lemma_pending_bounded(s: Session)
    requires
        s.wf(),
    ensures
        s.pending.len() < 255 + FRAME_OVERHEAD,
{
}

/// The session after each chunk of `chunks` was fed in turn.
pub open spec fn feed_all(s: Session, chunks: Seq<Seq<u8>>) -> Session
    decreases chunks.len(),
{
    if chunks.len() == 0 {
        s
    } else {
        feed_all(s, chunks.drop_last()).feed(chunks.last())
    }
}

/// The chunks of `chunks` put end to end.
pub open spec fn joined(chunks: Seq<Seq<u8>>) -> Seq<u8>
    decreases chunks.len(),
{
    if chunks.len() == 0 {
        Seq::empty()
    } else {
        joined(chunks.drop_last()) + chunks.last()
    }
}

/// However a stream is cut into reads, the controller ends with the same
/// snapshot and the same pending bytes as after one read of the whole.
pub proof fn lemma_feed_chunks(s: Session, chunks: Seq<Seq<u8>>)
    requires
        chunks.len() >= 1,
    ensures
        feed_all(s, chunks).state == s.feed(joined(chunks)).state,
        feed_all(s, chunks).pending == s.feed(joined(chunks)).pending,
    decreases chunks.len(),
{
    let head = chunks.drop_last();
    let last = chunks.last();
    if head.len() == 0 {
        assert(joined(head) + last =~= last);
    } else {
        lemma_feed_chunks(s, head);
        let stepwise = feed_all(s, head);
        let at_once = s.feed(joined(head));
        assert(stepwise.pending + last == at_once.pending + last);
        lemma_feed_split(s, joined(head), last);
    }
}

} // verus!
