//! The protocol controller: it owns the snapshot and the bytes received but
//! not yet decoded, builds the requests to send, and takes in what was read.

use crate::decoder::{
    decode, lemma_scan_ends_at_stop, lemma_step_after_skip, notices, reply_at, scan, Pass,
};
use crate::field::{ALL, FIRMWARE_VERSION, HARDWARE_VERSION, MODEL_NAME, OUTPUT_ENABLE};
use crate::frame::{
    encode, frame_bytes, CMD_BAUD, CMD_GET, CMD_SESSION, CMD_SET, HEADER_INPUT, HEADER_OUTPUT,
};
use crate::state::{DeviceState, Notice, Report};
use vstd::prelude::*;

verus! {

/// Index of the link's bit rate, 115200, in the device's table, counted from one.
pub const BAUD_INDEX: u8 = 5;

/// The mathematical content of a controller.
pub struct Session {
    /// Bytes received that no pass has consumed yet.
    pub pending: Seq<u8>,
    /// The snapshot.
    pub state: DeviceState,
    /// What the last pass reported.
    pub reports: Seq<Notice>,
}

impl Session {
    /// A session from which nothing has been heard yet.
    pub open spec fn fresh() -> Session {
        Session {
            pending: Seq::empty(),
            state: DeviceState::zeroed(),
            reports: Seq::empty(),
        }
    }

    /// The pending bytes are what a pass leaves behind: too few to decide on.
    pub open spec fn wf(self) -> bool {
        reply_at(self.pending, 0) is Stop
    }

    /// The pass that runs when `data` arrives.
    pub open spec fn pass(self, data: Seq<u8>) -> Pass {
        scan(self.pending + data, 0, self.state)
    }

    /// The session after `data` has arrived and been decoded.
    pub open spec fn feed(self, data: Seq<u8>) -> Session {
        let pass = self.pass(data);
        Session {
            pending: (self.pending + data).skip(pass.rest),
            state: pass.state,
            reports: pass.reports,
        }
    }

    /// The session after a read that brought nothing.
    pub open spec fn idle(self) -> Session {
        Session { reports: Seq::empty(), ..self }
    }
}

/// The six requests that set a session up, in the order in which they are sent.
pub open spec fn init_sequence() -> Seq<Seq<u8>> {
    seq![
        frame_bytes(HEADER_OUTPUT, CMD_SESSION, 0, seq![1u8]),
        frame_bytes(HEADER_OUTPUT, CMD_BAUD, 0, seq![BAUD_INDEX]),
        frame_bytes(HEADER_OUTPUT, CMD_GET, MODEL_NAME, seq![0u8]),
        frame_bytes(HEADER_OUTPUT, CMD_GET, HARDWARE_VERSION, seq![0u8]),
        frame_bytes(HEADER_OUTPUT, CMD_GET, FIRMWARE_VERSION, seq![0u8]),
        frame_bytes(HEADER_OUTPUT, CMD_GET, ALL, seq![0u8]),
    ]
}

/// The bytes of each frame of a list.
pub open spec fn frames_view(frames: Seq<[u8; 6]>) -> Seq<Seq<u8>> {
    frames.map_values(|f: [u8; 6]| f@)
}

/// Controller of one device.
pub struct DPS150 {
    buffer: Vec<u8>,
    state: DeviceState,
    reports: Vec<Report>,
}

impl View for DPS150 {
    type V = Session;

    closed spec fn view(&self) -> Session {
        Session { pending: self.buffer@, state: self.state, reports: notices(self.reports@) }
    }
}

impl DPS150 {
    /// A controller with a zeroed snapshot and nothing buffered.
    pub fn new() -> (controller: DPS150)
        ensures
            controller@ == Session::fresh(),
            controller@.wf(),
    {
        let controller = DPS150 {
            buffer: Vec::new(),
            state: DeviceState::new(),
            reports: Vec::new(),
        };
        proof {
            assert(controller@.pending =~= Seq::<u8>::empty());
            assert(controller@.reports =~= Seq::<Notice>::empty());
        }
        controller
    }

    /// The requests to send when a session starts: open the session, select
    /// the bit rate, ask for model name, hardware and firmware version, and
    /// ask for a full snapshot.
    pub fn init_command(&self) -> (frames: Vec<[u8; 6]>)
        ensures
            frames_view(frames@) == init_sequence(),
    {
        let mut frames: Vec<[u8; 6]> = Vec::new();
        frames.push(encode(HEADER_OUTPUT, CMD_SESSION, 0, 1));
        frames.push(encode(HEADER_OUTPUT, CMD_BAUD, 0, BAUD_INDEX));
        frames.push(encode(HEADER_OUTPUT, CMD_GET, MODEL_NAME, 0));
        frames.push(encode(HEADER_OUTPUT, CMD_GET, HARDWARE_VERSION, 0));
        frames.push(encode(HEADER_OUTPUT, CMD_GET, FIRMWARE_VERSION, 0));
        frames.push(self.get_all());
        proof {
            assert(frames_view(frames@) =~= init_sequence());
        }
        frames
    }

    /// The request that writes the one-byte `value` to `field_id`.
    pub fn set_byte_value(&self, field_id: u8, value: u8) -> (frame: [u8; 6])
        ensures
            frame@ == frame_bytes(HEADER_OUTPUT, CMD_SET, field_id, seq![value]),
            frame@ == seq![
                HEADER_OUTPUT,
                CMD_SET,
                field_id,
                1u8,
                value,
                ((field_id + 1 + value) % 256) as u8,
            ],
    {
        encode(HEADER_OUTPUT, CMD_SET, field_id, value)
    }

    /// The request for a full snapshot.
    pub fn get_all(&self) -> (frame: [u8; 6])
        ensures
            frame@ == frame_bytes(HEADER_OUTPUT, CMD_GET, ALL, seq![0u8]),
            frame@ == seq![0xf1u8, 0xa1u8, 0xffu8, 0x01u8, 0x00u8, 0x00u8],
    {
        encode(HEADER_OUTPUT, CMD_GET, ALL, 0)
    }

    /// The request that closes the output, so that the device delivers power.
    pub fn enable(&self) -> (frame: [u8; 6])
        ensures
            frame@ == frame_bytes(HEADER_OUTPUT, CMD_SET, OUTPUT_ENABLE, seq![1u8]),
            frame@ == seq![0xf1u8, 0xb1u8, 0xdbu8, 0x01u8, 0x01u8, 0xddu8],
    {
        self.set_byte_value(OUTPUT_ENABLE, 1)
    }

    /// The request that opens the output.
    pub fn disable(&self) -> (frame: [u8; 6])
        ensures
            frame@ == frame_bytes(HEADER_OUTPUT, CMD_SET, OUTPUT_ENABLE, seq![0u8]),
            frame@ == seq![0xf1u8, 0xb1u8, 0xdbu8, 0x01u8, 0x00u8, 0xdcu8],
    {
        self.set_byte_value(OUTPUT_ENABLE, 0)
    }

    /// Takes in the bytes that a read brought: appends them to the pending
    /// bytes, runs one decoding pass over the whole, and keeps what the pass
    /// left. Returns whether the pass took at least one frame.
    pub fn parse(&mut self, data: &[u8]) -> (updated: bool)
        ensures
            final(self)@ == old(self)@.feed(data@),
            final(self)@.wf(),
            updated == (old(self)@.pass(data@).frames > 0),
    {
        let ghost buf = self.buffer@ + data@;
        self.buffer.extend_from_slice(data);
        assert(self.buffer@ =~= buf);
        let out = decode(self.buffer.as_slice(), &mut self.state);
        let rest = self.buffer.split_off(out.consumed);
        proof {
            let pass = scan(buf, 0, old(self).state);
            lemma_scan_ends_at_stop(buf, 0, old(self).state);
            lemma_step_after_skip(buf, pass.rest, pass.rest, HEADER_INPUT, CMD_GET);
            assert(rest@ =~= buf.skip(pass.rest));
        }
        self.buffer = rest;
        self.reports = out.reports;
        out.updated
    }

    /// Takes in the outcome of one read from the transport: the bytes it
    /// brought, or `None` where it failed. A failed read leaves the snapshot
    /// and the pending bytes as they were, reports nothing, and is no update.
    pub fn poll(&mut self, read: Option<&[u8]>) -> (updated: bool)
        ensures
            read matches Some(data) ==> final(self)@ == old(self)@.feed(data@),
            read matches Some(data) ==> updated == (old(self)@.pass(data@).frames > 0),
            read is None ==> final(self)@ == old(self)@.idle(),
            read is None ==> !updated,
            old(self)@.wf() ==> final(self)@.wf(),
    {
        match read {
            Some(data) => self.parse(data),
            None => {
                self.reports = Vec::new();
                proof {
                    assert(notices(self.reports@) =~= Seq::<Notice>::empty());
                }
                false
            },
        }
    }

    /// The snapshot as it stands.
    pub fn state(&self) -> (state: DeviceState)
        ensures
            state == self@.state,
    {
        self.state
    }

    /// What the last pass reported, in stream order.
    pub fn reports(&self) -> (reports: &Vec<Report>)
        ensures
            notices(reports@) == self@.reports,
    {
        &self.reports
    }

    /// How many received bytes wait for the rest of their frame.
    pub fn buffered(&self) -> (len: usize)
        ensures
            len == self@.pending.len(),
    {
        self.buffer.len()
    }
}

} // verus!
