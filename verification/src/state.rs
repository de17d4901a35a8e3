//! The telemetry snapshot and the rule by which a reply changes it.

use crate::codec::{all_ascii, is_ascii, le_u32, read_le_u32};
use crate::field::{field_of, Field};
use vstd::prelude::*;
use vstd::slice::slice_to_vec;

verus! {

/// The last known readings and settings of the device.
///
/// Each reading is held as the bit pattern of an IEEE-754 single-precision
/// number, as it came off the wire.
#[derive(Clone, Copy, Debug, PartialEq, Eq, Structural)]
pub struct DeviceState {
    pub set_voltage: u32,
    pub set_current: u32,
    pub input_voltage: u32,
    pub output_voltage: u32,
    pub output_current: u32,
    pub output_power: u32,
    pub output_closed: bool,
    pub upperlimit_voltage: u32,
    pub upperlimit_current: u32,
    pub temperature: u32,
}

/// What a decoding pass tells its caller besides the snapshot.
#[derive(Debug, PartialEq, Eq)]
pub enum Report {
    /// A frame was dropped: its checksum byte was `received`, not `computed`.
    ChecksumMismatch { computed: u8, received: u8 },
    /// The device named its model.
    ModelName { text: Vec<u8> },
    /// The device named its hardware version.
    HardwareVersion { text: Vec<u8> },
    /// The device named its firmware version.
    FirmwareVersion { text: Vec<u8> },
    /// A text field held a byte that is no ASCII code.
    MalformedText { field_id: u8 },
    /// A payload of `length` bytes was too short for its field.
    ShortPayload { field_id: u8, length: usize },
    /// A frame for a field that is not decoded.
    UnknownField { field_id: u8 },
}

/// The mathematical content of a [`Report`].
pub enum Notice {
    ChecksumMismatch { computed: u8, received: u8 },
    ModelName { text: Seq<u8> },
    HardwareVersion { text: Seq<u8> },
    FirmwareVersion { text: Seq<u8> },
    MalformedText { field_id: u8 },
    ShortPayload { field_id: u8, length: usize },
    UnknownField { field_id: u8 },
}

impl View for Report {
    type V = Notice;

    open spec fn view(&self) -> Notice {
        match *self {
            Report::ChecksumMismatch { computed, received } => Notice::ChecksumMismatch {
                computed,
                received,
            },
            Report::ModelName { text } => Notice::ModelName { text: text@ },
            Report::HardwareVersion { text } => Notice::HardwareVersion { text: text@ },
            Report::FirmwareVersion { text } => Notice::FirmwareVersion { text: text@ },
            Report::MalformedText { field_id } => Notice::MalformedText { field_id },
            Report::ShortPayload { field_id, length } => Notice::ShortPayload { field_id, length },
            Report::UnknownField { field_id } => Notice::UnknownField { field_id },
        }
    }
}

/// The content of an optional report.
pub open spec fn notice_of(report: Option<Report>) -> Option<Notice> {
    match report {
        Some(r) => Some(r@),
        None => None,
    }
}

/// What a checksum-valid frame for `field_id` with `payload` makes the decoder
/// report: a text field its text, or that the text is malformed; any other
/// known field nothing, unless the payload is too short for it; an unknown
/// identifier that it was ignored.
pub open spec fn notice(field_id: u8, payload: Seq<u8>) -> Option<Notice> {
    match field_of(field_id) {
        None => Some(Notice::UnknownField { field_id }),
        Some(field) => if field.is_text() {
            if !is_ascii(payload) {
                Some(Notice::MalformedText { field_id })
            } else if field is ModelName {
                Some(Notice::ModelName { text: payload })
            } else if field is HardwareVersion {
                Some(Notice::HardwareVersion { text: payload })
            } else {
                Some(Notice::FirmwareVersion { text: payload })
            }
        } else if payload.len() < field.spec_min_payload() {
            Some(Notice::ShortPayload { field_id, length: payload.len() as usize })
        } else {
            None
        },
    }
}

impl DeviceState {
    /// The snapshot of a device from which nothing has been heard yet.
    pub open spec fn zeroed() -> DeviceState {
        DeviceState {
            set_voltage: 0,
            set_current: 0,
            input_voltage: 0,
            output_voltage: 0,
            output_current: 0,
            output_power: 0,
            output_closed: false,
            upperlimit_voltage: 0,
            upperlimit_current: 0,
            temperature: 0,
        }
    }

    /// The snapshot after a checksum-valid frame for `field_id` with `payload`.
    ///
    /// A frame changes nothing where its field is unknown or text, or where
    /// its payload is shorter than the field needs. A full snapshot takes the
    /// upper voltage limit from offset 115, which supersedes the one at offset
    /// 111, and leaves the upper current limit as it was.
    pub open spec fn applied(self, field_id: u8, payload: Seq<u8>) -> DeviceState {
        match field_of(field_id) {
            None => self,
            Some(field) => if payload.len() < field.spec_min_payload() {
                self
            } else {
                match field {
                    Field::InputVoltage => DeviceState {
                        input_voltage: le_u32(payload, 0),
                        ..self
                    },
                    Field::OutputReadings => DeviceState {
                        output_voltage: le_u32(payload, 0),
                        output_current: le_u32(payload, 4),
                        output_power: le_u32(payload, 8),
                        ..self
                    },
                    Field::Temperature => DeviceState { temperature: le_u32(payload, 0), ..self },
                    Field::OutputEnable => DeviceState { output_closed: payload[0] == 1, ..self },
                    Field::ModelName | Field::HardwareVersion | Field::FirmwareVersion => self,
                    Field::UpperLimitVoltage => DeviceState {
                        upperlimit_voltage: le_u32(payload, 0),
                        ..self
                    },
                    Field::UpperLimitCurrent => DeviceState {
                        upperlimit_current: le_u32(payload, 0),
                        ..self
                    },
                    Field::All => DeviceState {
                        input_voltage: le_u32(payload, 0),
                        set_voltage: le_u32(payload, 4),
                        set_current: le_u32(payload, 8),
                        output_voltage: le_u32(payload, 12),
                        output_current: le_u32(payload, 16),
                        output_power: le_u32(payload, 20),
                        temperature: le_u32(payload, 24),
                        output_closed: payload[107] == 1,
                        upperlimit_voltage: le_u32(payload, 115),
                        upperlimit_current: self.upperlimit_current,
                    },
                }
            },
        }
    }

    /// A snapshot with every reading zero and the output open.
    pub fn new() -> (state: DeviceState)
        ensures
            state == DeviceState::zeroed(),
    {
        DeviceState {
            set_voltage: 0,
            set_current: 0,
            input_voltage: 0,
            output_voltage: 0,
            output_current: 0,
            output_power: 0,
            output_closed: false,
            upperlimit_voltage: 0,
            upperlimit_current: 0,
            temperature: 0,
        }
    }

    /// Takes the payload of a checksum-valid frame into the snapshot and
    /// returns what there is to report of it.
    pub fn apply(&mut self, field_id: u8, payload: &[u8]) -> (report: Option<Report>)
        ensures
            *final(self) == old(self).applied(field_id, payload@),
            notice_of(report) == notice(field_id, payload@),
    {
        let field = match Field::from_id(field_id) {
            Some(field) => field,
            None => {
                return Some(Report::UnknownField { field_id });
            },
        };
        match field {
            Field::ModelName | Field::HardwareVersion | Field::FirmwareVersion => {
                if !all_ascii(payload) {
                    return Some(Report::MalformedText { field_id });
                }
                let text = slice_to_vec(payload);
                return Some(
                    match field {
                        Field::ModelName => Report::ModelName { text },
                        Field::HardwareVersion => Report::HardwareVersion { text },
                        _ => Report::FirmwareVersion { text },
                    },
                );
            },
            _ => {},
        }
        if payload.len() < field.min_payload() {
            return Some(Report::ShortPayload { field_id, length: payload.len() });
        }
        match field {
            Field::InputVoltage => {
                self.input_voltage = read_le_u32(payload, 0);
            },
            Field::OutputReadings => {
                self.output_voltage = read_le_u32(payload, 0);
                self.output_current = read_le_u32(payload, 4);
                self.output_power = read_le_u32(payload, 8);
            },
            Field::Temperature => {
                self.temperature = read_le_u32(payload, 0);
            },
            Field::OutputEnable => {
                self.output_closed = payload[0] == 1;
            },
            Field::UpperLimitVoltage => {
                self.upperlimit_voltage = read_le_u32(payload, 0);
            },
            Field::UpperLimitCurrent => {
                self.upperlimit_current = read_le_u32(payload, 0);
            },
            Field::All => {
                self.input_voltage = read_le_u32(payload, 0);
                self.set_voltage = read_le_u32(payload, 4);
                self.set_current = read_le_u32(payload, 8);
                self.output_voltage = read_le_u32(payload, 12);
                self.output_current = read_le_u32(payload, 16);
                self.output_power = read_le_u32(payload, 20);
                self.temperature = read_le_u32(payload, 24);
                self.output_closed = payload[107] == 1;
                self.upperlimit_voltage = read_le_u32(payload, 111);
                self.upperlimit_voltage = read_le_u32(payload, 115);
            },
            _ => {},
        }
        None
    }
}

} // verus!
