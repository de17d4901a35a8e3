//! The identifiers of the fields that the device reports.

use vstd::prelude::*;

verus! {

/// Identifier of the input voltage reading.
pub const INPUT_VOLTAGE: u8 = 192;

/// Identifier of the write-only voltage setpoint.
pub const VOLTAGE_SET: u8 = 193;

/// Identifier of the write-only current setpoint.
pub const CURRENT_SET: u8 = 194;

/// Identifier of the combined output voltage, current and power reading.
pub const OUTPUT_READINGS: u8 = 195;

/// Identifier of the temperature reading.
pub const TEMPERATURE: u8 = 196;

/// Identifier of the display brightness, a one-byte setting.
pub const BRIGHTNESS: u8 = 214;

/// Identifier of the beeper volume, a one-byte setting.
pub const VOLUME: u8 = 215;

/// Identifier of the metering switch.
pub const METERING_ENABLE: u8 = 216;

/// Identifier of the output switch.
pub const OUTPUT_ENABLE: u8 = 219;

/// Identifier of the model name.
pub const MODEL_NAME: u8 = 222;

/// Identifier of the hardware version.
pub const HARDWARE_VERSION: u8 = 223;

/// Identifier of the firmware version.
pub const FIRMWARE_VERSION: u8 = 224;

/// Identifier of the upper voltage limit.
pub const UPPER_LIMIT_VOLTAGE: u8 = 226;

/// Identifier of the upper current limit.
pub const UPPER_LIMIT_CURRENT: u8 = 227;

/// Identifier of the full snapshot.
pub const ALL: u8 = 255;

/// Payload bytes that a full snapshot must hold to be taken.
pub const SNAPSHOT_LEN: usize = 119;

/// The fields that a reply is decoded for.
#[derive(Clone, Copy, Debug, PartialEq, Eq, Structural)]
pub enum Field {
    InputVoltage,
    OutputReadings,
    Temperature,
    OutputEnable,
    ModelName,
    HardwareVersion,
    FirmwareVersion,
    UpperLimitVoltage,
    UpperLimitCurrent,
    All,
}

/// The field that identifier `id` names, if replies for it are decoded.
pub open spec fn field_of(id: u8) -> Option<Field> {
    if id == INPUT_VOLTAGE {
        Some(Field::InputVoltage)
    } else if id == OUTPUT_READINGS {
        Some(Field::OutputReadings)
    } else if id == TEMPERATURE {
        Some(Field::Temperature)
    } else if id == OUTPUT_ENABLE {
        Some(Field::OutputEnable)
    } else if id == MODEL_NAME {
        Some(Field::ModelName)
    } else if id == HARDWARE_VERSION {
        Some(Field::HardwareVersion)
    } else if id == FIRMWARE_VERSION {
        Some(Field::FirmwareVersion)
    } else if id == UPPER_LIMIT_VOLTAGE {
        Some(Field::UpperLimitVoltage)
    } else if id == UPPER_LIMIT_CURRENT {
        Some(Field::UpperLimitCurrent)
    } else if id == ALL {
        Some(Field::All)
    } else {
        None
    }
}

impl Field {
    /// The identifier that stands for this field on the wire.
    pub open spec fn spec_id(self) -> u8 {
        match self {
            Field::InputVoltage => INPUT_VOLTAGE,
            Field::OutputReadings => OUTPUT_READINGS,
            Field::Temperature => TEMPERATURE,
            Field::OutputEnable => OUTPUT_ENABLE,
            Field::ModelName => MODEL_NAME,
            Field::HardwareVersion => HARDWARE_VERSION,
            Field::FirmwareVersion => FIRMWARE_VERSION,
            Field::UpperLimitVoltage => UPPER_LIMIT_VOLTAGE,
            Field::UpperLimitCurrent => UPPER_LIMIT_CURRENT,
            Field::All => ALL,
        }
    }

    /// Whether the field's payload is text rather than numbers.
    pub open spec fn is_text(self) -> bool {
        self is ModelName || self is HardwareVersion || self is FirmwareVersion
    }

    /// The fewest payload bytes from which the field can be decoded.
    pub open spec fn spec_min_payload(self) -> usize {
        match self {
            Field::InputVoltage => 4,
            Field::OutputReadings => 12,
            Field::Temperature => 4,
            Field::OutputEnable => 1,
            Field::ModelName => 0,
            Field::HardwareVersion => 0,
            Field::FirmwareVersion => 0,
            Field::UpperLimitVoltage => 4,
            Field::UpperLimitCurrent => 4,
            Field::All => SNAPSHOT_LEN,
        }
    }

    /// Looks an identifier up; `None` for one that replies are not decoded for.
    pub fn from_id(id: u8) -> (field: Option<Field>)
        ensures
            field == field_of(id),
    {
        match id {
            192 => Some(Field::InputVoltage),
            195 => Some(Field::OutputReadings),
            196 => Some(Field::Temperature),
            219 => Some(Field::OutputEnable),
            222 => Some(Field::ModelName),
            223 => Some(Field::HardwareVersion),
            224 => Some(Field::FirmwareVersion),
            226 => Some(Field::UpperLimitVoltage),
            227 => Some(Field::UpperLimitCurrent),
            255 => Some(Field::All),
            _ => None,
        }
    }

    /// The identifier that stands for this field on the wire.
    #[verifier::when_used_as_spec(spec_id)]
    pub fn id(self) -> (id: u8)
        ensures
            id == self.spec_id(),
    {
        match self {
            Field::InputVoltage => INPUT_VOLTAGE,
            Field::OutputReadings => OUTPUT_READINGS,
            Field::Temperature => TEMPERATURE,
            Field::OutputEnable => OUTPUT_ENABLE,
            Field::ModelName => MODEL_NAME,
            Field::HardwareVersion => HARDWARE_VERSION,
            Field::FirmwareVersion => FIRMWARE_VERSION,
            Field::UpperLimitVoltage => UPPER_LIMIT_VOLTAGE,
            Field::UpperLimitCurrent => UPPER_LIMIT_CURRENT,
            Field::All => ALL,
        }
    }

    /// The fewest payload bytes from which the field can be decoded.
    #[verifier::when_used_as_spec(spec_min_payload)]
    pub fn min_payload(self) -> (len: usize)
        ensures
            len == self.spec_min_payload(),
    {
        match self {
            Field::InputVoltage | Field::Temperature => 4,
            Field::UpperLimitVoltage | Field::UpperLimitCurrent => 4,
            Field::OutputReadings => 12,
            Field::OutputEnable => 1,
            Field::ModelName | Field::HardwareVersion | Field::FirmwareVersion => 0,
            Field::All => SNAPSHOT_LEN,
        }
    }
}

/// Every field is found again from its identifier, and every identifier that
/// names a field is that field's identifier.
pub proof fn lemma_field_id_round_trip(field: Field, id: u8)
    ensures
        field_of(field.spec_id()) == Some(field),
        field_of(id) matches Some(f) ==> f.spec_id() == id,
{
}

} // verus!
