use dps150::codec::{all_ascii, checksum_of, read_le_u32};
use dps150::controller::DPS150;
use dps150::field::Field;
use dps150::frame::{classify, encode, Step};

#[test]
fn enable_output_is_f1_b1_db_01_01_dd() {
    let controller = DPS150::new();
    assert_eq!(controller.enable(), [0xF1, 0xB1, 0xDB, 0x01, 0x01, 0xDD]);
    assert_eq!(encode(0xF1, 0xB1, 219, 1), [0xF1, 0xB1, 0xDB, 0x01, 0x01, 0xDD]);
}

#[test]
fn disable_output_is_f1_b1_db_01_00_dc() {
    let controller = DPS150::new();
    assert_eq!(controller.disable(), [0xF1, 0xB1, 0xDB, 0x01, 0x00, 0xDC]);
}

#[test]
fn get_all_is_f1_a1_ff_01_00_00() {
    let controller = DPS150::new();
    assert_eq!(controller.get_all(), [0xF1, 0xA1, 0xFF, 0x01, 0x00, 0x00]);
}

#[test]
fn set_byte_value_frames_the_value() {
    let controller = DPS150::new();
    assert_eq!(controller.set_byte_value(214, 10), [0xF1, 0xB1, 214, 1, 10, 225]);
    assert_eq!(controller.set_byte_value(215, 255), [0xF1, 0xB1, 215, 1, 255, 215]);
}

#[test]
fn init_command_is_the_fixed_sequence() {
    let controller = DPS150::new();
    let frames = controller.init_command();
    assert_eq!(
        frames,
        vec![
            [0xF1, 0xC1, 0x00, 0x01, 0x01, 0x02],
            [0xF1, 0xC0, 0x00, 0x01, 0x05, 0x06],
            [0xF1, 0xA1, 0xDE, 0x01, 0x00, 0xDF],
            [0xF1, 0xA1, 0xDF, 0x01, 0x00, 0xE0],
            [0xF1, 0xA1, 0xE0, 0x01, 0x00, 0xE1],
            [0xF1, 0xA1, 0xFF, 0x01, 0x00, 0x00],
        ]
    );
}

#[test]
fn encode_checksum_is_sum_of_field_length_value_mod_256() {
    let mut field: u16 = 0;
    while field < 256 {
        let mut value: u16 = 0;
        while value < 256 {
            let frame = encode(0xF1, 0xB1, field as u8, value as u8);
            assert_eq!(frame[3], 1);
            assert_eq!(frame[5] as u16, (field + 1 + value) % 256);
            value += 17;
        }
        field += 1;
    }
}

#[test]
fn encoded_frame_is_recognised_again() {
    for &(direction, command) in [(0xF1u8, 0xB1u8), (0xF1, 0xA1), (0xF0, 0xA1), (0x12, 0x34)].iter() {
        let mut field: u16 = 0;
        while field < 256 {
            let frame = encode(direction, command, field as u8, (field * 7 % 256) as u8);
            assert_eq!(
                classify(&frame, 0, direction, command),
                Step::Frame { field_id: field as u8, length: 1 }
            );
            field += 5;
        }
    }
}

#[test]
fn encoded_frame_with_other_header_is_no_frame() {
    let frame = encode(0xF1, 0xB1, 219, 1);
    assert_eq!(classify(&frame, 0, 0xF0, 0xB1), Step::Skip);
    assert_eq!(classify(&frame, 0, 0xF1, 0xA1), Step::Skip);
}

#[test]
fn classify_stops_on_fewer_than_six_bytes() {
    assert_eq!(classify(&[0xF0, 0xA1, 0xC0, 0x00, 0xC0], 0, 0xF0, 0xA1), Step::Stop);
    assert_eq!(classify(&[], 0, 0xF0, 0xA1), Step::Stop);
    assert_eq!(classify(&[0xF0, 0xA1, 0xC0, 0x00, 0xC0, 0x00], 1, 0xF0, 0xA1), Step::Stop);
}

#[test]
fn classify_stops_on_incomplete_frame() {
    let bytes = [0xF0, 0xA1, 0xC0, 0x04, 0x00, 0x00, 0x80, 0x3F];
    assert_eq!(classify(&bytes, 0, 0xF0, 0xA1), Step::Stop);
}

#[test]
fn classify_reports_both_checksums_on_mismatch() {
    let bytes = [0xF0, 0xA1, 0xC0, 0x04, 0x00, 0x00, 0x80, 0x3F, 0x84];
    assert_eq!(
        classify(&bytes, 0, 0xF0, 0xA1),
        Step::Mismatch { computed: 0x83, received: 0x84 }
    );
}

#[test]
fn classify_takes_zero_length_frame_once_a_sixth_byte_stands() {
    let bytes = [0xF0, 0xA1, 0xDE, 0x00, 0xDE, 0x55];
    assert_eq!(classify(&bytes, 0, 0xF0, 0xA1), Step::Frame { field_id: 0xDE, length: 0 });
}

#[test]
fn checksum_wraps_at_256() {
    assert_eq!(checksum_of(&[]), 0);
    assert_eq!(checksum_of(&[0xC0, 0x04, 0x00, 0x00, 0x80, 0x3F]), 0x83);
    assert_eq!(checksum_of(&[0xFF, 0xFF, 0x02]), 0x00);
    assert_eq!(checksum_of(&[0xDB, 0x01, 0x01]), 0xDD);
}

#[test]
fn le_u32_reads_little_endian() {
    assert_eq!(read_le_u32(&[0x00, 0x00, 0x80, 0x3F], 0), 0x3F80_0000);
    assert_eq!(read_le_u32(&[0xAA, 0x01, 0x02, 0x03, 0x04], 1), 0x0403_0201);
    assert_eq!(read_le_u32(&[0xFF, 0xFF, 0xFF, 0xFF], 0), 0xFFFF_FFFF);
    assert_eq!(f32::from_bits(read_le_u32(&[0x00, 0x00, 0x80, 0x3F], 0)), 1.0);
    assert_eq!(f32::from_bits(read_le_u32(&12.5f32.to_le_bytes(), 0)), 12.5);
}

#[test]
fn ascii_check_rejects_high_bytes() {
    assert!(all_ascii(b"DPS-150"));
    assert!(all_ascii(&[]));
    assert!(all_ascii(&[0x00, 0x7F]));
    assert!(!all_ascii(&[0x41, 0x80]));
    assert!(!all_ascii(&[0xFF]));
}

#[test]
fn field_identifiers_round_trip() {
    let known: [(u8, Field, usize); 10] = [
        (192, Field::InputVoltage, 4),
        (195, Field::OutputReadings, 12),
        (196, Field::Temperature, 4),
        (219, Field::OutputEnable, 1),
        (222, Field::ModelName, 0),
        (223, Field::HardwareVersion, 0),
        (224, Field::FirmwareVersion, 0),
        (226, Field::UpperLimitVoltage, 4),
        (227, Field::UpperLimitCurrent, 4),
        (255, Field::All, 119),
    ];
    let mut id: u16 = 0;
    while id < 256 {
        let found = Field::from_id(id as u8);
        match known.iter().find(|k| k.0 as u16 == id) {
            Some(&(_, field, min)) => {
                assert_eq!(found, Some(field));
                assert_eq!(field.id() as u16, id);
                assert_eq!(field.min_payload(), min);
            }
            None => assert_eq!(found, None),
        }
        id += 1;
    }
}
