use dps150::controller::DPS150;
use dps150::decoder::decode;
use dps150::state::{DeviceState, Report};

fn reply(field_id: u8, payload: &[u8]) -> Vec<u8> {
    let mut sum: u32 = field_id as u32 + payload.len() as u32;
    for b in payload {
        sum += *b as u32;
    }
    let mut frame = vec![0xF0, 0xA1, field_id, payload.len() as u8];
    frame.extend_from_slice(payload);
    frame.push((sum % 256) as u8);
    frame
}

fn floats(values: &[f32]) -> Vec<u8> {
    let mut bytes = Vec::new();
    for v in values {
        bytes.extend_from_slice(&v.to_le_bytes());
    }
    bytes
}

#[test]
fn new_controller_is_zeroed() {
    let controller = DPS150::new();
    let state = controller.state();
    assert_eq!(state, DeviceState::new());
    assert_eq!(state.set_voltage, 0);
    assert_eq!(state.set_current, 0);
    assert_eq!(state.input_voltage, 0);
    assert_eq!(state.output_voltage, 0);
    assert_eq!(state.output_current, 0);
    assert_eq!(state.output_power, 0);
    assert!(!state.output_closed);
    assert_eq!(state.upperlimit_voltage, 0);
    assert_eq!(state.upperlimit_current, 0);
    assert_eq!(state.temperature, 0);
    assert_eq!(f32::from_bits(state.input_voltage), 0.0);
    assert_eq!(controller.buffered(), 0);
    assert!(controller.reports().is_empty());
}

#[test]
fn input_voltage_frame_sets_one_volt() {
    let mut controller = DPS150::new();
    let updated = controller.parse(&[0xF0, 0xA1, 0xC0, 0x04, 0x00, 0x00, 0x80, 0x3F, 0x83]);
    assert!(updated);
    assert_eq!(controller.state().input_voltage, 0x3F80_0000);
    assert_eq!(f32::from_bits(controller.state().input_voltage), 1.0);
    assert_eq!(controller.buffered(), 0);
    assert!(controller.reports().is_empty());
    let expected = DeviceState { input_voltage: 0x3F80_0000, ..DeviceState::new() };
    assert_eq!(controller.state(), expected);
}

#[test]
fn one_garbage_byte_is_skipped() {
    let mut controller = DPS150::new();
    let updated = controller.parse(&[0xAA, 0xF0, 0xA1, 0xC0, 0x04, 0x00, 0x00, 0x80, 0x3F, 0x83]);
    assert!(updated);
    assert_eq!(f32::from_bits(controller.state().input_voltage), 1.0);
    assert_eq!(controller.buffered(), 0);
    assert!(controller.reports().is_empty());
    let mut state = DeviceState::new();
    let out = decode(&[0xAA, 0xF0, 0xA1, 0xC0, 0x04, 0x00, 0x00, 0x80, 0x3F, 0x83], &mut state);
    assert_eq!(out.consumed, 10);
    assert!(out.updated);
    assert_eq!(f32::from_bits(state.input_voltage), 1.0);
}

#[test]
fn output_enable_frame_sets_and_clears_output_closed() {
    let mut controller = DPS150::new();
    assert!(controller.parse(&reply(219, &[0x01])));
    assert!(controller.state().output_closed);
    assert!(controller.parse(&reply(219, &[0x00])));
    assert!(!controller.state().output_closed);
    assert!(controller.parse(&reply(219, &[0x01])));
    assert!(controller.state().output_closed);
    assert!(controller.parse(&reply(219, &[0x02])));
    assert!(!controller.state().output_closed);
    assert_eq!(reply(219, &[0x01]), vec![0xF0, 0xA1, 0xDB, 0x01, 0x01, 0xDD]);
}

#[test]
fn garbage_before_a_frame_is_discarded() {
    let frame = reply(196, &floats(&[36.5]));
    let garbage: Vec<u8> = vec![0x00, 0xA1, 0xF0, 0xF0, 0x12, 0xA1, 0xF0, 0xFF, 0xF0];
    let mut stream = garbage.clone();
    stream.extend_from_slice(&frame);
    let mut controller = DPS150::new();
    assert!(controller.parse(&stream));
    assert_eq!(f32::from_bits(controller.state().temperature), 36.5);
    assert_eq!(controller.buffered(), 0);
    assert!(controller.reports().is_empty());
    let mut state = DeviceState::new();
    let out = decode(&stream, &mut state);
    assert_eq!(out.consumed, stream.len());
    assert_eq!(state, DeviceState { temperature: 36.5f32.to_bits(), ..DeviceState::new() });
}

#[test]
fn frame_split_across_reads_decodes_as_one() {
    let frame = reply(195, &floats(&[5.0, 1.25, 6.25]));
    let mut whole = DPS150::new();
    assert!(whole.parse(&frame));
    let mut cut = 0;
    while cut <= frame.len() {
        let mut parts = DPS150::new();
        let first = parts.parse(&frame[..cut]);
        let second = parts.parse(&frame[cut..]);
        assert_eq!(first, cut == frame.len());
        assert_eq!(second, cut != frame.len());
        assert_eq!(parts.state(), whole.state());
        assert_eq!(parts.buffered(), 0);
        cut += 1;
    }
    assert_eq!(f32::from_bits(whole.state().output_voltage), 5.0);
    assert_eq!(f32::from_bits(whole.state().output_current), 1.25);
    assert_eq!(f32::from_bits(whole.state().output_power), 6.25);
}

#[test]
fn frame_fed_byte_by_byte_decodes_as_one() {
    let mut stream = vec![0x55, 0xF0];
    stream.extend_from_slice(&reply(192, &floats(&[19.75])));
    stream.extend_from_slice(&reply(219, &[1]));
    let mut whole = DPS150::new();
    whole.parse(&stream);
    let mut parts = DPS150::new();
    let mut updates = 0;
    for b in &stream {
        if parts.parse(&[*b]) {
            updates += 1;
        }
    }
    assert_eq!(updates, 2);
    assert_eq!(parts.state(), whole.state());
    assert_eq!(parts.buffered(), whole.buffered());
    assert_eq!(f32::from_bits(parts.state().input_voltage), 19.75);
    assert!(parts.state().output_closed);
}

#[test]
fn corrupted_frame_is_dropped_and_next_frame_taken() {
    let mut bad = reply(192, &floats(&[3.0]));
    let last = bad.len() - 1;
    bad[last] = bad[last].wrapping_add(1);
    let good = reply(196, &floats(&[40.0]));
    let mut stream = bad.clone();
    stream.extend_from_slice(&good);
    let mut controller = DPS150::new();
    assert!(controller.parse(&stream));
    assert_eq!(controller.state().input_voltage, 0);
    assert_eq!(f32::from_bits(controller.state().temperature), 40.0);
    assert_eq!(controller.buffered(), 0);
    let computed = bad[last].wrapping_sub(1);
    assert_eq!(
        controller.reports(),
        &vec![Report::ChecksumMismatch { computed, received: bad[last] }]
    );
}

#[test]
fn corrupted_frame_alone_gives_no_update() {
    let mut bad = reply(192, &floats(&[3.0]));
    bad[8] ^= 0x40;
    let mut controller = DPS150::new();
    assert!(!controller.parse(&bad));
    assert_eq!(controller.state(), DeviceState::new());
    assert_eq!(controller.reports().len(), 1);
    assert_eq!(controller.buffered(), 5);
}

#[test]
fn valid_frame_inside_corrupted_payload_is_found() {
    let inner = reply(219, &[1]);
    let mut outer = reply(192, &inner);
    let last = outer.len() - 1;
    outer[last] ^= 0xFF;
    outer.push(0x00);
    let mut controller = DPS150::new();
    assert!(controller.parse(&outer));
    assert!(controller.state().output_closed);
    assert_eq!(controller.state().input_voltage, 0);
}

#[test]
fn unknown_field_leaves_state_unchanged() {
    let mut controller = DPS150::new();
    controller.parse(&reply(192, &floats(&[12.0])));
    let before = controller.state();
    for field_id in [0u8, 1, 191, 193, 194, 197, 213, 214, 218, 220, 221, 225, 228, 254] {
        let updated = controller.parse(&reply(field_id, &[1, 2, 3, 4]));
        assert!(updated);
        assert_eq!(controller.state(), before);
        assert_eq!(controller.reports(), &vec![Report::UnknownField { field_id }]);
        assert_eq!(controller.buffered(), 0);
    }
}

#[test]
fn zero_length_frame_waits_for_a_sixth_byte() {
    let frame = reply(222, &[]);
    assert_eq!(frame.len(), 5);
    let mut controller = DPS150::new();
    assert!(!controller.parse(&frame));
    assert_eq!(controller.buffered(), 5);
    assert!(controller.parse(&[0x00]));
    assert_eq!(controller.reports(), &vec![Report::ModelName { text: vec![] }]);
    assert_eq!(controller.buffered(), 1);
}

#[test]
fn incomplete_frame_is_kept_until_the_rest_arrives() {
    let frame = reply(226, &floats(&[30.0]));
    let mut controller = DPS150::new();
    assert!(!controller.parse(&frame[..7]));
    assert_eq!(controller.buffered(), 7);
    assert_eq!(controller.state(), DeviceState::new());
    assert!(!controller.parse(&[]));
    assert_eq!(controller.buffered(), 7);
    assert!(controller.parse(&frame[7..]));
    assert_eq!(f32::from_bits(controller.state().upperlimit_voltage), 30.0);
    assert_eq!(controller.buffered(), 0);
}

#[test]
fn several_frames_in_one_read_are_all_taken() {
    let mut stream = reply(192, &floats(&[20.0]));
    stream.extend_from_slice(&reply(227, &floats(&[5.1])));
    stream.extend_from_slice(&reply(219, &[1]));
    stream.extend_from_slice(&[0xF0, 0xA1, 0xC4]);
    let mut controller = DPS150::new();
    assert!(controller.parse(&stream));
    let state = controller.state();
    assert_eq!(f32::from_bits(state.input_voltage), 20.0);
    assert_eq!(f32::from_bits(state.upperlimit_current), 5.1);
    assert!(state.output_closed);
    assert_eq!(controller.buffered(), 3);
}

#[test]
fn later_frame_for_a_field_wins() {
    let mut stream = reply(196, &floats(&[20.0]));
    stream.extend_from_slice(&reply(196, &floats(&[21.5])));
    let mut controller = DPS150::new();
    assert!(controller.parse(&stream));
    assert_eq!(f32::from_bits(controller.state().temperature), 21.5);
}

#[test]
fn pending_bytes_stay_below_a_frame_length() {
    let mut controller = DPS150::new();
    let mut round = 0;
    while round < 50 {
        let mut noise = vec![0xF0u8; 300];
        noise.extend_from_slice(&[0xF0, 0xA1, 0x00, 0xFF]);
        noise.extend_from_slice(&vec![0xF0u8; 100 + round]);
        controller.parse(&noise);
        assert!(controller.buffered() < 260);
        round += 1;
    }
}

#[test]
fn failed_read_is_no_update() {
    let mut controller = DPS150::new();
    controller.parse(&reply(200, &[1]));
    assert_eq!(controller.reports().len(), 1);
    controller.parse(&[0xF0, 0xA1, 0xC0]);
    let before = controller.state();
    assert!(!controller.poll(None));
    assert_eq!(controller.state(), before);
    assert_eq!(controller.buffered(), 3);
    assert!(controller.reports().is_empty());
}

#[test]
fn empty_read_is_no_update() {
    let mut controller = DPS150::new();
    controller.parse(&[0xF0, 0xA1, 0xC0, 0x04, 0x00]);
    let before = controller.state();
    assert!(!controller.poll(Some(&[])));
    assert_eq!(controller.state(), before);
    assert_eq!(controller.buffered(), 5);
    assert!(controller.reports().is_empty());
}

#[test]
fn poll_with_bytes_decodes_them() {
    let mut controller = DPS150::new();
    assert!(!controller.poll(Some(&[0xF0, 0xA1, 0xC0, 0x04, 0x00])));
    assert!(controller.poll(Some(&[0x00, 0x80, 0x3F, 0x83])));
    assert_eq!(f32::from_bits(controller.state().input_voltage), 1.0);
}
