use vevor_lcd::frame::{build_frame, localtime_hm, BASELINE, FRAME_LEN, REPORT_LEN};

#[test]
fn frame_exact_bytes() {
    let frame = build_frame(54, 53, 10, 37);
    let mut expected = vec![0u8];
    expected.extend_from_slice(&[
        0x00, 0x01, 0x02, 0x36, 0x00, 0x00, 0x05, 0x42, 0x28, 0x36, 0x24, 0x01, 0x64, 0x35, 0x00,
        0x00, 0x1b, 0x21, 0x28, 0x19, 0x14, 0x21, 0x3a, 0x21, 0x3a, 0x14, 0x1a, 0x04, 0x12, 0x0a,
        0x25, 0x31, 0x06, 0x1b, 0x00, 0x00, 0x00, 0x00, 0x00, 0x00, 0x00, 0x00, 0x00, 0x00, 0x00,
        0x00, 0x00, 0x00, 0x00, 0x00, 0x00, 0x00, 0x00, 0x00, 0x00, 0x00, 0x00, 0x00, 0x00, 0x00,
        0x00, 0x00, 0x00, 0x00,
    ]);
    assert_eq!(frame.to_vec(), expected);
}

#[test]
fn frame_shows_the_four_values() {
    let frame = build_frame(0xa1, 0xb2, 0xc3, 0xd4);
    assert_eq!(frame.len(), 65);
    assert_eq!(FRAME_LEN, 65);
    assert_eq!(frame[1 + 3], 0xa1);
    assert_eq!(frame[1 + 13], 0xb2);
    assert_eq!(frame[1 + 29], 0xc3);
    assert_eq!(frame[1 + 30], 0xd4);
}

#[test]
fn frame_keeps_all_other_bytes() {
    let frame = build_frame(255, 255, 255, 255);
    assert_eq!(frame[0], 0);
    for i in 0..REPORT_LEN {
        if i != 3 && i != 13 && i != 29 && i != 30 {
            assert_eq!(frame[1 + i], BASELINE[i]);
        }
    }
}

#[test]
fn frame_header_and_flags() {
    let frame = build_frame(1, 2, 3, 4);
    assert_eq!(frame[0..4], [0x00, 0x00, 0x01, 0x02]);
    assert_eq!(frame[1 + 5], 0);
    assert_eq!(frame[1 + 15], 0);
    assert_eq!(frame[1 + 63], 0);
}

#[test]
fn clock_in_range_is_exact() {
    assert_eq!(localtime_hm(Some((0, 0))), (0, 0));
    assert_eq!(localtime_hm(Some((23, 59))), (23, 59));
}

#[test]
fn clock_out_of_range_is_clamped() {
    assert_eq!(localtime_hm(Some((-1, 300))), (0, 255));
}

#[test]
fn clock_unknown_is_midnight() {
    assert_eq!(localtime_hm(None), (0, 0));
}
