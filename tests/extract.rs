use usb_hid::flat::Field;
use usb_hid::item::MainFlags;

fn field(report_size: u32) -> Field {
    Field {
        is_input: true,
        flags: MainFlags(0b010),
        logical_min: 0,
        logical_max: 1,
        physical_min: 0,
        physical_max: 1,
        report_count: 1,
        report_size,
    }
}

#[test]
fn five_bits_from_bit_three() {
    // 0b1011_0100: bits 7..3 are 10110.
    let f = field(5);
    assert_eq!(f.extract_u32(&[0xb4], 3), Some(0b10110));
    assert_eq!(f.extract_i32(&[0xb4], 3), Some(-10));
}

#[test]
fn fields_across_bytes() {
    let report = [0x34, 0x12, 0xab];
    assert_eq!(field(12).extract_u32(&report, 4), Some(0x123));
    assert_eq!(field(8).extract_u32(&report, 12), Some(0xb1));
    assert_eq!(field(8).extract_i32(&report, 12), Some(-0x4f));
    assert_eq!(field(16).extract_u32(&report, 0), Some(0x1234));
    assert_eq!(field(1).extract_u32(&report, 2), Some(1));
    assert_eq!(field(1).extract_i32(&report, 2), Some(-1));
}

#[test]
fn widest_fields() {
    let report = [0xf0, 0xff, 0xff, 0xff, 0x0f];
    assert_eq!(field(32).extract_u32(&report, 4), Some(0xffff_ffff));
    assert_eq!(field(32).extract_i32(&report, 4), Some(-1));
    assert_eq!(field(32).extract_u32(&[0x78, 0x56, 0x34, 0x12], 0), Some(0x1234_5678));
    assert_eq!(field(32).extract_i32(&[0x78, 0x56, 0x34, 0x12], 0), Some(0x1234_5678));
}

#[test]
fn fields_that_do_not_fit() {
    assert_eq!(field(33).extract_u32(&[0; 8], 0), None);
    assert_eq!(field(33).extract_i32(&[0; 8], 0), None);
    assert_eq!(field(5).extract_u32(&[0xb4], 4), None);
    assert_eq!(field(8).extract_u32(&[0xb4], 8), None);
    assert_eq!(field(8).extract_i32(&[0xb4], u32::MAX), None);
    assert_eq!(field(32).extract_u32(&[0xff; 4], u32::MAX - 3), None);
}

#[test]
fn empty_fields() {
    assert_eq!(field(0).extract_u32(&[], 0), Some(0));
    assert_eq!(field(0).extract_i32(&[0xff], 3), Some(0));
    assert_eq!(field(0).extract_u32(&[], 3), None);
}
