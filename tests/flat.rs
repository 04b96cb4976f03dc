use std::ops::RangeInclusive;
use usb_hid::flat::{parse, Field, Parser, StackFrame, Value};
use usb_hid::item::{Collection, MainFlags};

// usb/dev-hid.c
const QEMU_USB_TABLET: &[u8] = &[
    0x05, 0x01, 0x09, 0x02, 0xa1, 0x01, 0x09, 0x01, 0xa1, 0x00, 0x05, 0x09, 0x19, 0x01, 0x29,
    0x03, 0x15, 0x00, 0x25, 0x01, 0x95, 0x03, 0x75, 0x01, 0x81, 0x02, 0x95, 0x01, 0x75, 0x05,
    0x81, 0x01, 0x05, 0x01, 0x09, 0x30, 0x09, 0x31, 0x15, 0x00, 0x26, 0xff, 0x7f, 0x35, 0x00,
    0x46, 0xff, 0x7f, 0x75, 0x10, 0x95, 0x02, 0x81, 0x02, 0x05, 0x01, 0x09, 0x38, 0x15, 0x81,
    0x25, 0x7f, 0x35, 0x00, 0x45, 0x00, 0x75, 0x08, 0x95, 0x01, 0x81, 0x06, 0xc0, 0xc0,
];

fn assert_usage(it: &mut StackFrame, p: &mut Parser<'_>, pg: u16, i: RangeInclusive<u16>) {
    match it.next(p) {
        Some(Ok(Value::Usage { page, ids })) => assert_eq!((page, ids), (pg, i)),
        e => panic!("{:#?}", e),
    }
}

fn assert_field(it: &mut StackFrame, p: &mut Parser<'_>, f: Field) {
    match it.next(p) {
        Some(Ok(Value::Field(v))) => {
            assert_eq!(v.flags, f.flags);
            assert_eq!(v.logical_min, f.logical_min);
            assert_eq!(v.logical_max, f.logical_max);
            assert_eq!(v.physical_min, f.physical_min);
            assert_eq!(v.physical_max, f.physical_max);
            assert_eq!(v.report_count, f.report_count);
            assert_eq!(v.report_size, f.report_size);
        }
        e => panic!("{:#?}", e),
    }
}

#[test]
fn lib_qemu_usb_tablet() {
    let mut p = parse(QEMU_USB_TABLET);
    let mut it = p.iter();
    assert_usage(&mut it, &mut p, 0x1, 0x2..=0x2);

    assert!(matches!(
        it.next(&mut p),
        Some(Ok(Value::Collection(Collection::Application)))
    ));

    assert_usage(&mut it, &mut p, 0x1, 0x1..=0x1);
    assert!(matches!(
        it.next(&mut p),
        Some(Ok(Value::Collection(Collection::Physical)))
    ));

    assert_usage(&mut it, &mut p, 0x9, 1..=3);
    assert_field(
        &mut it,
        &mut p,
        Field {
            is_input: true,
            flags: MainFlags(0b010), // absolute, variable, data
            logical_min: 0,
            logical_max: 1,
            physical_min: 0,
            physical_max: 1,
            report_count: 3,
            report_size: 1,
        },
    );
    assert_field(
        &mut it,
        &mut p,
        Field {
            is_input: true,
            flags: MainFlags(0b1), // constant
            logical_min: 0,
            logical_max: 1,
            physical_min: 0,
            physical_max: 1,
            report_count: 1,
            report_size: 5,
        },
    );
    assert_usage(&mut it, &mut p, 0x1, 0x30..=0x30);
    assert_usage(&mut it, &mut p, 0x1, 0x31..=0x31);
    assert_field(
        &mut it,
        &mut p,
        Field {
            is_input: true,
            flags: MainFlags(0b010), // absolute, variable, data
            logical_min: 0,
            logical_max: 0x7fff,
            physical_min: 0,
            physical_max: 0x7fff,
            report_count: 2,
            report_size: 16,
        },
    );
    assert_usage(&mut it, &mut p, 0x1, 0x38..=0x38);
    assert_field(
        &mut it,
        &mut p,
        Field {
            is_input: true,
            flags: MainFlags(0b110), // relative, variable, data
            logical_min: -0x7f,
            logical_max: 0x7f,
            physical_min: -0x7f,
            physical_max: 0x7f,
            report_count: 1,
            report_size: 8,
        },
    );
    assert!(matches!(it.next(&mut p), Some(Ok(Value::EndCollection))));
    assert!(matches!(it.next(&mut p), Some(Ok(Value::EndCollection))));
    assert!(it.next(&mut p).is_none());
}

#[test]
fn push() {
    // Not a real descriptor, but the only one I could find with a Push item is excessively
    // long.
    const PUSH: &[u8] = &[
        0x05, 0x01, // UsagePage(1)
        0x15, 0x13, // LogicalMin(0x13)
        0x25, 0x37, // LogicalMax(0x37)
        0x95, 0x07, // ReportCount(7)
        0x75, 0x05, // ReportSize(5)
        0x09, 0x04, // Usage(4)
        0x80, // Input
        0xa4, // Push
        0x05, 0x03, // UsagePage(3)
        0x09, 0x02, // Usage(2)
        0x16, 0xde, 0x00, // LogicalMin(0xde)
        0x26, 0xad, 0x00, // LogicalMax(0xad)
        0x95, 0x09, // ReportCount(9)
        0x75, 0x02, // ReportSize(2)
        0x80, // Input
        0x09, 0x02, // Usage(2)
        0xb4, // Pop
        0x09, 0x02, // Usage(2)
        0x80, // Input
    ];
    let mut p = parse(PUSH);
    let mut it = p.iter();
    assert_usage(&mut it, &mut p, 1, 4..=4);
    assert_field(
        &mut it,
        &mut p,
        Field {
            is_input: true,
            flags: MainFlags(0),
            logical_min: 0x13,
            logical_max: 0x37,
            physical_min: 0x13,
            physical_max: 0x37,
            report_count: 7,
            report_size: 5,
        },
    );
    let mut it2 = match it.next(&mut p) {
        Some(Ok(Value::StackFrame(f))) => f,
        e => panic!("{:#?}", e),
    };
    assert_usage(&mut it2, &mut p, 3, 2..=2);
    assert_field(
        &mut it2,
        &mut p,
        Field {
            is_input: true,
            flags: MainFlags(0),
            logical_min: 0xde,
            logical_max: 0xad,
            physical_min: 0xde,
            physical_max: 0xad,
            report_count: 9,
            report_size: 2,
        },
    );
    assert_usage(&mut it2, &mut p, 3, 2..=2);
    assert!(it2.next(&mut p).is_none());
    assert_usage(&mut it, &mut p, 1, 2..=2);
    assert_field(
        &mut it,
        &mut p,
        Field {
            is_input: true,
            flags: MainFlags(0),
            logical_min: 0x13,
            logical_max: 0x37,
            physical_min: 0x13,
            physical_max: 0x37,
            report_count: 7,
            report_size: 5,
        },
    );
}
