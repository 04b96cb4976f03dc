use std::ops::RangeInclusive;
use usb_hid::item::{self, MainFlags};
use usb_hid::tree::{parse, Collection, Field, Parser, Tree, Value};

// usb/dev-hid.c
const QEMU_USB_TABLET: &[u8] = &[
    0x05, 0x01, 0x09, 0x02, 0xa1, 0x01, 0x09, 0x01, 0xa1, 0x00, 0x05, 0x09, 0x19, 0x01, 0x29,
    0x03, 0x15, 0x00, 0x25, 0x01, 0x95, 0x03, 0x75, 0x01, 0x81, 0x02, 0x95, 0x01, 0x75, 0x05,
    0x81, 0x01, 0x05, 0x01, 0x09, 0x30, 0x09, 0x31, 0x15, 0x00, 0x26, 0xff, 0x7f, 0x35, 0x00,
    0x46, 0xff, 0x7f, 0x75, 0x10, 0x95, 0x02, 0x81, 0x02, 0x05, 0x01, 0x09, 0x38, 0x15, 0x81,
    0x25, 0x7f, 0x35, 0x00, 0x45, 0x00, 0x75, 0x08, 0x95, 0x01, 0x81, 0x06, 0xc0, 0xc0,
];

fn assert_usage(it: &mut Tree, p: &mut Parser<'_>, pg: u16, i: RangeInclusive<u16>) {
    match it.next(p) {
        Some(Ok(Value::Usage { page, ids })) => assert_eq!((page, ids), (pg, i)),
        e => panic!("{:#?}", e),
    }
}

fn assert_field(it: &mut Tree, p: &mut Parser<'_>, f: Field) {
    match it.next(p) {
        Some(Ok(Value::Field(v))) => {
            assert_eq!(v.flags, f.flags);
            assert_eq!(v.logical_min, f.logical_min);
            assert_eq!(v.logical_max, f.logical_max);
            assert_eq!(v.physical_min, f.physical_min);
            assert_eq!(v.physical_max, f.physical_max);
            assert_eq!(v.report_count, f.report_count);
            assert_eq!(v.report_size, f.report_size);
        }
        e => panic!("{:#?}", e),
    }
}

fn collection(it: &mut Tree, p: &mut Parser<'_>) -> Collection {
    match it.next(p) {
        Some(Ok(Value::Collection(c))) => c,
        e => panic!("{:#?}", e),
    }
}

#[test]
fn tree_qemu_usb_tablet() {
    let mut p = parse(QEMU_USB_TABLET);
    let mut it = p.iter();
    assert_usage(&mut it, &mut p, 0x1, 0x2..=0x2);

    let mut it2 = collection(&mut it, &mut p);
    assert_eq!(it2.ty, item::Collection::Application);

    assert_usage(&mut it2.inner, &mut p, 0x1, 0x1..=0x1);
    let mut it3 = collection(&mut it2.inner, &mut p);
    assert_eq!(it3.ty, item::Collection::Physical);

    assert_usage(&mut it3.inner, &mut p, 0x9, 1..=3);
    assert_field(
        &mut it3.inner,
        &mut p,
        Field {
            is_input: true,
            flags: MainFlags(0b010), // absolute, variable, data
            logical_min: 0,
            logical_max: 1,
            physical_min: 0,
            physical_max: 1,
            report_count: 3,
            report_size: 1,
        },
    );
    assert_field(
        &mut it3.inner,
        &mut p,
        Field {
            is_input: true,
            flags: MainFlags(0b1), // constant
            logical_min: 0,
            logical_max: 1,
            physical_min: 0,
            physical_max: 1,
            report_count: 1,
            report_size: 5,
        },
    );
    assert_usage(&mut it3.inner, &mut p, 0x1, 0x30..=0x30);
    assert_usage(&mut it3.inner, &mut p, 0x1, 0x31..=0x31);
    assert_field(
        &mut it3.inner,
        &mut p,
        Field {
            is_input: true,
            flags: MainFlags(0b010), // absolute, variable, data
            logical_min: 0,
            logical_max: 0x7fff,
            physical_min: 0,
            physical_max: 0x7fff,
            report_count: 2,
            report_size: 16,
        },
    );
    assert_usage(&mut it3.inner, &mut p, 0x1, 0x38..=0x38);
    assert_field(
        &mut it3.inner,
        &mut p,
        Field {
            is_input: true,
            flags: MainFlags(0b110), // relative, variable, data
            logical_min: -0x7f,
            logical_max: 0x7f,
            physical_min: -0x7f,
            physical_max: 0x7f,
            report_count: 1,
            report_size: 8,
        },
    );
    assert!(it3.next(&mut p).is_none());
    assert!(it2.next(&mut p).is_none());
    assert!(it.next(&mut p).is_none());
}
