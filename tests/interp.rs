use usb_hid::flat::{self, Field, ParseError, Value};
use usb_hid::item::{Collection, Item, MainFlags};
use usb_hid::tree;

fn usage(r: Option<Result<Value, ParseError<'_>>>) -> (u16, u16, u16) {
    match r {
        Some(Ok(Value::Usage { page, ids })) => (page, *ids.start(), *ids.end()),
        e => panic!("{:?}", e),
    }
}

fn field(r: Option<Result<Value, ParseError<'_>>>) -> Field {
    match r {
        Some(Ok(Value::Field(f))) => f,
        e => panic!("{:?}", e),
    }
}

#[test]
fn physical_range_defaults_to_logical() {
    // LogicalMin(-5), LogicalMax(5), PhysicalMin(0), PhysicalMax(0), Output(2),
    // PhysicalMax(10), Input, PhysicalMin(-3), PhysicalMax(0), Input
    let data = [0x15, 0xfb, 0x25, 0x05, 0x35, 0x00, 0x45, 0x00, 0x91, 0x02, 0x45, 0x0a, 0x80, 0x35, 0xfd, 0x45, 0x00, 0x80];
    let mut p = flat::parse(&data);
    let mut it = p.iter();
    let f = field(it.next(&mut p));
    assert!(!f.is_input);
    assert_eq!(f.flags, MainFlags(2));
    assert_eq!((f.physical_min, f.physical_max), (-5, 5));
    let f = field(it.next(&mut p));
    assert!(f.is_input);
    assert_eq!((f.physical_min, f.physical_max), (0, 10));
    let f = field(it.next(&mut p));
    assert_eq!((f.physical_min, f.physical_max), (-3, 0));
    assert!(it.next(&mut p).is_none());
}

#[test]
fn usage_bounds_pair_up() {
    // UsageMin(1), Usage(5), UsagePage(9), LogicalMax(1), UsageMax(3), Input
    let data = [0x19, 0x01, 0x09, 0x05, 0x05, 0x09, 0x25, 0x01, 0x29, 0x03, 0x80];
    let mut p = flat::parse(&data);
    let mut it = p.iter();
    assert_eq!(usage(it.next(&mut p)), (0, 5, 5));
    assert_eq!(usage(it.next(&mut p)), (9, 1, 3));
    field(it.next(&mut p));
    assert!(it.next(&mut p).is_none());
}

#[test]
fn usage_max_before_usage_min() {
    // UsageMax(0x20), UsageMin(0x10)
    let data = [0x29, 0x20, 0x19, 0x10];
    let mut p = flat::parse(&data);
    let mut it = p.iter();
    assert_eq!(usage(it.next(&mut p)), (0, 0x10, 0x20));
    assert!(it.next(&mut p).is_none());
}

#[test]
fn lone_usage_bound_is_dropped_at_main_item() {
    // UsageMin(1), Input, UsageMax(3), Input
    let data = [0x19, 0x01, 0x80, 0x29, 0x03, 0x80];
    let mut p = flat::parse(&data);
    let mut it = p.iter();
    field(it.next(&mut p));
    field(it.next(&mut p));
    assert!(it.next(&mut p).is_none());
}

#[test]
fn collections_balance_in_flat_model() {
    // Collection(Application), Collection(Logical), Input, EndCollection, Collection(Report),
    // EndCollection, EndCollection
    let data = [0xa1, 0x01, 0xa1, 0x02, 0x80, 0xc0, 0xa1, 0x03, 0xc0, 0xc0];
    let mut p = flat::parse(&data);
    let mut it = p.iter();
    let (mut starts, mut ends) = (0, 0);
    while let Some(v) = it.next(&mut p) {
        match v.unwrap() {
            Value::Collection(_) => starts += 1,
            Value::EndCollection => ends += 1,
            _ => {}
        }
    }
    assert_eq!((starts, ends), (3, 3));
}

#[test]
fn drained_collection_stays_empty() {
    // Collection(Application), Usage(1), EndCollection, Usage(2)
    let data = [0xa1, 0x01, 0x09, 0x01, 0xc0, 0x09, 0x02];
    let mut p = tree::parse(&data);
    let mut it = p.iter();
    let mut c = match it.next(&mut p) {
        Some(Ok(tree::Value::Collection(c))) => c,
        e => panic!("{:?}", e),
    };
    assert_eq!(c.ty, Collection::Application);
    assert!(matches!(c.next(&mut p), Some(Ok(tree::Value::Usage { page: 0, .. }))));
    assert!(c.next(&mut p).is_none());
    assert!(c.next(&mut p).is_none());
    match it.next(&mut p) {
        Some(Ok(tree::Value::Usage { ids, .. })) => assert_eq!(ids, 2..=2),
        e => panic!("{:?}", e),
    }
    assert!(c.next(&mut p).is_none());
}

#[test]
fn abandoned_collection_is_skipped() {
    // Collection(Physical), Collection(Logical), Usage(1), EndCollection, Usage(2),
    // EndCollection, Usage(3)
    let data = [0xa1, 0x00, 0xa1, 0x02, 0x09, 0x01, 0xc0, 0x09, 0x02, 0xc0, 0x09, 0x03];
    let mut p = tree::parse(&data);
    let mut it = p.iter();
    let c = match it.next(&mut p) {
        Some(Ok(tree::Value::Collection(c))) => c,
        e => panic!("{:?}", e),
    };
    assert_eq!(c.ty, Collection::Physical);
    match it.next(&mut p) {
        Some(Ok(tree::Value::Usage { ids, .. })) => assert_eq!(ids, 3..=3),
        e => panic!("{:?}", e),
    }
    assert!(it.next(&mut p).is_none());
}

#[test]
fn tree_rejects_push() {
    let data = [0xa4, 0x09, 0x01];
    let mut p = tree::parse(&data);
    let mut it = p.iter();
    assert!(matches!(it.next(&mut p), Some(Err(ParseError::UnexpectedItem(Item::Push)))));
    assert!(matches!(it.next(&mut p), Some(Ok(tree::Value::Usage { page: 0, .. }))));
}

#[test]
fn push_pop_keeps_parent_page() {
    // UsagePage(1), Push, UsagePage(3), Pop, Usage(7)
    let data = [0x05, 0x01, 0xa4, 0x05, 0x03, 0xb4, 0x09, 0x07];
    // The new frame read to its end.
    let mut p = flat::parse(&data);
    let mut it = p.iter();
    let mut child = match it.next(&mut p) {
        Some(Ok(Value::StackFrame(f))) => f,
        e => panic!("{:?}", e),
    };
    assert!(child.next(&mut p).is_none());
    assert_eq!(usage(it.next(&mut p)), (1, 7, 7));
    // The new frame left alone.
    let mut p = flat::parse(&data);
    let mut it = p.iter();
    assert!(matches!(it.next(&mut p), Some(Ok(Value::StackFrame(_)))));
    assert_eq!(usage(it.next(&mut p)), (1, 7, 7));
    assert!(it.next(&mut p).is_none());
}

#[test]
fn abandoned_frame_inside_frame() {
    // Push, Push, Usage(1), Pop, Usage(2), Pop, Usage(3)
    let data = [0xa4, 0xa4, 0x09, 0x01, 0xb4, 0x09, 0x02, 0xb4, 0x09, 0x03];
    let mut p = flat::parse(&data);
    let mut it = p.iter();
    let mut a = match it.next(&mut p) {
        Some(Ok(Value::StackFrame(f))) => f,
        e => panic!("{:?}", e),
    };
    assert!(matches!(a.next(&mut p), Some(Ok(Value::StackFrame(_)))));
    assert_eq!(usage(a.next(&mut p)), (0, 2, 2));
    assert!(a.next(&mut p).is_none());
    assert_eq!(usage(it.next(&mut p)), (0, 3, 3));
    assert!(a.next(&mut p).is_none());
}

#[test]
fn pop_ends_the_top_frame() {
    let data = [0x09, 0x01, 0xb4, 0x09, 0x02];
    let mut p = flat::parse(&data);
    let mut it = p.iter();
    assert_eq!(usage(it.next(&mut p)), (0, 1, 1));
    assert!(it.next(&mut p).is_none());
    assert!(it.next(&mut p).is_none());
    let mut it = p.iter();
    assert_eq!(usage(it.next(&mut p)), (0, 2, 2));
}

#[test]
fn flat_errors() {
    // Feature is not handled; ReportId, Unit and UnitExponent are skipped.
    let data = [0x85, 0x01, 0x65, 0x11, 0x55, 0x0e, 0xb0, 0x09, 0x02, 0x06, 0x01];
    let mut p = flat::parse(&data);
    let mut it = p.iter();
    match it.next(&mut p) {
        Some(Err(ParseError::UnexpectedItem(item))) => assert_eq!(item, Item::Feature(MainFlags(0))),
        e => panic!("{:?}", e),
    }
    assert_eq!(usage(it.next(&mut p)), (0, 2, 2));
    assert!(matches!(it.next(&mut p), Some(Err(ParseError::Truncated))));
    let data = [0xc1, 0x00];
    let mut p = flat::parse(&data);
    let mut it = p.iter();
    assert!(matches!(it.next(&mut p), Some(Err(ParseError::UnexpectedData))));
}

#[test]
fn decode_errors_convert() {
    assert_eq!(ParseError::from_item(usb_hid::item::ParseError::Truncated), ParseError::Truncated);
    assert_eq!(
        ParseError::from_item(usb_hid::item::ParseError::UnexpectedData),
        ParseError::UnexpectedData
    );
}

#[test]
fn abandoned_frame_skips_rejected_items() {
    // Push, Feature, Usage(5), Pop, Usage(7)
    let data = [0xa4, 0xb0, 0x09, 0x05, 0xb4, 0x09, 0x07];
    let mut p = flat::parse(&data);
    let mut it = p.iter();
    assert!(matches!(it.next(&mut p), Some(Ok(Value::StackFrame(_)))));
    assert_eq!(usage(it.next(&mut p)), (0, 7, 7));
    assert!(it.next(&mut p).is_none());
}

#[test]
fn abandoned_frame_skips_bad_data() {
    // Push, EndCollection with a payload, Pop, Usage(7)
    let data = [0xa4, 0xc1, 0x00, 0xb4, 0x09, 0x07];
    let mut p = flat::parse(&data);
    let mut it = p.iter();
    assert!(matches!(it.next(&mut p), Some(Ok(Value::StackFrame(_)))));
    assert_eq!(usage(it.next(&mut p)), (0, 7, 7));
}

#[test]
fn abandoned_collection_skips_rejected_items() {
    // Collection(Physical), Feature, Usage(5), EndCollection, Usage(7)
    let data = [0xa1, 0x00, 0xb0, 0x09, 0x05, 0xc0, 0x09, 0x07];
    let mut p = tree::parse(&data);
    let mut it = p.iter();
    assert!(matches!(it.next(&mut p), Some(Ok(tree::Value::Collection(_)))));
    match it.next(&mut p) {
        Some(Ok(tree::Value::Usage { page, ids })) => assert_eq!((page, ids), (0, 7..=7)),
        e => panic!("{:?}", e),
    }
    assert!(it.next(&mut p).is_none());
}

#[test]
fn abandoned_collection_keeps_global_state() {
    // Collection(Physical), UsagePage(9), EndCollection, Usage(1)
    let data = [0xa1, 0x00, 0x05, 0x09, 0xc0, 0x09, 0x01];
    let mut p = tree::parse(&data);
    let mut it = p.iter();
    assert!(matches!(it.next(&mut p), Some(Ok(tree::Value::Collection(_)))));
    match it.next(&mut p) {
        Some(Ok(tree::Value::Usage { page, ids })) => assert_eq!((page, ids), (9, 1..=1)),
        e => panic!("{:?}", e),
    }
}

#[test]
fn truncated_item_ends_the_skip() {
    // Push, Usage(1), then a truncated UsagePage
    let data = [0xa4, 0x09, 0x01, 0x06, 0x01];
    let mut p = flat::parse(&data);
    let mut it = p.iter();
    assert!(matches!(it.next(&mut p), Some(Ok(Value::StackFrame(_)))));
    assert!(matches!(it.next(&mut p), Some(Err(ParseError::Truncated))));
}
