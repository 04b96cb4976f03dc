use usb_hid::item::{self, Collection, Item, MainFlags, ParseError};

fn one(data: &[u8]) -> Item<'_> {
    let (item, rest) = Item::parse(data).unwrap();
    assert!(rest.is_empty());
    item
}

#[test]
fn signed_payloads_sign_extend_from_their_width() {
    assert_eq!(one(&[0x16, 0xde, 0x00]), Item::LogicalMin(0xde));
    assert_eq!(one(&[0x16, 0xff, 0xff]), Item::LogicalMin(-1));
    assert_eq!(one(&[0x15, 0x81]), Item::LogicalMin(-0x7f));
    assert_eq!(one(&[0x14]), Item::LogicalMin(0));
    assert_eq!(one(&[0x27, 0xff, 0xff, 0xff, 0x7f]), Item::LogicalMax(i32::MAX));
    assert_eq!(one(&[0x37, 0x00, 0x00, 0x00, 0x80]), Item::PhysicalMin(i32::MIN));
    // Three bytes only fit in a long item.
    assert_eq!(one(&[0xfe, 0x03, 0x44, 0x00, 0x00, 0x80]), Item::PhysicalMax(-0x80_0000));
    assert_eq!(one(&[0xfe, 0x03, 0x44, 0xff, 0xff, 0x7f]), Item::PhysicalMax(0x7f_ffff));
}

#[test]
fn numbers_round_trip_at_their_width() {
    let cases: [&[u8]; 6] = [&[0xde], &[0xde, 0x00], &[0xff, 0xff], &[0x00, 0x80], &[0x01, 0x02, 0x03, 0x84], &[]];
    for p in cases {
        let mut data = vec![0x14 | if p.len() == 4 { 3 } else { p.len() as u8 }];
        data.extend_from_slice(p);
        match one(&data) {
            Item::LogicalMin(n) => assert_eq!(&n.to_le_bytes()[..p.len()], p),
            e => panic!("{:?}", e),
        }
        data[0] = 0x94 | (data[0] & 3);
        match one(&data) {
            Item::ReportCount(n) => assert_eq!(&n.to_le_bytes()[..p.len()], p),
            e => panic!("{:?}", e),
        }
    }
}

#[test]
fn unsigned_payloads_are_zero_extended() {
    assert_eq!(one(&[0x04]), Item::UsagePage(0));
    assert_eq!(one(&[0x06, 0x0c, 0xff]), Item::UsagePage(0xff0c));
    assert_eq!(one(&[0x97, 0x01, 0x02, 0x03, 0x04]), Item::ReportCount(0x0403_0201));
    assert_eq!(one(&[0x76, 0x10, 0x00]), Item::ReportSize(16));
    assert_eq!(one(&[0x85, 0x02]), Item::ReportId(2));
    assert_eq!(one(&[0x84]), Item::ReportId(0));
}

#[test]
fn usage_widths() {
    assert_eq!(one(&[0x08]), Item::Usage16(0));
    assert_eq!(one(&[0x0a, 0x34, 0x12]), Item::Usage16(0x1234));
    assert_eq!(one(&[0x0b, 0x30, 0x00, 0x01, 0x00]), Item::Usage32(1, 0x30));
    assert_eq!(one(&[0xfe, 0x03, 0x08, 0x30, 0x00, 0x0c]), Item::Usage32(0x0c, 0x30));
}

#[test]
fn truncated_items() {
    assert!(matches!(Item::parse(&[]), Err(ParseError::Truncated)));
    assert!(matches!(Item::parse(&[0x06, 0x01]), Err(ParseError::Truncated)));
    assert!(matches!(Item::parse(&[0x17, 0x01, 0x02, 0x03]), Err(ParseError::Truncated)));
    assert!(matches!(Item::parse(&[0x81]), Err(ParseError::Truncated)));
    assert!(matches!(Item::parse(&[0xfe]), Err(ParseError::Truncated)));
    assert!(matches!(Item::parse(&[0xfe, 0x00]), Err(ParseError::Truncated)));
    assert!(matches!(Item::parse(&[0xfe, 0x02, 0x80, 0x01]), Err(ParseError::Truncated)));
    let mut it = item::parse(&[0x05, 0x01, 0x0a, 0x01]);
    assert_eq!(it.next().map(Result::unwrap), Some(Item::UsagePage(1)));
    assert!(matches!(it.next(), Some(Err(ParseError::Truncated))));
    // The cursor stays at the bad item.
    assert!(matches!(it.next(), Some(Err(ParseError::Truncated))));
}

#[test]
fn unexpected_data() {
    assert!(matches!(Item::parse(&[0xc1, 0x00]), Err(ParseError::UnexpectedData)));
    assert!(matches!(Item::parse(&[0xa9, 0x02]), Err(ParseError::UnexpectedData)));
    assert!(matches!(Item::parse(&[0x86, 0x01, 0x00]), Err(ParseError::UnexpectedData)));
    assert!(matches!(Item::parse(&[0xa2, 0x00, 0x00]), Err(ParseError::UnexpectedData)));
    assert!(matches!(Item::parse(&[0x07, 0x01, 0x00, 0x00, 0x00]), Err(ParseError::UnexpectedData)));
    assert!(matches!(
        Item::parse(&[0xfe, 0x05, 0x80, 0x01, 0x02, 0x03, 0x04, 0x05]),
        Err(ParseError::UnexpectedData)
    ));
}

#[test]
fn other_items() {
    assert_eq!(one(&[0xa0]), Item::Collection(Collection::Physical));
    assert_eq!(one(&[0xa1, 0x04]), Item::Collection(Collection::NamedArray));
    assert_eq!(one(&[0xa1, 0x80]), Item::Collection(Collection::Unknown(0x80)));
    assert_eq!(one(&[0xc0]), Item::EndCollection);
    assert_eq!(one(&[0xa4]), Item::Push);
    assert_eq!(one(&[0xb4]), Item::Pop);
    assert_eq!(one(&[0xa9, 0x00]), Item::Delimiter(true));
    assert_eq!(one(&[0xa9, 0x01]), Item::Delimiter(false));
    assert_eq!(one(&[0xb1, 0x02]), Item::Feature(MainFlags(2)));
    assert_eq!(one(&[0x91, 0x02]), Item::Output(MainFlags(2)));
    assert_eq!(one(&[0x39, 0x05]), Item::DesignatorIndex(5));
    assert_eq!(one(&[0x79, 0x05]), Item::StringIndex(5));
    assert_eq!(one(&[0x55, 0x0e]), Item::UnitExponent(0x0e));
    assert_eq!(one(&[0x65, 0x11]), Item::Unit(0x11));
}

#[test]
fn unknown_tags_keep_their_data() {
    let (item, rest) = Item::parse(&[0xf6, 0x12, 0x34, 0xc0]).unwrap();
    assert_eq!(item, Item::Unknown { tag: 0xf4, data: &[0x12, 0x34] });
    assert_eq!(rest, &[0xc0]);
}

#[test]
fn long_items() {
    let (item, rest) = Item::parse(&[0xfe, 0x02, 0x80, 0x02, 0x00, 0xc0]).unwrap();
    assert_eq!(item, Item::Input(MainFlags(2)));
    assert_eq!(rest, &[0xc0]);
    let (item, rest) = Item::parse(&[0xfe, 0x01, 0xf0, 0x07]).unwrap();
    assert_eq!(item, Item::Unknown { tag: 0xf0, data: &[0x07] });
    assert!(rest.is_empty());
}

#[test]
fn main_flags() {
    let f = MainFlags(0b1_0000_0110);
    assert!(!f.constant());
    assert!(f.variable());
    assert!(f.relative());
    assert!(!f.wrap());
    assert!(!f.nonlinear());
    assert!(!f.nopreferred());
    assert!(!f.null());
    assert!(!f.volatile());
    assert!(f.buffered_bytes());
    let g = MainFlags(0b1111_1001);
    assert!(g.constant() && g.wrap() && g.nonlinear() && g.nopreferred() && g.null() && g.volatile());
}

#[test]
fn collection_kinds() {
    assert_eq!(Collection::from_raw(0), Collection::Physical);
    assert_eq!(Collection::from_raw(1), Collection::Application);
    assert_eq!(Collection::from_raw(2), Collection::Logical);
    assert_eq!(Collection::from_raw(3), Collection::Report);
    assert_eq!(Collection::from_raw(5), Collection::UsageSwitch);
    assert_eq!(Collection::from_raw(6), Collection::UsageModifier);
    assert_eq!(Collection::from_raw(7), Collection::Unknown(7));
}
