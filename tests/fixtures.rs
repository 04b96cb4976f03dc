use usb_hid::item::{self, Collection, Item, MainFlags};

// usb/dev-hid.c
const QEMU_USB_TABLET: &[u8] = &[
    0x05, 0x01, 0x09, 0x02, 0xa1, 0x01, 0x09, 0x01, 0xa1, 0x00, 0x05, 0x09, 0x19, 0x01, 0x29,
    0x03, 0x15, 0x00, 0x25, 0x01, 0x95, 0x03, 0x75, 0x01, 0x81, 0x02, 0x95, 0x01, 0x75, 0x05,
    0x81, 0x01, 0x05, 0x01, 0x09, 0x30, 0x09, 0x31, 0x15, 0x00, 0x26, 0xff, 0x7f, 0x35, 0x00,
    0x46, 0xff, 0x7f, 0x75, 0x10, 0x95, 0x02, 0x81, 0x02, 0x05, 0x01, 0x09, 0x38, 0x15, 0x81,
    0x25, 0x7f, 0x35, 0x00, 0x45, 0x00, 0x75, 0x08, 0x95, 0x01, 0x81, 0x06, 0xc0, 0xc0,
];

fn tk(it: &mut item::Parser<'_>, item: Item<'_>) {
    assert_eq!(it.next().map(Result::unwrap), Some(item));
}

#[test]
fn item_qemu_usb_tablet() {
    let mut it = item::parse(QEMU_USB_TABLET);
    let it = &mut it;
    tk(it, Item::UsagePage(0x1));
    tk(it, Item::Usage16(0x2));
    tk(it, Item::Collection(Collection::Application));
    tk(it, Item::Usage16(0x1));
    tk(it, Item::Collection(Collection::Physical));
    tk(it, Item::UsagePage(0x9));
    tk(it, Item::UsageMin(1));
    tk(it, Item::UsageMax(3));
    tk(it, Item::LogicalMin(0));
    tk(it, Item::LogicalMax(1));
    tk(it, Item::ReportCount(3));
    tk(it, Item::ReportSize(1));
    tk(it, Item::Input(MainFlags(0b010))); // absolute, variable, data
    tk(it, Item::ReportCount(1));
    tk(it, Item::ReportSize(5));
    tk(it, Item::Input(MainFlags(0b1))); // constant
    tk(it, Item::UsagePage(1));
    tk(it, Item::Usage16(0x30));
    tk(it, Item::Usage16(0x31));
    tk(it, Item::LogicalMin(0));
    tk(it, Item::LogicalMax(0x7fff));
    tk(it, Item::PhysicalMin(0));
    tk(it, Item::PhysicalMax(0x7fff));
    tk(it, Item::ReportSize(16));
    tk(it, Item::ReportCount(2));
    tk(it, Item::Input(MainFlags(0b010))); // absolute, variable, data
    tk(it, Item::UsagePage(1));
    tk(it, Item::Usage16(0x38));
    tk(it, Item::LogicalMin(-0x7f));
    tk(it, Item::LogicalMax(0x7f));
    tk(it, Item::PhysicalMin(0));
    tk(it, Item::PhysicalMax(0));
    tk(it, Item::ReportSize(8));
    tk(it, Item::ReportCount(1));
    tk(it, Item::Input(MainFlags(0b110))); // relative, variable, data
    tk(it, Item::EndCollection);
    tk(it, Item::EndCollection);
    assert!(it.next().is_none());
}
