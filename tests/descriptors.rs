use usb_hid::descriptor::{
    decode, Configuration, Descriptor, Device, Direction, Endpoint, EndpointNumber,
    EndpointSync, EndpointTransfer, EndpointUsage, Hid, Interface, InvalidConfiguration,
    InvalidDescriptor, InvalidDevice, InvalidEndpoint, InvalidHid, InvalidInterface, InvalidString,
    Report, StringIter,
};
use usb_hid::descriptor::GetDescriptor;
use usb_hid::request::{RawRequest, Request};

#[test]
fn device_descriptor() {
    let body = [0x00, 0x02, 0x00, 0x00, 0x00, 0x40, 0x27, 0x06, 0x01, 0x00, 0x00, 0x01, 0x01, 0x02, 0x03, 0x01];
    let d = Device::from_raw(&body).unwrap();
    assert_eq!(d.usb, 0x0200);
    assert_eq!(d.max_packet_size_0, 0x40);
    assert_eq!(d.vendor, 0x0627);
    assert_eq!(d.product, 0x0001);
    assert_eq!(d.device, 0x0100);
    assert_eq!((d.index_manufacturer, d.index_product, d.index_serial_number), (1, 2, 3));
    assert_eq!(d.num_configurations, 1);
    assert_eq!(Device::from_raw(&body[..15]), Err(InvalidDevice::UnexpectedLength));
}

#[test]
fn configuration_interface_hid() {
    let c = Configuration::from_raw(&[0x22, 0x00, 0x01, 0x01, 0x04, 0xa0, 0x32]).unwrap();
    assert_eq!(c.total_length, 0x22);
    assert_eq!(c.configuration_value, 1);
    assert_eq!(c.index_configuration, 4);
    assert!(!c.attributes.self_powered());
    assert!(c.attributes.remote_wakeup());
    assert_eq!(c.max_power, 0x32);
    assert_eq!(Configuration::from_raw(&[0; 6]), Err(InvalidConfiguration::UnexpectedLength));
    let i = Interface::from_raw(&[0, 0, 1, 3, 0, 0, 0]).unwrap();
    assert_eq!((i.num_endpoints, i.class), (1, 3));
    assert_eq!(Interface::from_raw(&[0; 8]), Err(InvalidInterface::UnexpectedLength));
    let h = Hid::from_raw(&[0x01, 0x00, 0x00, 0x01, 0x22, 0x4a, 0x00]).unwrap();
    assert_eq!(h.hid_version, 0x0001);
    assert_eq!((h.ty, h.len), (0x22, 0x4a));
    assert_eq!(Hid::from_raw(&[]), Err(InvalidHid::UnexpectedLength));
    assert_eq!(Report::from_raw(&[1, 2]).unwrap().data, &[1, 2]);
}

#[test]
fn endpoint_descriptor() {
    let e = Endpoint::from_raw(&[0x81, 0x03, 0x08, 0x00, 0x0a]).unwrap();
    assert_eq!(e.address.direction(), Direction::In);
    assert_eq!(e.address.number(), EndpointNumber::N1);
    assert_eq!(usize::from(e.address.number()), 1);
    assert_eq!(e.attributes.transfer(), EndpointTransfer::Interrupt);
    assert_eq!(e.attributes.sync(), EndpointSync::NoSync);
    assert_eq!(e.attributes.usage(), EndpointUsage::Data);
    assert_eq!(e.max_packet_size, 8);
    assert_eq!(e.interval, 10);
    let e = Endpoint::from_raw(&[0x0f, 0x2d, 0x00, 0x02, 0x01]).unwrap();
    assert_eq!(e.address.direction(), Direction::Out);
    assert_eq!(usize::from(e.address.number()), 15);
    assert_eq!(e.attributes.usage(), EndpointUsage::Implicit);
    assert_eq!(e.attributes.sync(), EndpointSync::Sync);
    assert_eq!(e.attributes.transfer(), EndpointTransfer::Isoch);
    assert_eq!(e.max_packet_size, 0x200);
    assert!(matches!(Endpoint::from_raw(&[0x80, 0x03, 0x08, 0x00, 0x0a]), Err(InvalidEndpoint::InvalidAddress)));
    assert!(matches!(Endpoint::from_raw(&[0x81, 0x33, 0x08, 0x00, 0x0a]), Err(InvalidEndpoint::InvalidAttributes)));
    assert!(matches!(Endpoint::from_raw(&[0x81]), Err(InvalidEndpoint::UnexpectedLength)));
}

#[test]
fn string_descriptor() {
    let mut s = StringIter::from_raw(&[0x51, 0x00, 0x45, 0x00, 0xac, 0x20]).unwrap();
    assert_eq!(s.len(), 3);
    assert_eq!(s.size_hint(), (3, Some(3)));
    assert_eq!(s.next(), Some(0x51));
    assert_eq!(s.next(), Some(0x45));
    assert_eq!(s.next(), Some(0x20ac));
    assert_eq!(s.next(), None);
    assert!(matches!(StringIter::from_raw(&[1, 2, 3]), Err(InvalidString::UnexpectedLength)));
}

#[test]
fn descriptor_sequence() {
    let buf = [
        9, 2, 0x22, 0x00, 0x01, 0x01, 0x00, 0xa0, 0x32, // configuration
        4, 3, 0x41, 0x00, // string
        7, 5, 0x81, 0x03, 0x08, 0x00, 0x0a, // endpoint
        3, 0x30, 0x99, // unknown
        9, 0x21, 0x11, 0x01, 0x00, 0x01, 0x22, 0x3f, 0x00, // hid
        4, 0x22, 0x05, 0x01, // report
        5, 4, 0x00, // truncated
    ];
    let mut it = decode(&buf);
    let c = it.next().unwrap().unwrap().into_configuration().unwrap();
    assert_eq!(c.total_length, 0x22);
    let mut s = it.next().unwrap().unwrap().into_string().unwrap();
    assert_eq!(s.next(), Some(0x41));
    assert!(matches!(it.next(), Some(Ok(Descriptor::Endpoint(_)))));
    match it.next() {
        Some(Ok(Descriptor::Unknown { ty, data })) => assert_eq!((ty, data), (0x30, &[0x99][..])),
        e => panic!("{:?}", e),
    }
    match it.next() {
        Some(Ok(Descriptor::Hid(h))) => assert_eq!((h.hid_version, h.len), (0x0111, 0x3f)),
        e => panic!("{:?}", e),
    }
    match it.next() {
        Some(Ok(Descriptor::Report(r))) => assert_eq!(r.data, &[0x05, 0x01]),
        e => panic!("{:?}", e),
    }
    assert!(matches!(it.next(), Some(Err(InvalidDescriptor::Truncated { length: 5 }))));
    assert!(it.next().is_none());
}

#[test]
fn descriptor_errors() {
    let mut it = decode(&[1, 1]);
    assert!(matches!(it.next(), Some(Err(InvalidDescriptor::Truncated { length: 2 }))));
    assert!(it.next().is_none());
    let mut it = decode(&[3, 1, 0, 4, 2, 0, 0]);
    assert!(matches!(it.next(), Some(Err(InvalidDescriptor::Device(InvalidDevice::UnexpectedLength)))));
    assert!(it.next().is_none());
    let mut it = decode(&[18, 1, 0x00, 0x02, 0, 0, 0, 0x40, 0x27, 0x06, 1, 0, 0, 1, 1, 2, 3, 1]);
    let d = it.next().unwrap().unwrap();
    assert!(d.into_configuration().is_none());
    assert_eq!(d.into_device().unwrap().vendor, 0x0627);
    assert!(matches!(decode(&[3, 3, 0]).next(), Some(Err(InvalidDescriptor::String(_)))));
    assert!(matches!(decode(&[3, 2, 0]).next(), Some(Err(InvalidDescriptor::Configuration(_)))));
    assert!(matches!(decode(&[3, 4, 0]).next(), Some(Err(InvalidDescriptor::Interface(_)))));
    assert!(matches!(decode(&[3, 5, 0]).next(), Some(Err(InvalidDescriptor::Endpoint(_)))));
    assert!(matches!(decode(&[3, 0x21, 0]).next(), Some(Err(InvalidDescriptor::Hid(_)))));
}

#[test]
fn requests() {
    let r = Request::GetDescriptor { ty: GetDescriptor::Report }.into_raw();
    assert_eq!(r, RawRequest { request_type: 0x81, request: 6, value: 0x2200, index: 0 });
    assert!(r.direction_in());
    let r = Request::GetDescriptor { ty: GetDescriptor::String { index: 3 } }.into_raw();
    assert_eq!(r, RawRequest { request_type: 0x80, request: 6, value: 0x0303, index: 0 });
    let r = Request::GetDescriptor { ty: GetDescriptor::Configuration { index: 1 } }.into_raw();
    assert_eq!(r.value, 0x0201);
    let r = Request::GetDescriptor { ty: GetDescriptor::Device }.into_raw();
    assert_eq!(r.value, 0x0100);
    let r = Request::SetConfiguration { value: 1 }.into_raw();
    assert_eq!(r, RawRequest { request_type: 0, request: 9, value: 1, index: 0 });
    assert!(!r.direction_in());
}
