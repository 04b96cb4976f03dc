//! Standard USB descriptors (USB 2.0, 9.6) and the HID class descriptor (HID 1.11, 6.2.1).
use vstd::prelude::*;
use vstd::slice::slice_subrange;

verus! {

pub const DEVICE: u8 = 0x1;
pub const CONFIGURATION: u8 = 0x2;
pub const STRING: u8 = 0x3;
pub const INTERFACE: u8 = 0x4;
pub const ENDPOINT: u8 = 0x5;
pub const HID: u8 = 0x21;
pub const REPORT: u8 = 0x22;

/// The 16-bit number whose little-endian bytes are `lo` and `hi`.
pub open spec fn le16(lo: u8, hi: u8) -> u16 {
    (lo + 256 * hi) as u16
}

fn read_le16(lo: u8, hi: u8) -> (r: u16)
    ensures
        r == le16(lo, hi),
{
    lo as u16 + 256 * hi as u16
}

/// The descriptors that a `GET_DESCRIPTOR` request can ask for.
#[derive(Clone, Copy, Debug, PartialEq, Eq, Structural)]
pub enum GetDescriptor {
    Device,
    Configuration { index: u8 },
    String { index: u8 },
    Report,
}

/// A device descriptor.
#[derive(Clone, Copy, Debug, PartialEq, Eq, Structural)]
pub struct Device {
    pub usb: u16,
    pub class: u8,
    pub subclass: u8,
    pub protocol: u8,
    pub max_packet_size_0: u8,
    pub vendor: u16,
    pub product: u16,
    pub device: u16,
    pub index_manufacturer: u8,
    pub index_product: u8,
    pub index_serial_number: u8,
    pub num_configurations: u8,
}

#[derive(Clone, Copy, Debug, PartialEq, Eq, Structural)]
pub enum InvalidDevice {
    UnexpectedLength,
}

/// The device descriptor whose body (the bytes after length and type) is `b`.
pub open spec fn device_of(b: Seq<u8>) -> Device {
    Device {
        usb: le16(b[0], b[1]),
        class: b[2],
        subclass: b[3],
        protocol: b[4],
        max_packet_size_0: b[5],
        vendor: le16(b[6], b[7]),
        product: le16(b[8], b[9]),
        device: le16(b[10], b[11]),
        index_manufacturer: b[12],
        index_product: b[13],
        index_serial_number: b[14],
        num_configurations: b[15],
    }
}

impl Device {
    /// Decodes the body of a device descriptor, which has 16 bytes.
    pub fn from_raw(buf: &[u8]) -> (r: Result<Self, InvalidDevice>)
        ensures
            buf@.len() == 16 ==> r == Ok::<Device, InvalidDevice>(device_of(buf@)),
            buf@.len() != 16 ==> r == Err::<Device, InvalidDevice>(InvalidDevice::UnexpectedLength),
    {
        if buf.len() != 16 {
            return Err(InvalidDevice::UnexpectedLength);
        }
        Ok(Device {
            usb: read_le16(buf[0], buf[1]),
            class: buf[2],
            subclass: buf[3],
            protocol: buf[4],
            max_packet_size_0: buf[5],
            vendor: read_le16(buf[6], buf[7]),
            product: read_le16(buf[8], buf[9]),
            device: read_le16(buf[10], buf[11]),
            index_manufacturer: buf[12],
            index_product: buf[13],
            index_serial_number: buf[14],
            num_configurations: buf[15],
        })
    }
}

/// Whether bit `k` of `x` is set.
pub open spec fn bit_of(x: u8, k: nat) -> bool {
    (x as nat / vstd::arithmetic::power2::pow2(k)) % 2 == 1
}

fn test_bit(x: u8, k: u8) -> (r: bool)
    requires
        k < 8,
    ensures
        r == bit_of(x, k as nat),
{
    proof {
        vstd::bits::lemma_u8_shr_is_div(x, k);
    }
    let y = x >> k;
    assert(y & 1 == y % 2) by (bit_vector);
    y & 1 == 1
}

/// A configuration descriptor.
#[derive(Clone, Copy, Debug, PartialEq, Eq, Structural)]
pub struct Configuration {
    pub total_length: u16,
    pub num_interfaces: u8,
    /// Value which when used as an argument in the SET_CONFIGURATION request,
    /// causes the device to assume the configuration described by this descriptor.
    pub configuration_value: u8,
    pub index_configuration: u8,
    pub attributes: ConfigurationAttributes,
    pub max_power: u8,
}

/// The attribute bits of a configuration.
#[derive(Clone, Copy, Debug, PartialEq, Eq, Structural)]
pub struct ConfigurationAttributes(pub u8);

impl ConfigurationAttributes {
    /// Whether the device has a power source of its own.
    pub fn self_powered(&self) -> (r: bool)
        ensures
            r == bit_of(self.0, 6),
    {
        test_bit(self.0, 6)
    }

    /// Whether the device supports remote wakeup.
    pub fn remote_wakeup(&self) -> (r: bool)
        ensures
            r == bit_of(self.0, 5),
    {
        test_bit(self.0, 5)
    }
}

#[derive(Clone, Copy, Debug, PartialEq, Eq, Structural)]
pub enum InvalidConfiguration {
    UnexpectedLength,
}

/// The configuration descriptor whose body is `b`.
pub open spec fn configuration_of(b: Seq<u8>) -> Configuration {
    Configuration {
        total_length: le16(b[0], b[1]),
        num_interfaces: b[2],
        configuration_value: b[3],
        index_configuration: b[4],
        attributes: ConfigurationAttributes(b[5]),
        max_power: b[6],
    }
}

impl Configuration {
    /// Decodes the body of a configuration descriptor, which has 7 bytes.
    pub fn from_raw(buf: &[u8]) -> (r: Result<Self, InvalidConfiguration>)
        ensures
            buf@.len() == 7 ==> r == Ok::<Configuration, InvalidConfiguration>(configuration_of(buf@)),
            buf@.len() != 7 ==> r == Err::<Configuration, InvalidConfiguration>(
                InvalidConfiguration::UnexpectedLength,
            ),
    {
        if buf.len() != 7 {
            return Err(InvalidConfiguration::UnexpectedLength);
        }
        Ok(Configuration {
            total_length: read_le16(buf[0], buf[1]),
            num_interfaces: buf[2],
            configuration_value: buf[3],
            index_configuration: buf[4],
            attributes: ConfigurationAttributes(buf[5]),
            max_power: buf[6],
        })
    }
}

/// An interface descriptor.
#[derive(Clone, Copy, Debug, PartialEq, Eq, Structural)]
pub struct Interface {
    pub number: u8,
    pub alternate_setting: u8,
    pub num_endpoints: u8,
    pub class: u8,
    pub subclass: u8,
    pub protocol: u8,
    pub index: u8,
}

#[derive(Clone, Copy, Debug, PartialEq, Eq, Structural)]
pub enum InvalidInterface {
    UnexpectedLength,
}

/// The interface descriptor whose body is `b`.
pub open spec fn interface_of(b: Seq<u8>) -> Interface {
    Interface {
        number: b[0],
        alternate_setting: b[1],
        num_endpoints: b[2],
        class: b[3],
        subclass: b[4],
        protocol: b[5],
        index: b[6],
    }
}

impl Interface {
    /// Decodes the body of an interface descriptor, which has 7 bytes.
    pub fn from_raw(buf: &[u8]) -> (r: Result<Self, InvalidInterface>)
        ensures
            buf@.len() == 7 ==> r == Ok::<Interface, InvalidInterface>(interface_of(buf@)),
            buf@.len() != 7 ==> r == Err::<Interface, InvalidInterface>(
                InvalidInterface::UnexpectedLength,
            ),
    {
        if buf.len() != 7 {
            return Err(InvalidInterface::UnexpectedLength);
        }
        Ok(Interface {
            number: buf[0],
            alternate_setting: buf[1],
            num_endpoints: buf[2],
            class: buf[3],
            subclass: buf[4],
            protocol: buf[5],
            index: buf[6],
        })
    }
}

/// A HID class descriptor.
#[derive(Clone, Copy, Debug, PartialEq, Eq, Structural)]
pub struct Hid {
    pub hid_version: u16,
    pub country_code: u8,
    pub num_descriptors: u8,
    pub ty: u8,
    pub len: u16,
}

#[derive(Clone, Copy, Debug, PartialEq, Eq, Structural)]
pub enum InvalidHid {
    UnexpectedLength,
}

/// The HID descriptor whose body is `b`.
pub open spec fn hid_of(b: Seq<u8>) -> Hid {
    Hid {
        hid_version: le16(b[0], b[1]),
        country_code: b[2],
        num_descriptors: b[3],
        ty: b[4],
        len: le16(b[5], b[6]),
    }
}

impl Hid {
    /// Decodes the body of a HID descriptor with one class descriptor, which has 7 bytes.
    pub fn from_raw(buf: &[u8]) -> (r: Result<Hid, InvalidHid>)
        ensures
            buf@.len() == 7 ==> r == Ok::<Hid, InvalidHid>(hid_of(buf@)),
            buf@.len() != 7 ==> r == Err::<Hid, InvalidHid>(InvalidHid::UnexpectedLength),
    {
        if buf.len() != 7 {
            return Err(InvalidHid::UnexpectedLength);
        }
        Ok(Hid {
            hid_version: read_le16(buf[0], buf[1]),
            country_code: buf[2],
            num_descriptors: buf[3],
            ty: buf[4],
            len: read_le16(buf[5], buf[6]),
        })
    }
}

/// A report descriptor, kept as raw bytes.
#[derive(Clone, Copy, Debug)]
pub struct Report<'a> {
    pub data: &'a [u8],
}

/// The error of a report descriptor body; `Report::from_raw` never returns it. It is a unit
/// struct rather than an enum without variants, which Verus does not accept as a datatype.
#[derive(Clone, Copy, Debug, PartialEq, Eq, Structural)]
pub struct InvalidReport;

impl<'a> Report<'a> {
    /// Takes the body of a report descriptor as it is.
    pub fn from_raw(data: &'a [u8]) -> (r: Result<Self, InvalidReport>)
        ensures
            match r {
                Ok(rep) => rep.data@ == data@,
                Err(_) => false,
            },
    {
        Ok(Self { data })
    }
}

/// An endpoint descriptor.
#[derive(Clone, Copy, Debug)]
pub struct Endpoint {
    /// The address of the endpoint on the USB device described by this descriptor.
    pub address: EndpointAddress,
    pub attributes: EndpointAttributes,
    pub max_packet_size: u16,
    pub interval: u8,
}

/// The address of an endpoint: a direction and a number from 1 to 15.
#[derive(Clone, Copy, Debug)]
pub struct EndpointAddress(u8);

/// The endpoint numbers that an endpoint descriptor can hold.
#[derive(Clone, Copy, Debug, PartialEq, Eq, Structural)]
pub enum EndpointNumber {
    N1,
    N2,
    N3,
    N4,
    N5,
    N6,
    N7,
    N8,
    N9,
    N10,
    N11,
    N12,
    N13,
    N14,
    N15,
}

/// The attributes of an endpoint.
#[derive(Clone, Copy, Debug)]
pub struct EndpointAttributes(u8);

#[derive(Clone, Copy, Debug, PartialEq, Eq, Structural)]
pub enum EndpointUsage {
    Data,
    Feedback,
    Implicit,
}

#[derive(Clone, Copy, Debug, PartialEq, Eq, Structural)]
pub enum EndpointSync {
    NoSync,
    Async,
    Adapt,
    Sync,
}

#[derive(Clone, Copy, Debug, PartialEq, Eq, Structural)]
pub enum EndpointTransfer {
    Control,
    Isoch,
    Bulk,
    Interrupt,
}

#[derive(Clone, Copy, Debug, PartialEq, Eq, Structural)]
pub enum Direction {
    In,
    Out,
}

#[derive(Clone, Copy, Debug, PartialEq, Eq, Structural)]
pub enum InvalidEndpoint {
    UnexpectedLength,
    InvalidAddress,
    InvalidAttributes,
}

/// Whether `n` is a valid endpoint address: its low four bits are not zero.
pub open spec fn valid_address(n: u8) -> bool {
    n % 16 != 0
}

/// Whether `n` are valid endpoint attributes: the usage bits (5:4) are not `0b11`.
pub open spec fn valid_attributes(n: u8) -> bool {
    (n / 16) % 4 != 3
}

/// The endpoint number with value `n`, for `1 <= n <= 15`.
pub open spec fn endpoint_number(n: nat) -> EndpointNumber {
    if n == 1 {
        EndpointNumber::N1
    } else if n == 2 {
        EndpointNumber::N2
    } else if n == 3 {
        EndpointNumber::N3
    } else if n == 4 {
        EndpointNumber::N4
    } else if n == 5 {
        EndpointNumber::N5
    } else if n == 6 {
        EndpointNumber::N6
    } else if n == 7 {
        EndpointNumber::N7
    } else if n == 8 {
        EndpointNumber::N8
    } else if n == 9 {
        EndpointNumber::N9
    } else if n == 10 {
        EndpointNumber::N10
    } else if n == 11 {
        EndpointNumber::N11
    } else if n == 12 {
        EndpointNumber::N12
    } else if n == 13 {
        EndpointNumber::N13
    } else if n == 14 {
        EndpointNumber::N14
    } else {
        EndpointNumber::N15
    }
}

/// The value of an endpoint number.
pub open spec fn number_value(n: EndpointNumber) -> nat {
    match n {
        EndpointNumber::N1 => 1,
        EndpointNumber::N2 => 2,
        EndpointNumber::N3 => 3,
        EndpointNumber::N4 => 4,
        EndpointNumber::N5 => 5,
        EndpointNumber::N6 => 6,
        EndpointNumber::N7 => 7,
        EndpointNumber::N8 => 8,
        EndpointNumber::N9 => 9,
        EndpointNumber::N10 => 10,
        EndpointNumber::N11 => 11,
        EndpointNumber::N12 => 12,
        EndpointNumber::N13 => 13,
        EndpointNumber::N14 => 14,
        EndpointNumber::N15 => 15,
    }
}

impl EndpointAddress {
    #[verifier::type_invariant]
    spec fn inv(self) -> bool {
        valid_address(self.0)
    }

    /// The raw address byte.
    pub closed spec fn raw(self) -> u8 {
        self.0
    }

    /// The direction of the endpoint: bit 7.
    pub fn direction(&self) -> (r: Direction)
        ensures
            r == (if self.raw() >= 128 {
                Direction::In
            } else {
                Direction::Out
            }),
    {
        let x = self.0;
        assert(x & 0x80 == 0 <==> x < 128) by (bit_vector);
        if x & 0x80 == 0 {
            Direction::Out
        } else {
            Direction::In
        }
    }

    /// The number of the endpoint: bits 3:0.
    pub fn number(&self) -> (r: EndpointNumber)
        ensures
            r == endpoint_number(self.raw() as nat % 16),
            number_value(r) == self.raw() as nat % 16,
    {
        proof {
            use_type_invariant(self);
        }
        let x = self.0;
        let n = x & 0xf;
        assert(x & 0xf == x % 16) by (bit_vector);
        match n {
            1 => EndpointNumber::N1,
            2 => EndpointNumber::N2,
            3 => EndpointNumber::N3,
            4 => EndpointNumber::N4,
            5 => EndpointNumber::N5,
            6 => EndpointNumber::N6,
            7 => EndpointNumber::N7,
            8 => EndpointNumber::N8,
            9 => EndpointNumber::N9,
            10 => EndpointNumber::N10,
            11 => EndpointNumber::N11,
            12 => EndpointNumber::N12,
            13 => EndpointNumber::N13,
            14 => EndpointNumber::N14,
            _ => EndpointNumber::N15,
        }
    }

    /// The address with raw byte `n`, if its number is not zero.
    pub fn from_raw(n: u8) -> (r: Option<Self>)
        ensures
            valid_address(n) ==> (r matches Some(a) && a.raw() == n),
            !valid_address(n) ==> r is None,
    {
        assert(n & 0xf == n % 16) by (bit_vector);
        if n & 0xf != 0 {
            Some(EndpointAddress(n))
        } else {
            None
        }
    }
}

impl From<EndpointNumber> for usize {
    fn from(n: EndpointNumber) -> (r: usize)
        ensures
            r as nat == number_value(n),
    {
        match n {
            EndpointNumber::N1 => 1,
            EndpointNumber::N2 => 2,
            EndpointNumber::N3 => 3,
            EndpointNumber::N4 => 4,
            EndpointNumber::N5 => 5,
            EndpointNumber::N6 => 6,
            EndpointNumber::N7 => 7,
            EndpointNumber::N8 => 8,
            EndpointNumber::N9 => 9,
            EndpointNumber::N10 => 10,
            EndpointNumber::N11 => 11,
            EndpointNumber::N12 => 12,
            EndpointNumber::N13 => 13,
            EndpointNumber::N14 => 14,
            EndpointNumber::N15 => 15,
        }
    }
}

impl vstd::std_specs::convert::FromSpecImpl<EndpointNumber> for usize {
    open spec fn obeys_from_spec() -> bool {
        true
    }

    open spec fn from_spec(n: EndpointNumber) -> usize {
        number_value(n) as usize
    }
}

impl EndpointAttributes {
    #[verifier::type_invariant]
    spec fn inv(self) -> bool {
        valid_attributes(self.0)
    }

    /// The raw attribute byte.
    pub closed spec fn raw(self) -> u8 {
        self.0
    }

    /// The usage type: bits 5:4.
    pub fn usage(&self) -> (r: EndpointUsage)
        ensures
            r == (if (self.raw() / 16) % 4 == 0 {
                EndpointUsage::Data
            } else if (self.raw() / 16) % 4 == 1 {
                EndpointUsage::Feedback
            } else {
                EndpointUsage::Implicit
            }),
    {
        proof {
            use_type_invariant(self);
        }
        let x = self.0;
        assert(x >> 4 & 3 == (x / 16) % 4) by (bit_vector);
        match x >> 4 & 0x3 {
            0 => EndpointUsage::Data,
            1 => EndpointUsage::Feedback,
            _ => EndpointUsage::Implicit,
        }
    }

    /// The synchronisation type: bits 3:2.
    pub fn sync(&self) -> (r: EndpointSync)
        ensures
            r == (if (self.raw() / 4) % 4 == 0 {
                EndpointSync::NoSync
            } else if (self.raw() / 4) % 4 == 1 {
                EndpointSync::Async
            } else if (self.raw() / 4) % 4 == 2 {
                EndpointSync::Adapt
            } else {
                EndpointSync::Sync
            }),
    {
        let x = self.0;
        assert(x >> 2 & 3 == (x / 4) % 4) by (bit_vector);
        match x >> 2 & 0x3 {
            0 => EndpointSync::NoSync,
            1 => EndpointSync::Async,
            2 => EndpointSync::Adapt,
            _ => EndpointSync::Sync,
        }
    }

    /// The transfer type: bits 1:0.
    pub fn transfer(&self) -> (r: EndpointTransfer)
        ensures
            r == (if self.raw() % 4 == 0 {
                EndpointTransfer::Control
            } else if self.raw() % 4 == 1 {
                EndpointTransfer::Isoch
            } else if self.raw() % 4 == 2 {
                EndpointTransfer::Bulk
            } else {
                EndpointTransfer::Interrupt
            }),
    {
        let x = self.0;
        assert(x & 3 == x % 4) by (bit_vector);
        match x & 0x3 {
            0 => EndpointTransfer::Control,
            1 => EndpointTransfer::Isoch,
            2 => EndpointTransfer::Bulk,
            _ => EndpointTransfer::Interrupt,
        }
    }

    /// The attributes with raw byte `n`, if its usage bits are valid.
    pub fn from_raw(n: u8) -> (r: Option<Self>)
        ensures
            valid_attributes(n) ==> (r matches Some(a) && a.raw() == n),
            !valid_attributes(n) ==> r is None,
    {
        assert(n >> 4 & 3 == (n / 16) % 4) by (bit_vector);
        if n >> 4 & 0x3 != 3 {
            Some(EndpointAttributes(n))
        } else {
            None
        }
    }
}

impl Endpoint {
    /// Decodes the body of an endpoint descriptor, which has 5 bytes.
    pub fn from_raw(buf: &[u8]) -> (r: Result<Endpoint, InvalidEndpoint>)
        ensures
            buf@.len() != 5 ==> r == Err::<Endpoint, InvalidEndpoint>(InvalidEndpoint::UnexpectedLength),
            buf@.len() == 5 && !valid_address(buf@[0]) ==> r == Err::<Endpoint, InvalidEndpoint>(
                InvalidEndpoint::InvalidAddress,
            ),
            buf@.len() == 5 && valid_address(buf@[0]) && !valid_attributes(buf@[1]) ==> r == Err::<
                Endpoint,
                InvalidEndpoint,
            >(InvalidEndpoint::InvalidAttributes),
            buf@.len() == 5 && valid_address(buf@[0]) && valid_attributes(buf@[1]) ==> (r matches Ok(e)
                && e.address.raw() == buf@[0] && e.attributes.raw() == buf@[1] && e.max_packet_size
                == le16(buf@[2], buf@[3]) && e.interval == buf@[4]),
    {
        if buf.len() != 5 {
            return Err(InvalidEndpoint::UnexpectedLength);
        }
        let address = match EndpointAddress::from_raw(buf[0]) {
            Some(a) => a,
            None => return Err(InvalidEndpoint::InvalidAddress),
        };
        let attributes = match EndpointAttributes::from_raw(buf[1]) {
            Some(a) => a,
            None => return Err(InvalidEndpoint::InvalidAttributes),
        };
        Ok(Endpoint {
            address,
            attributes,
            max_packet_size: read_le16(buf[2], buf[3]),
            interval: buf[4],
        })
    }
}

/// The UTF-16 code units of a string descriptor.
#[derive(Clone, Copy, Debug)]
pub struct StringIter<'a> {
    data: &'a [u8],
}

#[derive(Clone, Copy, Debug, PartialEq, Eq, Structural)]
pub enum InvalidString {
    UnexpectedLength,
}

/// The code units of the little-endian UTF-16 bytes `b`.
pub open spec fn code_units(b: Seq<u8>) -> Seq<u16> {
    Seq::new(b.len() / 2, |i: int| le16(b[2 * i], b[2 * i + 1]))
}

impl<'a> StringIter<'a> {
    /// The code units not read yet.
    pub closed spec fn units(&self) -> Seq<u16> {
        code_units(self.data@)
    }

    /// The bytes not read yet.
    pub closed spec fn bytes(&self) -> Seq<u8> {
        self.data@
    }

    /// Takes the body of a string descriptor, which holds whole code units.
    pub fn from_raw(data: &'a [u8]) -> (r: Result<StringIter<'a>, InvalidString>)
        ensures
            data@.len() % 2 == 0 ==> (r matches Ok(s) && s.bytes() == data@),
            data@.len() % 2 != 0 ==> r == Err::<StringIter<'a>, InvalidString>(
                InvalidString::UnexpectedLength,
            ),
    {
        if data.len() % 2 == 0 {
            Ok(StringIter { data })
        } else {
            Err(InvalidString::UnexpectedLength)
        }
    }

    /// The next code unit.
    pub fn next(&mut self) -> (r: Option<u16>)
        ensures
            old(self).bytes().len() < 2 ==> r is None && final(self).bytes() == old(self).bytes(),
            old(self).bytes().len() >= 2 ==> r == Some(le16(old(self).bytes()[0], old(self).bytes()[1]))
                && final(self).bytes() == old(self).bytes().skip(2),
    {
        if self.data.len() < 2 {
            return None;
        }
        let c = read_le16(self.data[0], self.data[1]);
        self.data = slice_subrange(self.data, 2, self.data.len());
        Some(c)
    }

    /// The number of code units left: both bounds are exact.
    pub fn size_hint(&self) -> (r: (usize, Option<usize>))
        ensures
            r.0 == self.bytes().len() / 2,
            r.1 == Some((self.bytes().len() / 2) as usize),
    {
        (self.len(), Some(self.len()))
    }

    /// The number of code units left.
    pub fn len(&self) -> (r: usize)
        ensures
            r == self.bytes().len() / 2,
            r == self.units().len(),
    {
        self.data.len() / 2
    }
}

/// A descriptor.
#[derive(Clone, Copy, Debug)]
pub enum Descriptor<'a> {
    Device(Device),
    Configuration(Configuration),
    String(StringIter<'a>),
    Interface(Interface),
    Endpoint(Endpoint),
    Hid(Hid),
    Report(Report<'a>),
    Unknown { ty: u8, data: &'a [u8] },
}

impl<'a> Descriptor<'a> {
    /// The device descriptor, if this is one.
    pub fn into_device(self) -> (r: Option<Device>)
        ensures
            r == (match self {
                Descriptor::Device(v) => Some(v),
                _ => None,
            }),
    {
        match self {
            Self::Device(v) => Some(v),
            _ => None,
        }
    }

    /// The string descriptor, if this is one.
    pub fn into_string(self) -> (r: Option<StringIter<'a>>)
        ensures
            r == (match self {
                Descriptor::String(v) => Some(v),
                _ => None,
            }),
    {
        match self {
            Self::String(v) => Some(v),
            _ => None,
        }
    }

    /// The configuration descriptor, if this is one.
    pub fn into_configuration(self) -> (r: Option<Configuration>)
        ensures
            r == (match self {
                Descriptor::Configuration(v) => Some(v),
                _ => None,
            }),
    {
        match self {
            Self::Configuration(v) => Some(v),
            _ => None,
        }
    }
}

/// Why a descriptor could not be decoded.
#[derive(Clone, Copy, Debug, PartialEq, Eq, Structural)]
pub enum InvalidDescriptor {
    Truncated { length: u8 },
    Device(InvalidDevice),
    Configuration(InvalidConfiguration),
    String(InvalidString),
    Interface(InvalidInterface),
    Endpoint(InvalidEndpoint),
    Hid(InvalidHid),
    Report(InvalidReport),
}

/// A cursor over a sequence of descriptors, each led by its length and its type.
pub struct Iter<'a> {
    buf: &'a [u8],
}

/// A cursor over the descriptors in `buf`.
pub fn decode(buf: &[u8]) -> (r: Iter<'_>)
    ensures
        r.remaining() == buf@,
{
    Iter { buf }
}

/// Whether the descriptor at the start of `b` declares a length that `b` cannot hold.
pub open spec fn descriptor_truncated(b: Seq<u8>) -> bool {
    b[0] < 2 || b[0] > b.len()
}

/// The body of the descriptor at the start of `b`.
pub open spec fn descriptor_body(b: Seq<u8>) -> Seq<u8> {
    b.subrange(2, b[0] as int)
}

/// Whether `r` is the result of decoding the descriptor at the start of `b`, whose length is
/// valid.
pub open spec fn decoded<'a>(b: Seq<u8>, r: Result<Descriptor<'a>, InvalidDescriptor>) -> bool {
    let body = descriptor_body(b);
    let ty = b[1];
    if ty == DEVICE {
        r == if body.len() == 16 {
            Ok::<Descriptor<'a>, InvalidDescriptor>(Descriptor::Device(device_of(body)))
        } else {
            Err(InvalidDescriptor::Device(InvalidDevice::UnexpectedLength))
        }
    } else if ty == CONFIGURATION {
        r == if body.len() == 7 {
            Ok::<Descriptor<'a>, InvalidDescriptor>(Descriptor::Configuration(configuration_of(body)))
        } else {
            Err(InvalidDescriptor::Configuration(InvalidConfiguration::UnexpectedLength))
        }
    } else if ty == STRING {
        if body.len() % 2 == 0 {
            r matches Ok(Descriptor::String(s)) && s.bytes() == body
        } else {
            r == Err::<Descriptor<'a>, InvalidDescriptor>(InvalidDescriptor::String(InvalidString::UnexpectedLength))
        }
    } else if ty == INTERFACE {
        r == if body.len() == 7 {
            Ok::<Descriptor<'a>, InvalidDescriptor>(Descriptor::Interface(interface_of(body)))
        } else {
            Err(InvalidDescriptor::Interface(InvalidInterface::UnexpectedLength))
        }
    } else if ty == ENDPOINT {
        if body.len() != 5 {
            r == Err::<Descriptor<'a>, InvalidDescriptor>(InvalidDescriptor::Endpoint(InvalidEndpoint::UnexpectedLength))
        } else if !valid_address(body[0]) {
            r == Err::<Descriptor<'a>, InvalidDescriptor>(InvalidDescriptor::Endpoint(InvalidEndpoint::InvalidAddress))
        } else if !valid_attributes(body[1]) {
            r == Err::<Descriptor<'a>, InvalidDescriptor>(InvalidDescriptor::Endpoint(InvalidEndpoint::InvalidAttributes))
        } else {
            r matches Ok(Descriptor::Endpoint(e)) && e.address.raw() == body[0]
                && e.attributes.raw() == body[1] && e.max_packet_size == le16(body[2], body[3])
                && e.interval == body[4]
        }
    } else if ty == HID {
        r == if body.len() == 7 {
            Ok::<Descriptor<'a>, InvalidDescriptor>(Descriptor::Hid(hid_of(body)))
        } else {
            Err(InvalidDescriptor::Hid(InvalidHid::UnexpectedLength))
        }
    } else if ty == REPORT {
        r matches Ok(Descriptor::Report(rep)) && rep.data@ == body
    } else {
        r matches Ok(Descriptor::Unknown { ty: t, data }) && t == ty && data@ == body
    }
}

impl<'a> Iter<'a> {
    /// The bytes not read yet.
    pub closed spec fn remaining(&self) -> Seq<u8> {
        self.buf@
    }

    /// Decodes the next descriptor. After an error nothing is left to read.
    pub fn next(&mut self) -> (r: Option<Result<Descriptor<'a>, InvalidDescriptor>>)
        ensures
            ({
                let b = old(self).remaining();
                if b.len() == 0 {
                    r is None && final(self).remaining() == b
                } else if descriptor_truncated(b) {
                    r == Some(Err::<Descriptor<'a>, InvalidDescriptor>(
                        InvalidDescriptor::Truncated { length: if b[0] < 2 { 2 } else { b[0] } },
                    )) && final(self).remaining().len() == 0
                } else {
                    &&& r matches Some(res) && decoded(b, res)
                    &&& final(self).remaining() == if r matches Some(Ok(_)) {
                        b.skip(b[0] as int)
                    } else {
                        Seq::<u8>::empty()
                    }
                }
            }),
    {
        if self.buf.len() == 0 {
            return None;
        }
        let buf = self.buf;
        self.buf = slice_subrange(buf, 0, 0);
        let l = buf[0];
        if l < 2 || l as usize > buf.len() {
            return Some(Err(InvalidDescriptor::Truncated { length: if l < 2 { 2 } else { l } }));
        }
        let b = slice_subrange(buf, 2, l as usize);
        let ty = buf[1];
        let r = if ty == DEVICE {
            match Device::from_raw(b) {
                Ok(v) => Descriptor::Device(v),
                Err(e) => return Some(Err(InvalidDescriptor::Device(e))),
            }
        } else if ty == CONFIGURATION {
            match Configuration::from_raw(b) {
                Ok(v) => Descriptor::Configuration(v),
                Err(e) => return Some(Err(InvalidDescriptor::Configuration(e))),
            }
        } else if ty == STRING {
            match StringIter::from_raw(b) {
                Ok(v) => Descriptor::String(v),
                Err(e) => return Some(Err(InvalidDescriptor::String(e))),
            }
        } else if ty == INTERFACE {
            match Interface::from_raw(b) {
                Ok(v) => Descriptor::Interface(v),
                Err(e) => return Some(Err(InvalidDescriptor::Interface(e))),
            }
        } else if ty == ENDPOINT {
            match Endpoint::from_raw(b) {
                Ok(v) => Descriptor::Endpoint(v),
                Err(e) => return Some(Err(InvalidDescriptor::Endpoint(e))),
            }
        } else if ty == HID {
            match Hid::from_raw(b) {
                Ok(v) => Descriptor::Hid(v),
                Err(e) => return Some(Err(InvalidDescriptor::Hid(e))),
            }
        } else if ty == REPORT {
            match Report::from_raw(b) {
                Ok(v) => Descriptor::Report(v),
                Err(e) => return Some(Err(InvalidDescriptor::Report(e))),
            }
        } else {
            Descriptor::Unknown { ty, data: b }
        };
        self.buf = slice_subrange(buf, l as usize, buf.len());
        assert(self.buf@ =~= buf@.skip(l as int));
        Some(Ok(r))
    }
}

} // verus!
