//! Decoding of single report-descriptor items (HID 1.11, 6.2.2).
use vstd::prelude::*;
use vstd::slice::slice_subrange;
use crate::bytes::{
    byte_span, le_bytes, le_value, signed_bytes, signed_value, read_u32, read_i32,
    lemma_le_round_trip, lemma_le_value_bound, lemma_signed_round_trip,
};

verus! {

/// Prefix byte that introduces a long item.
pub const LONG_ITEM: u8 = 0xfe;

// Main items (6.2.2.4)
pub const INPUT: u8 = 0x80;
pub const OUTPUT: u8 = 0x90;
pub const COLLECTION: u8 = 0xa0;
pub const FEATURE: u8 = 0xb0;
pub const END_COLLECTION: u8 = 0xc0;

// Global items (6.2.2.7)
pub const USAGE_PAGE: u8 = 0x04;
pub const LOGI_MIN: u8 = 0x14;
pub const LOGI_MAX: u8 = 0x24;
pub const PHYS_MIN: u8 = 0x34;
pub const PHYS_MAX: u8 = 0x44;
pub const UNIT_EXP: u8 = 0x54;
pub const UNIT: u8 = 0x64;
pub const REPORT_SIZE: u8 = 0x74;
pub const REPORT_ID: u8 = 0x84;
pub const REPORT_COUNT: u8 = 0x94;
pub const PUSH: u8 = 0xa4;
pub const POP: u8 = 0xb4;

// Local items (6.2.2.8)
pub const USAGE: u8 = 0x08;
pub const USAGE_MIN: u8 = 0x18;
pub const USAGE_MAX: u8 = 0x28;
pub const DESIGNATOR_INDEX: u8 = 0x38;
pub const DESIGNATOR_MIN: u8 = 0x48;
pub const DESIGNATOR_MAX: u8 = 0x58;
pub const STRING_INDEX: u8 = 0x78;
pub const STRING_MIN: u8 = 0x88;
pub const STRING_MAX: u8 = 0x98;
pub const DELIMITER: u8 = 0xa8;

/// A single item.
///
/// Main items (`Input`, `Output`, `Feature`, `Collection`, `EndCollection`) define or group
/// data fields. Global items set properties of all data fields defined after them; `Push` and
/// `Pop` save and restore them. Local items set properties of the next main item only.
/// Items with a tag that is not known here are kept as `Unknown` with their raw payload.
#[derive(Clone, Copy, Debug, PartialEq, Eq, PartialOrd, Ord, Hash)]
#[non_exhaustive]
pub enum Item<'a> {
    Input(MainFlags),
    Output(MainFlags),
    Collection(Collection),
    Feature(MainFlags),
    EndCollection,

    UsagePage(u16),
    LogicalMin(i32),
    LogicalMax(i32),
    PhysicalMin(i32),
    PhysicalMax(i32),
    UnitExponent(u32),
    Unit(u32),
    ReportSize(u32),
    ReportId(u8),
    ReportCount(u32),
    Push,
    Pop,

    Usage16(u16),
    Usage32(u16, u16),
    UsageMin(u16),
    UsageMax(u16),
    DesignatorIndex(u32),
    DesignatorMin(u32),
    DesignatorMax(u32),
    StringIndex(u32),
    StringMin(u32),
    StringMax(u32),
    Delimiter(bool),

    Unknown { tag: u8, data: &'a [u8] },
}

/// Whether an item starting at `d[0]` is a long item.
pub open spec fn is_long(d: Seq<u8>) -> bool {
    d[0] == LONG_ITEM
}

/// Payload length of a short item, from the low two bits of its prefix.
pub open spec fn short_size(prefix: u8) -> nat {
    let code = prefix % 4;
    if code == 3 {
        4
    } else {
        code as nat
    }
}

/// Bytes before the payload: the prefix, and for a long item its length and tag.
pub open spec fn header_len(d: Seq<u8>) -> nat {
    if is_long(d) {
        3
    } else {
        1
    }
}

/// The payload length that the item at the start of `d` declares.
pub open spec fn declared_len(d: Seq<u8>) -> nat {
    if is_long(d) {
        if d.len() >= 2 {
            d[1] as nat
        } else {
            0
        }
    } else {
        short_size(d[0])
    }
}

/// Total length of the item at the start of `d`.
pub open spec fn item_len(d: Seq<u8>) -> nat {
    header_len(d) + declared_len(d)
}

/// Whether `d` ends before the item at its start does.
pub open spec fn is_truncated(d: Seq<u8>) -> bool {
    d.len() == 0 || d.len() < item_len(d)
}

/// The tag of the item at the start of `d`.
pub open spec fn item_tag(d: Seq<u8>) -> u8 {
    if is_long(d) {
        d[2]
    } else {
        (d[0] - d[0] % 4) as u8
    }
}

/// The payload of the item at the start of `d`.
pub open spec fn item_payload(d: Seq<u8>) -> Seq<u8> {
    d.subrange(header_len(d) as int, item_len(d) as int)
}

/// Tags whose payload is a number of up to four bytes.
pub open spec fn is_wide(tag: u8) -> bool {
    tag == INPUT || tag == OUTPUT || tag == FEATURE || tag == LOGI_MIN || tag == LOGI_MAX
        || tag == PHYS_MIN || tag == PHYS_MAX || tag == UNIT_EXP || tag == UNIT || tag
        == REPORT_SIZE || tag == REPORT_COUNT || tag == USAGE || tag == DESIGNATOR_INDEX || tag
        == DESIGNATOR_MIN || tag == DESIGNATOR_MAX || tag == STRING_INDEX || tag == STRING_MIN
        || tag == STRING_MAX
}

/// Whether `p` is an acceptable payload for an item with tag `tag`.
pub open spec fn payload_fits(tag: u8, p: Seq<u8>) -> bool {
    if tag == COLLECTION {
        p.len() <= 1
    } else if tag == END_COLLECTION {
        p.len() == 0
    } else if tag == USAGE_PAGE || tag == USAGE_MIN || tag == USAGE_MAX {
        p.len() <= 2
    } else if tag == REPORT_ID {
        p.len() <= 1
    } else if tag == DELIMITER {
        p.len() == 1 && p[0] <= 1
    } else if is_wide(tag) {
        p.len() <= 4
    } else {
        true
    }
}

/// Whether `item` is what an item with tag `tag` and an acceptable payload `p` stands for.
pub open spec fn denotes(item: Item, tag: u8, p: Seq<u8>) -> bool {
    let u = le_value(p);
    let s = signed_value(p);
    if tag == INPUT {
        item == Item::Input(MainFlags(u as u32))
    } else if tag == OUTPUT {
        item == Item::Output(MainFlags(u as u32))
    } else if tag == COLLECTION {
        item == Item::Collection(collection_kind(u as u8))
    } else if tag == FEATURE {
        item == Item::Feature(MainFlags(u as u32))
    } else if tag == END_COLLECTION {
        item == Item::EndCollection
    } else if tag == USAGE_PAGE {
        item == Item::UsagePage(u as u16)
    } else if tag == LOGI_MIN {
        item == Item::LogicalMin(s as i32)
    } else if tag == LOGI_MAX {
        item == Item::LogicalMax(s as i32)
    } else if tag == PHYS_MIN {
        item == Item::PhysicalMin(s as i32)
    } else if tag == PHYS_MAX {
        item == Item::PhysicalMax(s as i32)
    } else if tag == UNIT_EXP {
        item == Item::UnitExponent(u as u32)
    } else if tag == UNIT {
        item == Item::Unit(u as u32)
    } else if tag == REPORT_SIZE {
        item == Item::ReportSize(u as u32)
    } else if tag == REPORT_ID {
        item == Item::ReportId(u as u8)
    } else if tag == REPORT_COUNT {
        item == Item::ReportCount(u as u32)
    } else if tag == PUSH {
        item == Item::Push
    } else if tag == POP {
        item == Item::Pop
    } else if tag == USAGE {
        if p.len() <= 2 {
            item == Item::Usage16(u as u16)
        } else {
            item == Item::Usage32(le_value(p.skip(2)) as u16, le_value(p.take(2)) as u16)
        }
    } else if tag == USAGE_MIN {
        item == Item::UsageMin(u as u16)
    } else if tag == USAGE_MAX {
        item == Item::UsageMax(u as u16)
    } else if tag == DESIGNATOR_INDEX {
        item == Item::DesignatorIndex(u as u32)
    } else if tag == DESIGNATOR_MIN {
        item == Item::DesignatorMin(u as u32)
    } else if tag == DESIGNATOR_MAX {
        item == Item::DesignatorMax(u as u32)
    } else if tag == STRING_INDEX {
        item == Item::StringIndex(u as u32)
    } else if tag == STRING_MIN {
        item == Item::StringMin(u as u32)
    } else if tag == STRING_MAX {
        item == Item::StringMax(u as u32)
    } else if tag == DELIMITER {
        item == Item::Delimiter(p[0] == 0)
    } else {
        match item {
            Item::Unknown { tag: t, data } => t == tag && data@ == p,
            _ => false,
        }
    }
}

/// What decoding the item at the start of `d` yields: the error, or the item's tag and payload.
pub open spec fn decode_error(d: Seq<u8>) -> Option<ParseError> {
    if is_truncated(d) {
        Some(ParseError::Truncated)
    } else if !payload_fits(item_tag(d), item_payload(d)) {
        Some(ParseError::UnexpectedData)
    } else {
        None
    }
}

/// The number that a numeric item holds, with whether it is signed.
pub open spec fn number_in(item: Item) -> Option<(int, bool)> {
    match item {
        Item::Input(f) => Some((f.0 as int, false)),
        Item::Output(f) => Some((f.0 as int, false)),
        Item::Feature(f) => Some((f.0 as int, false)),
        Item::UsagePage(n) => Some((n as int, false)),
        Item::LogicalMin(n) => Some((n as int, true)),
        Item::LogicalMax(n) => Some((n as int, true)),
        Item::PhysicalMin(n) => Some((n as int, true)),
        Item::PhysicalMax(n) => Some((n as int, true)),
        Item::UnitExponent(n) => Some((n as int, false)),
        Item::Unit(n) => Some((n as int, false)),
        Item::ReportSize(n) => Some((n as int, false)),
        Item::ReportId(n) => Some((n as int, false)),
        Item::ReportCount(n) => Some((n as int, false)),
        Item::Usage16(n) => Some((n as int, false)),
        Item::UsageMin(n) => Some((n as int, false)),
        Item::UsageMax(n) => Some((n as int, false)),
        Item::DesignatorIndex(n) => Some((n as int, false)),
        Item::DesignatorMin(n) => Some((n as int, false)),
        Item::DesignatorMax(n) => Some((n as int, false)),
        Item::StringIndex(n) => Some((n as int, false)),
        Item::StringMin(n) => Some((n as int, false)),
        Item::StringMax(n) => Some((n as int, false)),
        _ => None,
    }
}

/// Decoding a numeric item and writing its number back at the width of its payload gives the
/// payload back, for every payload length the item's tag accepts.
pub proof fn lemma_width_round_trip(item: Item, tag: u8, p: Seq<u8>)
    requires
        payload_fits(tag, p),
        denotes(item, tag, p),
    ensures
        match number_in(item) {
            Some((n, true)) => signed_bytes(n, p.len()) == p,
            Some((n, false)) => n >= 0 && le_bytes(n as nat, p.len()) == p,
            None => true,
        },
{
    reveal_with_fuel(byte_span, 5);
    reveal_with_fuel(le_value, 5);
    lemma_le_value_bound(p);
    lemma_le_round_trip(p);
    lemma_signed_round_trip(p);
}

/// A buffer shorter than the prefix and the payload that the prefix declares is reported as
/// truncated, whatever the tag.
pub proof fn lemma_truncation(d: Seq<u8>)
    requires
        1 <= d.len() < 1 + declared_len(d),
    ensures
        decode_error(d) == Some(ParseError::Truncated),
{
}

/// Payload with at most `max` bytes, read as an unsigned number.
pub(crate) fn unsigned(d: &[u8], max: usize) -> (r: Result<u32, ParseError>)
    requires
        max <= 4,
    ensures
        d@.len() <= max ==> r == Ok::<u32, ParseError>(le_value(d@) as u32),
        d@.len() <= max ==> le_value(d@) < crate::bytes::byte_span(d@.len()),
        d@.len() > max ==> r == Err::<u32, ParseError>(ParseError::UnexpectedData),
{
    if d.len() > max {
        Err(ParseError::UnexpectedData)
    } else {
        Ok(read_u32(d))
    }
}

/// Splits the item at the start of `data` into its tag, its payload and the bytes after it.
pub fn split<'a>(data: &'a [u8]) -> (r: Result<(u8, &'a [u8], &'a [u8]), ParseError>)
    ensures
        is_truncated(data@) ==> r == Err::<(u8, &'a [u8], &'a [u8]), ParseError>(ParseError::Truncated),
        !is_truncated(data@) ==> match r {
            Ok((tag, payload, rest)) => tag == item_tag(data@) && payload@ == item_payload(data@)
                && rest@ == data@.skip(item_len(data@) as int),
            Err(_) => false,
        },
{
    if data.len() == 0 {
        return Err(ParseError::Truncated);
    }
    let prefix = data[0];
    let start: usize;
    let size: usize;
    let tag: u8;
    if prefix == LONG_ITEM {
        if data.len() < 3 {
            return Err(ParseError::Truncated);
        }
        start = 3;
        size = data[1] as usize;
        tag = data[2];
    } else {
        start = 1;
        let code = prefix & 3;
        assert(prefix & 3 == prefix % 4) by (bit_vector);
        size = if code == 3 {
            4
        } else {
            code as usize
        };
        tag = prefix - code;
    }
    if data.len() - start < size {
        return Err(ParseError::Truncated);
    }
    let d = slice_subrange(data, start, start + size);
    let rest = slice_subrange(data, start + size, data.len());
    assert(rest@ =~= data@.skip(item_len(data@) as int));
    Ok((tag, d, rest))
}

impl<'a> Item<'a> {
    /// Decodes the item at the start of `data`; returns it with the bytes after it.
    pub fn parse(data: &'a [u8]) -> (r: Result<(Item<'a>, &'a [u8]), ParseError>)
        ensures
            match decode_error(data@) {
                Some(e) => r == Err::<(Item<'a>, &'a [u8]), ParseError>(e),
                None => match r {
                    Ok((item, rest)) => denotes(item, item_tag(data@), item_payload(data@))
                        && rest@ == data@.skip(item_len(data@) as int),
                    Err(_) => false,
                },
            },
    {
        let (tag, d, rest) = match split(data) {
            Ok(parts) => parts,
            Err(e) => return Err(e),
        };
        match Self::decode(tag, d) {
            Ok(item) => Ok((item, rest)),
            Err(e) => Err(e),
        }
    }

    /// Interprets payload `d` according to `tag`.
    pub(crate) fn decode(tag: u8, d: &'a [u8]) -> (r: Result<Item<'a>, ParseError>)
        ensures
            payload_fits(tag, d@) ==> match r {
                Ok(item) => denotes(item, tag, d@),
                Err(_) => false,
            },
            !payload_fits(tag, d@) ==> r == Err::<Item<'a>, ParseError>(ParseError::UnexpectedData),
    {
        proof {
            reveal_with_fuel(crate::bytes::byte_span, 3);
        }
        let item = if tag == INPUT {
            Item::Input(MainFlags(unsigned(d, 4)?))
        } else if tag == OUTPUT {
            Item::Output(MainFlags(unsigned(d, 4)?))
        } else if tag == COLLECTION {
            let raw = unsigned(d, 1)?;
            Item::Collection(Collection::from_raw(raw as u8))
        } else if tag == FEATURE {
            Item::Feature(MainFlags(unsigned(d, 4)?))
        } else if tag == END_COLLECTION {
            if d.len() != 0 {
                return Err(ParseError::UnexpectedData);
            }
            Item::EndCollection
        } else if tag == USAGE_PAGE {
            Item::UsagePage(unsigned(d, 2)? as u16)
        } else if tag == LOGI_MIN || tag == LOGI_MAX || tag == PHYS_MIN || tag == PHYS_MAX {
            if d.len() > 4 {
                return Err(ParseError::UnexpectedData);
            }
            let n = read_i32(d);
            if tag == LOGI_MIN {
                Item::LogicalMin(n)
            } else if tag == LOGI_MAX {
                Item::LogicalMax(n)
            } else if tag == PHYS_MIN {
                Item::PhysicalMin(n)
            } else {
                Item::PhysicalMax(n)
            }
        } else if tag == UNIT_EXP {
            Item::UnitExponent(unsigned(d, 4)?)
        } else if tag == UNIT {
            Item::Unit(unsigned(d, 4)?)
        } else if tag == REPORT_SIZE {
            Item::ReportSize(unsigned(d, 4)?)
        } else if tag == REPORT_ID {
            Item::ReportId(unsigned(d, 1)? as u8)
        } else if tag == REPORT_COUNT {
            Item::ReportCount(unsigned(d, 4)?)
        } else if tag == PUSH {
            Item::Push
        } else if tag == POP {
            Item::Pop
        } else if tag == USAGE {
            if d.len() <= 2 {
                Item::Usage16(read_u32(d) as u16)
            } else if d.len() <= 4 {
                let id = read_u32(slice_subrange(d, 0, 2));
                let page = read_u32(slice_subrange(d, 2, d.len()));
                proof {
                    assert(d@.take(2) =~= d@.subrange(0, 2));
                    assert(d@.skip(2) =~= d@.subrange(2, d@.len() as int));
                }
                Item::Usage32(page as u16, id as u16)
            } else {
                return Err(ParseError::UnexpectedData);
            }
        } else if tag == USAGE_MIN {
            Item::UsageMin(unsigned(d, 2)? as u16)
        } else if tag == USAGE_MAX {
            Item::UsageMax(unsigned(d, 2)? as u16)
        } else if tag == DESIGNATOR_INDEX {
            Item::DesignatorIndex(unsigned(d, 4)?)
        } else if tag == DESIGNATOR_MIN {
            Item::DesignatorMin(unsigned(d, 4)?)
        } else if tag == DESIGNATOR_MAX {
            Item::DesignatorMax(unsigned(d, 4)?)
        } else if tag == STRING_INDEX {
            Item::StringIndex(unsigned(d, 4)?)
        } else if tag == STRING_MIN {
            Item::StringMin(unsigned(d, 4)?)
        } else if tag == STRING_MAX {
            Item::StringMax(unsigned(d, 4)?)
        } else if tag == DELIMITER {
            if d.len() != 1 || d[0] > 1 {
                return Err(ParseError::UnexpectedData);
            }
            Item::Delimiter(d[0] == 0)
        } else {
            Item::Unknown { tag, data: d }
        };
        Ok(item)
    }
}

/// A 32-bit set of flags attached to `Input`, `Output` and `Feature` items.
#[derive(Clone, Copy, Debug, PartialEq, Eq, Structural, PartialOrd, Ord, Hash)]
pub struct MainFlags(pub u32);

/// Whether bit `k` of `x` is set.
pub open spec fn bit_set(x: u32, k: nat) -> bool {
    (x as nat / vstd::arithmetic::power2::pow2(k)) % 2 == 1
}

impl MainFlags {
    fn bit(&self, k: u32) -> (r: bool)
        requires
            k < 32,
        ensures
            r == bit_set(self.0, k as nat),
    {
        let x = self.0;
        proof {
            vstd::bits::lemma_u32_shr_is_div(x, k);
        }
        let y = x >> k;
        assert(y & 1 == y % 2) by (bit_vector);
        y & 1 == 1
    }

    /// Whether a value is constant, i.e. cannot be modified by the host.
    pub fn constant(&self) -> (r: bool)
        ensures
            r == bit_set(self.0, 0),
    {
        self.bit(0)
    }

    /// Whether each field of the item is a variable rather than an array entry.
    pub fn variable(&self) -> (r: bool)
        ensures
            r == bit_set(self.0, 1),
    {
        self.bit(1)
    }

    /// Whether data is relative rather than absolute.
    pub fn relative(&self) -> (r: bool)
        ensures
            r == bit_set(self.0, 2),
    {
        self.bit(2)
    }

    /// Whether data may wrap around.
    pub fn wrap(&self) -> (r: bool)
        ensures
            r == bit_set(self.0, 3),
    {
        self.bit(3)
    }

    /// Whether the relation between the real and the reported value is not linear.
    pub fn nonlinear(&self) -> (r: bool)
        ensures
            r == bit_set(self.0, 4),
    {
        self.bit(4)
    }

    /// Whether the control has no default state to return to when left alone.
    pub fn nopreferred(&self) -> (r: bool)
        ensures
            r == bit_set(self.0, 5),
    {
        self.bit(5)
    }

    /// Whether the control has a state in which it sends no meaningful data.
    pub fn null(&self) -> (r: bool)
        ensures
            r == bit_set(self.0, 6),
    {
        self.bit(6)
    }

    /// Whether an output value may change without host interaction.
    pub fn volatile(&self) -> (r: bool)
        ensures
            r == bit_set(self.0, 7),
    {
        self.bit(7)
    }

    /// Same as [`MainFlags::nonlinear`].
    pub fn non_linear(&self) -> (r: bool)
        ensures
            r == bit_set(self.0, 4),
    {
        self.bit(4)
    }

    /// Same as [`MainFlags::nopreferred`].
    pub fn no_preferred(&self) -> (r: bool)
        ensures
            r == bit_set(self.0, 5),
    {
        self.bit(5)
    }

    /// Same as [`MainFlags::null`].
    pub fn null_state(&self) -> (r: bool)
        ensures
            r == bit_set(self.0, 6),
    {
        self.bit(6)
    }

    /// Whether the control emits a stream of bytes rather than a bit field.
    pub fn buffered_bytes(&self) -> (r: bool)
        ensures
            r == bit_set(self.0, 8),
    {
        self.bit(8)
    }
}

/// The kind of a collection of items.
#[derive(Clone, Copy, Debug, PartialEq, Eq, Structural, PartialOrd, Ord, Hash)]
#[non_exhaustive]
pub enum Collection {
    Physical,
    Application,
    Logical,
    Report,
    NamedArray,
    UsageSwitch,
    UsageModifier,
    Unknown(u8),
}

/// The collection kind with raw code `raw` (HID 1.11, 6.2.2.6).
pub open spec fn collection_kind(raw: u8) -> Collection {
    if raw == 0 {
        Collection::Physical
    } else if raw == 1 {
        Collection::Application
    } else if raw == 2 {
        Collection::Logical
    } else if raw == 3 {
        Collection::Report
    } else if raw == 4 {
        Collection::NamedArray
    } else if raw == 5 {
        Collection::UsageSwitch
    } else if raw == 6 {
        Collection::UsageModifier
    } else {
        Collection::Unknown(raw)
    }
}

impl Collection {
    /// The collection kind with raw code `raw`.
    pub fn from_raw(raw: u8) -> (r: Self)
        ensures
            r == collection_kind(raw),
    {
        match raw {
            0x00 => Self::Physical,
            0x01 => Self::Application,
            0x02 => Self::Logical,
            0x03 => Self::Report,
            0x04 => Self::NamedArray,
            0x05 => Self::UsageSwitch,
            0x06 => Self::UsageModifier,
            r => Self::Unknown(r),
        }
    }
}

/// Why an item could not be decoded.
#[derive(Clone, Copy, Debug, PartialEq, Eq, Structural)]
pub enum ParseError {
    /// An item is longer than the amount of bytes remaining in the buffer.
    Truncated,
    /// An item has an unexpected data value.
    UnexpectedData,
}

/// A cursor over the items of a report descriptor.
pub struct Parser<'a> {
    pub(crate) data: &'a [u8],
}

impl<'a> Parser<'a> {
    /// The bytes not read yet.
    pub closed spec fn remaining(&self) -> Seq<u8> {
        self.data@
    }

    /// Decodes the next item. Returns `None` at the end of the descriptor. After an error the
    /// cursor stays where it was.
    pub fn next(&mut self) -> (r: Option<Result<Item<'a>, ParseError>>)
        ensures
            old(self).remaining().len() == 0 ==> r is None && final(self).remaining()
                == old(self).remaining(),
            old(self).remaining().len() > 0 ==> match decode_error(old(self).remaining()) {
                Some(e) => r == Some(Err::<Item<'a>, ParseError>(e)) && final(self).remaining()
                    == old(self).remaining(),
                None => match r {
                    Some(Ok(item)) => denotes(
                        item,
                        item_tag(old(self).remaining()),
                        item_payload(old(self).remaining()),
                    ) && final(self).remaining() == old(self).remaining().skip(
                        item_len(old(self).remaining()) as int,
                    ),
                    _ => false,
                },
            },
    {
        if self.data.len() == 0 {
            return None;
        }
        match Item::parse(self.data) {
            Ok((item, rest)) => {
                self.data = rest;
                Some(Ok(item))
            },
            Err(e) => Some(Err(e)),
        }
    }
}

/// A cursor over the items of the report descriptor `data`.
pub fn parse(data: &[u8]) -> (r: Parser<'_>)
    ensures
        r.remaining() == data@,
{
    Parser { data }
}

} // verus!
