//! Items with their usage pages and usages looked up in the usage tables. A `Usage` item with
//! a payload of up to two bytes is on the usage page that the last `UsagePage` item set.
use vstd::prelude::*;
use crate::bytes::{le_value, signed_value, read_u32, read_i32};
use crate::item::{
    is_truncated, is_wide, item_len, item_payload, item_tag, split, unsigned,
    collection_kind, COLLECTION, DELIMITER, DESIGNATOR_INDEX, DESIGNATOR_MAX, DESIGNATOR_MIN,
    END_COLLECTION, FEATURE, INPUT, LOGI_MAX, LOGI_MIN, OUTPUT, PHYS_MAX, PHYS_MIN, POP, PUSH,
    REPORT_COUNT, REPORT_ID, REPORT_SIZE, STRING_INDEX, STRING_MAX, STRING_MIN, UNIT, UNIT_EXP,
    USAGE, USAGE_MAX, USAGE_MIN, USAGE_PAGE,
};
use vstd::slice::slice_subrange;
use crate::usage::{Usage, UsagePage, page_number, page_of, usage_of};

pub use crate::item::{Collection, MainFlags, ParseError};

verus! {

/// A single item, with usage pages and usages resolved.
#[derive(Clone, Copy, Debug, PartialEq, Eq, PartialOrd, Ord, Hash)]
#[non_exhaustive]
pub enum Item<'a> {
    Input(MainFlags),
    Output(MainFlags),
    Collection(Collection),
    Feature(MainFlags),
    EndCollection,

    UsagePage(UsagePage),
    LogicalMin(i32),
    LogicalMax(i32),
    PhysicalMin(i32),
    PhysicalMax(i32),
    UnitExponential(u32),
    Unit(u32),
    ReportSize(u32),
    ReportId(u8),
    ReportCount(u32),
    Push,
    Pop,

    Usage(Usage),
    UsageMin(u32),
    UsageMax(u32),
    DesignatorIndex(u32),
    DesignatorMin(u32),
    DesignatorMax(u32),
    StringIndex(u32),
    StringMin(u32),
    StringMax(u32),
    Delimiter(bool),

    Unknown { tag: u8, data: &'a [u8] },
}

/// Whether `p` is an acceptable payload for an item with tag `tag`. A collection kind takes
/// at most one byte, and usage bounds take up to four.
pub open spec fn fits(tag: u8, p: Seq<u8>) -> bool {
    if tag == COLLECTION || tag == REPORT_ID {
        p.len() <= 1
    } else if tag == END_COLLECTION {
        p.len() == 0
    } else if tag == USAGE_PAGE {
        p.len() <= 2
    } else if tag == DELIMITER {
        p.len() == 1 && p[0] <= 1
    } else if is_wide(tag) || tag == USAGE_MIN || tag == USAGE_MAX {
        p.len() <= 4
    } else {
        true
    }
}

/// Whether `item` is what an item with tag `tag` and an acceptable payload `p` stands for,
/// where `page` is the current usage page.
pub open spec fn denotes(item: Item, tag: u8, p: Seq<u8>, page: u16) -> bool {
    let u = le_value(p);
    let s = signed_value(p);
    if tag == INPUT {
        item == Item::Input(MainFlags(u as u32))
    } else if tag == OUTPUT {
        item == Item::Output(MainFlags(u as u32))
    } else if tag == COLLECTION {
        item == Item::Collection(collection_kind(u as u8))
    } else if tag == FEATURE {
        item == Item::Feature(MainFlags(u as u32))
    } else if tag == END_COLLECTION {
        item == Item::EndCollection
    } else if tag == USAGE_PAGE {
        item == Item::UsagePage(page_of(u as u16))
    } else if tag == LOGI_MIN {
        item == Item::LogicalMin(s as i32)
    } else if tag == LOGI_MAX {
        item == Item::LogicalMax(s as i32)
    } else if tag == PHYS_MIN {
        item == Item::PhysicalMin(s as i32)
    } else if tag == PHYS_MAX {
        item == Item::PhysicalMax(s as i32)
    } else if tag == UNIT_EXP {
        item == Item::UnitExponential(u as u32)
    } else if tag == UNIT {
        item == Item::Unit(u as u32)
    } else if tag == REPORT_SIZE {
        item == Item::ReportSize(u as u32)
    } else if tag == REPORT_ID {
        item == Item::ReportId(u as u8)
    } else if tag == REPORT_COUNT {
        item == Item::ReportCount(u as u32)
    } else if tag == PUSH {
        item == Item::Push
    } else if tag == POP {
        item == Item::Pop
    } else if tag == USAGE {
        if p.len() <= 2 {
            item == Item::Usage(usage_of(page, u as u16))
        } else {
            item == Item::Usage(usage_of(le_value(p.skip(2)) as u16, le_value(p.take(2)) as u16))
        }
    } else if tag == USAGE_MIN {
        item == Item::UsageMin(u as u32)
    } else if tag == USAGE_MAX {
        item == Item::UsageMax(u as u32)
    } else if tag == DESIGNATOR_INDEX {
        item == Item::DesignatorIndex(u as u32)
    } else if tag == DESIGNATOR_MIN {
        item == Item::DesignatorMin(u as u32)
    } else if tag == DESIGNATOR_MAX {
        item == Item::DesignatorMax(u as u32)
    } else if tag == STRING_INDEX {
        item == Item::StringIndex(u as u32)
    } else if tag == STRING_MIN {
        item == Item::StringMin(u as u32)
    } else if tag == STRING_MAX {
        item == Item::StringMax(u as u32)
    } else if tag == DELIMITER {
        item == Item::Delimiter(p[0] == 0)
    } else {
        match item {
            Item::Unknown { tag: t, data } => t == tag && data@ == p,
            _ => false,
        }
    }
}

/// The error of decoding the item at the start of `d`, if any.
pub open spec fn error_of(d: Seq<u8>) -> Option<ParseError> {
    if is_truncated(d) {
        Some(ParseError::Truncated)
    } else if !fits(item_tag(d), item_payload(d)) {
        Some(ParseError::UnexpectedData)
    } else {
        None
    }
}

impl<'a> Item<'a> {
    /// Decodes the item at the start of `data`, where `usage_page` is the current usage page;
    /// returns it with the bytes after it.
    pub fn parse(data: &'a [u8], usage_page: u16) -> (r: Result<(Item<'a>, &'a [u8]), ParseError>)
        ensures
            match error_of(data@) {
                Some(e) => r == Err::<(Item<'a>, &'a [u8]), ParseError>(e),
                None => match r {
                    Ok((item, rest)) => denotes(item, item_tag(data@), item_payload(data@), usage_page)
                        && rest@ == data@.skip(item_len(data@) as int),
                    Err(_) => false,
                },
            },
    {
        let (tag, d, rest) = match split(data) {
            Ok(parts) => parts,
            Err(e) => return Err(e),
        };
        match Self::decode(tag, d, usage_page) {
            Ok(item) => Ok((item, rest)),
            Err(e) => Err(e),
        }
    }

    /// Interprets payload `d` according to `tag`.
    fn decode(tag: u8, d: &'a [u8], usage_page: u16) -> (r: Result<Item<'a>, ParseError>)
        ensures
            fits(tag, d@) ==> match r {
                Ok(item) => denotes(item, tag, d@, usage_page),
                Err(_) => false,
            },
            !fits(tag, d@) ==> r == Err::<Item<'a>, ParseError>(ParseError::UnexpectedData),
    {
        proof {
            reveal_with_fuel(crate::bytes::byte_span, 3);
        }
        let item = if tag == INPUT {
            Item::Input(MainFlags(unsigned(d, 4)?))
        } else if tag == OUTPUT {
            Item::Output(MainFlags(unsigned(d, 4)?))
        } else if tag == COLLECTION {
            Item::Collection(Collection::from_raw(unsigned(d, 1)? as u8))
        } else if tag == FEATURE {
            Item::Feature(MainFlags(unsigned(d, 4)?))
        } else if tag == END_COLLECTION {
            if d.len() != 0 {
                return Err(ParseError::UnexpectedData);
            }
            Item::EndCollection
        } else if tag == USAGE_PAGE {
            Item::UsagePage(UsagePage::from_raw(unsigned(d, 2)? as u16))
        } else if tag == LOGI_MIN || tag == LOGI_MAX || tag == PHYS_MIN || tag == PHYS_MAX {
            if d.len() > 4 {
                return Err(ParseError::UnexpectedData);
            }
            let n = read_i32(d);
            if tag == LOGI_MIN {
                Item::LogicalMin(n)
            } else if tag == LOGI_MAX {
                Item::LogicalMax(n)
            } else if tag == PHYS_MIN {
                Item::PhysicalMin(n)
            } else {
                Item::PhysicalMax(n)
            }
        } else if tag == UNIT_EXP {
            Item::UnitExponential(unsigned(d, 4)?)
        } else if tag == UNIT {
            Item::Unit(unsigned(d, 4)?)
        } else if tag == REPORT_SIZE {
            Item::ReportSize(unsigned(d, 4)?)
        } else if tag == REPORT_ID {
            Item::ReportId(unsigned(d, 1)? as u8)
        } else if tag == REPORT_COUNT {
            Item::ReportCount(unsigned(d, 4)?)
        } else if tag == PUSH {
            Item::Push
        } else if tag == POP {
            Item::Pop
        } else if tag == USAGE {
            if d.len() <= 2 {
                Item::Usage(Usage::from_raw(usage_page, read_u32(d) as u16))
            } else if d.len() <= 4 {
                let id = read_u32(slice_subrange(d, 0, 2));
                let page = read_u32(slice_subrange(d, 2, d.len()));
                proof {
                    assert(d@.take(2) =~= d@.subrange(0, 2));
                    assert(d@.skip(2) =~= d@.subrange(2, d@.len() as int));
                }
                Item::Usage(Usage::from_raw(page as u16, id as u16))
            } else {
                return Err(ParseError::UnexpectedData);
            }
        } else if tag == USAGE_MIN {
            Item::UsageMin(unsigned(d, 4)?)
        } else if tag == USAGE_MAX {
            Item::UsageMax(unsigned(d, 4)?)
        } else if tag == DESIGNATOR_INDEX {
            Item::DesignatorIndex(unsigned(d, 4)?)
        } else if tag == DESIGNATOR_MIN {
            Item::DesignatorMin(unsigned(d, 4)?)
        } else if tag == DESIGNATOR_MAX {
            Item::DesignatorMax(unsigned(d, 4)?)
        } else if tag == STRING_INDEX {
            Item::StringIndex(unsigned(d, 4)?)
        } else if tag == STRING_MIN {
            Item::StringMin(unsigned(d, 4)?)
        } else if tag == STRING_MAX {
            Item::StringMax(unsigned(d, 4)?)
        } else if tag == DELIMITER {
            if d.len() != 1 || d[0] > 1 {
                return Err(ParseError::UnexpectedData);
            }
            Item::Delimiter(d[0] == 0)
        } else {
            Item::Unknown { tag, data: d }
        };
        Ok(item)
    }
}

/// A cursor over the items of a report descriptor that keeps track of the usage page.
pub struct Parser<'a> {
    data: &'a [u8],
    usage_page: u16,
}

impl<'a> Parser<'a> {
    /// The bytes not read yet.
    pub closed spec fn remaining(&self) -> Seq<u8> {
        self.data@
    }

    /// The number of the current usage page.
    pub closed spec fn page(&self) -> u16 {
        self.usage_page
    }

    /// Decodes the next item. Returns `None` at the end of the descriptor. After an error the
    /// cursor stays where it was.
    pub fn next(&mut self) -> (r: Option<Result<Item<'a>, ParseError>>)
        ensures
            ({
                let d = old(self).remaining();
                let page = old(self).page();
                if d.len() == 0 {
                    r is None && *final(self) == *old(self)
                } else {
                    match error_of(d) {
                        Some(e) => r == Some(Err::<Item<'a>, ParseError>(e)) && *final(self)
                            == *old(self),
                        None => match r {
                            Some(Ok(item)) => {
                                &&& denotes(item, item_tag(d), item_payload(d), page)
                                &&& final(self).remaining() == d.skip(item_len(d) as int)
                                &&& final(self).page() == match item {
                                    Item::UsagePage(p) => page_number(p),
                                    _ => page,
                                }
                            },
                            _ => false,
                        },
                    }
                }
            }),
    {
        if self.data.len() == 0 {
            return None;
        }
        match Item::parse(self.data, self.usage_page) {
            Ok((item, rest)) => {
                self.data = rest;
                match item {
                    Item::UsagePage(p) => self.usage_page = p.as_raw(),
                    _ => {},
                }
                Some(Ok(item))
            },
            Err(e) => Some(Err(e)),
        }
    }
}

/// A cursor over the items of the report descriptor `data`, on usage page 0.
pub fn parse(data: &[u8]) -> (r: Parser<'_>)
    ensures
        r.remaining() == data@,
        r.page() == 0,
{
    Parser { data, usage_page: 0 }
}

} // verus!
