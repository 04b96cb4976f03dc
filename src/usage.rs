//! Usage pages and usages (HID Usage Tables).
use vstd::prelude::*;

pub mod button;
pub mod generic_desktop;

verus! {

/// A usage that the tables here do not know.
#[derive(Clone, Copy, Debug, PartialEq, Eq, Structural)]
pub struct UnknownUsage;

/// A usage page that the tables here do not know.
#[derive(Clone, Copy, Debug, PartialEq, Eq, Structural)]
pub struct UnknownPage;

/// A usage page.
#[derive(Clone, Copy, Debug, PartialEq, Eq, Structural, PartialOrd, Ord, Hash)]
#[non_exhaustive]
pub enum UsagePage {
    GenericDesktop,
    Button,
    Unknown(u16),
}

/// A usage: a usage page and a usage on it.
#[derive(Clone, Copy, Debug, PartialEq, Eq, Structural, PartialOrd, Ord, Hash)]
#[non_exhaustive]
pub enum Usage {
    GenericDesktop(generic_desktop::Usage),
    Button(button::Usage),
    Unknown(u16, u16),
}

/// The usage page with number `raw`.
pub open spec fn page_of(raw: u16) -> UsagePage {
    if raw == generic_desktop::PAGE {
        UsagePage::GenericDesktop
    } else if raw == button::PAGE {
        UsagePage::Button
    } else {
        UsagePage::Unknown(raw)
    }
}

/// The number of usage page `p`.
pub open spec fn page_number(p: UsagePage) -> u16 {
    match p {
        UsagePage::GenericDesktop => generic_desktop::PAGE,
        UsagePage::Button => button::PAGE,
        UsagePage::Unknown(n) => n,
    }
}

/// The usage with id `id` on the page with number `page`.
pub open spec fn usage_of(page: u16, id: u16) -> Usage {
    if page == generic_desktop::PAGE {
        match generic_desktop::usage_of(id) {
            Some(u) => Usage::GenericDesktop(u),
            None => Usage::Unknown(page, id),
        }
    } else if page == button::PAGE {
        Usage::Button(if id == 0 {
            button::Usage::NoButton
        } else {
            button::Usage::Button(id)
        })
    } else {
        Usage::Unknown(page, id)
    }
}

impl UsagePage {
    /// The usage page with number `raw`.
    pub fn from_raw(raw: u16) -> (r: Self)
        ensures
            r == page_of(raw),
    {
        if raw == generic_desktop::PAGE {
            UsagePage::GenericDesktop
        } else if raw == button::PAGE {
            UsagePage::Button
        } else {
            UsagePage::Unknown(raw)
        }
    }

    /// The usage page with number `n`, if the tables here know it.
    pub fn try_from(n: u16) -> (r: Result<Self, UnknownPage>)
        ensures
            r == match page_of(n) {
                UsagePage::Unknown(_) => Err(UnknownPage),
                p => Ok::<UsagePage, UnknownPage>(p),
            },
    {
        match Self::from_raw(n) {
            UsagePage::Unknown(_) => Err(UnknownPage),
            p => Ok(p),
        }
    }

    /// The number of the usage page.
    pub fn as_raw(&self) -> (r: u16)
        ensures
            r == page_number(*self),
    {
        match self {
            UsagePage::GenericDesktop => generic_desktop::PAGE,
            UsagePage::Button => button::PAGE,
            UsagePage::Unknown(n) => *n,
        }
    }
}

impl Usage {
    /// The usage with id `id` on the page with number `page`, if the tables here know both.
    pub fn try_from(page: u16, id: u16) -> (r: Result<Self, UnknownUsage>)
        ensures
            r == match usage_of(page, id) {
                Usage::Unknown(..) => Err(UnknownUsage),
                u => Ok::<Usage, UnknownUsage>(u),
            },
    {
        match Self::from_raw(page, id) {
            Usage::Unknown(..) => Err(UnknownUsage),
            u => Ok(u),
        }
    }

    /// The usage with id `id` on the page with number `page`.
    pub fn from_raw(page: u16, id: u16) -> (r: Self)
        ensures
            r == usage_of(page, id),
    {
        if page == generic_desktop::PAGE {
            match generic_desktop::Usage::try_from(id) {
                Ok(u) => Usage::GenericDesktop(u),
                Err(_) => Usage::Unknown(page, id),
            }
        } else if page == button::PAGE {
            match button::Usage::try_from(id) {
                Ok(u) => Usage::Button(u),
                Err(_) => Usage::Unknown(page, id),
            }
        } else {
            Usage::Unknown(page, id)
        }
    }
}

} // verus!
