//! The Button usage page.
use vstd::prelude::*;
use crate::usage::UnknownUsage;

verus! {

/// The number of the Button page.
pub const PAGE: u16 = 0x09;

/// A usage on the Button page: no button, or the button with the given number, which is not
/// zero.
#[derive(Clone, Copy, Debug, PartialEq, Eq, Structural, PartialOrd, Ord, Hash)]
pub enum Usage {
    NoButton,
    Button(u16),
}

impl Usage {
    /// The usage with id `n`; every id is a usage of this page.
    pub fn try_from(n: u16) -> (r: Result<Self, UnknownUsage>)
        ensures
            n == 0 ==> r == Ok::<Usage, UnknownUsage>(Usage::NoButton),
            n != 0 ==> r == Ok::<Usage, UnknownUsage>(Usage::Button(n)),
    {
        if n == 0 {
            Ok(Usage::NoButton)
        } else {
            Ok(Usage::Button(n))
        }
    }
}

} // verus!
