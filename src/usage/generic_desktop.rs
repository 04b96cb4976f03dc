//! The Generic Desktop usage page.
use vstd::prelude::*;
use crate::usage::UnknownUsage;

verus! {

/// The number of the Generic Desktop page.
pub const PAGE: u16 = 0x01;

/// A usage on the Generic Desktop page.
#[derive(Clone, Copy, Debug, PartialEq, Eq, Structural, PartialOrd, Ord, Hash)]
#[non_exhaustive]
pub enum Usage {
    Pointer,
    Mouse,
    Joystick,
    Gamepad,
    Keyboard,
    Keypad,
    MultiAxisController,
    X,
    Y,
    Z,
    Rx,
    Ry,
    Rz,
    Slider,
    Dial,
    Wheel,
    HatSwitch,
}

/// The usage with id `n`, if the table knows it.
pub open spec fn usage_of(n: u16) -> Option<Usage> {
    if n == 0x01 {
        Some(Usage::Pointer)
    } else if n == 0x02 {
        Some(Usage::Mouse)
    } else if n == 0x04 {
        Some(Usage::Joystick)
    } else if n == 0x05 {
        Some(Usage::Gamepad)
    } else if n == 0x06 {
        Some(Usage::Keyboard)
    } else if n == 0x07 {
        Some(Usage::Keypad)
    } else if n == 0x08 {
        Some(Usage::MultiAxisController)
    } else if n == 0x30 {
        Some(Usage::X)
    } else if n == 0x31 {
        Some(Usage::Y)
    } else if n == 0x32 {
        Some(Usage::Z)
    } else if n == 0x33 {
        Some(Usage::Rx)
    } else if n == 0x34 {
        Some(Usage::Ry)
    } else if n == 0x35 {
        Some(Usage::Rz)
    } else if n == 0x36 {
        Some(Usage::Slider)
    } else if n == 0x37 {
        Some(Usage::Dial)
    } else if n == 0x38 {
        Some(Usage::Wheel)
    } else if n == 0x39 {
        Some(Usage::HatSwitch)
    } else {
        None
    }
}

impl Usage {
    /// The usage with id `n`.
    pub fn try_from(n: u16) -> (r: Result<Self, UnknownUsage>)
        ensures
            r == match usage_of(n) {
                Some(u) => Ok::<Usage, UnknownUsage>(u),
                None => Err(UnknownUsage),
            },
    {
        match n {
            0x01 => Ok(Usage::Pointer),
            0x02 => Ok(Usage::Mouse),
            0x04 => Ok(Usage::Joystick),
            0x05 => Ok(Usage::Gamepad),
            0x06 => Ok(Usage::Keyboard),
            0x07 => Ok(Usage::Keypad),
            0x08 => Ok(Usage::MultiAxisController),
            0x30 => Ok(Usage::X),
            0x31 => Ok(Usage::Y),
            0x32 => Ok(Usage::Z),
            0x33 => Ok(Usage::Rx),
            0x34 => Ok(Usage::Ry),
            0x35 => Ok(Usage::Rz),
            0x36 => Ok(Usage::Slider),
            0x37 => Ok(Usage::Dial),
            0x38 => Ok(Usage::Wheel),
            0x39 => Ok(Usage::HatSwitch),
            _ => Err(UnknownUsage),
        }
    }
}

} // verus!
