//! Decoding of USB HID report descriptors, verified.
//!
//! * [`item`] decodes single items, with no state.
//! * [`flat`] interprets a descriptor as a flat stream of values, with a frame of state for
//!   each `Push`; [`tree`] interprets it as a tree of collections.
//! * [`field`] reads the value of a field out of a report.
//! * [`resolved`] decodes items with their usages looked up in the tables of [`usage`].
//! * [`descriptor`] and [`request`] handle the standard USB descriptors around a report
//!   descriptor and the control requests that fetch them.
use vstd::prelude::*;

pub mod bytes;
pub mod item;
pub mod field;
pub mod state;
pub mod flat;
pub mod tree;
pub mod descriptor;
pub mod request;
pub mod resolved;
pub mod usage;

pub use item::{Collection, MainFlags};

verus! {

} // verus!
