//! Relation types: references between records.
//!
//! `ToOne` references at most one record of a target type; `ToMany`
//! references many, with a change log that tracks additions and removals
//! until the owning record is persisted.

pub mod info;
pub mod to_many;
pub mod to_one;

pub use info::RelInfo;
pub use info::RelType;
pub use to_many::ToMany;
pub use to_one::ToOne;

use vstd::prelude::*;

verus! {

/// Identity access on a record type: every persistable record exposes its
/// storage identifier, `0` meaning "not stored yet". Record types outside
/// this crate implement it, so nothing is assumed about what `get_id`
/// returns; functions that read an identity through this trait state what
/// holds of every possible value.
pub trait IdExt {
    /// The record's storage identifier, `0` if it has not been stored.
    fn get_id(&self) -> u64;

    /// Replace the record's storage identifier.
    fn set_id(&mut self, id: u64);
}

} // verus!
