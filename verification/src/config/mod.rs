//! Settings, and how a partial section of them is laid over the rest.
use vstd::prelude::*;

pub mod dictation;
pub mod gestures;
pub mod hot_edges;
pub mod hot_edges_laws;
pub mod settings_laws;

verus! {

/// Something that a partial section of settings can be laid over.
///
/// What the section names replaces what was there; what it leaves out stays.
pub trait MergeWith<Part>: Sized {
    /// Whether `after` is what laying `part` over `self` gives.
    spec fn merges(&self, part: &Part, after: &Self) -> bool;

    fn merge_with(&mut self, part: &Part)
        ensures
            old(self).merges(part, final(self)),
    ;
}

/// A setting after an optional replacement: the replacement where there is
/// one, the old value otherwise.
pub open spec fn pick<T>(old_value: T, replacement: Option<T>) -> T {
    match replacement {
        Some(value) => value,
        None => old_value,
    }
}

} // verus!
