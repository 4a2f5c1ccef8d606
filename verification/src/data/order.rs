//! The order of buffers: lexicographic, byte by byte.
use vstd::prelude::*;
use std::cmp::Ordering;
use vstd::std_specs::cmp::PartialOrdSpecImpl;
use super::buffer::Data;
use crate::name_map::{bytes_lt, compare_bytes, Placement};

verus! {

impl PartialOrd for Data {
    /// A buffer comes before another one if it has the smaller byte at the
    /// first position where they differ, or is a proper prefix of it.
    fn partial_cmp(&self, other: &Self) -> (r: Option<Ordering>) {
        match compare_bytes(self.bytes.as_slice(), other.bytes.as_slice()) {
            Placement::Before => Some(Ordering::Less),
            Placement::Same => Some(Ordering::Equal),
            Placement::After => Some(Ordering::Greater),
        }
    }
}

impl PartialOrdSpecImpl for Data {
    open spec fn obeys_partial_cmp_spec() -> bool {
        true
    }

    open spec fn partial_cmp_spec(&self, other: &Self) -> Option<Ordering> {
        if bytes_lt(self@, other@) {
            Some(Ordering::Less)
        } else if self@ == other@ {
            Some(Ordering::Equal)
        } else {
            Some(Ordering::Greater)
        }
    }
}

} // verus!
