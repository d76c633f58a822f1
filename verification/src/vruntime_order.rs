//! Virtual runtimes are ordered by their number of time units.

use vstd::prelude::*;

use core::cmp::Ordering;
use vstd::std_specs::cmp::PartialOrdSpecImpl;

use crate::common_types::Vruntime;

verus! {

impl PartialOrd for Vruntime {
    fn partial_cmp(&self, other: &Vruntime) -> (r: Option<Ordering>) {
        if self.get() < other.get() {
            Some(Ordering::Less)
        } else if self.get() == other.get() {
            Some(Ordering::Equal)
        } else {
            Some(Ordering::Greater)
        }
    }
}

impl PartialOrdSpecImpl for Vruntime {
    open spec fn obeys_partial_cmp_spec() -> bool {
        true
    }

    open spec fn partial_cmp_spec(&self, other: &Vruntime) -> Option<Ordering> {
        if self@ < other@ {
            Some(Ordering::Less)
        } else if self@ == other@ {
            Some(Ordering::Equal)
        } else {
            Some(Ordering::Greater)
        }
    }
}

} // verus!
