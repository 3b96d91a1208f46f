//! The order of epochs: earlier instants compare as smaller.
use vstd::prelude::*;

use crate::time::epoch::{law_epoch_is_its_count, Epoch};
use core::cmp::Ordering;
use vstd::std_specs::cmp::{PartialOrdIs, PartialOrdSpecImpl};

verus! {

impl PartialOrd for Epoch {
    fn partial_cmp(&self, other: &Self) -> (order: Option<Ordering>) {
        let left = self.microseconds_since_mjd2000();
        let right = other.microseconds_since_mjd2000();
        if left < right {
            Some(Ordering::Less)
        } else if left == right {
            Some(Ordering::Equal)
        } else {
            Some(Ordering::Greater)
        }
    }
}

impl PartialOrdSpecImpl for Epoch {
    open spec fn obeys_partial_cmp_spec() -> bool {
        true
    }

    open spec fn partial_cmp_spec(&self, other: &Self) -> Option<Ordering> {
        if self@ < other@ {
            Some(Ordering::Less)
        } else if self@ == other@ {
            Some(Ordering::Equal)
        } else {
            Some(Ordering::Greater)
        }
    }
}

/// Epochs are ordered by their microsecond counts: one epoch is before
/// another exactly when its count is smaller, and they are equal exactly when
/// their counts are.
pub proof fn law_epoch_order(a: Epoch, b: Epoch)
    ensures
        a.is_lt(&b) <==> a@ < b@,
        a.is_le(&b) <==> a@ <= b@,
        a.is_gt(&b) <==> a@ > b@,
        a.is_ge(&b) <==> a@ >= b@,
        (a == b) <==> (a@ == b@),
{
    law_epoch_is_its_count(a, b);
}

} // verus!
