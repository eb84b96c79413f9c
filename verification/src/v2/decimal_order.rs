//! The order of exact decimals.
use vstd::prelude::*;
use std::cmp::Ordering;
use crate::v2::decimal::{align_spec, cross, lemma_align_keeps_order, lemma_aligned_equal_identical, OnfexDecimal};

verus! {

/// The order of two integers.
pub open spec fn order_of(x: int, y: int) -> Ordering {
    if x < y {
        Ordering::Less
    } else if x == y {
        Ordering::Equal
    } else {
        Ordering::Greater
    }
}

/// How two decimals compare: by their values at a common scale, or not at
/// all when that scale cannot be reached within `i128`.
pub open spec fn compare_spec(a: OnfexDecimal, b: OnfexDecimal) -> Option<Ordering> {
    match align_spec(a, b) {
        Ok((x, y, s)) => Some(order_of(x, y)),
        Err(_) => None,
    }
}

impl OnfexDecimal {
    /// Compares the two numbers; `None` when they cannot be brought to a
    /// common scale.
    pub fn partial_cmp(&self, other: &Self) -> (r: Option<Ordering>)
        ensures
            r == compare_spec(*self, *other),
    {
        match self.align(*other) {
            Ok((a, b, _)) => {
                if a < b {
                    Some(Ordering::Less)
                } else if a == b {
                    Some(Ordering::Equal)
                } else {
                    Some(Ordering::Greater)
                }
            },
            Err(_) => None,
        }
    }

    /// Compares the two numbers; two that cannot be brought to a common scale
    /// count as equal.
    pub fn cmp(&self, other: &Self) -> (r: Ordering)
        ensures
            r == match compare_spec(*self, *other) {
                Some(o) => o,
                None => Ordering::Equal,
            },
    {
        match self.partial_cmp(other) {
            Some(o) => o,
            None => Ordering::Equal,
        }
    }
}

/// Whenever two decimals can be compared, the comparison orders them as the
/// numbers they stand for: `a.value / 10^a.scale` against
/// `b.value / 10^b.scale`.
pub proof fn law_compare_orders_numbers(a: OnfexDecimal, b: OnfexDecimal)
    requires
        compare_spec(a, b) is Some,
    ensures
        compare_spec(a, b) == Some(order_of(cross(a, b), cross(b, a))),
{
    lemma_align_keeps_order(a, b);
}

/// Two normalised decimals of the same size compare as equal only when they
/// are the same: the same value, scale and size.
pub proof fn law_equal_only_when_identical(a: OnfexDecimal, b: OnfexDecimal)
    requires
        a.is_normalized(),
        b.is_normalized(),
        a.size == b.size,
        compare_spec(a, b) == Some(Ordering::Equal),
    ensures
        a == b,
{
    lemma_aligned_equal_identical(a, b);
}

} // verus!
