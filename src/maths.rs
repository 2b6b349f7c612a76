use vstd::prelude::*;

use core::cmp::Ordering;
use vstd::std_specs::cmp::PartialOrdSpec;

verus! {

/// Compares two values that are known to be comparable (no NaN).
pub fn yolo_compare<N: PartialOrd>(a: &N, b: &N) -> (r: Ordering)
    requires
        N::obeys_partial_cmp_spec(),
        a.partial_cmp_spec(b) is Some,
    ensures
        a.partial_cmp_spec(b) == Some(r),
{
    match a.partial_cmp(b) {
        Some(o) => o,
        None => {
            proof {
                assert(false);
            }
            Ordering::Equal
        },
    }
}

/// The smaller of two comparable values; the first of two equal ones.
pub fn yolo_min<N: PartialOrd>(a: N, b: N) -> (r: N)
    requires
        N::obeys_partial_cmp_spec(),
        a.partial_cmp_spec(&b) is Some,
    ensures
        r == if a.partial_cmp_spec(&b) == Some(Ordering::Greater) {
            b
        } else {
            a
        },
{
    match yolo_compare(&a, &b) {
        Ordering::Greater => b,
        _ => a,
    }
}

/// The larger of two comparable values; the second of two equal ones.
pub fn yolo_max<N: PartialOrd>(a: N, b: N) -> (r: N)
    requires
        N::obeys_partial_cmp_spec(),
        a.partial_cmp_spec(&b) is Some,
    ensures
        r == if a.partial_cmp_spec(&b) == Some(Ordering::Greater) {
            a
        } else {
            b
        },
{
    match yolo_compare(&a, &b) {
        Ordering::Greater => a,
        _ => b,
    }
}

} // verus!
