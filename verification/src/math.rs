use vstd::prelude::*;
use vstd::std_specs::cmp::PartialOrdSpec;

verus! {

/// What `clamp` returns, written over the comparison that the type's own
/// `partial_cmp` implements: `min` when the value lies below `min`, `max`
/// when it lies above `max`, the value itself otherwise.
pub open spec fn spec_clamp<T: PartialOrd>(value: T, min: T, max: T) -> T {
    if value.partial_cmp_spec(&min) == Some(core::cmp::Ordering::Less) {
        min
    } else if value.partial_cmp_spec(&max) == Some(core::cmp::Ordering::Greater) {
        max
    } else {
        value
    }
}

/// Clamp a value into `[min, max]`, trying the lower bound first, exactly as
/// wide as the type's `PartialOrd`: a value that compares with neither bound
/// is returned unchanged.
pub fn clamp<T: PartialOrd>(value: T, min: T, max: T) -> (r: T)
    ensures
        r == value || r == min || r == max,
        T::obeys_partial_cmp_spec() ==> r == spec_clamp(value, min, max),
{
    if value.lt(&min) {
        min
    } else if value.gt(&max) {
        max
    } else {
        value
    }
}

} // verus!
