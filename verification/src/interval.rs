use vstd::prelude::*;
use crate::distance::{is_nan, is_nan_spec, key_of_bits, key_spec};

verus! {

/// The range of distances along a ray in which a hit counts: from `min`,
/// which belongs to it, up to `max`, which does not.
#[derive(Clone, Copy, Debug, PartialEq, Eq, Structural)]
pub struct Interval {
    pub min: u64,
    pub max: u64,
}

impl Interval {
    /// Whether `key` lies in the range.
    pub open spec fn contains_spec(&self, key: u64) -> bool {
        self.min <= key && key < self.max
    }

    pub fn new(min: u64, max: u64) -> (interval: Self)
        ensures
            interval.min == min,
            interval.max == max,
    {
        Interval { min, max }
    }

    /// The range between the distances with these bit patterns; none where
    /// one of them is not a number, since nothing compares with such an end.
    pub fn from_bits(min_bits: u64, max_bits: u64) -> (interval: Option<Self>)
        ensures
            interval is None <==> is_nan_spec(min_bits) || is_nan_spec(max_bits),
            interval matches Some(iv) ==> iv.min == key_spec(min_bits) && iv.max == key_spec(
                max_bits,
            ),
    {
        if is_nan(min_bits) || is_nan(max_bits) {
            None
        } else {
            Some(Interval { min: key_of_bits(min_bits), max: key_of_bits(max_bits) })
        }
    }

    #[verifier::when_used_as_spec(contains_spec)]
    pub fn contains(&self, key: u64) -> (inside: bool)
        ensures
            inside == self.contains_spec(key),
    {
        self.min <= key && key < self.max
    }

    /// The same range with its upper end moved to `max`.
    pub fn up_to(&self, max: u64) -> (interval: Self)
        ensures
            interval.min == self.min,
            interval.max == max,
    {
        Interval { min: self.min, max }
    }
}

} // verus!
