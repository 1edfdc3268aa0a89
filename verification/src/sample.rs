//! The integer sample domain.

use vstd::prelude::*;

verus! {

/// Largest sample of the 24-bit domain.
pub const I24_MAX: i32 = 8_388_607;

/// Smallest sample of the 24-bit domain; the domain is symmetric around zero.
pub const I24_MIN: i32 = -8_388_607;

/// Whether `sample` lies within the 24-bit domain.
pub open spec fn in_domain(sample: int) -> bool {
    I24_MIN <= sample <= I24_MAX
}

/// The distance that is left between `sample` and the bound of the domain on
/// its own side of zero: a positive sample is measured against the upper
/// bound, any other against the lower one.
pub open spec fn headroom(sample: int) -> int {
    if sample > 0 {
        I24_MAX - sample
    } else {
        I24_MIN - sample
    }
}

/// The complement of `sample` with respect to the bound on its side of zero.
pub fn one_minus(sample: i32) -> (complement: i32)
    ensures
        complement == headroom(sample as int),
{
    if sample > 0 {
        I24_MAX - sample
    } else {
        I24_MIN - sample
    }
}

/// Within the domain the complement stays within the domain, keeps to the
/// side of zero that the sample is on, and adds up with the sample to the
/// bound of that side.
pub proof fn lemma_headroom_in_domain(sample: int)
    requires
        in_domain(sample),
    ensures
        in_domain(headroom(sample)),
        sample > 0 ==> 0 <= headroom(sample) && sample + headroom(sample) == I24_MAX,
        sample <= 0 ==> headroom(sample) <= 0 && sample + headroom(sample) == I24_MIN,
{
}

} // verus!
