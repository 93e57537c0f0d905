//! Comparisons of numbers: the largest and the smallest of a list, and a
//! number held between two bounds.

use crate::scalar::Scalar;
use vstd::prelude::*;

verus! {

/// The pattern of the threshold below which a number counts as zero: the
/// nearest to a hundred-thousandth that the format has.
pub const THRESHOLD_BITS: u32 = 0x3727_c5ac;

/// Whether `num` is so near zero that it counts as zero: its distance from
/// zero is less than the threshold.
pub open spec fn negligible(num: Scalar) -> bool {
    num.absolute().less(Scalar { bits: THRESHOLD_BITS })
}

/// Whether `num` counts as zero. A ray whose direction does, along an axis,
/// runs parallel to what lies across that axis, and a matrix whose
/// determinant does cannot be inverted.
pub fn near_zero(num: &Scalar) -> (r: bool)
    ensures
        r == negligible(*num),
{
    let threshold = Scalar::from_bits(THRESHOLD_BITS);
    num.abs().lt(&threshold)
}

/// The first item of `s` that no later item is greater than, found by going
/// through `s` once and keeping what is strictly greater.
pub open spec fn max_of(s: Seq<Scalar>) -> Scalar
    decreases s.len(),
{
    if s.len() <= 1 {
        s[0]
    } else {
        let before = max_of(s.drop_last());
        if before.less(s.last()) {
            s.last()
        } else {
            before
        }
    }
}

/// The first item of `s` that no later item is less than, found by going
/// through `s` once and keeping what is strictly less.
pub open spec fn min_of(s: Seq<Scalar>) -> Scalar
    decreases s.len(),
{
    if s.len() <= 1 {
        s[0]
    } else {
        let before = min_of(s.drop_last());
        if s.last().less(before) {
            s.last()
        } else {
            before
        }
    }
}

/// No item is a not-a-number.
pub open spec fn numbers(s: Seq<Scalar>) -> bool {
    forall|i: int| 0 <= i < s.len() ==> !(#[trigger] s[i]).nan()
}

/// `num` where it lies between the bounds, else the bound that it lies
/// beyond.
pub fn clamp_f32(num: Scalar, low: Scalar, high: Scalar) -> (r: Scalar)
    ensures
        r == (if num.less(low) {
            low
        } else if high.less(num) {
            high
        } else {
            num
        }),
{
    if num.lt(&low) {
        return low;
    }
    if high.lt(&num) {
        return high;
    }
    num
}

/// The largest of `arr`, if it holds anything.
pub fn max_f32(arr: &Vec<Scalar>) -> (r: Option<Scalar>)
    ensures
        arr@.len() == 0 ==> r is None,
        arr@.len() > 0 ==> r == Some(max_of(arr@)),
{
    if arr.len() == 0 {
        return None;
    }
    let mut max: Scalar = arr[0];
    let mut i: usize = 1;
    assert(arr@.take(1).len() == 1);
    while i < arr.len()
        invariant
            1 <= i <= arr@.len(),
            max == max_of(arr@.take(i as int)),
        decreases arr@.len() - i,
    {
        proof {
            assert(arr@.take(i + 1).drop_last() =~= arr@.take(i as int));
        }
        if max.lt(&arr[i]) {
            max = arr[i];
        }
        i += 1;
    }
    proof {
        assert(arr@.take(i as int) =~= arr@);
    }
    Some(max)
}

/// The smallest of `arr`, if it holds anything.
pub fn min_f32(arr: &Vec<Scalar>) -> (r: Option<Scalar>)
    ensures
        arr@.len() == 0 ==> r is None,
        arr@.len() > 0 ==> r == Some(min_of(arr@)),
{
    if arr.len() == 0 {
        return None;
    }
    let mut min: Scalar = arr[0];
    let mut i: usize = 1;
    assert(arr@.take(1).len() == 1);
    while i < arr.len()
        invariant
            1 <= i <= arr@.len(),
            min == min_of(arr@.take(i as int)),
        decreases arr@.len() - i,
    {
        proof {
            assert(arr@.take(i + 1).drop_last() =~= arr@.take(i as int));
        }
        if arr[i].lt(&min) {
            min = arr[i];
        }
        i += 1;
    }
    proof {
        assert(arr@.take(i as int) =~= arr@);
    }
    Some(min)
}

/// Among numbers, `max_of` is one of them and none is greater.
pub proof fn lemma_max_of_is_greatest(s: Seq<Scalar>)
    requires
        s.len() > 0,
        numbers(s),
    ensures
        s.contains(max_of(s)),
        forall|i: int| 0 <= i < s.len() ==> (#[trigger] s[i]).ordinal() <= max_of(s).ordinal(),
    decreases s.len(),
{
    if s.len() == 1 {
        assert(s[0] == max_of(s));
    } else {
        let rest = s.drop_last();
        assert(numbers(rest)) by {
            assert forall|i: int| 0 <= i < rest.len() implies !(#[trigger] rest[i]).nan() by {
                assert(rest[i] == s[i]);
            }
        }
        lemma_max_of_is_greatest(rest);
        let j = choose|j: int| 0 <= j < rest.len() && rest[j] == max_of(rest);
        assert(s[j] == rest[j]);
        assert(s[s.len() - 1] == s.last());
        assert forall|i: int| 0 <= i < s.len() implies (#[trigger] s[i]).ordinal() <= max_of(
            s,
        ).ordinal() by {
            if i < rest.len() {
                assert(rest[i] == s[i]);
            }
        }
    }
}

/// Among numbers, `min_of` is one of them and none is less.
pub proof fn lemma_min_of_is_least(s: Seq<Scalar>)
    requires
        s.len() > 0,
        numbers(s),
    ensures
        s.contains(min_of(s)),
        forall|i: int| 0 <= i < s.len() ==> min_of(s).ordinal() <= (#[trigger] s[i]).ordinal(),
    decreases s.len(),
{
    if s.len() == 1 {
        assert(s[0] == min_of(s));
    } else {
        let rest = s.drop_last();
        assert(numbers(rest)) by {
            assert forall|i: int| 0 <= i < rest.len() implies !(#[trigger] rest[i]).nan() by {
                assert(rest[i] == s[i]);
            }
        }
        lemma_min_of_is_least(rest);
        let j = choose|j: int| 0 <= j < rest.len() && rest[j] == min_of(rest);
        assert(s[j] == rest[j]);
        assert(s[s.len() - 1] == s.last());
        assert forall|i: int| 0 <= i < s.len() implies min_of(s).ordinal() <= (
        #[trigger] s[i]).ordinal() by {
            if i < rest.len() {
                assert(rest[i] == s[i]);
            }
        }
    }
}

} // verus!
