//! Arithmetic on totals, which are kept in thirty-two bits: a result that
//! does not fit stays at the nearest end of the range.

use vstd::prelude::*;

verus! {

/// The number of the thirty-two-bit range that is nearest to `x`.
pub open spec fn clamp32(x: int) -> i32 {
    if x > i32::MAX {
        i32::MAX
    } else if x < i32::MIN {
        i32::MIN
    } else {
        x as i32
    }
}

/// The sum of `values`.
pub open spec fn sum_of(values: Seq<i32>) -> int
    decreases values.len(),
{
    if values.len() == 0 {
        0
    } else {
        sum_of(values.drop_last()) + values.last()
    }
}

/// How many of `values` are `threshold` or more.
pub open spec fn hits_of(values: Seq<i32>, threshold: int) -> nat
    decreases values.len(),
{
    if values.len() == 0 {
        0
    } else {
        hits_of(values.drop_last(), threshold) + if values.last() >= threshold {
            1nat
        } else {
            0nat
        }
    }
}

/// `x` brought into thirty-two bits.
pub fn clamp(x: i64) -> (r: i32)
    ensures
        r == clamp32(x as int),
{
    if x > 2147483647 {
        i32::MAX
    } else if x < -2147483648 {
        i32::MIN
    } else {
        x as i32
    }
}

/// `a + b`, kept in range.
pub fn add_clamped(a: i32, b: i32) -> (r: i32)
    ensures
        r == clamp32(a + b),
{
    clamp(a as i64 + b as i64)
}

/// `a - b`, kept in range.
pub fn sub_clamped(a: i32, b: i32) -> (r: i32)
    ensures
        r == clamp32(a - b),
{
    clamp(a as i64 - b as i64)
}

/// `a * b`, kept in range.
pub fn mul_clamped(a: i32, b: i32) -> (r: i32)
    ensures
        r == clamp32(a * b),
{
    assert(-0x8000_0000 * 0x8000_0000 <= a * b <= 0x8000_0000 * 0x8000_0000) by (nonlinear_arith)
        requires
            -0x8000_0000 <= a <= 0x8000_0000,
            -0x8000_0000 <= b <= 0x8000_0000,
    ;
    clamp(a as i64 * b as i64)
}

/// A sum lies within as many times the range of its terms as it has terms.
pub proof fn lemma_sum_bounds(values: Seq<i32>)
    ensures
        values.len() * (i32::MIN as int) <= sum_of(values) <= values.len() * (i32::MAX as int),
    decreases values.len(),
{
    if values.len() > 0 {
        lemma_sum_bounds(values.drop_last());
        assert((values.len() - 1) * (i32::MIN as int) + (i32::MIN as int) == values.len() * (
        i32::MIN as int)) by (nonlinear_arith);
        assert((values.len() - 1) * (i32::MAX as int) + (i32::MAX as int) == values.len() * (
        i32::MAX as int)) by (nonlinear_arith);
    }
}

/// The sum of `values`, kept in range.
pub fn sum(values: &Vec<i32>) -> (r: i32)
    ensures
        r == clamp32(sum_of(values@)),
{
    let mut total: i128 = 0;
    let mut i: usize = 0;
    while i < values.len()
        invariant
            i <= values.len(),
            total == sum_of(values@.take(i as int)),
        decreases values.len() - i,
    {
        proof {
            lemma_sum_bounds(values@.take(i as int));
            assert(values@.take(i + 1).drop_last() == values@.take(i as int));
            assert(i * (i32::MIN as int) >= 0x1_0000_0000_0000_0000 * (i32::MIN as int))
                by (nonlinear_arith)
                requires
                    0 <= i <= 0x1_0000_0000_0000_0000,
            ;
            assert(i * (i32::MAX as int) <= 0x1_0000_0000_0000_0000 * (i32::MAX as int))
                by (nonlinear_arith)
                requires
                    0 <= i <= 0x1_0000_0000_0000_0000,
            ;
        }
        total = total + values[i] as i128;
        i += 1;
    }
    assert(values@.take(values.len() as int) == values@);
    if total > 2147483647 {
        i32::MAX
    } else if total < -2147483648 {
        i32::MIN
    } else {
        total as i32
    }
}

/// How many of `values` are `threshold` or more.
pub fn hits(values: &Vec<i32>, threshold: u16) -> (r: usize)
    ensures
        r == hits_of(values@, threshold as int),
{
    let mut count: usize = 0;
    let mut i: usize = 0;
    while i < values.len()
        invariant
            i <= values.len(),
            count == hits_of(values@.take(i as int), threshold as int),
            count <= i,
        decreases values.len() - i,
    {
        assert(values@.take(i + 1).drop_last() == values@.take(i as int));
        if values[i] >= threshold as i32 {
            count += 1;
        }
        i += 1;
    }
    assert(values@.take(values.len() as int) == values@);
    count
}

} // verus!
