//! Sums over tables.

use crate::model::{fits, plus};
use vstd::prelude::*;

verus! {

/// A number as a stored integer, where it is one.
pub open spec fn narrow(i: int) -> Option<i64> {
    if fits(i) {
        Some(i as i64)
    } else {
        None
    }
}

/// The exact sum of a figure over rows.
pub open spec fn sum_over<R>(t: Seq<R>, f: spec_fn(R) -> int) -> int
    decreases t.len(),
{
    if t.len() == 0 {
        0
    } else {
        sum_over(t.drop_last(), f) + f(t.last())
    }
}

/// The sum of a figure over rows, where every figure and every partial sum is a
/// stored integer.
pub open spec fn total<R>(t: Seq<R>, f: spec_fn(R) -> int) -> Option<i64>
    decreases t.len(),
{
    if t.len() == 0 {
        Some(0)
    } else {
        plus(total(t.drop_last(), f), narrow(f(t.last())))
    }
}

/// A sum that is given is exact.
pub proof fn lemma_total_is_exact<R>(t: Seq<R>, f: spec_fn(R) -> int)
    ensures
        total(t, f) matches Some(v) ==> v == sum_over(t, f),
    decreases t.len(),
{
    if t.len() > 0 {
        lemma_total_is_exact(t.drop_last(), f);
    }
}

/// The difference of two sums, where it is a stored integer.
pub open spec fn minus(a: Option<i64>, b: Option<i64>) -> Option<i64> {
    match (a, b) {
        (Some(x), Some(y)) => narrow(x - y),
        _ => None,
    }
}

/// Takes one sum from another.
pub fn subtract(a: Option<i64>, b: Option<i64>) -> (r: Option<i64>)
    ensures
        r == minus(a, b),
{
    match (a, b) {
        (Some(x), Some(y)) => x.checked_sub(y),
        _ => None,
    }
}

/// Adds a figure to a running sum.
pub fn accrue(sum: Option<i64>, figure: i128) -> (r: Option<i64>)
    ensures
        r == plus(sum, narrow(figure as int)),
{
    if figure < i64::MIN as i128 || figure > i64::MAX as i128 {
        return None;
    }
    match sum {
        Some(s) => s.checked_add(figure as i64),
        None => None,
    }
}

/// The product of two stored integers.
pub fn multiply(a: i64, b: i64) -> (r: i128)
    ensures
        r == a * b,
{
    proof {
        lemma_product_bound(a as int, b as int);
    }
    (a as i128) * (b as i128)
}

/// The product of two numbers of 64 bits has at most 128.
proof fn lemma_product_bound(a: int, b: int)
    by (nonlinear_arith)
    requires
        -0x8000_0000_0000_0000 <= a <= 0x8000_0000_0000_0000,
        -0x8000_0000_0000_0000 <= b <= 0x8000_0000_0000_0000,
    ensures
        -0x4000_0000_0000_0000_0000_0000_0000_0000 <= a * b,
        a * b <= 0x4000_0000_0000_0000_0000_0000_0000_0000,
{
}

} // verus!
