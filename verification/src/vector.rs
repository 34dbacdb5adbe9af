//! Elementwise arithmetic on vectors of scalars.
//!
//! Where two vectors differ in length, an operation reaches as far as the
//! shorter one.

use vstd::prelude::*;
use crate::scalar::Scalar;

verus! {

/// The smaller of two lengths.
pub open spec fn shorter(a: nat, b: nat) -> nat {
    if a <= b {
        a
    } else {
        b
    }
}

/// Adds `rhs` to `lhs`, element by element.
pub fn add_assign_vec<S: Scalar>(lhs: &mut Vec<S>, rhs: &Vec<S>)
    ensures
        final(lhs)@.len() == old(lhs)@.len(),
        forall|i: int|
            0 <= i < shorter(old(lhs)@.len(), rhs@.len()) ==> #[trigger] final(lhs)@[i] == old(
                lhs,
            )@[i].sum(rhs@[i]),
        forall|i: int|
            rhs@.len() <= i < old(lhs)@.len() ==> #[trigger] final(lhs)@[i] == old(lhs)@[i],
{
    let n: usize = if lhs.len() <= rhs.len() {
        lhs.len()
    } else {
        rhs.len()
    };
    let mut i: usize = 0;
    while i < n
        invariant
            i <= n,
            n == shorter(old(lhs)@.len(), rhs@.len()),
            lhs@.len() == old(lhs)@.len(),
            forall|j: int| 0 <= j < i ==> #[trigger] lhs@[j] == old(lhs)@[j].sum(rhs@[j]),
            forall|j: int| i <= j < lhs@.len() ==> #[trigger] lhs@[j] == old(lhs)@[j],
        decreases n - i,
    {
        let v = lhs[i].add(rhs[i]);
        lhs.set(i, v);
        i += 1;
    }
}

/// Subtracts `rhs` from `lhs`, element by element.
pub fn sub_assign_vec<S: Scalar>(lhs: &mut Vec<S>, rhs: &Vec<S>)
    ensures
        final(lhs)@.len() == old(lhs)@.len(),
        forall|i: int|
            0 <= i < shorter(old(lhs)@.len(), rhs@.len()) ==> #[trigger] final(lhs)@[i] == old(
                lhs,
            )@[i].difference(rhs@[i]),
        forall|i: int|
            rhs@.len() <= i < old(lhs)@.len() ==> #[trigger] final(lhs)@[i] == old(lhs)@[i],
{
    let n: usize = if lhs.len() <= rhs.len() {
        lhs.len()
    } else {
        rhs.len()
    };
    let mut i: usize = 0;
    while i < n
        invariant
            i <= n,
            n == shorter(old(lhs)@.len(), rhs@.len()),
            lhs@.len() == old(lhs)@.len(),
            forall|j: int| 0 <= j < i ==> #[trigger] lhs@[j] == old(lhs)@[j].difference(rhs@[j]),
            forall|j: int| i <= j < lhs@.len() ==> #[trigger] lhs@[j] == old(lhs)@[j],
        decreases n - i,
    {
        let v = lhs[i].sub(rhs[i]);
        lhs.set(i, v);
        i += 1;
    }
}

/// The elementwise product of `lhs` and `rhs`, as a new vector.
pub fn mul_vec<S: Scalar>(lhs: &Vec<S>, rhs: &Vec<S>) -> (out: Vec<S>)
    ensures
        out@.len() == shorter(lhs@.len(), rhs@.len()),
        forall|i: int| 0 <= i < out@.len() ==> #[trigger] out@[i] == lhs@[i].product(rhs@[i]),
{
    let n: usize = if lhs.len() <= rhs.len() {
        lhs.len()
    } else {
        rhs.len()
    };
    let mut out: Vec<S> = Vec::with_capacity(n);
    let mut i: usize = 0;
    while i < n
        invariant
            i <= n,
            n == shorter(lhs@.len(), rhs@.len()),
            out@.len() == i,
            forall|j: int| 0 <= j < i ==> #[trigger] out@[j] == lhs@[j].product(rhs@[j]),
        decreases n - i,
    {
        out.push(lhs[i].mul(rhs[i]));
        i += 1;
    }
    out
}

/// Multiplies every element of `vec` by `scalar`.
pub fn mul_assign_scalar<S: Scalar>(vec: &mut Vec<S>, scalar: S)
    ensures
        final(vec)@.len() == old(vec)@.len(),
        forall|i: int|
            0 <= i < old(vec)@.len() ==> #[trigger] final(vec)@[i] == old(vec)@[i].product(scalar),
{
    let n: usize = vec.len();
    let mut i: usize = 0;
    while i < n
        invariant
            i <= n,
            n == old(vec)@.len(),
            vec@.len() == n,
            forall|j: int| 0 <= j < i ==> #[trigger] vec@[j] == old(vec)@[j].product(scalar),
            forall|j: int| i <= j < n ==> #[trigger] vec@[j] == old(vec)@[j],
        decreases n - i,
    {
        let v = vec[i].mul(scalar);
        vec.set(i, v);
        i += 1;
    }
}

/// Multiplies `lhs` by `rhs`, element by element.
pub fn mul_assign_vec<S: Scalar>(lhs: &mut Vec<S>, rhs: &Vec<S>)
    ensures
        final(lhs)@.len() == old(lhs)@.len(),
        forall|i: int|
            0 <= i < shorter(old(lhs)@.len(), rhs@.len()) ==> #[trigger] final(lhs)@[i] == old(
                lhs,
            )@[i].product(rhs@[i]),
        forall|i: int|
            rhs@.len() <= i < old(lhs)@.len() ==> #[trigger] final(lhs)@[i] == old(lhs)@[i],
{
    let n: usize = if lhs.len() <= rhs.len() {
        lhs.len()
    } else {
        rhs.len()
    };
    let mut i: usize = 0;
    while i < n
        invariant
            i <= n,
            n == shorter(old(lhs)@.len(), rhs@.len()),
            lhs@.len() == old(lhs)@.len(),
            forall|j: int| 0 <= j < i ==> #[trigger] lhs@[j] == old(lhs)@[j].product(rhs@[j]),
            forall|j: int| i <= j < lhs@.len() ==> #[trigger] lhs@[j] == old(lhs)@[j],
        decreases n - i,
    {
        let v = lhs[i].mul(rhs[i]);
        lhs.set(i, v);
        i += 1;
    }
}

/// What division leaves in one place: `default` where the divisor is zero,
/// the quotient elsewhere.
pub open spec fn guarded_quotient<S: Scalar>(l: S, r: S, default: S) -> S {
    if r.vanishes() {
        default
    } else {
        l.quotient(r)
    }
}

/// Divides `lhs` by `rhs`, element by element, and puts `default` wherever
/// the divisor is zero.
pub fn div_assign_vec<S: Scalar>(lhs: &mut Vec<S>, rhs: &Vec<S>, default: S)
    ensures
        final(lhs)@.len() == old(lhs)@.len(),
        forall|i: int|
            0 <= i < shorter(old(lhs)@.len(), rhs@.len()) ==> #[trigger] final(lhs)@[i]
                == guarded_quotient(old(lhs)@[i], rhs@[i], default),
        forall|i: int|
            rhs@.len() <= i < old(lhs)@.len() ==> #[trigger] final(lhs)@[i] == old(lhs)@[i],
{
    let n: usize = if lhs.len() <= rhs.len() {
        lhs.len()
    } else {
        rhs.len()
    };
    let mut i: usize = 0;
    while i < n
        invariant
            i <= n,
            n == shorter(old(lhs)@.len(), rhs@.len()),
            lhs@.len() == old(lhs)@.len(),
            forall|j: int|
                0 <= j < i ==> #[trigger] lhs@[j] == guarded_quotient(
                    old(lhs)@[j],
                    rhs@[j],
                    default,
                ),
            forall|j: int| i <= j < lhs@.len() ==> #[trigger] lhs@[j] == old(lhs)@[j],
        decreases n - i,
    {
        let r = rhs[i];
        let v = if r.is_zero() {
            default
        } else {
            lhs[i].div(r)
        };
        lhs.set(i, v);
        i += 1;
    }
}

/// Replaces every negative element of `vec` by zero.
pub fn nonneg_assign_vec<S: Scalar>(vec: &mut Vec<S>)
    ensures
        final(vec)@.len() == old(vec)@.len(),
        forall|i: int|
            0 <= i < old(vec)@.len() ==> #[trigger] final(vec)@[i] == old(vec)@[i].positive_part(),
{
    let n: usize = vec.len();
    let mut i: usize = 0;
    while i < n
        invariant
            i <= n,
            n == old(vec)@.len(),
            vec@.len() == n,
            forall|j: int| 0 <= j < i ==> #[trigger] vec@[j] == old(vec)@[j].positive_part(),
            forall|j: int| i <= j < n ==> #[trigger] vec@[j] == old(vec)@[j],
        decreases n - i,
    {
        let v = vec[i].max_zero();
        vec.set(i, v);
        i += 1;
    }
}

/// A vector of `n` copies of `value`.
pub fn filled<S: Scalar>(value: S, n: usize) -> (out: Vec<S>)
    ensures
        out@ == Seq::new(n as nat, |i: int| value),
{
    let mut out: Vec<S> = Vec::with_capacity(n);
    let mut i: usize = 0;
    while i < n
        invariant
            i <= n,
            out@ == Seq::new(i as nat, |j: int| value),
        decreases n - i,
    {
        out.push(value);
        i += 1;
        assert(out@ =~= Seq::new(i as nat, |j: int| value));
    }
    out
}

} // verus!
