//! How close fixed-point probabilities come to adding up to one.
//!
//! Fixed-point division rounds down, so the shares of a column may miss one
//! by a little. The theorems here say by how much at most: by less than one
//! unit of the last place for each action.

use vstd::prelude::*;
use crate::fixed::{Fixed, ONE_RAW};
use crate::scalar::Scalar;

verus! {

/// The exact sum of the raw values that column `h` holds in the first `upto`
/// rows.
pub open spec fn raw_total(m: Seq<Seq<Fixed>>, h: int, upto: nat) -> int
    decreases upto,
{
    if upto == 0 {
        0
    } else {
        raw_total(m, h, (upto - 1) as nat) + m[upto - 1][h].raw
    }
}

/// Whether column `h` can be added up, row after row, without ever leaving
/// the range of the numbers.
pub open spec fn adds_up(m: Seq<Seq<Fixed>>, h: int) -> bool {
    forall|k: nat| k <= m.len() ==> i64::MIN <= #[trigger] raw_total(m, h, k) <= i64::MAX
}

/// Whether every entry of column `h` can be divided by the column's total
/// without leaving the range of the numbers.
pub open spec fn divides(m: Seq<Seq<Fixed>>, h: int) -> bool {
    forall|a: int|
        0 <= a < m.len() ==> i64::MIN <= ((#[trigger] m[a])[h].raw * ONE_RAW) / raw_total(
            m,
            h,
            m.len(),
        ) <= i64::MAX
}

/// The reach of every child of a node: the reach of the node, multiplied
/// hand by hand with the probability of the action that leads to the child.
pub open spec fn child_reaches(reach: Seq<Fixed>, strategy: Seq<Seq<Fixed>>) -> Seq<Seq<Fixed>> {
    Seq::new(strategy.len(), |a: int| crate::model::scaled(reach, strategy[a]))
}

proof fn lemma_total_is_exact(m: Seq<Seq<Fixed>>, hands: nat, h: int, k: nat)
    requires
        crate::matching::rectangular(m, hands),
        0 <= h < hands,
        adds_up(m, h),
        k <= m.len(),
    ensures
        crate::matching::column_total(m, h, k).raw == raw_total(m, h, k),
    decreases k,
{
    if k > 0 {
        lemma_total_is_exact(m, hands, h, (k - 1) as nat);
        assert(m[k - 1].len() == hands);
        assert(i64::MIN <= raw_total(m, h, k) <= i64::MAX);
    }
}

proof fn lemma_quotient_bounds(c: int, d: int)
    requires
        d > 0,
    ensures
        (c / d) * d <= c < (c / d) * d + d,
{
    vstd::arithmetic::div_mod::lemma_fundamental_div_mod(c, d);
    vstd::arithmetic::div_mod::lemma_mod_bound(c, d);
    assert(d * (c / d) == (c / d) * d) by (nonlinear_arith);
}

proof fn lemma_sandwich(q: int, d: int, n: int)
    requires
        d > 0,
        n > 0,
        q * d <= d * ONE_RAW,
        d * ONE_RAW <= q * d + n * (d - 1),
    ensures
        ONE_RAW - n < q <= ONE_RAW,
{
    assert(q <= ONE_RAW) by (nonlinear_arith)
        requires
            d > 0,
            q * d <= d * ONE_RAW,
    ;
    assert(d * ONE_RAW < (q + n) * d) by (nonlinear_arith)
        requires
            d > 0,
            n > 0,
            d * ONE_RAW <= q * d + n * (d - 1),
    ;
    assert(ONE_RAW < q + n) by (nonlinear_arith)
        requires
            d > 0,
            d * ONE_RAW < (q + n) * d,
    ;
}

proof fn lemma_shares_bound(m: Seq<Seq<Fixed>>, hands: nat, default: Fixed, h: int, k: nat)
    requires
        crate::matching::rectangular(m, hands),
        0 <= h < hands,
        adds_up(m, h),
        divides(m, h),
        raw_total(m, h, m.len()) > 0,
        k <= m.len(),
    ensures
        raw_total(crate::matching::shares(m, hands, default), h, k) * raw_total(m, h, m.len())
            <= raw_total(m, h, k) * ONE_RAW,
        raw_total(m, h, k) * ONE_RAW <= raw_total(crate::matching::shares(m, hands, default), h, k)
            * raw_total(m, h, m.len()) + k * (raw_total(m, h, m.len()) - 1),
    decreases k,
{
    let d = raw_total(m, h, m.len());
    let sh = crate::matching::shares(m, hands, default);
    if k == 0 {
        assert(0 * d == 0 && 0 * (d - 1) == 0) by (nonlinear_arith);
    } else {
        let j = (k - 1) as nat;
        lemma_shares_bound(m, hands, default, h, j);
        lemma_total_is_exact(m, hands, h, m.len());
        let c = m[j as int][h].raw as int;
        let q = (c * ONE_RAW) / d;
        assert(m[j as int].len() == hands);
        assert(i64::MIN <= q <= i64::MAX);
        assert(sh[j as int][h] == crate::matching::share(m, hands, default, j as int, h));
        assert(sh[j as int][h].raw == q);
        lemma_quotient_bounds(c * ONE_RAW, d);
        let qs = raw_total(sh, h, j);
        let cs = raw_total(m, h, j);
        assert(raw_total(sh, h, k) == qs + q);
        assert(raw_total(m, h, k) == cs + c);
        assert((qs + q) * d <= (cs + c) * ONE_RAW && (cs + c) * ONE_RAW <= (qs + q) * d + k * (d
            - 1)) by (nonlinear_arith)
            requires
                qs * d <= cs * ONE_RAW,
                cs * ONE_RAW <= qs * d + j * (d - 1),
                q * d <= c * ONE_RAW,
                c * ONE_RAW < q * d + d,
                k == j + 1,
        ;
    }
}

proof fn lemma_default_where_total_is_zero(m: Seq<Seq<Fixed>>, hands: nat, default: Fixed, h: int)
    requires
        crate::matching::rectangular(m, hands),
        0 <= h < hands,
        adds_up(m, h),
        raw_total(m, h, m.len()) == 0,
    ensures
        forall|a: int|
            0 <= a < m.len() ==> (#[trigger] crate::matching::shares(m, hands, default)[a])[h]
                == default,
{
    lemma_total_is_exact(m, hands, h, m.len());
    assert forall|a: int| 0 <= a < m.len() implies (#[trigger] crate::matching::shares(
        m,
        hands,
        default,
    )[a])[h] == default by {
        assert(m[a].len() == hands);
        assert(crate::matching::shares(m, hands, default)[a][h] == crate::matching::share(
            m,
            hands,
            default,
            a,
            h,
        ));
    }
}

proof fn lemma_constant_column(m: Seq<Seq<Fixed>>, h: int, value: int, k: nat)
    requires
        k <= m.len(),
        forall|a: int| 0 <= a < m.len() ==> (#[trigger] m[a])[h].raw == value,
    ensures
        raw_total(m, h, k) == k * value,
    decreases k,
{
    if k == 0 {
        assert(0 * value == 0) by (nonlinear_arith);
    } else {
        lemma_constant_column(m, h, value, (k - 1) as nat);
        assert((k - 1) * value + value == k * value) by (nonlinear_arith);
    }
}

proof fn lemma_partial_sums_grow(m: Seq<Seq<Fixed>>, h: int, j: nat, k: nat)
    requires
        j <= k <= m.len(),
        forall|a: int| 0 <= a < m.len() ==> (#[trigger] m[a])[h].raw >= 0,
    ensures
        0 <= raw_total(m, h, j) <= raw_total(m, h, k),
    decreases k,
{
    if j < k {
        lemma_partial_sums_grow(m, h, j, (k - 1) as nat);
    } else if k > 0 {
        lemma_partial_sums_grow(m, h, (j - 1) as nat, (k - 1) as nat);
    }
}

/// The shares of a column of an accumulated strategy add up to one, less
/// at most one unit of the last place for each action, wherever the column's
/// total is positive; and they are all zero where the total is zero. This
/// holds of every column that can be added up and divided within the range
/// of the numbers.
pub proof fn average_columns_sum_to_one(cum_strategy: Seq<Seq<Fixed>>, hands: nat, h: int)
    requires
        crate::matching::rectangular(cum_strategy, hands),
        0 <= h < hands,
        adds_up(cum_strategy, h),
        divides(cum_strategy, h),
    ensures
        raw_total(cum_strategy, h, cum_strategy.len()) > 0 ==> ONE_RAW - cum_strategy.len()
            < raw_total(
            crate::matching::averaged(cum_strategy, hands),
            h,
            cum_strategy.len(),
        ) <= ONE_RAW,
        raw_total(cum_strategy, h, cum_strategy.len()) == 0 ==> forall|a: int|
            0 <= a < cum_strategy.len() ==> (#[trigger] crate::matching::averaged(
                cum_strategy,
                hands,
            )[a])[h].raw == 0,
{
    let n = cum_strategy.len();
    let d = raw_total(cum_strategy, h, n);
    let zero = Fixed::of_int(0);
    if d > 0 {
        lemma_shares_bound(cum_strategy, hands, zero, h, n);
        let q = raw_total(crate::matching::averaged(cum_strategy, hands), h, n);
        assert(n > 0);
        lemma_sandwich(q, d, n as int);
    } else if d == 0 {
        lemma_default_where_total_is_zero(cum_strategy, hands, zero, h);
    }
}

proof fn lemma_uniform_bounds(n: nat)
    requires
        0 < n <= usize::MAX,
    ensures
        0 <= crate::matching::uniform::<Fixed>(n).raw <= ONE_RAW,
        ONE_RAW - n < n * crate::matching::uniform::<Fixed>(n).raw <= ONE_RAW,
{
    let u = crate::matching::uniform::<Fixed>(n).raw as int;
    let unit: int = 16777216;
    let count: int = n as int;
    assert(Fixed::of_int(1).raw == unit);
    assert(n as i128 == count);
    if count * unit <= i64::MAX {
        assert(Fixed::of_int(n as i128).raw == count * unit);
        assert(u == Fixed::saturate((unit * unit) / (count * unit)));
        vstd::arithmetic::div_mod::lemma_div_multiples_vanish_quotient(unit, unit, count);
        assert(unit * count == count * unit) by (nonlinear_arith);
        let q = unit / count;
        assert((unit * unit) / (count * unit) == q);
        lemma_quotient_bounds(unit, count);
        assert(0 <= q <= unit) by (nonlinear_arith)
            requires
                q * count <= unit,
                unit < q * count + count,
                count > 0,
                unit == 16777216,
        ;
        assert(u == q);
        assert(count * q == q * count) by (nonlinear_arith);
    } else {
        assert(Fixed::of_int(n as i128).raw == i64::MAX);
        assert((unit * unit) / (i64::MAX as int) == 0);
        assert(u == 0);
        assert(count * 0 == 0) by (nonlinear_arith);
    }
}

/// Regret matching gives every hand probabilities that add up to one, less
/// at most one unit of the last place for each action, and each of them
/// lies between zero and one. A hand with no positive regret plays every
/// action with the same probability. This holds at every node with an
/// action, for every hand whose positive regrets can be added up within the
/// range of the numbers.
pub proof fn matched_columns_sum_to_one(regrets: Seq<Seq<Fixed>>, hands: nat, h: int)
    requires
        crate::matching::rectangular(regrets, hands),
        0 <= h < hands,
        0 < regrets.len() <= usize::MAX,
        adds_up(crate::matching::clipped(regrets), h),
    ensures
        ONE_RAW - regrets.len() < raw_total(
            crate::matching::matched(regrets, hands),
            h,
            regrets.len(),
        ) <= ONE_RAW,
        forall|a: int|
            0 <= a < regrets.len() ==> 0 <= (#[trigger] crate::matching::matched(
                regrets,
                hands,
            )[a])[h].raw <= ONE_RAW,
        (forall|a: int| 0 <= a < regrets.len() ==> (#[trigger] regrets[a])[h].raw <= 0)
            ==> forall|a: int|
            0 <= a < regrets.len() ==> (#[trigger] crate::matching::matched(regrets, hands)[a])[h]
                == crate::matching::uniform::<Fixed>(regrets.len()),
{
    let n = regrets.len();
    let m = crate::matching::clipped(regrets);
    let default = crate::matching::uniform::<Fixed>(n);
    let out = crate::matching::matched(regrets, hands);
    let d = raw_total(m, h, n);
    assert(crate::matching::rectangular(m, hands)) by {
        assert forall|a: int| 0 <= a < m.len() implies (#[trigger] m[a]).len() == hands by {
            assert(regrets[a].len() == hands);
        }
    }
    assert forall|a: int| 0 <= a < m.len() implies (#[trigger] m[a])[h].raw >= 0 by {
        assert(regrets[a].len() == hands);
    }
    lemma_partial_sums_grow(m, h, 0, n);
    lemma_uniform_bounds(n);
    if d > 0 {
        assert forall|a: int| 0 <= a < m.len() implies i64::MIN <= ((#[trigger] m[a])[h].raw
            * ONE_RAW) / d <= ONE_RAW by {
            lemma_partial_sums_grow(m, h, a as nat, (a + 1) as nat);
            lemma_partial_sums_grow(m, h, (a + 1) as nat, n);
            let c = m[a][h].raw as int;
            assert(0 <= c <= d);
            lemma_quotient_bounds(c * ONE_RAW, d);
            let q = (c * ONE_RAW) / d;
            assert(0 <= q <= ONE_RAW) by (nonlinear_arith)
                requires
                    q * d <= c * ONE_RAW,
                    c * ONE_RAW < q * d + d,
                    0 <= c <= d,
                    d > 0,
                    ONE_RAW == 16777216,
            ;
        }
        assert(divides(m, h));
        lemma_shares_bound(m, hands, default, h, n);
        lemma_total_is_exact(m, hands, h, n);
        let q = raw_total(out, h, n);
        assert(n > 0);
        lemma_sandwich(q, d, n as int);
        assert forall|a: int| 0 <= a < n implies 0 <= (#[trigger] out[a])[h].raw <= ONE_RAW by {
            assert(m[a].len() == hands);
            assert(out[a][h] == crate::matching::share(m, hands, default, a, h));
            assert(out[a][h].raw == Fixed::saturate((m[a][h].raw * ONE_RAW) / d));
        }
        if forall|a: int| 0 <= a < regrets.len() ==> (#[trigger] regrets[a])[h].raw <= 0 {
            assert forall|a: int| 0 <= a < m.len() implies (#[trigger] m[a])[h].raw == 0 by {
                assert(regrets[a].len() == hands);
                assert(regrets[a][h].raw <= 0);
            }
            lemma_constant_column(m, h, 0, n);
            assert(n * 0 == 0) by (nonlinear_arith);
        }
    } else {
        lemma_default_where_total_is_zero(m, hands, default, h);
        assert forall|a: int| 0 <= a < out.len() implies (#[trigger] out[a])[h].raw
            == default.raw by {}
        lemma_constant_column(out, h, default.raw as int, n);
    }
}

proof fn lemma_child_reach_bound(reach: Seq<Fixed>, strategy: Seq<Seq<Fixed>>, hands: nat, h: int, k: nat)
    requires
        crate::matching::rectangular(strategy, hands),
        reach.len() == hands,
        0 <= h < hands,
        reach[h].raw >= 0,
        k <= strategy.len(),
        forall|a: int| 0 <= a < strategy.len() ==> 0 <= (#[trigger] strategy[a])[h].raw <= ONE_RAW,
    ensures
        raw_total(child_reaches(reach, strategy), h, k) * ONE_RAW <= reach[h].raw * raw_total(
            strategy,
            h,
            k,
        ),
        reach[h].raw * raw_total(strategy, h, k) <= raw_total(child_reaches(reach, strategy), h, k)
            * ONE_RAW + k * (ONE_RAW - 1),
    decreases k,
{
    let children = child_reaches(reach, strategy);
    let p = reach[h].raw as int;
    if k == 0 {
        assert(p * 0 == 0 && 0 * (ONE_RAW - 1) == 0) by (nonlinear_arith);
    } else {
        let j = (k - 1) as nat;
        lemma_child_reach_bound(reach, strategy, hands, h, j);
        let s = strategy[j as int][h].raw as int;
        assert(strategy[j as int].len() == hands);
        assert(0 <= s <= ONE_RAW);
        let r = (p * s) / (ONE_RAW as int);
        lemma_quotient_bounds(p * s, ONE_RAW as int);
        assert(0 <= r <= p) by (nonlinear_arith)
            requires
                r * ONE_RAW <= p * s,
                p * s < r * ONE_RAW + ONE_RAW,
                0 <= s <= ONE_RAW,
                0 <= p,
                ONE_RAW == 16777216,
        ;
        assert(children[j as int][h] == reach[h].product(strategy[j as int][h]));
        assert(children[j as int][h].raw == r);
        let rs = raw_total(children, h, j);
        let ss = raw_total(strategy, h, j);
        assert((rs + r) * ONE_RAW <= p * (ss + s) && p * (ss + s) <= (rs + r) * ONE_RAW + k * (
            ONE_RAW - 1)) by (nonlinear_arith)
            requires
                rs * ONE_RAW <= p * ss,
                p * ss <= rs * ONE_RAW + j * (ONE_RAW - 1),
                r * ONE_RAW <= p * s,
                p * s < r * ONE_RAW + ONE_RAW,
                k == j + 1,
        ;
    }
}

/// Reach is conserved from a node to its children: for every hand, what the
/// children are reached with adds up to what the node is reached with, less
/// the little that rounding down takes away. This holds at every node with
/// an action, of a reach that is not negative, for every hand whose positive
/// regrets can be added up within the range of the numbers.
pub proof fn child_reach_sums_to_parent(reach: Seq<Fixed>, regrets: Seq<Seq<Fixed>>, hands: nat, h: int)
    requires
        crate::matching::rectangular(regrets, hands),
        reach.len() == hands,
        0 <= h < hands,
        reach[h].raw >= 0,
        0 < regrets.len() <= usize::MAX,
        adds_up(crate::matching::clipped(regrets), h),
    ensures
        raw_total(
            child_reaches(reach, crate::matching::matched(regrets, hands)),
            h,
            regrets.len(),
        ) <= reach[h].raw,
        (reach[h].raw - raw_total(
            child_reaches(reach, crate::matching::matched(regrets, hands)),
            h,
            regrets.len(),
        )) * ONE_RAW < regrets.len() * (ONE_RAW + reach[h].raw),
{
    let n = regrets.len();
    let strategy = crate::matching::matched(regrets, hands);
    matched_columns_sum_to_one(regrets, hands, h);
    assert(crate::matching::rectangular(strategy, hands)) by {
        assert forall|a: int| 0 <= a < strategy.len() implies (#[trigger] strategy[a]).len()
            == hands by {
            assert(regrets[a].len() == hands);
        }
    }
    lemma_child_reach_bound(reach, strategy, hands, h, n);
    let p = reach[h].raw as int;
    let t = raw_total(strategy, h, n);
    let r = raw_total(child_reaches(reach, strategy), h, n);
    assert(r <= p && (p - r) * ONE_RAW < n * (ONE_RAW + p)) by (nonlinear_arith)
        requires
            r * ONE_RAW <= p * t,
            p * t <= r * ONE_RAW + n * (ONE_RAW - 1),
            n > 0,
            ONE_RAW - n < t <= ONE_RAW,
            0 <= p,
            ONE_RAW == 16777216,
    ;
}

/// An accumulated strategy never shrinks: what an iteration adds for a
/// hand is not negative, as long as the probability, the weight and the
/// reach are not.
pub proof fn accumulated_strategy_never_shrinks(cum: Fixed, probability: Fixed, gamma: Fixed, reach: Fixed)
    requires
        probability.raw >= 0,
        gamma.raw >= 0,
        reach.raw >= 0,
    ensures
        crate::update::next_strategy(cum, probability, gamma, reach).raw >= cum.raw,
{
    let weighted = probability.product(gamma);
    vstd::arithmetic::mul::lemma_mul_nonnegative(probability.raw as int, gamma.raw as int);
    vstd::arithmetic::div_mod::lemma_div_pos_is_pos(probability.raw * gamma.raw, ONE_RAW as int);
    assert(weighted.raw >= 0);
    vstd::arithmetic::mul::lemma_mul_nonnegative(weighted.raw as int, reach.raw as int);
    vstd::arithmetic::div_mod::lemma_div_pos_is_pos(weighted.raw * reach.raw, ONE_RAW as int);
    assert(weighted.product(reach).raw >= 0);
}

/// A negative regret is halved in every iteration: the factor for negative
/// regrets is one half, whatever the iteration.
pub proof fn negative_regrets_are_halved(t: i32)
    ensures
        crate::update::schedule::<Fixed>(t).beta.raw == ONE_RAW / 2,
{
    let time = Fixed::of_int(t as i128);
    assert(time.power(crate::update::BETA_HALVES) == Fixed { raw: ONE_RAW });
    assert(Fixed::of_int(1).raw == ONE_RAW);
    assert(ONE_RAW == 16777216);
    assert((16777216int * 16777216int) / 33554432int == 8388608int);
}

} // verus!
