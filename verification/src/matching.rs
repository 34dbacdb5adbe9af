//! From accumulated numbers to probabilities: regret matching and the
//! normalisation of accumulated strategies.
//!
//! A matrix holds one row per action and, in each row, one entry per private
//! hand. A column is what the rows hold for one hand.

use vstd::prelude::*;
use crate::scalar::Scalar;
use crate::vector::{add_assign_vec, div_assign_vec, filled, nonneg_assign_vec};

verus! {

/// The rows of a matrix, each as a sequence.
pub open spec fn rows<S>(m: Vec<Vec<S>>) -> Seq<Seq<S>> {
    Seq::new(m@.len(), |a: int| m@[a]@)
}

/// Whether every row of `m` has `hands` entries.
pub open spec fn rectangular<S>(m: Seq<Seq<S>>, hands: nat) -> bool {
    forall|a: int| 0 <= a < m.len() ==> (#[trigger] m[a]).len() == hands
}

/// The sum of column `h` over the first `upto` rows, added up from zero in
/// the order of the rows. A row too short to have the column adds nothing.
pub open spec fn column_total<S: Scalar>(m: Seq<Seq<S>>, h: int, upto: nat) -> S
    decreases upto,
{
    if upto == 0 {
        S::of_int(0)
    } else {
        let before = column_total(m, h, (upto - 1) as nat);
        if h < m[upto - 1].len() {
            before.sum(m[upto - 1][h])
        } else {
            before
        }
    }
}

/// The matrix `m` with every entry replaced by its positive part.
pub open spec fn clipped<S: Scalar>(m: Seq<Seq<S>>) -> Seq<Seq<S>> {
    Seq::new(m.len(), |a: int| Seq::new(m[a].len(), |h: int| m[a][h].positive_part()))
}

/// The entry that dividing by the column totals leaves at row `a`, column
/// `h`: the entry's share of its column's total, or `default` where the total
/// is zero. Columns from `hands` on are left as they are.
pub open spec fn share<S: Scalar>(m: Seq<Seq<S>>, hands: nat, default: S, a: int, h: int) -> S {
    if h < hands {
        crate::vector::guarded_quotient(m[a][h], column_total(m, h, m.len()), default)
    } else {
        m[a][h]
    }
}

/// The matrix `m` with every column divided by its total.
pub open spec fn shares<S: Scalar>(m: Seq<Seq<S>>, hands: nat, default: S) -> Seq<Seq<S>> {
    Seq::new(m.len(), |a: int| Seq::new(m[a].len(), |h: int| share(m, hands, default, a, h)))
}

/// The probability of each action when nothing tells the actions apart.
pub open spec fn uniform<S: Scalar>(num_actions: nat) -> S {
    S::of_int(1).quotient(S::of_int(num_actions as i128))
}

/// The strategy that regret matching derives from the accumulated regrets:
/// every hand plays each action in proportion to its positive regret, and
/// uniformly where no regret of the hand is positive.
pub open spec fn matched<S: Scalar>(regrets: Seq<Seq<S>>, hands: nat) -> Seq<Seq<S>> {
    shares(clipped(regrets), hands, uniform::<S>(regrets.len()))
}

/// The average strategy that an accumulated strategy stands for: every
/// column divided by its total, and all zero where the total is zero.
pub open spec fn averaged<S: Scalar>(cum_strategy: Seq<Seq<S>>, hands: nat) -> Seq<Seq<S>> {
    shares(cum_strategy, hands, S::of_int(0))
}

/// A copy of `m` with every entry replaced by its positive part.
pub fn positive_parts<S: Scalar>(m: &Vec<Vec<S>>) -> (out: Vec<Vec<S>>)
    ensures
        rows(out) == clipped(rows(*m)),
{
    let mut out: Vec<Vec<S>> = Vec::with_capacity(m.len());
    let mut a: usize = 0;
    while a < m.len()
        invariant
            a <= m@.len(),
            out@.len() == a,
            forall|b: int| 0 <= b < a ==> (#[trigger] out@[b])@ == clipped(rows(*m))[b],
        decreases m@.len() - a,
    {
        let source = &m[a];
        let mut row: Vec<S> = Vec::with_capacity(source.len());
        let mut h: usize = 0;
        while h < source.len()
            invariant
                h <= source@.len(),
                row@ == source@.take(h as int),
            decreases source@.len() - h,
        {
            row.push(source[h]);
            h += 1;
            assert(row@ =~= source@.take(h as int));
        }
        assert(source@.take(source@.len() as int) =~= source@);
        nonneg_assign_vec(&mut row);
        assert(row@ =~= clipped(rows(*m))[a as int]);
        out.push(row);
        a += 1;
    }
    assert(rows(out) =~= clipped(rows(*m)));
    out
}

/// Divides every column of `m` by its total; a column whose total is zero
/// is filled with `default`.
pub fn divide_columns<S: Scalar>(m: &mut Vec<Vec<S>>, hands: usize, default: S)
    ensures
        rows(*final(m)) == shares(rows(*old(m)), hands as nat, default),
{
    let ghost before = rows(*m);
    let n: usize = m.len();
    let mut denom: Vec<S> = filled(S::from_int(0), hands);
    let mut a: usize = 0;
    while a < n
        invariant
            a <= n,
            n == m@.len(),
            before == rows(*m),
            denom@.len() == hands,
            forall|h: int| 0 <= h < hands ==> #[trigger] denom@[h] == column_total(before, h, a as nat),
        decreases n - a,
    {
        add_assign_vec(&mut denom, &m[a]);
        a += 1;
    }
    let mut a: usize = 0;
    while a < n
        invariant
            a <= n,
            n == m@.len(),
            n == before.len(),
            denom@.len() == hands,
            forall|h: int| 0 <= h < hands ==> #[trigger] denom@[h] == column_total(before, h, n as nat),
            forall|b: int| 0 <= b < a ==> (#[trigger] m@[b])@ == shares(before, hands as nat, default)[b],
            forall|b: int| a <= b < n ==> (#[trigger] m@[b])@ == before[b],
        decreases n - a,
    {
        div_assign_vec(&mut m[a], &denom, default);
        assert(m@[a as int]@ =~= shares(before, hands as nat, default)[a as int]);
        a += 1;
    }
    assert(rows(*m) =~= shares(before, hands as nat, default));
}

/// The strategy that regret matching derives from the accumulated regrets
/// of one node.
pub fn regret_matching<S: Scalar>(regrets: &Vec<Vec<S>>, num_private_hands: usize) -> (strategy: Vec<Vec<S>>)
    ensures
        rows(strategy) == matched(rows(*regrets), num_private_hands as nat),
        strategy@.len() == regrets@.len(),
        forall|a: int| 0 <= a < regrets@.len() ==> (#[trigger] strategy@[a])@.len() == regrets@[a]@.len(),
{
    let num_actions: usize = regrets.len();
    let mut strategy = positive_parts(regrets);
    let fallback = S::from_int(1).div(S::from_int(num_actions as i128));
    divide_columns(&mut strategy, num_private_hands, fallback);
    proof {
        assert(rows(strategy).len() == strategy@.len());
        assert forall|a: int| 0 <= a < regrets@.len() implies (#[trigger] strategy@[a])@.len()
            == regrets@[a]@.len() by {
            assert(rows(strategy)[a].len() == rows(*regrets)[a].len());
        }
    }
    strategy
}

} // verus!
