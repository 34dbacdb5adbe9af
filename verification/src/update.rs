//! The arithmetic of one node's update: the discount schedule, the value of
//! a node under a strategy, and what an iteration adds to the accumulators.

use vstd::prelude::*;
use crate::scalar::Scalar;
use crate::vector::{
    add_assign_vec, filled, mul_assign_scalar, mul_assign_vec, mul_vec, sub_assign_vec,
};

verus! {

/// Twice the exponent by which positive regrets are discounted: 1.5.
pub const ALPHA_HALVES: u32 = 3;

/// Twice the exponent by which negative regrets are discounted: 0.
pub const BETA_HALVES: u32 = 0;

/// Twice the exponent by which strategies are weighted: 2.
pub const GAMMA_HALVES: u32 = 4;

/// The three factors of one iteration.
pub struct Discount<S> {
    /// What a regret that is not negative is multiplied by.
    pub alpha: S,
    /// What a negative regret is multiplied by.
    pub beta: S,
    /// The weight of the iteration's strategy in the accumulated one.
    pub gamma: S,
}

/// `x / (x + 1)` for `x = t^(halves / 2)`.
pub open spec fn discount_factor<S: Scalar>(t: i32, halves: u32) -> S {
    S::of_int(t as i128).power(halves).quotient(
        S::of_int(t as i128).power(halves).sum(S::of_int(1)),
    )
}

/// `(t + 1)^(halves / 2)`.
pub open spec fn weight_factor<S: Scalar>(t: i32, halves: u32) -> S {
    S::of_int(t as i128).sum(S::of_int(1)).power(halves)
}

/// The factors of iteration `t`.
pub open spec fn schedule<S: Scalar>(t: i32) -> Discount<S> {
    Discount {
        alpha: discount_factor::<S>(t, ALPHA_HALVES),
        beta: discount_factor::<S>(t, BETA_HALVES),
        gamma: weight_factor::<S>(t, GAMMA_HALVES),
    }
}

/// The factors of iteration `t`, counted from zero:
/// `alpha = t^1.5 / (t^1.5 + 1)`, `beta = t^0 / (t^0 + 1)` and
/// `gamma = (t + 1)^2`.
pub fn discount_schedule<S: Scalar>(t: i32) -> (out: Discount<S>)
    ensures
        out == schedule::<S>(t),
{
    let time = S::from_int(t as i128);
    let one = S::from_int(1);
    let a = time.pow_halves(ALPHA_HALVES);
    let b = time.pow_halves(BETA_HALVES);
    Discount {
        alpha: a.div(a.add(one)),
        beta: b.div(b.add(one)),
        gamma: time.add(one).pow_halves(GAMMA_HALVES),
    }
}

/// The matrix whose entries are the products of the entries of `values`
/// and `strategy` in the same place.
pub open spec fn weighted<S: Scalar>(values: Seq<Seq<S>>, strategy: Seq<Seq<S>>) -> Seq<Seq<S>> {
    Seq::new(
        values.len(),
        |a: int| Seq::new(values[a].len(), |h: int| values[a][h].product(strategy[a][h])),
    )
}

/// The sums of the columns of `m`, one for each of `hands` hands.
pub open spec fn column_totals<S: Scalar>(m: Seq<Seq<S>>, hands: nat) -> Seq<S> {
    Seq::new(hands, |h: int| crate::matching::column_total(m, h, m.len()))
}

/// The sums of the columns of `m`: for every hand, what the rows hold for
/// it, added up from zero in the order of the rows.
pub fn sum_rows<S: Scalar>(m: &Vec<Vec<S>>, hands: usize) -> (out: Vec<S>)
    ensures
        out@ == column_totals(crate::matching::rows(*m), hands as nat),
{
    let ghost view = crate::matching::rows(*m);
    let mut out: Vec<S> = filled(S::from_int(0), hands);
    let mut a: usize = 0;
    while a < m.len()
        invariant
            a <= m@.len(),
            view == crate::matching::rows(*m),
            out@.len() == hands,
            forall|h: int|
                0 <= h < hands ==> #[trigger] out@[h] == crate::matching::column_total(
                    view,
                    h,
                    a as nat,
                ),
        decreases m@.len() - a,
    {
        add_assign_vec(&mut out, &m[a]);
        a += 1;
    }
    assert(out@ =~= column_totals(view, hands as nat));
    out
}

/// The value of a node to the player who acts there: for every hand, the
/// values of the actions weighted by the probabilities the hand plays them
/// with, added up from zero in the order of the actions.
pub fn expected_value<S: Scalar>(values: &Vec<Vec<S>>, strategy: &Vec<Vec<S>>, hands: usize) -> (out:
    Vec<S>)
    requires
        values@.len() == strategy@.len(),
        crate::matching::rectangular(crate::matching::rows(*values), hands as nat),
        crate::matching::rectangular(crate::matching::rows(*strategy), hands as nat),
    ensures
        out@ == column_totals(
            weighted(crate::matching::rows(*values), crate::matching::rows(*strategy)),
            hands as nat,
        ),
{
    let ghost target = weighted(crate::matching::rows(*values), crate::matching::rows(*strategy));
    let mut out: Vec<S> = filled(S::from_int(0), hands);
    let mut a: usize = 0;
    while a < values.len()
        invariant
            a <= values@.len(),
            values@.len() == strategy@.len(),
            crate::matching::rectangular(crate::matching::rows(*values), hands as nat),
            crate::matching::rectangular(crate::matching::rows(*strategy), hands as nat),
            target == weighted(crate::matching::rows(*values), crate::matching::rows(*strategy)),
            out@.len() == hands,
            forall|h: int|
                0 <= h < hands ==> #[trigger] out@[h] == crate::matching::column_total(
                    target,
                    h,
                    a as nat,
                ),
        decreases values@.len() - a,
    {
        assert(crate::matching::rows(*values)[a as int].len() == hands);
        assert(crate::matching::rows(*strategy)[a as int].len() == hands);
        let term = mul_vec(&values[a], &strategy[a]);
        assert(term@ =~= target[a as int]);
        add_assign_vec(&mut out, &term);
        a += 1;
    }
    assert(out@ =~= column_totals(target, hands as nat));
    out
}

/// A regret after discounting: multiplied by `alpha` where it is zero or
/// more, by `beta` where it is negative.
pub open spec fn discounted<S: Scalar>(regret: S, alpha: S, beta: S) -> S {
    if regret.non_negative() {
        regret.product(alpha)
    } else {
        regret.product(beta)
    }
}

/// The accumulated regret of one action and hand after an iteration: the
/// old regret, discounted, plus the value of the action, minus the value of
/// the node.
pub open spec fn next_regret<S: Scalar>(regret: S, alpha: S, beta: S, value: S, node_value: S) -> S {
    discounted(regret, alpha, beta).sum(value).difference(node_value)
}

/// The accumulated strategy of one action and hand after an iteration: the
/// old one plus the probability of the action, weighted by `gamma` and by
/// the reach of the hand.
pub open spec fn next_strategy<S: Scalar>(cum: S, probability: S, gamma: S, reach: S) -> S {
    cum.sum(probability.product(gamma).product(reach))
}

/// The accumulated regrets of a node after an iteration.
pub open spec fn next_regrets<S: Scalar>(
    regrets: Seq<Seq<S>>,
    alpha: S,
    beta: S,
    values: Seq<Seq<S>>,
    node_value: Seq<S>,
) -> Seq<Seq<S>> {
    Seq::new(
        regrets.len(),
        |a: int|
            Seq::new(
                regrets[a].len(),
                |h: int| next_regret(regrets[a][h], alpha, beta, values[a][h], node_value[h]),
            ),
    )
}

/// The accumulated strategy of a node after an iteration.
pub open spec fn next_strategies<S: Scalar>(
    cum_strategy: Seq<Seq<S>>,
    strategy: Seq<Seq<S>>,
    gamma: S,
    reach: Seq<S>,
) -> Seq<Seq<S>> {
    Seq::new(
        cum_strategy.len(),
        |a: int|
            Seq::new(
                cum_strategy[a].len(),
                |h: int| next_strategy(cum_strategy[a][h], strategy[a][h], gamma, reach[h]),
            ),
    )
}

/// Multiplies every regret in `row` by `alpha` where it is zero or more and
/// by `beta` where it is negative.
pub fn discount_regrets<S: Scalar>(row: &mut Vec<S>, alpha: S, beta: S)
    ensures
        final(row)@.len() == old(row)@.len(),
        forall|h: int|
            0 <= h < old(row)@.len() ==> #[trigger] final(row)@[h] == discounted(
                old(row)@[h],
                alpha,
                beta,
            ),
{
    let n: usize = row.len();
    let mut h: usize = 0;
    while h < n
        invariant
            h <= n,
            n == old(row)@.len(),
            row@.len() == n,
            forall|g: int| 0 <= g < h ==> #[trigger] row@[g] == discounted(old(row)@[g], alpha, beta),
            forall|g: int| h <= g < n ==> #[trigger] row@[g] == old(row)@[g],
        decreases n - h,
    {
        let el = row[h];
        let factor = if el.is_non_negative() {
            alpha
        } else {
            beta
        };
        row.set(h, el.mul(factor));
        h += 1;
    }
}

/// Brings the accumulated regrets of a node up to date: every regret is
/// discounted, and the value of its action less the value of the node is
/// added to it.
pub fn update_regrets<S: Scalar>(
    cum_regret: &mut Vec<Vec<S>>,
    discount: &Discount<S>,
    values: &Vec<Vec<S>>,
    node_value: &Vec<S>,
    hands: usize,
)
    requires
        old(cum_regret)@.len() == values@.len(),
        crate::matching::rectangular(crate::matching::rows(*old(cum_regret)), hands as nat),
        crate::matching::rectangular(crate::matching::rows(*values), hands as nat),
        node_value@.len() == hands,
    ensures
        crate::matching::rows(*final(cum_regret)) == next_regrets(
            crate::matching::rows(*old(cum_regret)),
            discount.alpha,
            discount.beta,
            crate::matching::rows(*values),
            node_value@,
        ),
{
    let ghost before = crate::matching::rows(*cum_regret);
    let ghost after = next_regrets(
        before,
        discount.alpha,
        discount.beta,
        crate::matching::rows(*values),
        node_value@,
    );
    let n: usize = cum_regret.len();
    let mut a: usize = 0;
    while a < n
        invariant
            a <= n,
            n == cum_regret@.len(),
            n == values@.len(),
            n == before.len(),
            crate::matching::rectangular(before, hands as nat),
            crate::matching::rectangular(crate::matching::rows(*values), hands as nat),
            node_value@.len() == hands,
            after == next_regrets(
                before,
                discount.alpha,
                discount.beta,
                crate::matching::rows(*values),
                node_value@,
            ),
            forall|b: int| 0 <= b < a ==> (#[trigger] cum_regret@[b])@ == after[b],
            forall|b: int| a <= b < n ==> (#[trigger] cum_regret@[b])@ == before[b],
        decreases n - a,
    {
        assert(before[a as int].len() == hands);
        assert(crate::matching::rows(*values)[a as int].len() == hands);
        let row = &mut cum_regret[a];
        discount_regrets(row, discount.alpha, discount.beta);
        add_assign_vec(row, &values[a]);
        sub_assign_vec(row, node_value);
        assert(cum_regret@[a as int]@ =~= after[a as int]);
        a += 1;
    }
    assert(crate::matching::rows(*cum_regret) =~= after);
}

/// Brings the accumulated strategy of a node up to date: the strategy of
/// the iteration, weighted by `gamma` and by the reach of each hand, is
/// added to it.
pub fn update_strategy<S: Scalar>(
    cum_strategy: &mut Vec<Vec<S>>,
    strategy: Vec<Vec<S>>,
    gamma: S,
    pi: &Vec<S>,
    hands: usize,
)
    requires
        old(cum_strategy)@.len() == strategy@.len(),
        crate::matching::rectangular(crate::matching::rows(*old(cum_strategy)), hands as nat),
        crate::matching::rectangular(crate::matching::rows(strategy), hands as nat),
        pi@.len() == hands,
    ensures
        crate::matching::rows(*final(cum_strategy)) == next_strategies(
            crate::matching::rows(*old(cum_strategy)),
            crate::matching::rows(strategy),
            gamma,
            pi@,
        ),
{
    let ghost before = crate::matching::rows(*cum_strategy);
    let ghost played = crate::matching::rows(strategy);
    let ghost after = next_strategies(before, played, gamma, pi@);
    let mut strategy = strategy;
    let n: usize = cum_strategy.len();
    let mut a: usize = 0;
    while a < n
        invariant
            a <= n,
            n == cum_strategy@.len(),
            n == strategy@.len(),
            n == before.len(),
            n == played.len(),
            crate::matching::rectangular(before, hands as nat),
            crate::matching::rectangular(played, hands as nat),
            pi@.len() == hands,
            after == next_strategies(before, played, gamma, pi@),
            forall|b: int| 0 <= b < a ==> (#[trigger] cum_strategy@[b])@ == after[b],
            forall|b: int| a <= b < n ==> (#[trigger] cum_strategy@[b])@ == before[b],
            forall|b: int| a <= b < n ==> (#[trigger] strategy@[b])@ == played[b],
        decreases n - a,
    {
        assert(before[a as int].len() == hands);
        assert(played[a as int].len() == hands);
        let term = &mut strategy[a];
        mul_assign_scalar(term, gamma);
        mul_assign_vec(term, pi);
        add_assign_vec(&mut cum_strategy[a], &strategy[a]);
        assert(cum_strategy@[a as int]@ =~= after[a as int]);
        a += 1;
    }
    assert(crate::matching::rows(*cum_strategy) =~= after);
}

} // verus!
