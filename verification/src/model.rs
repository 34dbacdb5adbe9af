//! What the solver computes, as mathematics: the index of a game tree, the
//! walk of one player through it, and the iterations.
//!
//! The index lists the nodes where a player acts, each with its history and,
//! for every action, the place of the node the action leads to. The sums
//! hold, place by place, the accumulated regrets and strategies.

use vstd::prelude::*;
use crate::game::{Game, GameNode};
use crate::scalar::Scalar;
use crate::update::Discount;

verus! {

/// What the index holds of one node.
pub struct Entry {
    /// The node's history.
    pub history: Seq<usize>,
    /// For every action, the place of the node it leads to, or nothing
    /// where it ends the game.
    pub children: Seq<Option<usize>>,
}

/// The two accumulators, place by place.
pub struct Sums<S> {
    /// The accumulated regrets.
    pub regrets: Seq<Seq<Seq<S>>>,
    /// The accumulated strategies.
    pub strategies: Seq<Seq<Seq<S>>>,
}

/// How far a place is from the end of the index; zero for no place.
pub open spec fn height(tree: Seq<Entry>, slot: Option<usize>) -> nat {
    match slot {
        Some(i) => if i < tree.len() {
            (tree.len() - i) as nat
        } else {
            0
        },
        None => 0,
    }
}

/// Whether the index holds, from `slot` on, the whole subtree of the game
/// below the node with history `h`: a terminal node has no place, and every
/// other node has a place that holds its history and, for each of its
/// actions, the place of the child, which stands further back and covers
/// the child in turn.
pub open spec fn covers<N: GameNode>(tree: Seq<Entry>, slot: Option<usize>, h: Seq<usize>) -> bool
    decreases height(tree, slot),
{
    match slot {
        None => crate::game::ended::<N>(h),
        Some(i) => {
            &&& !crate::game::ended::<N>(h)
            &&& i < tree.len()
            &&& tree[i as int].history == h
            &&& tree[i as int].children.len() == crate::game::arity::<N>(h)
            &&& forall|a: int|
                0 <= a < tree[i as int].children.len() ==> match #[trigger] tree[i as int].children[a] {
                    Some(j) => i < j < tree.len() && covers::<N>(tree, Some(j), h.push(a as usize)),
                    None => crate::game::ended::<N>(h.push(a as usize)),
                }
        },
    }
}

/// The index of the subtree below the node with history `h`, its places
/// counted from `base`, together with the number of terminal nodes in the
/// subtree; nothing where the subtree goes on beyond `depth` actions.
///
/// A terminal node has no place. Any other node comes first, and after it
/// the subtrees of its actions, in their order.
pub open spec fn subtree<N: GameNode>(h: Seq<usize>, depth: nat, base: nat) -> Option<(Seq<Entry>, nat)>
    decreases depth, 0nat,
{
    if crate::game::ended::<N>(h) {
        Some((Seq::empty(), 1))
    } else if depth == 0 {
        None
    } else {
        match branches::<N>(h, (depth - 1) as nat, base + 1, crate::game::arity::<N>(h) as nat) {
            Some((places, entries, leaves)) => Some(
                (seq![Entry { history: h, children: places }] + entries, leaves),
            ),
            None => None,
        }
    }
}

/// The subtrees of the first `upto` actions after `h`, one after the other,
/// their places counted from `base`: the place of each child, the entries
/// of all the subtrees, and the number of terminal nodes in them.
pub open spec fn branches<N: GameNode>(h: Seq<usize>, depth: nat, base: nat, upto: nat) -> Option<
    (Seq<Option<usize>>, Seq<Entry>, nat),
>
    decreases depth, 1 + upto,
{
    if upto == 0 {
        Some((Seq::empty(), Seq::empty(), 0))
    } else {
        match branches::<N>(h, depth, base, (upto - 1) as nat) {
            None => None,
            Some((places, entries, leaves)) => {
                let child = h.push((upto - 1) as usize);
                match subtree::<N>(child, depth, base + entries.len()) {
                    None => None,
                    Some((below, more)) => Some(
                        (
                            places.push(
                                if crate::game::ended::<N>(child) {
                                    None
                                } else {
                                    Some((base + entries.len()) as usize)
                                },
                            ),
                            entries + below,
                            leaves + more,
                        ),
                    ),
                }
            },
        }
    }
}

/// Where the subtrees of some actions can be indexed, those of fewer
/// actions can, and they hold no more terminal nodes.
pub proof fn lemma_branches_grow<N: GameNode>(h: Seq<usize>, depth: nat, base: nat, fewer: nat, upto: nat)
    requires
        fewer <= upto,
        branches::<N>(h, depth, base, upto) is Some,
    ensures
        branches::<N>(h, depth, base, fewer) is Some,
        branches::<N>(h, depth, base, fewer).unwrap().2 <= branches::<N>(
            h,
            depth,
            base,
            upto,
        ).unwrap().2,
    decreases upto,
{
    if fewer < upto {
        lemma_branches_grow::<N>(h, depth, base, fewer, (upto - 1) as nat);
    }
}

/// A matrix of zeros.
pub open spec fn zeros<S: Scalar>(num_actions: nat, hands: nat) -> Seq<Seq<S>> {
    Seq::new(num_actions, |a: int| Seq::new(hands, |h: int| S::of_int(0)))
}

/// The sums before the first iteration: all zero.
pub open spec fn zero_sums<S: Scalar>(tree: Seq<Entry>, hands: nat) -> Sums<S> {
    Sums {
        regrets: Seq::new(tree.len(), |i: int| zeros::<S>(tree[i].children.len(), hands)),
        strategies: Seq::new(tree.len(), |i: int| zeros::<S>(tree[i].children.len(), hands)),
    }
}

/// A reach multiplied, hand by hand, with the probabilities of one action.
pub open spec fn scaled<S: Scalar>(reach: Seq<S>, probabilities: Seq<S>) -> Seq<S> {
    Seq::new(
        crate::vector::shorter(reach.len(), probabilities.len()),
        |h: int| reach[h].product(probabilities[h]),
    )
}

/// The counterfactual value to `player` of the node with history `h` and
/// place `slot`, hand by hand, and the sums after the walk through the
/// subtree below it. The player reaches the node with `pi`, the opponent
/// with `pmi`.
///
/// A terminal node is valued by the game. Elsewhere the strategy is matched
/// to the regrets of the node, and the children are walked in the order of
/// the actions. Where `player` acts, each child is reached with `pi` scaled
/// by the probability of its action, the value of the node is the mix of the
/// children's values, and the sums of the node are brought up to date.
/// Where the opponent acts, `pmi` is scaled instead, the value of the node
/// is the sum of the children's values, and the sums of the node stay.
pub open spec fn walk<T: Game>(
    game: &T,
    tree: Seq<Entry>,
    h: Seq<usize>,
    slot: Option<usize>,
    player: usize,
    pi: Seq<T::Value>,
    pmi: Seq<T::Value>,
    discount: Discount<T::Value>,
    sums: Sums<T::Value>,
) -> (Seq<T::Value>, Sums<T::Value>)
    decreases height(tree, slot), 1 + tree[slot.unwrap() as int].children.len(),
{
    if crate::game::ended::<T::Node>(h) {
        (crate::game::terminal_value(game, h, player, pmi), sums)
    } else if slot is Some && slot.unwrap() < tree.len() {
        let i = slot.unwrap();
        let strategy = crate::matching::matched(sums.regrets[i as int], T::hands() as nat);
        let (values, after) = walk_actions(
            game,
            tree,
            h,
            i,
            player,
            pi,
            pmi,
            strategy,
            discount,
            sums,
            tree[i as int].children.len(),
        );
        if crate::game::mover::<T::Node>(h) == player {
            let node_value = crate::update::column_totals(
                crate::update::weighted(values, strategy),
                T::hands() as nat,
            );
            (
                node_value,
                Sums {
                    regrets: after.regrets.update(
                        i as int,
                        crate::update::next_regrets(
                            after.regrets[i as int],
                            discount.alpha,
                            discount.beta,
                            values,
                            node_value,
                        ),
                    ),
                    strategies: after.strategies.update(
                        i as int,
                        crate::update::next_strategies(
                            after.strategies[i as int],
                            strategy,
                            discount.gamma,
                            pi,
                        ),
                    ),
                },
            )
        } else {
            (crate::update::column_totals(values, T::hands() as nat), after)
        }
    } else {
        (Seq::empty(), sums)
    }
}

/// The values of the first `upto` children of the node at place `i`, in
/// the order of the actions, and the sums after the walks through them.
pub open spec fn walk_actions<T: Game>(
    game: &T,
    tree: Seq<Entry>,
    h: Seq<usize>,
    i: usize,
    player: usize,
    pi: Seq<T::Value>,
    pmi: Seq<T::Value>,
    strategy: Seq<Seq<T::Value>>,
    discount: Discount<T::Value>,
    sums: Sums<T::Value>,
    upto: nat,
) -> (Seq<Seq<T::Value>>, Sums<T::Value>)
    decreases height(tree, Some(i)), upto,
{
    if upto == 0 || i >= tree.len() || upto > tree[i as int].children.len() {
        (Seq::empty(), sums)
    } else {
        let (values, before) = walk_actions(
            game,
            tree,
            h,
            i,
            player,
            pi,
            pmi,
            strategy,
            discount,
            sums,
            (upto - 1) as nat,
        );
        let a = upto - 1;
        let child = tree[i as int].children[a];
        if child is Some && child.unwrap() <= i {
            (values, before)
        } else {
            let acting = crate::game::mover::<T::Node>(h) == player;
            let (value, after) = walk(
                game,
                tree,
                h.push(a as usize),
                child,
                player,
                if acting {
                    scaled(pi, strategy[a])
                } else {
                    pi
                },
                if acting {
                    pmi
                } else {
                    scaled(pmi, strategy[a])
                },
                discount,
                before,
            );
            (values.push(value), after)
        }
    }
}

/// The place of the root: the first of the index, or none where the game
/// is over before it starts.
pub open spec fn root_slot<N: GameNode>() -> Option<usize> {
    if crate::game::ended::<N>(Seq::empty()) {
        None
    } else {
        Some(0)
    }
}

/// The sums after iteration `t`, counted from zero: one walk from the root
/// for the first player and one for the second, both players reaching the
/// root with one for every hand, with the factors of the iteration.
pub open spec fn sweep<T: Game>(game: &T, tree: Seq<Entry>, t: i32, sums: Sums<T::Value>) -> Sums<
    T::Value,
> {
    let ones = Seq::new(T::hands() as nat, |h: int| T::Value::of_int(1));
    let discount = crate::update::schedule::<T::Value>(t);
    let first = walk(game, tree, Seq::empty(), root_slot::<T::Node>(), 0, ones, ones, discount, sums).1;
    walk(game, tree, Seq::empty(), root_slot::<T::Node>(), 1, ones, ones, discount, first).1
}

/// The sums after the first `iterations` iterations, from sums of zero.
pub open spec fn run<T: Game>(game: &T, tree: Seq<Entry>, iterations: nat) -> Sums<T::Value>
    decreases iterations,
{
    if iterations == 0 {
        zero_sums(tree, T::hands() as nat)
    } else {
        sweep(game, tree, (iterations - 1) as i32, run(game, tree, (iterations - 1) as nat))
    }
}

/// What the solver arrives at.
pub struct Solved<S> {
    /// The index of the game tree.
    pub tree: Seq<Entry>,
    /// The number of terminal nodes of the game tree.
    pub leaves: nat,
    /// The sums after the last iteration.
    pub sums: Sums<S>,
    /// The average strategy of every indexed node: its accumulated strategy
    /// with each hand's column divided by its total.
    pub average: Seq<Seq<Seq<S>>>,
}

/// What the solver arrives at after the given number of iterations on a game
/// that is followed at most `depth` actions deep; nothing where the game
/// goes deeper or has more terminal nodes than can be counted.
pub open spec fn solve<T: Game>(game: &T, depth: nat, iterations: nat) -> Option<Solved<T::Value>> {
    match subtree::<T::Node>(Seq::empty(), depth, 0) {
        Some((tree, leaves)) => if leaves <= usize::MAX {
            let sums = run(game, tree, iterations);
            Some(
                Solved {
                    tree,
                    leaves,
                    sums,
                    average: Seq::new(
                        tree.len(),
                        |i: int| crate::matching::averaged(sums.strategies[i], T::hands() as nat),
                    ),
                },
            )
        } else {
            None
        },
        None => None,
    }
}

/// The histories of an index, in its order.
pub open spec fn histories_of(tree: Seq<Entry>) -> Seq<Seq<usize>> {
    Seq::new(tree.len(), |i: int| tree[i].history)
}

/// Whether `after` has a matrix wherever `before` has one and differs from
/// it at most in the places of nodes at which `player` acts.
pub open spec fn touches_only<N: GameNode, S>(
    tree: Seq<Entry>,
    player: usize,
    before: Sums<S>,
    after: Sums<S>,
) -> bool {
    &&& after.regrets.len() == before.regrets.len()
    &&& after.strategies.len() == before.strategies.len()
    &&& forall|k: int|
        0 <= k < tree.len() && crate::game::mover::<N>(tree[k].history) != player
            ==> #[trigger] after.regrets[k] == before.regrets[k]
    &&& forall|k: int|
        0 <= k < tree.len() && crate::game::mover::<N>(tree[k].history) != player
            ==> #[trigger] after.strategies[k] == before.strategies[k]
}

/// A walk brings the sums up to date only where the walking player acts:
/// the sums of the opponent's nodes stay as they are, and no place is added
/// or lost.
pub proof fn walk_touches_only_the_nodes_of_the_player<T: Game>(
    game: &T,
    tree: Seq<Entry>,
    h: Seq<usize>,
    slot: Option<usize>,
    player: usize,
    pi: Seq<T::Value>,
    pmi: Seq<T::Value>,
    discount: Discount<T::Value>,
    sums: Sums<T::Value>,
)
    requires
        covers::<T::Node>(tree, slot, h),
        sums.regrets.len() == tree.len(),
        sums.strategies.len() == tree.len(),
    ensures
        touches_only::<T::Node, T::Value>(
            tree,
            player,
            sums,
            walk(game, tree, h, slot, player, pi, pmi, discount, sums).1,
        ),
    decreases height(tree, slot), 1 + tree[slot.unwrap() as int].children.len(),
{
    if !crate::game::ended::<T::Node>(h) {
        let i = slot.unwrap();
        let strategy = crate::matching::matched(sums.regrets[i as int], T::hands() as nat);
        lemma_walk_actions_touch_only_the_nodes_of_the_player(
            game,
            tree,
            h,
            i,
            player,
            pi,
            pmi,
            strategy,
            discount,
            sums,
            tree[i as int].children.len(),
        );
    }
}

proof fn lemma_walk_actions_touch_only_the_nodes_of_the_player<T: Game>(
    game: &T,
    tree: Seq<Entry>,
    h: Seq<usize>,
    i: usize,
    player: usize,
    pi: Seq<T::Value>,
    pmi: Seq<T::Value>,
    strategy: Seq<Seq<T::Value>>,
    discount: Discount<T::Value>,
    sums: Sums<T::Value>,
    upto: nat,
)
    requires
        covers::<T::Node>(tree, Some(i), h),
        upto <= tree[i as int].children.len(),
        sums.regrets.len() == tree.len(),
        sums.strategies.len() == tree.len(),
    ensures
        touches_only::<T::Node, T::Value>(
            tree,
            player,
            sums,
            walk_actions(game, tree, h, i, player, pi, pmi, strategy, discount, sums, upto).1,
        ),
    decreases height(tree, Some(i)), upto,
{
    if upto > 0 {
        lemma_walk_actions_touch_only_the_nodes_of_the_player(
            game,
            tree,
            h,
            i,
            player,
            pi,
            pmi,
            strategy,
            discount,
            sums,
            (upto - 1) as nat,
        );
        let (values, before) = walk_actions(
            game,
            tree,
            h,
            i,
            player,
            pi,
            pmi,
            strategy,
            discount,
            sums,
            (upto - 1) as nat,
        );
        let a = upto - 1;
        let child = tree[i as int].children[a];
        let acting = crate::game::mover::<T::Node>(h) == player;
        walk_touches_only_the_nodes_of_the_player(
            game,
            tree,
            h.push(a as usize),
            child,
            player,
            if acting {
                scaled(pi, strategy[a])
            } else {
                pi
            },
            if acting {
                pmi
            } else {
                scaled(pmi, strategy[a])
            },
            discount,
            before,
        );
    }
}

} // verus!
