//! The solver: it indexes the game tree once, walks it for each player in
//! every iteration, and reads the average strategy off at the end.

use vstd::prelude::*;
use crate::game::{copy_history, same_history, Game, GameNode, PublicHistory};
use crate::matching::{divide_columns, regret_matching};
use crate::model::{Entry, Sums};
use crate::scalar::Scalar;
use crate::update::{discount_schedule, expected_value, sum_rows, update_regrets, update_strategy, Discount};
use crate::vector::{filled, mul_vec};

verus! {

/// How many actions deep the solver follows a game before it gives up.
pub const MAX_DEPTH: usize = 1024;

/// Why the solver stopped. Each error but the last names the history of the
/// node at which it arose.
#[derive(Debug, PartialEq, Eq)]
pub enum SolveError {
    /// The game goes on beyond `MAX_DEPTH` actions.
    TooDeep(PublicHistory),
    /// A node came up in an iteration that was not there, or not in this
    /// place, when the tree was indexed.
    UnknownHistory(PublicHistory),
    /// A node reports another number of actions than when the tree was
    /// indexed.
    ActionCountMismatch(PublicHistory),
    /// The game valued a terminal node with more or fewer entries than
    /// there are private hands.
    WrongValueCount(PublicHistory),
    /// The tree has more terminal nodes than can be counted.
    TreeTooLarge,
}

/// What the index holds of one node where a player acts.
struct IndexEntry {
    /// The node's public history.
    history: PublicHistory,
    /// For every action, the place in the index of the node it leads to, or
    /// nothing where it ends the game.
    children: Vec<Option<usize>>,
}

/// A strategy for every node where a player acts: a matrix with a row for
/// each action and, in each row, the probability with which each hand plays
/// the action.
pub struct StrategyTable<S> {
    /// The histories of the nodes, in the order in which the tree was
    /// indexed.
    pub histories: Vec<PublicHistory>,
    /// The matrix of each node, in the same order.
    pub matrices: Vec<Vec<Vec<S>>>,
}

/// The first place below `upto` at which `histories` holds `key`.
pub open spec fn first_place(histories: Seq<Seq<usize>>, key: Seq<usize>, upto: nat) -> Option<int>
    decreases upto,
{
    if upto == 0 {
        None
    } else {
        match first_place(histories, key, (upto - 1) as nat) {
            Some(i) => Some(i),
            None => if histories[upto - 1] == key {
                Some(upto - 1)
            } else {
                None
            },
        }
    }
}

impl<S> StrategyTable<S> {
    /// Whether the table holds a matrix for each of its histories.
    pub open spec fn well_formed(&self) -> bool {
        self.histories@.len() == self.matrices@.len()
    }

    /// The histories of the table, in its order.
    pub open spec fn keys(&self) -> Seq<Seq<usize>> {
        Seq::new(self.histories@.len(), |i: int| self.histories@[i]@)
    }

    /// The matrices of the table, in its order.
    pub open spec fn averages(&self) -> Seq<Seq<Seq<S>>> {
        Seq::new(self.matrices@.len(), |i: int| crate::matching::rows(self.matrices@[i]))
    }

    /// The table as a map from histories to matrices. Where a history
    /// stands in the table twice, the first place counts.
    pub open spec fn entries(&self) -> Map<Seq<usize>, Seq<Seq<S>>> {
        Map::new(
            |key: Seq<usize>| first_place(self.keys(), key, self.keys().len()) is Some,
            |key: Seq<usize>|
                crate::matching::rows(
                    self.matrices@[first_place(self.keys(), key, self.keys().len())->0],
                ),
        )
    }

    /// The strategy at the node with the given history, if the table has it.
    pub fn get(&self, history: &PublicHistory) -> (out: Option<&Vec<Vec<S>>>)
        requires
            self.well_formed(),
        ensures
            out is Some == self.entries().dom().contains(history@),
            out matches Some(m) ==> crate::matching::rows(*m) == self.entries()[history@],
    {
        let mut i: usize = 0;
        while i < self.histories.len()
            invariant
                i <= self.histories@.len(),
                self.histories@.len() == self.matrices@.len(),
                first_place(self.keys(), history@, i as nat) is None,
            decreases self.histories@.len() - i,
        {
            if same_history(&self.histories[i], history) {
                proof {
                    lemma_first_place_stays(
                        self.keys(),
                        history@,
                        (i + 1) as nat,
                        self.keys().len(),
                    );
                }
                return Some(&self.matrices[i]);
            }
            i += 1;
        }
        None
    }
}

proof fn lemma_first_place_stays(histories: Seq<Seq<usize>>, key: Seq<usize>, found: nat, upto: nat)
    requires
        found <= upto,
        first_place(histories, key, found) is Some,
    ensures
        first_place(histories, key, upto) == first_place(histories, key, found),
    decreases upto,
{
    if found < upto {
        lemma_first_place_stays(histories, key, found, (upto - 1) as nat);
    }
}

/// A matrix of zeros with a row for each of `num_actions` actions and an
/// entry for each of `hands` hands.
pub fn zero_matrix<S: Scalar>(num_actions: usize, hands: usize) -> (out: Vec<Vec<S>>)
    ensures
        crate::matching::rows(out) == crate::model::zeros::<S>(num_actions as nat, hands as nat),
{
    let mut out: Vec<Vec<S>> = Vec::with_capacity(num_actions);
    let mut a: usize = 0;
    while a < num_actions
        invariant
            a <= num_actions,
            out@.len() == a,
            forall|b: int|
                0 <= b < a ==> (#[trigger] out@[b])@ == Seq::new(hands as nat, |h: int| S::of_int(0)),
        decreases num_actions - a,
    {
        out.push(filled(S::from_int(0), hands));
        a += 1;
    }
    assert(crate::matching::rows(out) =~= crate::model::zeros::<S>(
        num_actions as nat,
        hands as nat,
    ));
    out
}

/// A copy of a matrix.
pub fn copy_matrix<S: Scalar>(m: &Vec<Vec<S>>) -> (out: Vec<Vec<S>>)
    ensures
        crate::matching::rows(out) == crate::matching::rows(*m),
{
    let mut out: Vec<Vec<S>> = Vec::with_capacity(m.len());
    let mut a: usize = 0;
    while a < m.len()
        invariant
            a <= m@.len(),
            out@.len() == a,
            forall|b: int| 0 <= b < a ==> (#[trigger] out@[b])@ == m@[b]@,
        decreases m@.len() - a,
    {
        let source = &m[a];
        let mut row: Vec<S> = Vec::with_capacity(source.len());
        let mut h: usize = 0;
        while h < source.len()
            invariant
                h <= source@.len(),
                row@ == source@.take(h as int),
            decreases source@.len() - h,
        {
            row.push(source[h]);
            h += 1;
            assert(row@ =~= source@.take(h as int));
        }
        assert(source@.take(source@.len() as int) =~= source@);
        out.push(row);
        a += 1;
    }
    assert(crate::matching::rows(out) =~= crate::matching::rows(*m));
    out
}

/// A solver for one game.
pub struct CFRMinimizer<'a, T: Game> {
    game: &'a T,
    index: Vec<IndexEntry>,
    cum_regret: Vec<Vec<Vec<T::Value>>>,
    cum_strategy: Vec<Vec<Vec<T::Value>>>,
    alpha_t: T::Value,
    beta_t: T::Value,
    gamma_t: T::Value,
    terminal_nodes: usize,
}

impl<'a, T: Game> CFRMinimizer<'a, T> {
    /// The histories of the indexed nodes, in the order of the index.
    pub open spec fn histories(&self) -> Seq<Seq<usize>> {
        crate::model::histories_of(self.layout())
    }

    /// The accumulated regrets of the indexed nodes, in the order of the
    /// index.
    pub closed spec fn regrets(&self) -> Seq<Seq<Seq<T::Value>>> {
        Seq::new(self.cum_regret@.len(), |i: int| crate::matching::rows(self.cum_regret@[i]))
    }

    /// The accumulated strategies of the indexed nodes, in the order of the
    /// index.
    pub closed spec fn strategies(&self) -> Seq<Seq<Seq<T::Value>>> {
        Seq::new(self.cum_strategy@.len(), |i: int| crate::matching::rows(self.cum_strategy@[i]))
    }

    /// The game the solver is bound to.
    pub closed spec fn game(&self) -> &T {
        self.game
    }

    /// The index: the nodes where a player acts, in the order in which they
    /// were met.
    pub closed spec fn layout(&self) -> Seq<Entry> {
        Seq::new(
            self.index@.len(),
            |i: int| Entry { history: self.index@[i].history@, children: self.index@[i].children@ },
        )
    }

    /// The two accumulators.
    pub open spec fn sums(&self) -> Sums<T::Value> {
        Sums { regrets: self.regrets(), strategies: self.strategies() }
    }

    /// The factors of the iteration under way.
    pub closed spec fn factors(&self) -> Discount<T::Value> {
        Discount { alpha: self.alpha_t, beta: self.beta_t, gamma: self.gamma_t }
    }

    /// The number of terminal nodes met when the tree was indexed.
    pub closed spec fn terminal_count(&self) -> usize {
        self.terminal_nodes
    }

    /// Whether the node at place `i` of the index is sound: its two
    /// matrices have a row for each action and an entry for each hand, and
    /// its children stand behind it in the index.
    pub closed spec fn sound_at(&self, i: int) -> bool {
        let entry = self.index@[i];
        let regret = crate::matching::rows(self.cum_regret@[i]);
        let strategy = crate::matching::rows(self.cum_strategy@[i]);
        &&& regret.len() == entry.children@.len()
        &&& strategy.len() == entry.children@.len()
        &&& crate::matching::rectangular(regret, T::hands() as nat)
        &&& crate::matching::rectangular(strategy, T::hands() as nat)
        &&& forall|a: int|
            0 <= a < entry.children@.len() ==> (#[trigger] entry.children@[a] matches Some(j) ==> i
                < j < self.index@.len())
    }

    /// Whether the index and the two accumulators fit together.
    pub closed spec fn well_formed(&self) -> bool {
        &&& self.index@.len() == self.cum_regret@.len()
        &&& self.index@.len() == self.cum_strategy@.len()
        &&& forall|i: int| 0 <= i < self.index@.len() ==> #[trigger] self.sound_at(i)
    }

    /// A solver for `game`, with nothing indexed yet.
    pub fn new(game: &'a T) -> (out: Self)
        ensures
            out.well_formed(),
            out.game() == game,
            out.layout().len() == 0,
            out.terminal_count() == 0,
    {
        let one = T::Value::from_int(1);
        CFRMinimizer {
            game,
            index: Vec::new(),
            cum_regret: Vec::new(),
            cum_strategy: Vec::new(),
            alpha_t: one,
            beta_t: one,
            gamma_t: one,
            terminal_nodes: 0,
        }
    }

    /// Indexes the subtree below `node`, at most `depth` actions deep: every
    /// node where a player acts gets a place in the index, after the places
    /// that were there, and a matrix of zeros in either accumulator. The
    /// result is the place of `node`, or nothing where `node` ends the game.
    fn build_tree(&mut self, node: &T::Node, depth: usize) -> (out: Result<Option<usize>, SolveError>)
        requires
            old(self).well_formed(),
        ensures
            final(self).well_formed(),
            final(self).game == old(self).game,
            final(self).index@.len() >= old(self).index@.len(),
            forall|i: int|
                0 <= i < old(self).index@.len() ==> #[trigger] final(self).index@[i] == old(
                    self,
                ).index@[i],
            forall|i: int|
                0 <= i < old(self).index@.len() ==> #[trigger] final(self).cum_regret@[i] == old(
                    self,
                ).cum_regret@[i],
            forall|i: int|
                0 <= i < old(self).index@.len() ==> #[trigger] final(self).cum_strategy@[i] == old(
                    self,
                ).cum_strategy@[i],
            out is Ok ==> forall|i: int|
                old(self).index@.len() <= i < final(self).index@.len() ==> #[trigger] final(
                    self
                ).regrets()[i] == crate::model::zeros::<T::Value>(
                    final(self).layout()[i].children.len(),
                    T::hands() as nat,
                ) && final(self).strategies()[i] == final(self).regrets()[i],
            out matches Err(e) ==> e is TooDeep || e is TreeTooLarge,
            out matches Err(SolveError::TooDeep(reached)) ==> reached@.len() == node.path()@.len()
                + depth && crate::model::subtree::<T::Node>(
                node.path()@,
                depth as nat,
                old(self).index@.len(),
            ) is None,
            out matches Ok(Some(j)) ==> j == old(self).index@.len() && j < final(self).index@.len(),
            out matches Ok(slot) ==> crate::model::covers::<T::Node>(
                final(self).layout(),
                slot,
                node.path()@,
            ),
            match out {
                Ok(_) => crate::model::subtree::<T::Node>(
                    node.path()@,
                    depth as nat,
                    old(self).index@.len(),
                ) matches Some((entries, leaves)) && final(self).layout() == old(self).layout()
                    + entries && final(self).terminal_nodes == old(self).terminal_nodes + leaves,
                Err(_) => crate::model::subtree::<T::Node>(
                    node.path()@,
                    depth as nat,
                    old(self).index@.len(),
                ) matches Some((entries, leaves)) ==> old(self).terminal_nodes + leaves
                    > usize::MAX,
            },
        decreases depth,
    {
        let ghost h = node.path()@;
        proof {
            crate::game::lemma_history_vec(node.path());
        }
        if node.is_terminal() {
            if self.terminal_nodes == usize::MAX {
                return Err(SolveError::TreeTooLarge);
            }
            self.terminal_nodes = self.terminal_nodes + 1;
            assert(self.well_formed()) by {
                assert forall|i: int| 0 <= i < self.index@.len() implies #[trigger] self.sound_at(
                    i,
                ) by {
                    assert(old(self).sound_at(i));
                }
            }
            assert(self.regrets() =~= old(self).regrets());
            assert(self.strategies() =~= old(self).strategies());
            assert(self.layout() =~= old(self).layout());
            return Ok(None);
        }
        if depth == 0 {
            return Err(SolveError::TooDeep(copy_history(node.public_history())));
        }
        let hands = T::num_private_hands();
        let num_actions = node.num_actions();
        let place = self.index.len();
        let mut children: Vec<Option<usize>> = Vec::with_capacity(num_actions);
        let mut a: usize = 0;
        while a < num_actions
            invariant
                a <= num_actions,
                children@.len() == a,
                forall|b: int| 0 <= b < a ==> #[trigger] children@[b] is None,
            decreases num_actions - a,
        {
            children.push(None);
            a += 1;
        }
        self.index.push(IndexEntry { history: copy_history(node.public_history()), children });
        self.cum_regret.push(zero_matrix(num_actions, hands));
        self.cum_strategy.push(zero_matrix(num_actions, hands));
        assert(self.well_formed()) by {
            assert forall|i: int| 0 <= i < self.index@.len() implies #[trigger] self.sound_at(
                i,
            ) by {
                if i < place {
                    assert(old(self).sound_at(i));
                }
            }
        }
        let mut a: usize = 0;
        while a < num_actions
            invariant
                a <= num_actions,
                depth > 0,
                self.well_formed(),
                self.game == old(self).game,
                place == old(self).index@.len(),
                place < self.index@.len(),
                h == node.path()@,
                !crate::game::ended::<T::Node>(h),
                num_actions == crate::game::arity::<T::Node>(h),
                self.index@[place as int].history@ == h,
                self.index@[place as int].children@.len() == num_actions,
                forall|i: int| 0 <= i < place ==> #[trigger] self.index@[i] == old(self).index@[i],
                forall|i: int|
                    0 <= i < place ==> #[trigger] self.cum_regret@[i] == old(self).cum_regret@[i],
                forall|i: int|
                    0 <= i < place ==> #[trigger] self.cum_strategy@[i] == old(
                        self,
                    ).cum_strategy@[i],
                forall|i: int|
                    place <= i < self.index@.len() ==> #[trigger] self.regrets()[i]
                        == crate::model::zeros::<T::Value>(
                        self.layout()[i].children.len(),
                        T::hands() as nat,
                    ) && self.strategies()[i] == self.regrets()[i],
                forall|b: int|
                    0 <= b < a ==> match #[trigger] self.index@[place as int].children@[b] {
                        Some(j) => place < j < self.index@.len() && crate::model::covers::<T::Node>(
                            self.layout(),
                            Some(j),
                            h.push(b as usize),
                        ),
                        None => crate::game::ended::<T::Node>(h.push(b as usize)),
                    },
                crate::model::branches::<T::Node>(h, (depth - 1) as nat, (place + 1) as nat, a as nat)
                    matches Some((places, entries, leaves)) && places
                    == self.index@[place as int].children@.take(a as int) && self.layout()
                    == old(self).layout().push(self.layout()[place as int]) + entries
                    && self.terminal_nodes == old(self).terminal_nodes + leaves,
            decreases num_actions - a,
        {
            let child = node.play(a);
            let ghost before = *self;
            let ghost so_far = crate::model::branches::<T::Node>(
                h,
                (depth - 1) as nat,
                (place + 1) as nat,
                a as nat,
            ).unwrap();
            let found = match self.build_tree(&child, depth - 1) {
                Ok(found) => found,
                Err(e) => {
                    proof {
                        let whole = crate::model::branches::<T::Node>(
                            h,
                            (depth - 1) as nat,
                            (place + 1) as nat,
                            num_actions as nat,
                        );
                        assert(before.layout().len() == place + 1 + so_far.1.len());
                        assert(before.index@.len() == place + 1 + so_far.1.len());
                        assert(child.path()@ == h.push(a as usize));
                        if whole is Some {
                            crate::model::lemma_branches_grow::<T::Node>(
                                h,
                                (depth - 1) as nat,
                                (place + 1) as nat,
                                (a + 1) as nat,
                                num_actions as nat,
                            );
                        }
                    }
                    return Err(e);
                },
            };
            let ghost built = *self;
            self.index[place].children[a] = found;
            proof {
                assert(self.well_formed()) by {
                    assert forall|i: int| 0 <= i < self.index@.len() implies #[trigger] self.sound_at(
                        i,
                    ) by {
                        assert(built.sound_at(i));
                    }
                }
                assert(self.regrets() =~= built.regrets());
                assert(self.strategies() =~= built.strategies());
                assert forall|i: int| place <= i < self.index@.len() implies #[trigger] self.regrets()[i]
                    == crate::model::zeros::<T::Value>(
                    self.layout()[i].children.len(),
                    T::hands() as nat,
                ) && self.strategies()[i] == self.regrets()[i] by {
                    if i < before.index@.len() {
                        assert(built.cum_regret@[i] == before.cum_regret@[i]);
                        assert(built.cum_strategy@[i] == before.cum_strategy@[i]);
                        assert(built.index@[i] == before.index@[i]);
                        assert(before.regrets()[i] == crate::model::zeros::<T::Value>(
                            before.layout()[i].children.len(),
                            T::hands() as nat,
                        ));
                        assert(built.regrets()[i] == before.regrets()[i]);
                        assert(built.strategies()[i] == before.strategies()[i]);
                    } else {
                        assert(built.regrets()[i] == crate::model::zeros::<T::Value>(
                            built.layout()[i].children.len(),
                            T::hands() as nat,
                        ));
                    }
                }
                assert forall|b: int| 0 <= b < a + 1 implies match #[trigger] self.index@[place as int].children@[b] {
                    Some(j) => place < j < self.index@.len() && crate::model::covers::<T::Node>(
                        self.layout(),
                        Some(j),
                        h.push(b as usize),
                    ),
                    None => crate::game::ended::<T::Node>(h.push(b as usize)),
                } by {
                    if b < a {
                        let kept = before.index@[place as int].children@[b];
                        assert(self.index@[place as int].children@[b] == kept);
                        if kept is Some {
                            Self::lemma_covers_stable(
                                before.layout(),
                                self.layout(),
                                kept,
                                h.push(b as usize),
                                place + 1,
                            );
                        }
                    } else {
                        if found is Some {
                            Self::lemma_covers_stable(
                                built.layout(),
                                self.layout(),
                                found,
                                h.push(b as usize),
                                place + 1,
                            );
                        }
                    }
                }
                assert(self.index@[place as int].children@.take(a + 1) =~= so_far.0.push(found));
                let below = crate::model::subtree::<T::Node>(
                    h.push(a as usize),
                    (depth - 1) as nat,
                    before.index@.len(),
                ).unwrap().0;
                assert(before.layout().len() == place + 1 + so_far.1.len());
                assert(before.index@.len() == place + 1 + so_far.1.len());
                assert(child.path()@ == h.push(a as usize));
                assert(built.layout() == before.layout() + below);
                assert(crate::model::branches::<T::Node>(
                    h,
                    (depth - 1) as nat,
                    (place + 1) as nat,
                    (a + 1) as nat,
                ).unwrap().1 == so_far.1 + below);
                assert(self.layout().len() == built.layout().len());
                assert forall|k: int| 0 <= k < self.layout().len() && k != place implies self.layout()[k]
                    == built.layout()[k] by {
                    assert(self.index@[k] == built.index@[k]);
                }
                let target = old(self).layout().push(self.layout()[place as int]) + (so_far.1
                    + below);
                let held = old(self).layout().push(before.layout()[place as int]) + so_far.1;
                assert(before.layout() == held);
                assert(old(self).layout().len() == place);
                assert(self.layout().len() == target.len());
                assert forall|k: int| 0 <= k < target.len() implies self.layout()[k]
                    == target[k] by {
                    if k != place {
                        assert(self.layout()[k] == built.layout()[k]);
                        assert(built.layout()[k] == (before.layout() + below)[k]);
                        if k < place + 1 + so_far.1.len() {
                            assert(before.layout()[k] == held[k]);
                        }
                    }
                }
                assert(self.layout() =~= target);
                assert(self.layout() =~= old(self).layout().push(self.layout()[place as int])
                    + crate::model::branches::<T::Node>(
                    h,
                    (depth - 1) as nat,
                    (place + 1) as nat,
                    (a + 1) as nat,
                ).unwrap().1);
            }
            a += 1;
        }
        proof {
            assert(self.layout()[place as int].children =~= self.index@[place as int].children@);
            assert(self.index@[place as int].children@.take(num_actions as int)
                =~= self.index@[place as int].children@);
            let all = crate::model::branches::<T::Node>(
                h,
                (depth - 1) as nat,
                (place + 1) as nat,
                num_actions as nat,
            ).unwrap();
            assert(self.layout() =~= old(self).layout() + (seq![
                Entry { history: h, children: all.0 },
            ] + all.1));
        }
        Ok(Some(place))
    }

    /// An index that covers a subtree still covers it when places are added
    /// at its end and places before the subtree change.
    proof fn lemma_covers_stable(
        old_tree: Seq<Entry>,
        new_tree: Seq<Entry>,
        slot: Option<usize>,
        h: Seq<usize>,
        base: int,
    )
        requires
            crate::model::covers::<T::Node>(old_tree, slot, h),
            slot matches Some(i) ==> base <= i,
            old_tree.len() <= new_tree.len(),
            forall|k: int| base <= k < old_tree.len() ==> #[trigger] new_tree[k] == old_tree[k],
        ensures
            crate::model::covers::<T::Node>(new_tree, slot, h),
        decreases crate::model::height(old_tree, slot),
    {
        match slot {
            None => {},
            Some(i) => {
                assert(new_tree[i as int] == old_tree[i as int]);
                assert forall|a: int| 0 <= a < new_tree[i as int].children.len() implies match #[trigger] new_tree[i as int].children[a] {
                    Some(j) => i < j < new_tree.len() && crate::model::covers::<T::Node>(
                        new_tree,
                        Some(j),
                        h.push(a as usize),
                    ),
                    None => crate::game::ended::<T::Node>(h.push(a as usize)),
                } by {
                    let child = old_tree[i as int].children[a];
                    if child is Some {
                        Self::lemma_covers_stable(old_tree, new_tree, child, h.push(a as usize), base);
                    }
                }
            },
        }
    }

    /// The counterfactual value of `node` to `player`, one entry for each of
    /// the player's hands, where `pi` is what the player reaches the node
    /// with and `pmi` what the opponent does. `slot` is the node's place in
    /// the index. On the way, the accumulators of every node below `node`
    /// at which `player` acts are brought up to date.
    fn cfr_recursive(
        &mut self,
        node: &T::Node,
        slot: Option<usize>,
        player: usize,
        pi: &Vec<T::Value>,
        pmi: &Vec<T::Value>,
    ) -> (out: Result<Vec<T::Value>, SolveError>)
        requires
            old(self).well_formed(),
            player < 2,
            pi@.len() == T::hands(),
            pmi@.len() == T::hands(),
            crate::model::covers::<T::Node>(old(self).layout(), slot, node.path()@),
        ensures
            final(self).well_formed(),
            final(self).game == old(self).game,
            final(self).index == old(self).index,
            final(self).alpha_t == old(self).alpha_t,
            final(self).beta_t == old(self).beta_t,
            final(self).gamma_t == old(self).gamma_t,
            final(self).terminal_nodes == old(self).terminal_nodes,
            forall|k: int|
                0 <= k < old(self).index@.len() && (slot matches Some(i) ==> k < i)
                    ==> #[trigger] final(self).cum_regret@[k] == old(self).cum_regret@[k],
            forall|k: int|
                0 <= k < old(self).index@.len() && (slot matches Some(i) ==> k < i)
                    ==> #[trigger] final(self).cum_strategy@[k] == old(self).cum_strategy@[k],
            out matches Ok(values) && values@.len() == T::hands() && (values@, final(self).sums())
                == crate::model::walk(
                old(self).game,
                old(self).layout(),
                node.path()@,
                slot,
                player,
                pi@,
                pmi@,
                old(self).factors(),
                old(self).sums(),
            ),
        decreases
            (match slot {
                Some(i) => old(self).index@.len() - i,
                None => 0,
            }),
    {
        let hands = T::num_private_hands();
        let ghost h = node.path()@;
        let ghost tree = self.layout();
        let ghost start = self.sums();
        let ghost discount = self.factors();
        proof {
            crate::game::lemma_history_vec(node.path());
        }
        if node.is_terminal() {
            let values = self.game.evaluate(node, player, pmi);
            if values.len() != hands {
                return Err(SolveError::WrongValueCount(copy_history(node.public_history())));
            }
            proof {
                crate::game::lemma_reach_vec(*pmi);
            }
            return Ok(values);
        }
        let place = match slot {
            Some(place) => place,
            None => {
                return Err(SolveError::UnknownHistory(copy_history(node.public_history())));
            },
        };
        assert(tree[place as int].history == self.index@[place as int].history@);
        if !same_history(node.public_history(), &self.index[place].history) {
            return Err(SolveError::UnknownHistory(copy_history(node.public_history())));
        }
        let num_actions = node.num_actions();
        assert(tree[place as int].children == self.index@[place as int].children@);
        if num_actions != self.index[place].children.len() {
            return Err(SolveError::ActionCountMismatch(copy_history(node.public_history())));
        }
        assert(self.sound_at(place as int));
        let strategy = regret_matching(&self.cum_regret[place], hands);
        let ghost played = crate::matching::rows(strategy);
        assert(played == crate::matching::matched(start.regrets[place as int], hands as nat));
        assert(played.len() == num_actions);
        assert(crate::matching::rectangular(played, hands as nat)) by {
            assert forall|a: int| 0 <= a < played.len() implies (#[trigger] played[a]).len()
                == hands by {
                assert(crate::matching::rows(self.cum_regret@[place as int])[a].len() == hands);
            }
        }
        let acting = node.current_player() == player;
        assert(acting == (crate::game::mover::<T::Node>(h) == player));
        let mut values: Vec<Vec<T::Value>> = Vec::with_capacity(num_actions);
        let mut a: usize = 0;
        while a < num_actions
            invariant
                a <= num_actions,
                self.well_formed(),
                self.game == old(self).game,
                self.index == old(self).index,
                self.alpha_t == old(self).alpha_t,
                self.beta_t == old(self).beta_t,
                self.gamma_t == old(self).gamma_t,
                self.terminal_nodes == old(self).terminal_nodes,
                forall|k: int|
                    0 <= k <= place ==> #[trigger] self.cum_regret@[k] == old(self).cum_regret@[k],
                forall|k: int|
                    0 <= k <= place ==> #[trigger] self.cum_strategy@[k] == old(
                        self,
                    ).cum_strategy@[k],
                slot == Some(place),
                place < self.index@.len(),
                num_actions == self.index@[place as int].children@.len(),
                player < 2,
                hands == T::hands(),
                pi@.len() == hands,
                pmi@.len() == hands,
                h == node.path()@,
                tree == old(self).layout(),
                tree == self.layout(),
                start == old(self).sums(),
                discount == old(self).factors(),
                crate::model::covers::<T::Node>(tree, slot, h),
                acting == (crate::game::mover::<T::Node>(h) == player),
                played == crate::matching::rows(strategy),
                played.len() == num_actions,
                crate::matching::rectangular(played, hands as nat),
                values@.len() == a,
                crate::matching::rectangular(crate::matching::rows(values), hands as nat),
                (crate::matching::rows(values), self.sums()) == crate::model::walk_actions(
                    old(self).game,
                    tree,
                    h,
                    place,
                    player,
                    pi@,
                    pmi@,
                    played,
                    discount,
                    start,
                    a as nat,
                ),
            decreases num_actions - a,
        {
            assert(played[a as int].len() == hands);
            assert(self.sound_at(place as int));
            let child = node.play(a);
            let child_slot = self.index[place].children[a];
            assert(tree[place as int].children[a as int] == child_slot);
            let ghost earlier = crate::matching::rows(values);
            let result = if acting {
                let reach = mul_vec(pi, &strategy[a]);
                assert(reach@ =~= crate::model::scaled(pi@, played[a as int]));
                self.cfr_recursive(&child, child_slot, player, &reach, pmi)
            } else {
                let reach = mul_vec(pmi, &strategy[a]);
                assert(reach@ =~= crate::model::scaled(pmi@, played[a as int]));
                self.cfr_recursive(&child, child_slot, player, pi, &reach)
            };
            assert(self.layout() =~= tree);
            match result {
                Ok(value) => {
                    values.push(value);
                    assert(crate::matching::rows(values) =~= earlier.push(value@));
                    assert(crate::matching::rectangular(crate::matching::rows(values), hands as nat))
                        by {
                        assert forall|b: int|
                            0 <= b < crate::matching::rows(values).len() implies (
                        #[trigger] crate::matching::rows(values)[b]).len() == hands by {
                            if b < a {
                                assert(earlier[b].len() == hands);
                            }
                        }
                    }
                },
                Err(e) => {
                    return Err(e);
                },
            }
            a += 1;
        }
        if acting {
            assert(self.sound_at(place as int));
            let node_value = expected_value(&values, &strategy, hands);
            let discount = Discount { alpha: self.alpha_t, beta: self.beta_t, gamma: self.gamma_t };
            let ghost before = *self;
            update_regrets(&mut self.cum_regret[place], &discount, &values, &node_value, hands);
            update_strategy(&mut self.cum_strategy[place], strategy, discount.gamma, pi, hands);
            proof {
                assert(self.well_formed()) by {
                    assert forall|i: int| 0 <= i < self.index@.len() implies #[trigger] self.sound_at(
                        i,
                    ) by {
                        assert(before.sound_at(i));
                        if i == place {
                            let regret = crate::matching::rows(self.cum_regret@[i]);
                            let cum = crate::matching::rows(self.cum_strategy@[i]);
                            assert forall|b: int| 0 <= b < regret.len() implies (
                            #[trigger] regret[b]).len() == hands by {
                                assert(crate::matching::rows(before.cum_regret@[i])[b].len()
                                    == hands);
                            }
                            assert forall|b: int| 0 <= b < cum.len() implies (#[trigger] cum[b]).len()
                                == hands by {
                                assert(crate::matching::rows(before.cum_strategy@[i])[b].len()
                                    == hands);
                            }
                        }
                    }
                }
                assert(self.regrets() =~= before.regrets().update(
                    place as int,
                    crate::matching::rows(self.cum_regret@[place as int]),
                ));
                assert(self.strategies() =~= before.strategies().update(
                    place as int,
                    crate::matching::rows(self.cum_strategy@[place as int]),
                ));
            }
            Ok(node_value)
        } else {
            Ok(sum_rows(&values, hands))
        }
    }

    /// The average strategy that the accumulated strategies stand for.
    fn compute_average_strategy(&self) -> (out: StrategyTable<T::Value>)
        requires
            self.well_formed(),
        ensures
            out.well_formed(),
            out.keys() == self.histories(),
            forall|i: int|
                0 <= i < self.histories().len() ==> crate::matching::rows(
                    #[trigger] out.matrices@[i],
                ) == crate::matching::averaged(self.strategies()[i], T::hands() as nat),
    {
        let hands = T::num_private_hands();
        let mut histories: Vec<PublicHistory> = Vec::with_capacity(self.index.len());
        let mut matrices: Vec<Vec<Vec<T::Value>>> = Vec::with_capacity(self.index.len());
        let mut i: usize = 0;
        while i < self.index.len()
            invariant
                i <= self.index@.len(),
                self.well_formed(),
                hands == T::hands(),
                histories@.len() == i,
                matrices@.len() == i,
                forall|k: int| 0 <= k < i ==> (#[trigger] histories@[k])@ == self.histories()[k],
                forall|k: int|
                    0 <= k < i ==> crate::matching::rows(#[trigger] matrices@[k])
                        == crate::matching::averaged(self.strategies()[k], hands as nat),
            decreases self.index@.len() - i,
        {
            histories.push(copy_history(&self.index[i].history));
            let mut average = copy_matrix(&self.cum_strategy[i]);
            divide_columns(&mut average, hands, T::Value::from_int(0));
            matrices.push(average);
            i += 1;
        }
        let out = StrategyTable { histories, matrices };
        assert(out.keys() =~= self.histories());
        out
    }

    /// Runs `num_iterations` iterations of discounted counterfactual regret
    /// minimisation from a freshly indexed tree and returns the average
    /// strategy: for every node where a player acts, the accumulated
    /// strategy with each hand's column divided by its total.
    ///
    /// The tree is indexed from the root, at most `MAX_DEPTH` actions deep.
    /// In iteration `t`, counted from zero, the factors are those of
    /// `discount_schedule(t)`, and each player's values are computed once
    /// from the root, both players reaching it with one for every hand.
    pub fn compute(&mut self, num_iterations: i32) -> (out: Result<StrategyTable<T::Value>, SolveError>)
        requires
            num_iterations > 0,
        ensures
            final(self).well_formed(),
            final(self).game() == old(self).game(),
            match (out, crate::model::solve(old(self).game(), MAX_DEPTH as nat, num_iterations as nat)) {
                (Ok(table), Some(solved)) => {
                    &&& table.well_formed()
                    &&& table.keys() == crate::model::histories_of(solved.tree)
                    &&& table.averages() == solved.average
                    &&& final(self).layout() == solved.tree
                    &&& final(self).sums() == solved.sums
                    &&& final(self).terminal_count() == solved.leaves
                    &&& crate::model::covers::<T::Node>(
                        solved.tree,
                        crate::model::root_slot::<T::Node>(),
                        Seq::empty(),
                    )
                },
                (Err(e), None) => e is TooDeep || e is TreeTooLarge,
                _ => false,
            },
            out matches Err(SolveError::TooDeep(reached)) ==> reached@.len() == MAX_DEPTH
                && crate::model::subtree::<T::Node>(Seq::empty(), MAX_DEPTH as nat, 0) is None,
    {
        self.index = Vec::new();
        self.cum_regret = Vec::new();
        self.cum_strategy = Vec::new();
        self.terminal_nodes = 0;
        assert(self.well_formed());
        assert(self.layout() =~= Seq::<Entry>::empty());
        let root = T::root();
        assert(root.path()@ =~= Seq::<usize>::empty());
        let root_slot = match self.build_tree(&root, MAX_DEPTH) {
            Ok(slot) => slot,
            Err(e) => {
                return Err(e);
            },
        };
        let hands = T::num_private_hands();
        let ones = filled(T::Value::from_int(1), hands);
        let ghost tree = self.layout();
        let ghost indexed = crate::model::subtree::<T::Node>(Seq::empty(), MAX_DEPTH as nat, 0);
        proof {
            assert(tree =~= indexed.unwrap().0);
            assert(root_slot == crate::model::root_slot::<T::Node>());
            assert(self.sums().regrets =~= crate::model::zero_sums::<T::Value>(
                tree,
                hands as nat,
            ).regrets);
            assert(self.sums().strategies =~= crate::model::zero_sums::<T::Value>(
                tree,
                hands as nat,
            ).strategies);
        }
        let mut t: i32 = 0;
        while t < num_iterations
            invariant
                0 <= t <= num_iterations,
                self.well_formed(),
                self.game == old(self).game,
                hands == T::hands(),
                root.path()@ == Seq::<usize>::empty(),
                root_slot == crate::model::root_slot::<T::Node>(),
                tree == self.layout(),
                self.terminal_nodes == indexed.unwrap().1,
                crate::model::covers::<T::Node>(tree, root_slot, Seq::empty()),
                ones@ == Seq::new(hands as nat, |h: int| T::Value::of_int(1)),
                self.sums() == crate::model::run(self.game, tree, t as nat),
            decreases num_iterations - t,
        {
            let discount = discount_schedule::<T::Value>(t);
            let ghost before = *self;
            self.alpha_t = discount.alpha;
            self.beta_t = discount.beta;
            self.gamma_t = discount.gamma;
            proof {
                assert(self.well_formed()) by {
                    assert forall|i: int| 0 <= i < self.index@.len() implies #[trigger] self.sound_at(
                        i,
                    ) by {
                        assert(before.sound_at(i));
                    }
                }
                assert(self.layout() =~= tree);
                assert(self.regrets() =~= before.regrets());
                assert(self.strategies() =~= before.strategies());
                assert(self.factors() == crate::update::schedule::<T::Value>(t));
            }
            let ghost start = self.sums();
            let mut player: usize = 0;
            while player < 2
                invariant
                    player <= 2,
                    self.well_formed(),
                    self.game == old(self).game,
                    hands == T::hands(),
                    root.path()@ == Seq::<usize>::empty(),
                    root_slot == crate::model::root_slot::<T::Node>(),
                    tree == self.layout(),
                    self.terminal_nodes == indexed.unwrap().1,
                    crate::model::covers::<T::Node>(tree, root_slot, Seq::empty()),
                    ones@ == Seq::new(hands as nat, |h: int| T::Value::of_int(1)),
                    self.factors() == crate::update::schedule::<T::Value>(t),
                    player == 0 ==> self.sums() == start,
                    player == 1 ==> self.sums() == crate::model::walk(
                        self.game,
                        tree,
                        Seq::empty(),
                        root_slot,
                        0,
                        ones@,
                        ones@,
                        crate::update::schedule::<T::Value>(t),
                        start,
                    ).1,
                    player == 2 ==> self.sums() == crate::model::sweep(self.game, tree, t, start),
                decreases 2 - player,
            {
                match self.cfr_recursive(&root, root_slot, player, &ones, &ones) {
                    Ok(_) => {},
                    Err(e) => {
                        return Err(e);
                    },
                }
                proof {
                    assert(self.layout() =~= tree);
                }
                player += 1;
            }
            t += 1;
        }
        let table = self.compute_average_strategy();
        proof {
            let solved = crate::model::solve(self.game, MAX_DEPTH as nat, num_iterations as nat).unwrap();
            assert(solved.tree == tree);
            assert(solved.sums == self.sums());
            assert(table.keys().len() == tree.len());
            assert(table.averages().len() == tree.len());
            assert forall|i: int| 0 <= i < tree.len() implies table.averages()[i]
                == solved.average[i] by {
                assert(crate::matching::rows(table.matrices@[i]) == crate::matching::averaged(
                    self.strategies()[i],
                    T::hands() as nat,
                ));
            }
            assert(table.averages() =~= solved.average);
        }
        Ok(table)
    }

    /// The place in the index of the node with the given history, if it is
    /// indexed.
    fn place_of(&self, history: &PublicHistory) -> (out: Option<usize>)
        ensures
            match out {
                Some(i) => first_place(self.histories(), history@, self.histories().len()) == Some(
                    i as int,
                ) && i < self.index@.len(),
                None => first_place(self.histories(), history@, self.histories().len()) is None,
            },
    {
        let mut i: usize = 0;
        while i < self.index.len()
            invariant
                i <= self.index@.len(),
                first_place(self.histories(), history@, i as nat) is None,
            decreases self.index@.len() - i,
        {
            if same_history(&self.index[i].history, history) {
                proof {
                    lemma_first_place_stays(
                        self.histories(),
                        history@,
                        (i + 1) as nat,
                        self.histories().len(),
                    );
                }
                return Some(i);
            }
            i += 1;
        }
        None
    }

    /// The accumulated regrets of the node with the given history, if it is
    /// indexed.
    pub fn cum_regret(&self, history: &PublicHistory) -> (out: Option<&Vec<Vec<T::Value>>>)
        requires
            self.well_formed(),
        ensures
            match first_place(self.histories(), history@, self.histories().len()) {
                Some(i) => out matches Some(m) && crate::matching::rows(*m) == self.regrets()[i],
                None => out is None,
            },
    {
        match self.place_of(history) {
            Some(i) => Some(&self.cum_regret[i]),
            None => None,
        }
    }

    /// The accumulated strategy of the node with the given history, if it
    /// is indexed.
    pub fn cum_strategy(&self, history: &PublicHistory) -> (out: Option<&Vec<Vec<T::Value>>>)
        requires
            self.well_formed(),
        ensures
            match first_place(self.histories(), history@, self.histories().len()) {
                Some(i) => out matches Some(m) && crate::matching::rows(*m) == self.strategies()[i],
                None => out is None,
            },
    {
        match self.place_of(history) {
            Some(i) => Some(&self.cum_strategy[i]),
            None => None,
        }
    }

    /// The number of terminal nodes met when the tree was last indexed.
    pub fn get_terminal_nodes(&self) -> (count: usize)
        ensures
            count == self.terminal_count(),
    {
        self.terminal_nodes
    }
}

} // verus!
