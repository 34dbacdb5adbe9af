//! What the solver asks of a game.

use vstd::prelude::*;
use crate::scalar::Scalar;

verus! {

/// The actions played so far, as both players see them. It identifies a
/// node of the game tree.
pub type PublicHistory = Vec<usize>;

/// A node of a game tree.
///
/// What a node answers depends on its history alone. The first three
/// functions name the answers for a given history; contracts are written
/// over them. An implementation outside verified code defines them as the
/// rules of its game and lets the methods of a node forward to them. Should
/// it break its word, the solver stops with an error.
pub trait GameNode: Sized {
    /// Whether the game is over after `history`.
    spec fn ended_at(history: PublicHistory) -> bool;

    /// The player to act after `history`.
    spec fn mover_at(history: PublicHistory) -> usize;

    /// The number of actions open after `history`.
    spec fn arity_at(history: PublicHistory) -> usize;

    /// The history of this node: what `public_history` returns.
    spec fn path(&self) -> PublicHistory;

    /// The actions that lead from the root to this node.
    fn public_history(&self) -> (history: &PublicHistory)
        ensures
            *history == self.path(),
    ;

    /// Whether the game is over at this node.
    fn is_terminal(&self) -> (terminal: bool)
        ensures
            forall|h: PublicHistory|
                h@ == self.path()@ ==> terminal == #[trigger] Self::ended_at(h),
    ;

    /// The player to act: 0 or 1.
    fn current_player(&self) -> (player: usize)
        ensures
            forall|h: PublicHistory| h@ == self.path()@ ==> player == #[trigger] Self::mover_at(h),
    ;

    /// The number of actions open to the player to act. The actions are the
    /// numbers below it, and `play` must accept each of them.
    fn num_actions(&self) -> (n: usize)
        ensures
            forall|h: PublicHistory| h@ == self.path()@ ==> n == #[trigger] Self::arity_at(h),
    ;

    /// The node that `action` leads to. It leaves `self` as it is.
    fn play(&self, action: usize) -> (child: Self)
        ensures
            child.path()@ == self.path()@.push(action),
    ;
}

/// A two-player zero-sum game in which each player holds one of a fixed
/// number of private hands.
pub trait Game {
    type Node: GameNode;

    type Value: Scalar;

    /// The number of private hands: what `num_private_hands` returns.
    spec fn hands() -> usize;

    /// The value to `player` of the terminal node with the given history,
    /// hand by hand, where the opponent reaches it with `pmi`: what
    /// `evaluate` returns.
    spec fn worth(&self, history: PublicHistory, player: usize, pmi: Vec<Self::Value>) -> Vec<
        Self::Value,
    >;

    /// The node the game starts at. Its history is empty.
    fn root() -> (node: Self::Node)
        ensures
            node.path()@ == Seq::<usize>::empty(),
    ;

    /// The number of private hands a player can hold.
    fn num_private_hands() -> (n: usize)
        ensures
            n == Self::hands(),
    ;

    /// The counterfactual value of a terminal node to `player`, one entry
    /// for each of the player's hands, given what the opponent reaches the
    /// node with, hand by hand. Chance is weighed in here: reach vectors do
    /// not carry it. The values depend on the node's history, the player
    /// and the entries of `pmi` alone.
    fn evaluate(&self, node: &Self::Node, player: usize, pmi: &Vec<Self::Value>) -> (values: Vec<
        Self::Value,
    >)
        requires
            player < 2,
            pmi@.len() == Self::hands(),
        ensures
            values@.len() == Self::hands(),
            forall|h: PublicHistory, v: Vec<Self::Value>|
                h@ == node.path()@ && v@ == pmi@ ==> values@ == (#[trigger] self.worth(
                    h,
                    player,
                    v,
                ))@,
    ;
}

/// Some vector that holds the history `h`.
pub open spec fn history_vec(h: Seq<usize>) -> PublicHistory {
    choose|v: PublicHistory| v@ == h
}

/// Some vector that holds the entries `s`.
pub open spec fn reach_vec<S>(s: Seq<S>) -> Vec<S> {
    choose|v: Vec<S>| v@ == s
}

/// Whether the game is over after `h`.
pub open spec fn ended<N: GameNode>(h: Seq<usize>) -> bool {
    N::ended_at(history_vec(h))
}

/// The player to act after `h`.
pub open spec fn mover<N: GameNode>(h: Seq<usize>) -> usize {
    N::mover_at(history_vec(h))
}

/// The number of actions open after `h`.
pub open spec fn arity<N: GameNode>(h: Seq<usize>) -> usize {
    N::arity_at(history_vec(h))
}

/// The value to `player` of the terminal node with history `h`, hand by
/// hand, where the opponent reaches it with `pmi`.
pub open spec fn terminal_value<T: Game>(game: &T, h: Seq<usize>, player: usize, pmi: Seq<T::Value>) -> Seq<
    T::Value,
> {
    game.worth(history_vec(h), player, reach_vec(pmi))@
}

/// `history_vec` gives a vector with the entries asked for, whenever there
/// is one.
pub proof fn lemma_history_vec(v: PublicHistory)
    ensures
        history_vec(v@)@ == v@,
{
}

/// `reach_vec` gives a vector with the entries asked for, whenever there is
/// one.
pub proof fn lemma_reach_vec<S>(v: Vec<S>)
    ensures
        reach_vec(v@)@ == v@,
{
}

/// Whether two histories hold the same actions.
pub fn same_history(a: &PublicHistory, b: &PublicHistory) -> (same: bool)
    ensures
        same == (a@ == b@),
{
    if a.len() != b.len() {
        return false;
    }
    let mut i: usize = 0;
    while i < a.len()
        invariant
            i <= a@.len(),
            a@.len() == b@.len(),
            forall|j: int| 0 <= j < i ==> a@[j] == b@[j],
        decreases a@.len() - i,
    {
        if a[i] != b[i] {
            return false;
        }
        i += 1;
    }
    assert(a@ =~= b@);
    true
}

/// A copy of a history.
pub fn copy_history(history: &PublicHistory) -> (out: PublicHistory)
    ensures
        out@ == history@,
{
    let mut out: Vec<usize> = Vec::with_capacity(history.len());
    let mut i: usize = 0;
    while i < history.len()
        invariant
            i <= history@.len(),
            out@ == history@.take(i as int),
        decreases history@.len() - i,
    {
        out.push(history[i]);
        i += 1;
        assert(out@ =~= history@.take(i as int));
    }
    assert(history@.take(history@.len() as int) =~= history@);
    out
}

} // verus!
