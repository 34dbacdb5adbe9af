//! Kuhn poker: three cards, an ante of one and a single bet of one.
//!
//! Each player is dealt one card, and the higher card wins a showdown. The
//! first player checks or bets. After a check the second player checks,
//! which leads to a showdown for the antes, or bets, and then the first
//! player folds or calls. After a bet the second player folds or calls. A
//! call leads to a showdown for the antes and the bets.

use vstd::prelude::*;
use crate::game::{copy_history, Game, GameNode, PublicHistory};
use crate::scalar::Scalar;

verus! {

/// The action of checking, or of folding to a bet.
pub const CHECK_FOLD: usize = 0;

/// The action of betting, or of calling a bet.
pub const BET_CALL: usize = 1;

/// The number of cards, and so of private hands.
pub const NUM_KUHN_CARDS: usize = 3;

/// A node of the game: the actions taken so far.
pub struct KuhnNode {
    public_history: PublicHistory,
}

/// What the first player wins at a showdown with the card `first` against
/// the card `second`, for a stake of one.
pub open spec fn showdown(first: int, second: int) -> int {
    if first > second {
        1
    } else {
        -1
    }
}

/// What the first player wins after `history` with the card `first`
/// against the card `second`; nothing after a history at which no game of
/// Kuhn poker ends.
pub open spec fn payoff(history: Seq<usize>, first: int, second: int) -> int {
    if history =~= seq![CHECK_FOLD, CHECK_FOLD] {
        showdown(first, second)
    } else if history =~= seq![BET_CALL, CHECK_FOLD] {
        1
    } else if history =~= seq![BET_CALL, BET_CALL] {
        2 * showdown(first, second)
    } else if history =~= seq![CHECK_FOLD, BET_CALL, CHECK_FOLD] {
        -1
    } else if history =~= seq![CHECK_FOLD, BET_CALL, BET_CALL] {
        2 * showdown(first, second)
    } else {
        0
    }
}

/// What `player` wins after `history` with the card `own` against the card
/// `other`.
pub open spec fn payoff_to(history: Seq<usize>, player: int, own: int, other: int) -> int {
    if player == 0 {
        payoff(history, own, other)
    } else {
        -payoff(history, other, own)
    }
}

impl KuhnNode {
    /// The actions taken so far.
    pub open spec fn history(&self) -> Seq<usize> {
        self.path()@
    }

    /// Whether a history ends the game: every history does but the four at
    /// which a player has a decision to make.
    pub open spec fn ends_game(history: Seq<usize>) -> bool {
        !(history =~= Seq::<usize>::empty() || history =~= seq![CHECK_FOLD] || history
            =~= seq![BET_CALL] || history =~= seq![CHECK_FOLD, BET_CALL])
    }
}

impl GameNode for KuhnNode {
    open spec fn ended_at(history: PublicHistory) -> bool {
        Self::ends_game(history@)
    }

    open spec fn mover_at(history: PublicHistory) -> usize {
        (history@.len() % 2) as usize
    }

    open spec fn arity_at(history: PublicHistory) -> usize {
        2
    }

    closed spec fn path(&self) -> PublicHistory {
        self.public_history
    }

    fn public_history(&self) -> (history: &PublicHistory) {
        &self.public_history
    }

    fn is_terminal(&self) -> (terminal: bool)
        ensures
            terminal == Self::ends_game(self.history()),
    {
        let h = &self.public_history;
        let n = h.len();
        !(n == 0 || (n == 1 && (h[0] == CHECK_FOLD || h[0] == BET_CALL)) || (n == 2 && h[0]
            == CHECK_FOLD && h[1] == BET_CALL))
    }

    fn current_player(&self) -> (player: usize)
        ensures
            player == self.history().len() % 2,
    {
        self.public_history.len() % 2
    }

    fn num_actions(&self) -> (n: usize)
        ensures
            n == 2,
    {
        2
    }

    fn play(&self, action: usize) -> (child: Self)
        ensures
            child.history() == self.history().push(action),
    {
        let mut public_history = copy_history(&self.public_history);
        public_history.push(action);
        KuhnNode { public_history }
    }
}

/// Kuhn poker.
pub struct KuhnGame<S: Scalar> {
    deal: S,
}

/// What the first player wins after `history` with the card `first`
/// against the card `second`.
fn first_player_wins(history: &PublicHistory, first: usize, second: usize) -> (out: i8)
    ensures
        out == payoff(history@, first as int, second as int),
{
    let up: i8 = if first > second {
        1
    } else {
        -1
    };
    let n = history.len();
    if n == 2 && history[0] == CHECK_FOLD && history[1] == CHECK_FOLD {
        up
    } else if n == 2 && history[0] == BET_CALL && history[1] == CHECK_FOLD {
        1
    } else if n == 2 && history[0] == BET_CALL && history[1] == BET_CALL {
        2 * up
    } else if n == 3 && history[0] == CHECK_FOLD && history[1] == BET_CALL && history[2]
        == CHECK_FOLD {
        -1
    } else if n == 3 && history[0] == CHECK_FOLD && history[1] == BET_CALL && history[2]
        == BET_CALL {
        2 * up
    } else {
        0
    }
}

impl<S: Scalar> KuhnGame<S> {
    /// The weight of one deal: a sixth, as each of the six ways to deal
    /// two of the three cards is as likely as the others.
    pub open spec fn deal_weight() -> S {
        S::of_int(1).quotient(S::of_int(6))
    }

    #[verifier::type_invariant]
    spec fn deals_evenly(self) -> bool {
        self.deal == Self::deal_weight()
    }

    /// What the game weighs every deal with.
    pub closed spec fn weight(&self) -> S {
        self.deal
    }

    /// The game: it weighs every deal with a sixth.
    pub fn new() -> (out: Self)
        ensures
            out.weight() == Self::deal_weight(),
    {
        KuhnGame { deal: S::from_int(1).div(S::from_int(6)) }
    }

    /// What the card `own` is worth to `player` after `history` against the
    /// cards below `upto`, each weighted by what the opponent reaches the
    /// node with and by the weight of the deal, added up from zero in the
    /// order of the cards.
    pub open spec fn against(history: Seq<usize>, player: int, pmi: Seq<S>, own: int, upto: nat) -> S
        decreases upto,
    {
        if upto == 0 {
            S::of_int(0)
        } else {
            let before = Self::against(history, player, pmi, own, (upto - 1) as nat);
            let other = upto - 1;
            if other == own {
                before
            } else {
                before.sum(
                    Self::deal_weight().product(
                        S::of_int(payoff_to(history, player, own, other) as i128),
                    ).product(pmi[other]),
                )
            }
        }
    }

    /// The value of every card to `player` after `history`.
    pub open spec fn values_at(history: Seq<usize>, player: int, pmi: Seq<S>) -> Seq<S> {
        Seq::new(3, |own: int| Self::against(history, player, pmi, own, 3))
    }
}

impl<S: Scalar> Game for KuhnGame<S> {
    type Node = KuhnNode;

    type Value = S;

    open spec fn hands() -> usize {
        NUM_KUHN_CARDS
    }

    open spec fn worth(&self, history: PublicHistory, player: usize, pmi: Vec<S>) -> Vec<S> {
        crate::game::reach_vec(Self::values_at(history@, player as int, pmi@))
    }

    fn root() -> (node: KuhnNode)
        ensures
            node.history() == Seq::<usize>::empty(),
    {
        KuhnNode { public_history: Vec::new() }
    }

    fn num_private_hands() -> (n: usize) {
        NUM_KUHN_CARDS
    }

    fn evaluate(&self, node: &KuhnNode, player: usize, pmi: &Vec<S>) -> (values: Vec<S>)
        ensures
            values@ == Self::values_at(node.history(), player as int, pmi@),
    {
        proof {
            use_type_invariant(self);
        }
        let history = node.public_history();
        let mut values: Vec<S> = Vec::with_capacity(3);
        let mut own: usize = 0;
        while own < 3
            invariant
                own <= 3,
                player < 2,
                pmi@.len() == 3,
                history@ == node.history(),
                self.deal == Self::deal_weight(),
                values@.len() == own,
                forall|k: int|
                    0 <= k < own ==> #[trigger] values@[k] == Self::against(
                        node.history(),
                        player as int,
                        pmi@,
                        k,
                        3,
                    ),
            decreases 3 - own,
        {
            let mut sum = S::from_int(0);
            let mut other: usize = 0;
            while other < 3
                invariant
                    other <= 3,
                    own < 3,
                    player < 2,
                    pmi@.len() == 3,
                    history@ == node.history(),
                    self.deal == Self::deal_weight(),
                    sum == Self::against(
                        node.history(),
                        player as int,
                        pmi@,
                        own as int,
                        other as nat,
                    ),
                decreases 3 - other,
            {
                if other != own {
                    let wins: i8 = if player == 0 {
                        first_player_wins(history, own, other)
                    } else {
                        -first_player_wins(history, other, own)
                    };
                    sum = sum.add(self.deal.mul(S::from_int(wins as i128)).mul(pmi[other]));
                }
                other += 1;
            }
            values.push(sum);
            own += 1;
        }
        proof {
            assert(values@ =~= Self::values_at(node.history(), player as int, pmi@));
            crate::game::lemma_reach_vec(values);
        }
        values
    }
}

} // verus!
