//! Heads-up push-or-fold hold'em: the small blind moves all in or folds, and
//! after a push the big blind calls or folds.
//!
//! A private hand is a pair of cards `i < j` out of 52. The hands are
//! numbered in the order of their pairs: (0, 1), (0, 2), ..., (0, 51),
//! (1, 2), ..., (50, 51).

use vstd::prelude::*;
use crate::equity::TableError;
use crate::game::{copy_history, Game, GameNode, PublicHistory};
use crate::scalar::Scalar;

verus! {

/// The action of giving up.
pub const FOLD: usize = 0;

/// The action of moving all in, or of calling it.
pub const PUSH_CALL: usize = 1;

/// The number of cards in the deck.
pub const NUM_CARDS: usize = 52;

/// The number of private hands: the pairs of cards.
pub const NUM_HANDS: usize = 1326;

/// The number of boards that two hands leave open: five cards out of 48.
pub const NUM_BOARDS: i32 = 1712304;

/// The number of entries of a table of win frequencies: one for every pair
/// of hands.
pub const TABLE_LEN: usize = 1758276;

/// The number of the first hand whose lower card is `i`.
pub open spec fn first_hand(i: int) -> int
    decreases i,
{
    if i <= 0 {
        0
    } else {
        first_hand(i - 1) + 52 - i
    }
}

/// The number of the hand made of the cards `i < j`.
pub open spec fn hand_of(i: int, j: int) -> int {
    first_hand(i) + j - i - 1
}

/// The number of the hand made of the two cards `c` and `d`.
pub open spec fn hand_with(c: int, d: int) -> int {
    if d < c {
        hand_of(d, c)
    } else {
        hand_of(c, d)
    }
}

/// The numbers of the hands by a formula: `first_hand(i)` is
/// `i * (103 - i) / 2`.
pub proof fn lemma_first_hand(i: int)
    requires
        0 <= i <= 52,
    ensures
        2 * first_hand(i) == i * (103 - i),
        0 <= first_hand(i) <= 1326,
    decreases i,
{
    if i > 0 {
        lemma_first_hand(i - 1);
        assert(i * (103 - i) == (i - 1) * (103 - (i - 1)) + 2 * (52 - i)) by (nonlinear_arith);
    } else {
        assert(0 * (103 - 0) == 0);
    }
    assert(i * (103 - i) <= 2652) by (nonlinear_arith)
        requires
            0 <= i <= 52,
    ;
}

/// Every pair of cards has a hand number below the number of hands, and the
/// hands of one lower card follow those of the card before.
pub proof fn lemma_hand_of(i: int, j: int)
    requires
        0 <= i < j < 52,
    ensures
        0 <= first_hand(i) <= hand_of(i, j) < first_hand(i + 1) <= 1326,
{
    lemma_first_hand(i);
    lemma_first_hand(i + 1);
}

/// The number of the hand made of the cards `i < j`.
pub fn hand_index(i: usize, j: usize) -> (k: usize)
    requires
        i < j < 52,
    ensures
        k == hand_of(i as int, j as int),
        k < 1326,
{
    proof {
        lemma_first_hand(i as int);
        lemma_hand_of(i as int, j as int);
        assert(i * (103 - i) <= 2652) by (nonlinear_arith)
            requires
                0 <= i <= 52,
        ;
    }
    i * (103 - i) / 2 + j - i - 1
}

/// A node of the game: the actions taken so far.
pub struct PushFoldNode {
    public_history: PublicHistory,
}

impl PushFoldNode {
    /// The actions taken so far.
    pub open spec fn history(&self) -> Seq<usize> {
        self.path()@
    }

    /// Whether a history ends the game: every history does but the empty
    /// one and the one that holds a push and nothing else.
    pub open spec fn ends_game(history: Seq<usize>) -> bool {
        !(history.len() == 0 || (history.len() == 1 && history[0] == PUSH_CALL))
    }
}

impl GameNode for PushFoldNode {
    open spec fn ended_at(history: PublicHistory) -> bool {
        Self::ends_game(history@)
    }

    open spec fn mover_at(history: PublicHistory) -> usize {
        (history@.len() % 2) as usize
    }

    open spec fn arity_at(history: PublicHistory) -> usize {
        2
    }

    closed spec fn path(&self) -> PublicHistory {
        self.public_history
    }

    fn public_history(&self) -> (history: &PublicHistory) {
        &self.public_history
    }

    fn is_terminal(&self) -> (terminal: bool)
        ensures
            terminal == Self::ends_game(self.history()),
    {
        let n = self.public_history.len();
        !(n == 0 || (n == 1 && self.public_history[0] == PUSH_CALL))
    }

    fn current_player(&self) -> (player: usize)
        ensures
            player == self.history().len() % 2,
    {
        self.public_history.len() % 2
    }

    fn num_actions(&self) -> (n: usize)
        ensures
            n == 2,
    {
        2
    }

    fn play(&self, action: usize) -> (child: Self)
        ensures
            child.history() == self.history().push(action),
    {
        let mut public_history = copy_history(&self.public_history);
        public_history.push(action);
        PushFoldNode { public_history }
    }
}

/// The sum of the first `upto` entries of `pmi`, added up from zero in
/// their order.
pub open spec fn reach_total<S: Scalar>(pmi: Seq<S>, upto: nat) -> S
    decreases upto,
{
    if upto == 0 {
        S::of_int(0)
    } else {
        reach_total(pmi, (upto - 1) as nat).sum(pmi[upto - 1])
    }
}

/// The sum of what `pmi` holds for the hands made of card `c` and a card
/// below `upto`, added up from zero in the order of the other card.
pub open spec fn card_total<S: Scalar>(pmi: Seq<S>, c: int, upto: nat) -> S
    decreases upto,
{
    if upto == 0 {
        S::of_int(0)
    } else if upto - 1 == c {
        card_total(pmi, c, (upto - 1) as nat)
    } else {
        card_total(pmi, c, (upto - 1) as nat).sum(pmi[hand_with(c, upto - 1)])
    }
}

/// One half.
pub open spec fn half<S: Scalar>() -> S {
    S::of_int(1).quotient(S::of_int(2))
}

/// One over the number of ways to deal two hands, each counted with both
/// orders of its cards: `4 / (52 * 51 * 50 * 49)`.
pub open spec fn deal_weight<S: Scalar>() -> S {
    S::of_int(4).quotient(S::of_int(6497400))
}

/// What `player` wins when a fold ends the game: the small blind loses half
/// a big blind when it folds, and the big blind loses one when it folds to a
/// push. The win is weighted by `deal_weight`.
pub open spec fn fold_payoff<S: Scalar>(history_len: nat, player: int) -> S {
    let win: S = if history_len == 1 {
        if player == 0 {
            S::of_int(-1i128).quotient(S::of_int(2))
        } else {
            half::<S>()
        }
    } else {
        if player == 0 {
            S::of_int(1)
        } else {
            S::of_int(-1i128)
        }
    };
    win.product(deal_weight::<S>())
}

/// The value of the hand `(i, j)` when a fold ends the game: the payoff
/// times what the opponent reaches the node with in hands that share no
/// card with it. That is the total, less what the hands with card `i` and
/// those with card `j` hold, plus the hand itself, which was taken off
/// twice.
pub open spec fn fold_entry<S: Scalar>(payoff: S, pmi: Seq<S>, i: int, j: int) -> S {
    payoff.product(
        reach_total(pmi, 1326).difference(card_total(pmi, i, 52)).difference(
            card_total(pmi, j, 52),
        ).sum(pmi[hand_of(i, j)]),
    )
}

/// The values, when a fold ends the game, of the hands whose lower card is
/// below `rows`, in the order of the hands.
pub open spec fn fold_rows<S: Scalar>(payoff: S, pmi: Seq<S>, rows: nat) -> Seq<S>
    decreases rows,
{
    if rows == 0 {
        Seq::empty()
    } else {
        fold_rows(payoff, pmi, (rows - 1) as nat) + Seq::new(
            (52 - rows) as nat,
            |t: int| fold_entry(payoff, pmi, rows - 1, rows + t),
        )
    }
}

/// There is one value for every hand whose lower card is below `rows`.
pub proof fn lemma_fold_rows_len<S: Scalar>(payoff: S, pmi: Seq<S>, rows: nat)
    requires
        rows <= 51,
    ensures
        fold_rows(payoff, pmi, rows).len() == first_hand(rows as int),
    decreases rows,
{
    if rows > 0 {
        lemma_fold_rows_len(payoff, pmi, (rows - 1) as nat);
    }
}

/// The hands are numbered row by row: the first hand of a lower card comes
/// no earlier than that of a card below it.
pub proof fn lemma_first_hand_grows(i: int, k: int)
    requires
        0 <= i <= k <= 52,
    ensures
        first_hand(i) <= first_hand(k),
    decreases k - i,
{
    if i < k {
        lemma_first_hand_grows(i, k - 1);
    }
}

/// Among the values of a fold, that of the hand `(i, j)` stands at the
/// number of the hand.
pub proof fn lemma_fold_value_of_hand<S: Scalar>(payoff: S, pmi: Seq<S>, i: int, j: int, rows: nat)
    requires
        0 <= i < j < 52,
        i < rows <= 51,
    ensures
        fold_rows(payoff, pmi, rows)[hand_of(i, j)] == fold_entry(payoff, pmi, i, j),
    decreases rows,
{
    lemma_fold_rows_len(payoff, pmi, (rows - 1) as nat);
    lemma_hand_of(i, j);
    if i < rows - 1 {
        lemma_first_hand_grows(i + 1, rows - 1);
        lemma_fold_value_of_hand(payoff, pmi, i, j, (rows - 1) as nat);
    }
}

/// The value of every hand of `player` when a fold ends the game after
/// `history_len` actions.
pub open spec fn fold_worth<S: Scalar>(history_len: nat, player: int, pmi: Seq<S>) -> Seq<S> {
    fold_rows(fold_payoff::<S>(history_len, player), pmi, 51)
}

/// The value of every hand of `player` when a fold ends the game after
/// `history_len` actions, where the opponent reaches the node with `pmi`.
pub fn fold_values<S: Scalar>(history_len: usize, player: usize, pmi: &Vec<S>) -> (out: Vec<S>)
    requires
        player < 2,
        pmi@.len() == 1326,
    ensures
        out@ == fold_worth::<S>(history_len as nat, player as int, pmi@),
        out@.len() == 1326,
{
    proof {
        lemma_fold_rows_len(fold_payoff::<S>(history_len as nat, player as int), pmi@, 51);
        lemma_first_hand(51);
    }
    let zero = S::from_int(0);
    let mut total = zero;
    let mut k: usize = 0;
    while k < 1326
        invariant
            k <= 1326,
            pmi@.len() == 1326,
            total == reach_total(pmi@, k as nat),
        decreases 1326 - k,
    {
        total = total.add(pmi[k]);
        k += 1;
    }
    let mut by_card: Vec<S> = Vec::with_capacity(52);
    let mut c: usize = 0;
    while c < 52
        invariant
            c <= 52,
            pmi@.len() == 1326,
            zero == S::of_int(0),
            by_card@.len() == c,
            forall|b: int| 0 <= b < c ==> #[trigger] by_card@[b] == card_total(pmi@, b, 52),
        decreases 52 - c,
    {
        let mut sum = zero;
        let mut d: usize = 0;
        while d < 52
            invariant
                d <= 52,
                c < 52,
                pmi@.len() == 1326,
                sum == card_total(pmi@, c as int, d as nat),
            decreases 52 - d,
        {
            if d < c {
                sum = sum.add(pmi[hand_index(d, c)]);
            } else if d > c {
                sum = sum.add(pmi[hand_index(c, d)]);
            }
            d += 1;
        }
        by_card.push(sum);
        c += 1;
    }
    let one = S::from_int(1);
    let two = S::from_int(2);
    let win = if history_len == 1 {
        if player == 0 {
            S::from_int(-1).div(two)
        } else {
            one.div(two)
        }
    } else {
        if player == 0 {
            one
        } else {
            S::from_int(-1)
        }
    };
    let payoff = win.mul(S::from_int(4).div(S::from_int(6497400)));
    assert(payoff == fold_payoff::<S>(history_len as nat, player as int));
    let mut out: Vec<S> = Vec::with_capacity(1326);
    let mut i: usize = 0;
    while i < 51
        invariant
            i <= 51,
            pmi@.len() == 1326,
            by_card@.len() == 52,
            forall|b: int| 0 <= b < 52 ==> #[trigger] by_card@[b] == card_total(pmi@, b, 52),
            total == reach_total(pmi@, 1326),
            out@ == fold_rows(payoff, pmi@, i as nat),
        decreases 51 - i,
    {
        let ghost done = out@;
        let mut j: usize = i + 1;
        while j < 52
            invariant
                i < j <= 52,
                pmi@.len() == 1326,
                by_card@.len() == 52,
                forall|b: int| 0 <= b < 52 ==> #[trigger] by_card@[b] == card_total(pmi@, b, 52),
                total == reach_total(pmi@, 1326),
                out@ == done + Seq::new(
                    (j - i - 1) as nat,
                    |t: int| fold_entry(payoff, pmi@, i as int, i + 1 + t),
                ),
            decreases 52 - j,
        {
            let k = hand_index(i, j);
            let others = total.sub(by_card[i]).sub(by_card[j]).add(pmi[k]);
            out.push(payoff.mul(others));
            j += 1;
            assert(out@ =~= done + Seq::new(
                (j - i - 1) as nat,
                |t: int| fold_entry(payoff, pmi@, i as int, i + 1 + t),
            ));
        }
        i += 1;
        assert(out@ =~= fold_rows(payoff, pmi@, i as nat));
    }
    out
}

/// Push-or-fold hold'em with a given stack.
pub struct PushFoldGame<S: Scalar> {
    effective_stack: S,
    win_freq: Vec<i32>,
}

impl<S: Scalar> PushFoldGame<S> {
    #[verifier::type_invariant]
    spec fn table_is_whole(self) -> bool {
        self.win_freq@.len() == TABLE_LEN
    }

    /// What each player has at stake, in big blinds.
    pub closed spec fn stack(&self) -> S {
        self.effective_stack
    }

    /// The win frequencies: entry `1326 * a + b` says on how many boards,
    /// counted twice, hand `a` wins against hand `b`, a split board counted
    /// once.
    pub closed spec fn table(&self) -> Seq<i32> {
        self.win_freq@
    }

    /// The game with the given stack and table of win frequencies. The
    /// table must hold one entry for every pair of hands.
    pub fn new(effective_stack: S, win_freq: Vec<i32>) -> (out: Result<Self, TableError>)
        ensures
            match out {
                Ok(game) => win_freq@.len() == TABLE_LEN && game.stack() == effective_stack
                    && game.table() == win_freq@,
                Err(e) => win_freq@.len() != TABLE_LEN && e == TableError::WrongLength(
                    win_freq.len(),
                ),
            },
    {
        if win_freq.len() == TABLE_LEN {
            Ok(PushFoldGame { effective_stack, win_freq })
        } else {
            Err(TableError::WrongLength(win_freq.len()))
        }
    }

    /// By how many boards, counted twice, a hand with win frequency `win`
    /// wins more often than it loses.
    pub open spec fn margin(win: i32) -> int {
        win - (2 * NUM_BOARDS - win)
    }

    /// What the hand `(i, j)` wins from the hand `(m, n)` at a showdown,
    /// summed over the boards, counted twice.
    pub open spec fn edge(&self, i: int, j: int, m: int, n: int) -> S {
        self.stack().product(
            S::of_int(Self::margin(self.table()[1326 * hand_of(i, j) + hand_of(m, n)]) as i128),
        )
    }

    /// What the hand `(i, j)` wins at a showdown from the hands whose lower
    /// card is `m` and whose higher card is below `upto`, each weighted by
    /// what the opponent reaches the node with, added to `sum` in the order
    /// of the hands. Hands that share a card with `(i, j)` add nothing.
    pub open spec fn against_row(&self, sum: S, pmi: Seq<S>, i: int, j: int, m: int, upto: int) -> S
        decreases upto - m,
    {
        if upto <= m + 1 {
            sum
        } else {
            let before = self.against_row(sum, pmi, i, j, m, upto - 1);
            let n = upto - 1;
            if i == m || j == m || i == n || j == n {
                before
            } else {
                before.sum(self.edge(i, j, m, n).product(pmi[hand_of(m, n)]))
            }
        }
    }

    /// What the hand `(i, j)` wins at a showdown from the hands whose lower
    /// card is below `rows`, added up from zero in the order of the hands.
    pub open spec fn against(&self, pmi: Seq<S>, i: int, j: int, rows: nat) -> S
        decreases rows,
    {
        if rows == 0 {
            S::of_int(0)
        } else {
            self.against_row(self.against(pmi, i, j, (rows - 1) as nat), pmi, i, j, rows - 1, 52)
        }
    }

    /// What a sum over the boards, counted twice, is multiplied by:
    /// `deal_weight` times a half over the number of boards.
    pub open spec fn board_weight() -> S {
        deal_weight::<S>().product(half::<S>().product(S::of_int(1).quotient(S::of_int(1712304))))
    }

    /// The value of the hand `(i, j)` at a showdown.
    pub open spec fn showdown_entry(&self, pmi: Seq<S>, i: int, j: int) -> S {
        Self::board_weight().product(self.against(pmi, i, j, 51))
    }

    /// The values, at a showdown, of the hands whose lower card is below
    /// `rows`, in the order of the hands.
    pub open spec fn showdown_rows(&self, pmi: Seq<S>, rows: nat) -> Seq<S>
        decreases rows,
    {
        if rows == 0 {
            Seq::empty()
        } else {
            self.showdown_rows(pmi, (rows - 1) as nat) + Seq::new(
                (52 - rows) as nat,
                |t: int| self.showdown_entry(pmi, rows - 1, rows + t),
            )
        }
    }

    /// There is one value for every hand whose lower card is below `rows`.
    pub proof fn lemma_showdown_rows_len(&self, pmi: Seq<S>, rows: nat)
        requires
            rows <= 51,
        ensures
            self.showdown_rows(pmi, rows).len() == first_hand(rows as int),
        decreases rows,
    {
        if rows > 0 {
            self.lemma_showdown_rows_len(pmi, (rows - 1) as nat);
        }
    }

    /// Among the values of a showdown, that of the hand `(i, j)` stands at
    /// the number of the hand.
    pub proof fn lemma_showdown_value_of_hand(&self, pmi: Seq<S>, i: int, j: int, rows: nat)
        requires
            0 <= i < j < 52,
            i < rows <= 51,
        ensures
            self.showdown_rows(pmi, rows)[hand_of(i, j)] == self.showdown_entry(pmi, i, j),
        decreases rows,
    {
        self.lemma_showdown_rows_len(pmi, (rows - 1) as nat);
        lemma_hand_of(i, j);
        if i < rows - 1 {
            lemma_first_hand_grows(i + 1, rows - 1);
            self.lemma_showdown_value_of_hand(pmi, i, j, (rows - 1) as nat);
        }
    }

    /// The value of every hand at a showdown. It is the same for either
    /// player.
    pub open spec fn showdown_worth(&self, pmi: Seq<S>) -> Seq<S> {
        self.showdown_rows(pmi, 51)
    }

    /// The value of every hand of `player` at the node with the given
    /// history: that of a fold where the last action is a fold, that of a
    /// showdown elsewhere.
    pub open spec fn values_at(&self, history: Seq<usize>, player: int, pmi: Seq<S>) -> Seq<S> {
        if history.len() > 0 && history.last() == FOLD {
            fold_worth::<S>(history.len(), player, pmi)
        } else {
            self.showdown_worth(pmi)
        }
    }

    /// What the hand `(i, j)` wins at a showdown from all hands that share
    /// no card with it, each weighted by what the opponent reaches the node
    /// with.
    fn showdown_sum(&self, pmi: &Vec<S>, i: usize, j: usize) -> (sum: S)
        requires
            i < j < 52,
            pmi@.len() == 1326,
        ensures
            sum == self.against(pmi@, i as int, j as int, 51),
    {
        proof {
            use_type_invariant(self);
            lemma_hand_of(i as int, j as int);
        }
        let base: usize = 1326 * hand_index(i, j);
        let mut sum = S::from_int(0);
        let mut m: usize = 0;
        while m < 51
            invariant
                m <= 51,
                i < j < 52,
                pmi@.len() == 1326,
                self.win_freq@.len() == TABLE_LEN,
                base == 1326 * hand_of(i as int, j as int),
                0 <= hand_of(i as int, j as int) < 1326,
                sum == self.against(pmi@, i as int, j as int, m as nat),
            decreases 51 - m,
        {
            let mut n: usize = m + 1;
            while n < 52
                invariant
                    m < n <= 52,
                    m < 51,
                    i < j < 52,
                    pmi@.len() == 1326,
                    self.win_freq@.len() == TABLE_LEN,
                    base == 1326 * hand_of(i as int, j as int),
                    0 <= hand_of(i as int, j as int) < 1326,
                    sum == self.against_row(
                        self.against(pmi@, i as int, j as int, m as nat),
                        pmi@,
                        i as int,
                        j as int,
                        m as int,
                        n as int,
                    ),
                decreases 52 - n,
            {
                if !(i == m || j == m || i == n || j == n) {
                    let k = hand_index(m, n);
                    let win: i32 = self.win_freq[base + k];
                    let margin: i64 = win as i64 - (2 * (NUM_BOARDS as i64) - win as i64);
                    let edge = self.effective_stack.mul(S::from_int(margin as i128));
                    sum = sum.add(edge.mul(pmi[k]));
                }
                n += 1;
            }
            m += 1;
        }
        sum
    }

    /// The value of every hand at a showdown, where the opponent reaches it
    /// with `pmi`.
    pub fn showdown_values(&self, pmi: &Vec<S>) -> (out: Vec<S>)
        requires
            pmi@.len() == 1326,
        ensures
            out@ == self.showdown_worth(pmi@),
            out@.len() == 1326,
    {
        proof {
            self.lemma_showdown_rows_len(pmi@, 51);
            lemma_first_hand(51);
        }
        let one = S::from_int(1);
        let weight = S::from_int(4).div(S::from_int(6497400)).mul(
            one.div(S::from_int(2)).mul(one.div(S::from_int(NUM_BOARDS as i128))),
        );
        assert(weight == Self::board_weight());
        let mut out: Vec<S> = Vec::with_capacity(1326);
        let mut i: usize = 0;
        while i < 51
            invariant
                i <= 51,
                pmi@.len() == 1326,
                weight == Self::board_weight(),
                out@ == self.showdown_rows(pmi@, i as nat),
            decreases 51 - i,
        {
            let ghost done = out@;
            let mut j: usize = i + 1;
            while j < 52
                invariant
                    i < j <= 52,
                    pmi@.len() == 1326,
                    weight == Self::board_weight(),
                    out@ == done + Seq::new(
                        (j - i - 1) as nat,
                        |t: int| self.showdown_entry(pmi@, i as int, i + 1 + t),
                    ),
                decreases 52 - j,
            {
                out.push(weight.mul(self.showdown_sum(pmi, i, j)));
                j += 1;
                assert(out@ =~= done + Seq::new(
                    (j - i - 1) as nat,
                    |t: int| self.showdown_entry(pmi@, i as int, i + 1 + t),
                ));
            }
            i += 1;
            assert(out@ =~= self.showdown_rows(pmi@, i as nat));
        }
        out
    }
}

impl<S: Scalar> Game for PushFoldGame<S> {
    type Node = PushFoldNode;

    type Value = S;

    open spec fn hands() -> usize {
        NUM_HANDS
    }

    open spec fn worth(&self, history: PublicHistory, player: usize, pmi: Vec<S>) -> Vec<S> {
        crate::game::reach_vec(self.values_at(history@, player as int, pmi@))
    }

    fn root() -> (node: PushFoldNode)
        ensures
            node.history() == Seq::<usize>::empty(),
    {
        PushFoldNode { public_history: Vec::new() }
    }

    fn num_private_hands() -> (n: usize) {
        52 * 51 / 2
    }

    fn evaluate(&self, node: &PushFoldNode, player: usize, pmi: &Vec<S>) -> (values: Vec<S>)
        ensures
            values@ == self.values_at(node.history(), player as int, pmi@),
    {
        let history = node.public_history();
        let n = history.len();
        let values = if n > 0 && history[n - 1] == FOLD {
            fold_values(n, player, pmi)
        } else {
            self.showdown_values(pmi)
        };
        proof {
            crate::game::lemma_reach_vec(values);
        }
        values
    }
}

} // verus!
