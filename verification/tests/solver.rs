use dcfr::cfr::{CFRMinimizer, SolveError, StrategyTable, MAX_DEPTH};
use dcfr::fixed::{Fixed, ONE_RAW};
use dcfr::game::{Game, GameNode, PublicHistory};
use dcfr::game_kuhn::{KuhnGame, KuhnNode};
use dcfr::matching::regret_matching;
use dcfr::scalar::Scalar;
use dcfr::update::{discount_schedule, Discount};
use dcfr::vector::mul_vec;
use std::cell::Cell;

/// Double-precision numbers as the solver's scalar.
#[derive(Clone, Copy, Debug, PartialEq)]
struct Real(f64);

impl Scalar for Real {
    fn of_int(n: i128) -> Self {
        Real(n as f64)
    }

    fn sum(self, rhs: Self) -> Self {
        Real(self.0 + rhs.0)
    }

    fn difference(self, rhs: Self) -> Self {
        Real(self.0 - rhs.0)
    }

    fn product(self, rhs: Self) -> Self {
        Real(self.0 * rhs.0)
    }

    fn quotient(self, rhs: Self) -> Self {
        Real(self.0 / rhs.0)
    }

    fn power(self, halves: u32) -> Self {
        Real(self.0.powf(halves as f64 / 2.0))
    }

    fn positive_part(self) -> Self {
        Real(self.0.max(0.0))
    }

    fn vanishes(self) -> bool {
        self.0 == 0.0
    }

    fn non_negative(self) -> bool {
        self.0 >= 0.0
    }

    fn from_int(n: i128) -> Self {
        Self::of_int(n)
    }

    fn add(self, rhs: Self) -> Self {
        self.sum(rhs)
    }

    fn sub(self, rhs: Self) -> Self {
        self.difference(rhs)
    }

    fn mul(self, rhs: Self) -> Self {
        self.product(rhs)
    }

    fn div(self, rhs: Self) -> Self {
        self.quotient(rhs)
    }

    fn pow_halves(self, halves: u32) -> Self {
        self.power(halves)
    }

    fn max_zero(self) -> Self {
        self.positive_part()
    }

    fn is_zero(self) -> bool {
        self.vanishes()
    }

    fn is_non_negative(self) -> bool {
        self.non_negative()
    }
}

fn reals(v: &Vec<Real>) -> Vec<f64> {
    v.iter().map(|x| x.0).collect()
}

/// A node that is its history, for the games below.
#[derive(Clone)]
struct PathNode {
    history: PublicHistory,
}

// ---------------------------------------------------------------------
// Kuhn poker.

/// The value of `node` to `player`, hand by hand, when both follow
/// `strategy`; with `best`, the player instead picks the best action for
/// each hand.
fn kuhn_value(
    game: &KuhnGame<Real>,
    node: &KuhnNode,
    player: usize,
    pmi: &Vec<Real>,
    strategy: &StrategyTable<Real>,
    best: bool,
) -> Vec<f64> {
    if node.is_terminal() {
        return reals(&game.evaluate(node, player, pmi));
    }
    let s = strategy.get(node.public_history()).unwrap();
    let mut out = vec![0.0; 3];
    if node.current_player() == player {
        let children: Vec<Vec<f64>> = (0..2)
            .map(|a| kuhn_value(game, &node.play(a), player, pmi, strategy, best))
            .collect();
        for h in 0..3 {
            out[h] = if best {
                children[0][h].max(children[1][h])
            } else {
                s[0][h].0 * children[0][h] + s[1][h].0 * children[1][h]
            };
        }
    } else {
        for a in 0..2 {
            let reach: Vec<Real> = (0..3).map(|h| Real(pmi[h].0 * s[a][h].0)).collect();
            let child = kuhn_value(game, &node.play(a), player, &reach, strategy, best);
            for h in 0..3 {
                out[h] += child[h];
            }
        }
    }
    out
}

fn kuhn_total(
    game: &KuhnGame<Real>,
    player: usize,
    strategy: &StrategyTable<Real>,
    best: bool,
) -> f64 {
    let ones = vec![Real(1.0); 3];
    kuhn_value(game, &KuhnGame::<Real>::root(), player, &ones, strategy, best).iter().sum()
}

#[test]
fn kuhn_poker_converges_to_equilibrium() {
    let game = KuhnGame::<Real>::new();
    let mut solver = CFRMinimizer::new(&game);
    let strategy = solver.compute(10000).unwrap();
    let ev = kuhn_total(&game, 0, &strategy, false);
    let exploitability =
        (kuhn_total(&game, 0, &strategy, true) + kuhn_total(&game, 1, &strategy, true)) / 2.0;
    assert!(exploitability >= -1e-12);
    assert!(exploitability < 1e-3, "exploitability {}", exploitability);
    assert!((ev + 1.0 / 18.0).abs() < 1e-3, "value {}", ev);
}

#[test]
fn kuhn_poker_tree_is_indexed_in_depth_first_order() {
    let game = KuhnGame::<Real>::new();
    let mut solver = CFRMinimizer::new(&game);
    assert_eq!(solver.get_terminal_nodes(), 0);
    let strategy = solver.compute(1).unwrap();
    let expected: Vec<PublicHistory> = vec![vec![], vec![0], vec![0, 1], vec![1]];
    assert_eq!(strategy.histories, expected);
    assert_eq!(strategy.matrices.len(), 4);
    assert_eq!(solver.get_terminal_nodes(), 5);
    assert!(strategy.get(&vec![0, 0]).is_none());
    assert!(strategy.get(&vec![1, 1]).is_none());
    for m in &strategy.matrices {
        assert_eq!(m.len(), 2);
        assert_eq!(m[0].len(), 3);
        assert_eq!(m[1].len(), 3);
    }
}

#[test]
fn kuhn_poker_average_strategy_is_a_distribution() {
    let game = KuhnGame::<Real>::new();
    let mut solver = CFRMinimizer::new(&game);
    let strategy = solver.compute(50).unwrap();
    for m in &strategy.matrices {
        for h in 0..3 {
            let total = m[0][h].0 + m[1][h].0;
            assert!((total - 1.0).abs() < 1e-12);
        }
    }
}

#[test]
fn two_runs_give_the_same_strategy() {
    let game = KuhnGame::<Real>::new();
    let mut first = CFRMinimizer::new(&game);
    let mut second = CFRMinimizer::new(&game);
    let a = first.compute(200).unwrap();
    let b = second.compute(200).unwrap();
    assert_eq!(a.histories, b.histories);
    assert_eq!(a.matrices, b.matrices);
    let again = first.compute(200).unwrap();
    assert_eq!(a.matrices, again.matrices);
}

#[test]
fn evaluate_gives_the_same_values_for_the_same_arguments() {
    let game = KuhnGame::<Real>::new();
    let node = KuhnGame::<Real>::root().play(1).play(1);
    let pmi = vec![Real(0.25), Real(0.5), Real(1.0)];
    assert_eq!(game.evaluate(&node, 0, &pmi), game.evaluate(&node, 0, &pmi));
    assert_eq!(game.evaluate(&node, 1, &pmi), game.evaluate(&node, 1, &pmi));
}

// ---------------------------------------------------------------------
// One decision of the first player, two hands each, two actions.

struct OnePly<S>(S);

struct OnePlyNode(PathNode);

impl GameNode for OnePlyNode {
    fn ended_at(history: PublicHistory) -> bool {
        !history.is_empty()
    }

    fn mover_at(_history: PublicHistory) -> usize {
        0
    }

    fn arity_at(_history: PublicHistory) -> usize {
        2
    }

    fn path(&self) -> PublicHistory {
        self.0.history.clone()
    }

    fn public_history(&self) -> &PublicHistory {
        &self.0.history
    }

    fn is_terminal(&self) -> bool {
        Self::ended_at(self.path())
    }

    fn current_player(&self) -> usize {
        Self::mover_at(self.path())
    }

    fn num_actions(&self) -> usize {
        Self::arity_at(self.path())
    }

    fn play(&self, action: usize) -> Self {
        let mut next = self.0.clone();
        next.history.push(action);
        OnePlyNode(next)
    }
}

/// What the first player wins with hand `mine` against `theirs` after
/// `action`.
fn one_ply_payoff(action: usize, mine: usize, _theirs: usize) -> i128 {
    match (action, mine) {
        (0, 0) => 1,
        (0, _) => -1,
        (1, 0) => 0,
        (_, _) => 1,
    }
}

impl<S: Scalar> Game for OnePly<S> {
    type Node = OnePlyNode;
    type Value = S;

    fn hands() -> usize {
        2
    }

    fn root() -> OnePlyNode {
        OnePlyNode(PathNode { history: Vec::new() })
    }

    fn num_private_hands() -> usize {
        2
    }

    fn worth(&self, history: PublicHistory, player: usize, pmi: Vec<S>) -> Vec<S> {
        let action = history[0];
        let mut out = Vec::new();
        for mine in 0..2 {
            let mut value = S::from_int(0);
            for theirs in 0..2 {
                let payoff = if player == 0 {
                    one_ply_payoff(action, mine, theirs)
                } else {
                    -one_ply_payoff(action, theirs, mine)
                };
                value = value.add(S::from_int(payoff).mul(pmi[theirs]));
            }
            out.push(value);
        }
        out
    }

    fn evaluate(&self, node: &OnePlyNode, player: usize, pmi: &Vec<S>) -> Vec<S> {
        self.worth(node.path(), player, pmi.clone())
    }
}

#[test]
fn one_ply_accumulators_after_the_first_iteration() {
    let game = OnePly(Real(0.0));
    let mut solver = CFRMinimizer::new(&game);
    let strategy = solver.compute(1).unwrap();
    let regret = solver.cum_regret(&vec![]).unwrap();
    assert_eq!(reals(&regret[0]), vec![1.0, -2.0]);
    assert_eq!(reals(&regret[1]), vec![-1.0, 2.0]);
    let cum = solver.cum_strategy(&vec![]).unwrap();
    assert_eq!(reals(&cum[0]), vec![0.5, 0.5]);
    assert_eq!(reals(&cum[1]), vec![0.5, 0.5]);
    let average = strategy.get(&vec![]).unwrap();
    assert_eq!(reals(&average[0]), vec![0.5, 0.5]);
    assert_eq!(reals(&average[1]), vec![0.5, 0.5]);
    assert_eq!(solver.get_terminal_nodes(), 2);
    assert!(solver.cum_regret(&vec![0]).is_none());
    assert!(solver.cum_strategy(&vec![1]).is_none());
}

#[test]
fn one_ply_accumulators_after_the_second_iteration() {
    let game = OnePly(Real(0.0));
    let mut solver = CFRMinimizer::new(&game);
    let strategy = solver.compute(2).unwrap();
    let regret = solver.cum_regret(&vec![]).unwrap();
    assert_eq!(reals(&regret[0]), vec![0.5, -5.0]);
    assert_eq!(reals(&regret[1]), vec![-2.5, 1.0]);
    let cum = solver.cum_strategy(&vec![]).unwrap();
    assert_eq!(reals(&cum[0]), vec![4.5, 0.5]);
    assert_eq!(reals(&cum[1]), vec![0.5, 4.5]);
    let average = strategy.get(&vec![]).unwrap();
    assert_eq!(reals(&average[0]), vec![4.5 / 5.0, 0.5 / 5.0]);
    assert_eq!(reals(&average[1]), vec![0.5 / 5.0, 4.5 / 5.0]);
}

#[test]
fn one_ply_accumulators_in_fixed_point() {
    let game = OnePly(Fixed::from_int(0));
    let mut solver = CFRMinimizer::new(&game);
    let strategy = solver.compute(2).unwrap();
    let regret = solver.cum_regret(&vec![]).unwrap();
    assert_eq!(regret[0][0].raw, ONE_RAW / 2);
    assert_eq!(regret[0][1].raw, -5 * ONE_RAW);
    assert_eq!(regret[1][0].raw, -5 * ONE_RAW / 2);
    assert_eq!(regret[1][1].raw, ONE_RAW);
    let cum = solver.cum_strategy(&vec![]).unwrap();
    assert_eq!(cum[0][0].raw, 9 * ONE_RAW / 2);
    assert_eq!(cum[0][1].raw, ONE_RAW / 2);
    assert_eq!(cum[1][0].raw, ONE_RAW / 2);
    assert_eq!(cum[1][1].raw, 9 * ONE_RAW / 2);
    let average = strategy.get(&vec![]).unwrap();
    assert_eq!(average[0][0].raw, 15099494);
    assert_eq!(average[1][0].raw, 1677721);
    assert_eq!(average[0][1].raw, 1677721);
    assert_eq!(average[1][1].raw, 15099494);
}

#[test]
fn computing_again_starts_from_scratch() {
    let game = OnePly(Real(0.0));
    let mut solver = CFRMinimizer::new(&game);
    solver.compute(2).unwrap();
    solver.compute(1).unwrap();
    let regret = solver.cum_regret(&vec![]).unwrap();
    assert_eq!(reals(&regret[0]), vec![1.0, -2.0]);
    assert_eq!(solver.get_terminal_nodes(), 2);
}

#[test]
fn a_game_without_stakes_is_played_evenly() {
    struct Folded;
    impl Game for Folded {
        type Node = OnePlyNode;
        type Value = Real;

        fn hands() -> usize {
            2
        }

        fn root() -> OnePlyNode {
            OnePlyNode(PathNode { history: Vec::new() })
        }

        fn num_private_hands() -> usize {
            2
        }

        fn worth(&self, _history: PublicHistory, _player: usize, _pmi: Vec<Real>) -> Vec<Real> {
            vec![Real(0.0), Real(0.0)]
        }

        fn evaluate(&self, node: &OnePlyNode, player: usize, pmi: &Vec<Real>) -> Vec<Real> {
            self.worth(node.path(), player, pmi.clone())
        }
    }
    let game = Folded;
    let mut solver = CFRMinimizer::new(&game);
    let strategy = solver.compute(3).unwrap();
    let average = strategy.get(&vec![]).unwrap();
    assert_eq!(reals(&average[0]), vec![0.5, 0.5]);
    assert_eq!(reals(&average[1]), vec![0.5, 0.5]);
}

#[test]
fn a_column_without_mass_averages_to_zero() {
    let zero = dcfr::cfr::zero_matrix::<Real>(2, 2);
    assert_eq!(reals(&zero[0]), vec![0.0, 0.0]);
    let mut m = dcfr::cfr::copy_matrix(&zero);
    m[0][1] = Real(3.0);
    m[1][1] = Real(1.0);
    dcfr::matching::divide_columns(&mut m, 2, Real(0.0));
    assert_eq!(reals(&m[0]), vec![0.0, 0.75]);
    assert_eq!(reals(&m[1]), vec![0.0, 0.25]);
}

// ---------------------------------------------------------------------
// The schedule and the kernels on double-precision numbers.

#[test]
fn schedule_follows_the_formulas() {
    for t in [0i32, 1, 2, 3, 10, 9999] {
        let d: Discount<Real> = discount_schedule(t);
        let x = (t as f64).powf(1.5);
        assert_eq!(d.alpha.0, x / (x + 1.0));
        assert_eq!(d.beta.0, 0.5);
        assert_eq!(d.gamma.0, (t as f64 + 1.0).powf(2.0));
    }
    let first: Discount<Real> = discount_schedule(0);
    assert_eq!(first.alpha.0, 0.0);
    assert_eq!(first.gamma.0, 1.0);
}

#[test]
fn regret_matching_on_reals() {
    let regrets = vec![
        vec![Real(1.0), Real(-1.0), Real(0.0)],
        vec![Real(3.0), Real(-2.0), Real(0.5)],
    ];
    let s = regret_matching(&regrets, 3);
    assert_eq!(reals(&s[0]), vec![0.25, 0.5, 0.0]);
    assert_eq!(reals(&s[1]), vec![0.75, 0.5, 1.0]);
}

#[test]
fn reach_is_conserved_on_reals() {
    let regrets = vec![
        vec![Real(1.0), Real(-1.0)],
        vec![Real(2.0), Real(-2.0)],
        vec![Real(5.0), Real(-3.0)],
    ];
    let s = regret_matching(&regrets, 2);
    let reach = vec![Real(0.7), Real(0.3)];
    for h in 0..2 {
        let total: f64 = s.iter().map(|row| mul_vec(&reach, row)[h].0).sum();
        assert!((total - reach[h].0).abs() < 1e-12);
    }
}

// ---------------------------------------------------------------------
// Games that break their word.

/// A game of one action that never ends.
struct Endless;

struct EndlessNode(PathNode);

impl GameNode for EndlessNode {
    fn ended_at(_history: PublicHistory) -> bool {
        false
    }

    fn mover_at(history: PublicHistory) -> usize {
        history.len() % 2
    }

    fn arity_at(_history: PublicHistory) -> usize {
        1
    }

    fn path(&self) -> PublicHistory {
        self.0.history.clone()
    }

    fn public_history(&self) -> &PublicHistory {
        &self.0.history
    }

    fn is_terminal(&self) -> bool {
        Self::ended_at(self.path())
    }

    fn current_player(&self) -> usize {
        Self::mover_at(self.path())
    }

    fn num_actions(&self) -> usize {
        Self::arity_at(self.path())
    }

    fn play(&self, action: usize) -> Self {
        let mut next = self.0.clone();
        next.history.push(action);
        EndlessNode(next)
    }
}

impl Game for Endless {
    type Node = EndlessNode;
    type Value = Real;

    fn hands() -> usize {
        1
    }

    fn root() -> EndlessNode {
        EndlessNode(PathNode { history: Vec::new() })
    }

    fn num_private_hands() -> usize {
        1
    }

    fn worth(&self, _history: PublicHistory, _player: usize, _pmi: Vec<Real>) -> Vec<Real> {
        vec![Real(0.0)]
    }

    fn evaluate(&self, node: &EndlessNode, player: usize, pmi: &Vec<Real>) -> Vec<Real> {
        self.worth(node.path(), player, pmi.clone())
    }
}

#[test]
fn a_game_without_end_is_too_deep() {
    let game = Endless;
    let mut solver = CFRMinimizer::new(&game);
    match solver.compute(1) {
        Err(SolveError::TooDeep(history)) => assert_eq!(history, vec![0; MAX_DEPTH]),
        _ => panic!("expected the tree to be too deep"),
    }
}

/// A game whose answers change after the tree was indexed. `calls` counts
/// how often the node was asked for its number of actions or for a child.
struct Fickle<const KIND: u8>;

struct FickleNode<const KIND: u8> {
    path: PathNode,
    late: bool,
    calls: Cell<usize>,
}

impl<const KIND: u8> GameNode for FickleNode<KIND> {
    fn ended_at(history: PublicHistory) -> bool {
        !history.is_empty()
    }

    fn mover_at(_history: PublicHistory) -> usize {
        0
    }

    fn arity_at(_history: PublicHistory) -> usize {
        2
    }

    fn path(&self) -> PublicHistory {
        self.path.history.clone()
    }

    fn public_history(&self) -> &PublicHistory {
        &self.path.history
    }

    fn is_terminal(&self) -> bool {
        match KIND {
            // the children end the game while the tree is indexed, and go
            // on afterwards
            0 => !self.path.history.is_empty() && !self.late,
            _ => !self.path.history.is_empty(),
        }
    }

    fn current_player(&self) -> usize {
        0
    }

    fn num_actions(&self) -> usize {
        let seen = self.calls.get();
        self.calls.set(seen + 1);
        match KIND {
            // two actions while the tree is indexed, three afterwards
            1 if seen > 0 => 3,
            _ => 2,
        }
    }

    fn play(&self, action: usize) -> Self {
        let seen = self.calls.get();
        self.calls.set(seen + 1);
        let mut next = self.path.clone();
        next.history.push(action);
        FickleNode { path: next, late: seen > 2, calls: Cell::new(0) }
    }
}

impl<const KIND: u8> Game for Fickle<KIND> {
    type Node = FickleNode<KIND>;
    type Value = Real;

    fn hands() -> usize {
        2
    }

    fn root() -> FickleNode<KIND> {
        FickleNode { path: PathNode { history: Vec::new() }, late: false, calls: Cell::new(0) }
    }

    fn num_private_hands() -> usize {
        2
    }

    fn worth(&self, _history: PublicHistory, _player: usize, pmi: Vec<Real>) -> Vec<Real> {
        pmi
    }

    fn evaluate(&self, _node: &FickleNode<KIND>, _player: usize, pmi: &Vec<Real>) -> Vec<Real> {
        match KIND {
            2 => Vec::new(),
            _ => pmi.clone(),
        }
    }
}

#[test]
fn a_node_that_was_not_indexed_is_unknown() {
    let game = Fickle::<0>;
    let mut solver = CFRMinimizer::new(&game);
    assert_eq!(solver.compute(1).err(), Some(SolveError::UnknownHistory(vec![0])));
}

#[test]
fn a_changed_number_of_actions_is_a_mismatch() {
    let game = Fickle::<1>;
    let mut solver = CFRMinimizer::new(&game);
    assert_eq!(solver.compute(1).err(), Some(SolveError::ActionCountMismatch(vec![])));
}

#[test]
fn a_value_of_the_wrong_length_is_refused() {
    let game = Fickle::<2>;
    let mut solver = CFRMinimizer::new(&game);
    assert_eq!(solver.compute(1).err(), Some(SolveError::WrongValueCount(vec![0])));
}

#[test]
fn a_history_out_of_place_is_unknown() {
    struct Renamed;
    struct RenamedNode {
        path: PathNode,
        asked: Cell<usize>,
        other: PublicHistory,
    }
    impl GameNode for RenamedNode {
        fn ended_at(history: PublicHistory) -> bool {
            !history.is_empty()
        }

        fn mover_at(_history: PublicHistory) -> usize {
            0
        }

        fn arity_at(_history: PublicHistory) -> usize {
            2
        }

        fn path(&self) -> PublicHistory {
            self.path.history.clone()
        }

        fn public_history(&self) -> &PublicHistory {
            let seen = self.asked.get();
            self.asked.set(seen + 1);
            if seen == 0 {
                &self.path.history
            } else {
                &self.other
            }
        }

        fn is_terminal(&self) -> bool {
            !self.path.history.is_empty()
        }

        fn current_player(&self) -> usize {
            0
        }

        fn num_actions(&self) -> usize {
            2
        }

        fn play(&self, action: usize) -> Self {
            let mut next = self.path.clone();
            next.history.push(action);
            RenamedNode { path: next, asked: Cell::new(0), other: vec![9] }
        }
    }
    impl Game for Renamed {
        type Node = RenamedNode;
        type Value = Real;

        fn hands() -> usize {
            1
        }

        fn root() -> RenamedNode {
            RenamedNode {
                path: PathNode { history: Vec::new() },
                asked: Cell::new(0),
                other: vec![9],
            }
        }

        fn num_private_hands() -> usize {
            1
        }

        fn worth(&self, _history: PublicHistory, _player: usize, pmi: Vec<Real>) -> Vec<Real> {
            pmi
        }

        fn evaluate(&self, _node: &RenamedNode, _player: usize, pmi: &Vec<Real>) -> Vec<Real> {
            pmi.clone()
        }
    }
    let game = Renamed;
    let mut solver = CFRMinimizer::new(&game);
    assert_eq!(solver.compute(1).err(), Some(SolveError::UnknownHistory(vec![9])));
}

#[test]
fn accumulated_strategy_adds_up_the_weights_of_the_iterations() {
    let game = OnePly(Real(0.0));
    let mut solver = CFRMinimizer::new(&game);
    solver.compute(5).unwrap();
    let cum = solver.cum_strategy(&vec![]).unwrap();
    let total: f64 = (0..2).map(|a| cum[a][0].0).sum();
    // the weights 1, 4, 9, 16 and 25 of the five iterations
    assert_eq!(total, 55.0);
}

#[test]
fn kuhn_poker_converges_in_fixed_point() {
    let game = KuhnGame::<Fixed>::new();
    let mut solver = CFRMinimizer::new(&game);
    let fixed = solver.compute(10000).unwrap();
    let strategy = StrategyTable {
        histories: fixed.histories,
        matrices: fixed
            .matrices
            .iter()
            .map(|m| {
                m.iter()
                    .map(|row| row.iter().map(|x| Real(x.raw as f64 / ONE_RAW as f64)).collect())
                    .collect()
            })
            .collect(),
    };
    let real = KuhnGame::<Real>::new();
    let ev = kuhn_total(&real, 0, &strategy, false);
    let exploitability =
        (kuhn_total(&real, 0, &strategy, true) + kuhn_total(&real, 1, &strategy, true)) / 2.0;
    assert!(exploitability < 1e-3, "exploitability {}", exploitability);
    assert!((ev + 1.0 / 18.0).abs() < 1e-3, "value {}", ev);
}

#[test]
fn kuhn_poker_nodes() {
    let root = KuhnGame::<Real>::root();
    assert!(root.public_history().is_empty());
    assert!(!root.is_terminal());
    assert_eq!(root.current_player(), 0);
    assert_eq!(root.num_actions(), 2);
    assert!(!root.play(0).is_terminal());
    assert!(!root.play(1).is_terminal());
    assert_eq!(root.play(1).current_player(), 1);
    assert!(!root.play(0).play(1).is_terminal());
    assert_eq!(root.play(0).play(1).current_player(), 0);
    assert!(root.play(0).play(0).is_terminal());
    assert!(root.play(1).play(0).is_terminal());
    assert!(root.play(1).play(1).is_terminal());
    assert!(root.play(0).play(1).play(0).is_terminal());
    assert!(root.play(0).play(1).play(1).is_terminal());
    assert!(root.play(2).is_terminal());
    assert_eq!(root.play(0).play(1).public_history(), &vec![0, 1]);
    assert_eq!(KuhnGame::<Real>::num_private_hands(), 3);
}

#[test]
fn kuhn_poker_values_at_the_end() {
    let game = KuhnGame::<Real>::new();
    let root = KuhnGame::<Real>::root();
    let ones = vec![Real(1.0); 3];
    let sixth = 1.0 / 6.0;
    // a showdown for the antes: the lowest card loses to both others
    let check_check = root.play(0).play(0);
    assert_eq!(
        reals(&game.evaluate(&check_check, 0, &ones)),
        vec![sixth * -1.0 + sixth * -1.0, sixth * 1.0 + sixth * -1.0, sixth * 1.0 + sixth * 1.0]
    );
    assert_eq!(
        reals(&game.evaluate(&check_check, 1, &ones)),
        vec![sixth * -1.0 + sixth * -1.0, sixth * 1.0 + sixth * -1.0, sixth * 1.0 + sixth * 1.0]
    );
    // a fold to the bet: the first player wins the ante with any card
    let bet_fold = root.play(1).play(0);
    assert_eq!(reals(&game.evaluate(&bet_fold, 0, &ones)), vec![sixth + sixth; 3]);
    assert_eq!(reals(&game.evaluate(&bet_fold, 1, &ones)), vec![-sixth + -sixth; 3]);
    // a fold of the first player to a bet
    let check_bet_fold = root.play(0).play(1).play(0);
    assert_eq!(reals(&game.evaluate(&check_bet_fold, 0, &ones)), vec![-sixth + -sixth; 3]);
    // a called bet doubles the stake; the opponent holds the middle card
    let bet_call = root.play(1).play(1);
    let middle = vec![Real(0.0), Real(1.0), Real(0.0)];
    assert_eq!(
        reals(&game.evaluate(&bet_call, 0, &middle)),
        vec![sixth * -2.0 * 1.0, 0.0, sixth * 2.0 * 1.0]
    );
    let check_bet_call = root.play(0).play(1).play(1);
    assert_eq!(
        reals(&game.evaluate(&check_bet_call, 1, &middle)),
        vec![sixth * -2.0 * 1.0, 0.0, sixth * 2.0 * 1.0]
    );
    // before the end nothing is won
    assert_eq!(reals(&game.evaluate(&root, 0, &ones)), vec![0.0; 3]);
}
