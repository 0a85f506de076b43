use minishogi_rs::board::{init, GameState, Hand, Piece, PieceType, Player};
use minishogi_rs::mcts::{
    simulate, MctsNode, MctsRequest, MctsSearch, Rng, Rollout, MCTS_ITERATIONS,
    MCTS_ROLLOUT_DEPTH,
};
use minishogi_rs::rules::{generate_legal_moves, make_move, Move};

fn empty_state() -> GameState {
    GameState { board: [[None; 5]; 5], sente_hand: Hand::new(), gote_hand: Hand::new() }
}

fn piece(piece_type: PieceType, owner: Player) -> Option<Piece> {
    Some(Piece { piece_type, owner, promoted: false })
}

fn sente_cannot_move() -> GameState {
    let mut state = empty_state();
    state.board[0][0] = piece(PieceType::King, Player::Sente);
    state.board[0][1] = piece(PieceType::Pawn, Player::Sente);
    state.board[1][0] = piece(PieceType::Pawn, Player::Sente);
    state.board[1][1] = piece(PieceType::Pawn, Player::Sente);
    state.board[4][4] = piece(PieceType::King, Player::Gote);
    state
}

fn win_rate(outcome: Rollout) -> f64 {
    match outcome {
        Rollout::SenteLoss => 0.0,
        Rollout::SenteWin => 1.0,
        Rollout::Score(score) => 1.0 / (1.0 + (-(score as f64) / 400.0).exp()),
    }
}

fn ucb1(wins: f64, visits: u32, parent_visits: u32) -> f64 {
    if visits == 0 {
        return f64::INFINITY;
    }
    wins / visits as f64 + 1.41 * ((parent_visits as f64).ln() / visits as f64).sqrt()
}

/// Runs a search to its end, rating children by UCB1.
fn run(
    state: &GameState,
    player: Player,
    seed: u64,
    iterations: u32,
) -> (Option<Move>, MctsSearch) {
    let mut search = MctsSearch::new(state, player, seed, iterations);
    let mut wins: Vec<f64> = Vec::new();
    loop {
        let mut request = search.begin_iteration();
        while let MctsRequest::Choose { parent } = request {
            let node = search.node(parent);
            let mut best = 0;
            let mut best_value = f64::NEG_INFINITY;
            for (k, &child) in node.children.iter().enumerate() {
                let w = wins.get(child).copied().unwrap_or(0.0);
                let value = ucb1(w, search.node(child).visits, node.visits);
                if value >= best_value {
                    best_value = value;
                    best = k;
                }
            }
            request = search.descend(best);
        }
        match request {
            MctsRequest::Credit { outcome } => {
                let rate = win_rate(outcome);
                wins.resize(search.node_count(), 0.0);
                for &index in search.path() {
                    wins[index] += if search.node(index).player == Player::Sente {
                        rate
                    } else {
                        1.0 - rate
                    };
                }
            }
            MctsRequest::Done { best } => return (best, search),
            MctsRequest::Choose { .. } => unreachable!(),
        }
    }
}

#[test]
fn search_budgets_are_the_usual_ones() {
    assert_eq!(MCTS_ITERATIONS, 20_000);
    assert_eq!(MCTS_ROLLOUT_DEPTH, 10);
}

#[test]
fn the_generator_starts_from_an_odd_state() {
    assert_eq!(Rng::new(0).state, 1);
    assert_eq!(Rng::new(1).state, 1);
    assert_eq!(Rng::new(42).state, 43);
    assert_eq!(Rng::new(u64::MAX).state, u64::MAX);
}

#[test]
fn the_generator_follows_xorshift() {
    let mut rng = Rng::new(1);
    assert_eq!(rng.next(), 1082269761);
    assert_eq!(rng.next(), 1152992998833853505);
    assert_eq!(rng.next(), 11177516664432764457);
    assert_eq!(rng.state, 11177516664432764457);
    let mut rng = Rng::new(42);
    assert_eq!(rng.next(), 46537075435);
    let mut rng = Rng::new(u64::MAX);
    assert_eq!(rng.next(), 1065361344);
}

#[test]
fn range_reduces_the_next_number() {
    let mut rng = Rng::new(1);
    assert_eq!(rng.range(10), 1);
    assert_eq!(rng.range(1000), 505);
    assert_eq!(rng.range(1), 0);
    let mut rng = Rng::new(1);
    assert_eq!(rng.range(usize::MAX), 1082269761);
}

#[test]
fn the_generator_never_reaches_zero() {
    let mut rng = Rng::new(0);
    for _ in 0..10_000 {
        assert_ne!(rng.next(), 0);
    }
}

#[test]
fn a_rollout_without_a_king_ends_at_once() {
    let mut no_sente = init();
    no_sente.board[4][4] = None;
    let mut rng = Rng::new(7);
    assert_eq!(simulate(&no_sente, Player::Sente, &mut rng), Rollout::SenteLoss);
    assert_eq!(rng.state, 7);

    let mut no_gote = init();
    no_gote.board[0][0] = None;
    assert_eq!(simulate(&no_gote, Player::Gote, &mut rng), Rollout::SenteWin);
    assert_eq!(rng.state, 7);
}

#[test]
fn a_rollout_ends_where_a_side_cannot_move() {
    let state = sente_cannot_move();
    let mut rng = Rng::new(7);
    assert_eq!(simulate(&state, Player::Sente, &mut rng), Rollout::SenteLoss);
    assert_eq!(rng.state, 7);
}

#[test]
fn a_rollout_draws_one_number_for_each_ply() {
    // Two kings that are too far apart to meet within the plies of a rollout
    // would be needed for a fixed score; here the outcome is checked against
    // a replay of the same plies.
    let state = init();
    let mut rng = Rng::new(99);
    let outcome = simulate(&state, Player::Sente, &mut rng);

    let mut replay = Rng::new(99);
    let mut current = state;
    let mut player = Player::Sente;
    let mut expected = None;
    for _ in 0..MCTS_ROLLOUT_DEPTH {
        if !minishogi_rs::search::has_king(&current, Player::Sente) {
            expected = Some(Rollout::SenteLoss);
            break;
        }
        if !minishogi_rs::search::has_king(&current, Player::Gote) {
            expected = Some(Rollout::SenteWin);
            break;
        }
        let moves = minishogi_rs::rules::generate_moves(&current, player);
        if moves.is_empty() {
            expected =
                Some(if player == Player::Sente { Rollout::SenteLoss } else { Rollout::SenteWin });
            break;
        }
        let index = replay.range(moves.len());
        current = make_move(&current, moves[index], player);
        player = minishogi_rs::rules::opponent_of(player);
    }
    let expected =
        expected.unwrap_or_else(|| Rollout::Score(minishogi_rs::search::evaluate(&current)));
    assert_eq!(outcome, expected);
    assert_eq!(rng.state, replay.state);
}

#[test]
fn a_fresh_node_has_every_legal_move_untried() {
    let state = init();
    let node = MctsNode::new(state, Player::Gote, None);
    assert_eq!(node.mv, None);
    assert_eq!(node.player, Player::Gote);
    assert_eq!(node.state, state);
    assert_eq!(node.visits, 0);
    assert!(node.children.is_empty());
    assert_eq!(node.untried_moves, generate_legal_moves(&state, Player::Gote));
    assert!(!node.is_fully_expanded());
    assert!(!node.is_terminal());
}

#[test]
fn a_node_without_a_king_or_without_moves_is_terminal() {
    let mut no_gote = init();
    no_gote.board[0][0] = None;
    let node = MctsNode::new(no_gote, Player::Sente, None);
    assert!(node.is_terminal());
    assert!(!node.is_fully_expanded());

    let stuck = MctsNode::new(sente_cannot_move(), Player::Sente, None);
    assert!(stuck.is_terminal());
    assert!(stuck.is_fully_expanded());
}

#[test]
fn a_new_search_holds_the_root_alone() {
    let state = init();
    let search = MctsSearch::new(&state, Player::Sente, 5, 3);
    assert_eq!(search.node_count(), 1);
    assert_eq!(search.remaining(), 3);
    assert_eq!(search.path(), &vec![0]);
    assert_eq!(search.node(0).mv, None);
    assert_eq!(search.node(0).state, state);
    assert_eq!(search.node(0).untried_moves.len(), 14);
    assert_eq!(search.best_move(), None);
}

#[test]
fn the_first_iteration_expands_the_root() {
    let state = init();
    let legal = generate_legal_moves(&state, Player::Sente);
    let mut search = MctsSearch::new(&state, Player::Sente, 5, 3);
    let request = search.begin_iteration();
    assert!(matches!(request, MctsRequest::Credit { .. }));
    assert_eq!(search.node_count(), 2);
    assert_eq!(search.remaining(), 2);
    assert_eq!(search.path(), &vec![0, 1]);
    let root = search.node(0);
    assert_eq!(root.visits, 1);
    assert_eq!(root.children, vec![1]);
    assert_eq!(root.untried_moves, legal[..13].to_vec());
    let child = search.node(1);
    assert_eq!(child.visits, 1);
    assert_eq!(child.mv, Some(legal[13]));
    assert_eq!(child.player, Player::Gote);
    assert_eq!(child.state, make_move(&state, legal[13], Player::Sente));
    assert_eq!(child.untried_moves, generate_legal_moves(&child.state, Player::Gote));
    assert_eq!(search.best_move(), Some(legal[13]));
}

#[test]
fn a_fully_expanded_root_asks_for_a_choice() {
    let state = init();
    let legal = generate_legal_moves(&state, Player::Sente);
    let mut search = MctsSearch::new(&state, Player::Sente, 11, 20);
    for k in 0..14 {
        let request = search.begin_iteration();
        assert!(matches!(request, MctsRequest::Credit { .. }));
        assert_eq!(search.node_count(), k + 2);
    }
    assert!(search.node(0).is_fully_expanded());
    assert_eq!(search.node(0).visits, 14);
    for (j, &child) in search.node(0).children.iter().enumerate() {
        assert_eq!(search.node(child).mv, Some(legal[13 - j]));
        assert_eq!(search.node(child).visits, 1);
    }
    // All children have one visit: the last of them is chosen.
    assert_eq!(search.best_move(), Some(legal[0]));

    assert_eq!(search.begin_iteration(), MctsRequest::Choose { parent: 0 });
    assert_eq!(search.remaining(), 6);
    assert_eq!(search.path(), &vec![0]);
    let request = search.descend(3);
    assert!(matches!(request, MctsRequest::Credit { .. }));
    assert_eq!(search.remaining(), 5);
    assert_eq!(search.node_count(), 16);
    assert_eq!(search.path(), &vec![0, 4, 15]);
    assert_eq!(search.node(0).visits, 15);
    assert_eq!(search.node(4).visits, 2);
    assert_eq!(search.node(15).visits, 1);
    assert_eq!(search.node(4).children, vec![15]);
    assert_eq!(search.best_move(), Some(legal[13 - 3]));
}

#[test]
fn a_choice_that_names_no_child_ends_the_iteration() {
    let state = init();
    let mut search = MctsSearch::new(&state, Player::Sente, 11, 20);
    for _ in 0..14 {
        search.begin_iteration();
    }
    assert_eq!(search.begin_iteration(), MctsRequest::Choose { parent: 0 });
    let request = search.descend(14);
    assert!(matches!(request, MctsRequest::Credit { .. }));
    assert_eq!(search.node_count(), 15);
    assert_eq!(search.path(), &vec![0]);
    assert_eq!(search.node(0).visits, 15);
    assert_eq!(search.remaining(), 5);
}

#[test]
fn a_spent_budget_reports_the_choice() {
    let state = init();
    let mut search = MctsSearch::new(&state, Player::Sente, 3, 1);
    assert!(matches!(search.begin_iteration(), MctsRequest::Credit { .. }));
    assert_eq!(search.remaining(), 0);
    let best = search.best_move();
    assert!(best.is_some());
    assert_eq!(search.begin_iteration(), MctsRequest::Done { best });
    assert_eq!(search.descend(0), MctsRequest::Done { best });
    assert_eq!(search.node_count(), 2);
    assert_eq!(search.node(0).visits, 1);
}

#[test]
fn mcts_finds_a_legal_move_where_there_is_one() {
    let state = init();
    for player in [Player::Sente, Player::Gote] {
        let legal = generate_legal_moves(&state, player);
        for iterations in [1, 2, 15, 300] {
            let (best, search) = run(&state, player, 2024, iterations);
            assert!(legal.contains(&best.unwrap()));
            assert_eq!(search.node(0).visits, iterations);
            assert_eq!(search.remaining(), 0);
        }
    }
}

#[test]
fn mcts_without_budget_finds_nothing() {
    let (best, search) = run(&init(), Player::Sente, 1, 0);
    assert_eq!(best, None);
    assert_eq!(search.node_count(), 1);
}

#[test]
fn mcts_without_a_legal_move_finds_nothing() {
    let (best, search) = run(&sente_cannot_move(), Player::Sente, 1, 50);
    assert_eq!(best, None);
    assert_eq!(search.node_count(), 1);
    assert_eq!(search.node(0).visits, 50);
}

#[test]
fn mcts_without_a_king_finds_nothing() {
    let mut state = init();
    state.board[0][0] = None;
    assert!(!generate_legal_moves(&state, Player::Sente).is_empty());
    let (best, search) = run(&state, Player::Sente, 1, 50);
    assert_eq!(best, None);
    assert_eq!(search.node_count(), 1);
}

#[test]
fn mcts_with_a_seed_is_repeatable() {
    let state = init();
    let (first, a) = run(&state, Player::Sente, 77, 200);
    let (second, b) = run(&state, Player::Sente, 77, 200);
    assert_eq!(first, second);
    assert_eq!(a.node_count(), b.node_count());
}

#[test]
fn mcts_returns_the_most_visited_child() {
    let state = init();
    let (best, search) = run(&state, Player::Sente, 5, 400);
    let root = search.node(0);
    let mut most = 0;
    let mut chosen = None;
    let mut sum = 0;
    for &child in &root.children {
        let node = search.node(child);
        sum += node.visits;
        if node.visits >= most {
            most = node.visits;
            chosen = node.mv;
        }
    }
    assert_eq!(best, chosen);
    assert_eq!(sum, root.visits);
    assert_eq!(root.visits, 400);
}
