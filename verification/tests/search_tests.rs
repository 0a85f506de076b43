use minishogi_rs::board::{init, GameState, Hand, Piece, PieceType, Player};
use minishogi_rs::rules::{generate_legal_moves, make_move, Move, Position};
use minishogi_rs::search::{
    alpha_beta, best_move_alpha_beta, evaluate, has_king, piece_value, INF, SEARCH_DEPTH,
};

fn empty_state() -> GameState {
    GameState { board: [[None; 5]; 5], sente_hand: Hand::new(), gote_hand: Hand::new() }
}

fn piece(piece_type: PieceType, owner: Player) -> Option<Piece> {
    Some(Piece { piece_type, owner, promoted: false })
}

fn pos(x: usize, y: usize) -> Position {
    Position::new(x, y)
}

fn kings_only() -> GameState {
    let mut state = empty_state();
    state.board[4][4] = piece(PieceType::King, Player::Sente);
    state.board[0][0] = piece(PieceType::King, Player::Gote);
    state
}

/// Sente's king walled in by its own pawns, none of which can move.
fn sente_cannot_move() -> GameState {
    let mut state = empty_state();
    state.board[0][0] = piece(PieceType::King, Player::Sente);
    state.board[0][1] = piece(PieceType::Pawn, Player::Sente);
    state.board[1][0] = piece(PieceType::Pawn, Player::Sente);
    state.board[1][1] = piece(PieceType::Pawn, Player::Sente);
    state.board[4][4] = piece(PieceType::King, Player::Gote);
    state
}

#[test]
fn piece_values_are_the_material_table() {
    assert_eq!(piece_value(PieceType::Pawn, false), 100);
    assert_eq!(piece_value(PieceType::Pawn, true), 500);
    assert_eq!(piece_value(PieceType::Silver, false), 400);
    assert_eq!(piece_value(PieceType::Silver, true), 500);
    assert_eq!(piece_value(PieceType::Gold, false), 500);
    assert_eq!(piece_value(PieceType::Gold, true), 500);
    assert_eq!(piece_value(PieceType::Bishop, false), 600);
    assert_eq!(piece_value(PieceType::Bishop, true), 800);
    assert_eq!(piece_value(PieceType::Rook, false), 700);
    assert_eq!(piece_value(PieceType::Rook, true), 900);
    assert_eq!(piece_value(PieceType::King, false), 0);
    assert_eq!(piece_value(PieceType::King, true), 0);
}

#[test]
fn search_constants_are_the_usual_ones() {
    assert_eq!(SEARCH_DEPTH, 4);
    assert_eq!(INF, 100_000);
}

#[test]
fn the_initial_position_is_balanced() {
    assert_eq!(evaluate(&init()), 0);
}

#[test]
fn evaluation_sums_board_and_hands() {
    let mut state = kings_only();
    state.board[2][2] =
        Some(Piece { piece_type: PieceType::Rook, owner: Player::Sente, promoted: true });
    state.board[2][3] = piece(PieceType::Silver, Player::Gote);
    state.sente_hand.gold = 1;
    state.gote_hand.pawn = 2;
    state.gote_hand.bishop = 1;
    assert_eq!(evaluate(&state), 900 - 400 + 500 - 200 - 600);
}

#[test]
fn evaluation_counts_full_hands_without_overflow() {
    let mut state = kings_only();
    state.sente_hand = Hand { gold: 255, silver: 255, bishop: 255, rook: 255, pawn: 255 };
    assert_eq!(evaluate(&state), 255 * (500 + 400 + 600 + 700 + 100));
    state.gote_hand = state.sente_hand;
    assert_eq!(evaluate(&state), 0);
}

#[test]
fn evaluation_is_extreme_without_a_king() {
    let mut no_sente = init();
    no_sente.board[4][4] = None;
    assert_eq!(evaluate(&no_sente), -INF);

    let mut no_gote = init();
    no_gote.board[0][0] = None;
    assert_eq!(evaluate(&no_gote), INF);

    let mut neither = init();
    neither.board[4][4] = None;
    neither.board[0][0] = None;
    assert_eq!(evaluate(&neither), -INF);
}

#[test]
fn kings_are_found_by_owner() {
    let state = init();
    assert!(has_king(&state, Player::Sente));
    assert!(has_king(&state, Player::Gote));
    let mut state = empty_state();
    state.board[2][2] = piece(PieceType::King, Player::Gote);
    assert!(!has_king(&state, Player::Sente));
    assert!(has_king(&state, Player::Gote));
}

#[test]
fn alpha_beta_at_depth_zero_is_the_evaluation() {
    let mut state = kings_only();
    state.sente_hand.rook = 1;
    assert_eq!(alpha_beta(&state, 0, -INF, INF, true), 700);
    assert_eq!(alpha_beta(&state, 0, -INF, INF, false), 700);
}

#[test]
fn alpha_beta_ends_where_a_king_is_missing() {
    let mut state = kings_only();
    state.board[0][0] = None;
    state.gote_hand.rook = 5;
    assert_eq!(alpha_beta(&state, 3, -INF, INF, false), INF);
    let mut state = kings_only();
    state.board[4][4] = None;
    assert_eq!(alpha_beta(&state, 3, -INF, INF, true), -INF);
}

#[test]
fn a_side_without_moves_has_lost() {
    let state = sente_cannot_move();
    assert!(generate_legal_moves(&state, Player::Sente).is_empty());
    assert_eq!(alpha_beta(&state, 2, -INF, INF, true), -INF);
    assert_eq!(best_move_alpha_beta(&state, Player::Sente), None);

    let mut mirrored = empty_state();
    mirrored.board[4][4] = piece(PieceType::King, Player::Gote);
    mirrored.board[4][3] = piece(PieceType::Pawn, Player::Gote);
    mirrored.board[3][4] = piece(PieceType::Pawn, Player::Gote);
    mirrored.board[3][3] = piece(PieceType::Pawn, Player::Gote);
    mirrored.board[0][0] = piece(PieceType::King, Player::Sente);
    assert!(generate_legal_moves(&mirrored, Player::Gote).is_empty());
    assert_eq!(alpha_beta(&mirrored, 2, -INF, INF, false), INF);
    assert_eq!(best_move_alpha_beta(&mirrored, Player::Gote), None);
}

#[test]
fn alpha_beta_one_ply_takes_the_best_capture() {
    let mut state = kings_only();
    state.board[2][2] = piece(PieceType::Gold, Player::Sente);
    state.board[1][2] = piece(PieceType::Rook, Player::Gote);
    state.board[2][1] = piece(PieceType::Pawn, Player::Gote);
    // Material now: 500 - 700 - 100. Taking the rook gives 500 + 700 - 100,
    // taking the pawn 500 - 700 + 100.
    assert_eq!(alpha_beta(&state, 0, -INF, INF, true), -300);
    assert_eq!(alpha_beta(&state, 1, -INF, INF, true), 1100);
}

#[test]
fn the_search_captures_a_king_it_can_take() {
    let mut state = kings_only();
    state.board[4][0] = piece(PieceType::Rook, Player::Sente);
    let best = best_move_alpha_beta(&state, Player::Sente);
    assert_eq!(best, Some(Move::To(pos(0, 4), pos(0, 0), true)));
    let after = make_move(&state, best.unwrap(), Player::Sente);
    assert!(!has_king(&after, Player::Gote));
}

#[test]
fn the_second_player_looks_for_the_lowest_score() {
    let mut state = kings_only();
    state.board[0][4] = piece(PieceType::Rook, Player::Gote);
    let best = best_move_alpha_beta(&state, Player::Gote);
    assert_eq!(best, Some(Move::To(pos(4, 0), pos(4, 4), true)));
}

#[test]
fn the_search_is_repeatable() {
    let mut state = kings_only();
    state.board[3][2] = piece(PieceType::Silver, Player::Sente);
    state.board[1][2] = piece(PieceType::Gold, Player::Gote);
    state.gote_hand.pawn = 1;
    let first = best_move_alpha_beta(&state, Player::Gote);
    let second = best_move_alpha_beta(&state, Player::Gote);
    assert_eq!(first, second);
    assert!(generate_legal_moves(&state, Player::Gote).contains(&first.unwrap()));
}

#[test]
fn the_search_chooses_a_legal_move_at_the_start() {
    let state = init();
    let best = best_move_alpha_beta(&state, Player::Sente).unwrap();
    assert!(generate_legal_moves(&state, Player::Sente).contains(&best));
}
