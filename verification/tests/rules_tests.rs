use minishogi_rs::board::{init, GameState, Hand, Piece, PieceType, Player};
use minishogi_rs::rules::{
    apply_offset, collect_piece_destinations, find_king, generate_legal_moves, generate_moves,
    get_stepping_offsets, is_checkmate, is_in_check, is_playable, make_move, opponent_of, Move,
    Position,
};

fn empty_state() -> GameState {
    GameState { board: [[None; 5]; 5], sente_hand: Hand::new(), gote_hand: Hand::new() }
}

fn piece(piece_type: PieceType, owner: Player) -> Option<Piece> {
    Some(Piece { piece_type, owner, promoted: false })
}

fn promoted(piece_type: PieceType, owner: Player) -> Option<Piece> {
    Some(Piece { piece_type, owner, promoted: true })
}

fn pos(x: usize, y: usize) -> Position {
    Position::new(x, y)
}

/// Kings in opposite corners: Sente's at (4, 4), Gote's at (0, 0).
fn kings_only() -> GameState {
    let mut state = empty_state();
    state.board[4][4] = piece(PieceType::King, Player::Sente);
    state.board[0][0] = piece(PieceType::King, Player::Gote);
    state
}

#[test]
fn initial_position_has_fourteen_moves_for_the_first_player() {
    let state = init();
    let moves = generate_legal_moves(&state, Player::Sente);
    assert_eq!(moves.len(), 14);
    assert_eq!(
        moves,
        vec![
            Move::To(pos(4, 3), pos(4, 2), false),
            Move::To(pos(0, 4), pos(0, 3), false),
            Move::To(pos(0, 4), pos(0, 2), false),
            Move::To(pos(0, 4), pos(0, 1), false),
            Move::To(pos(1, 4), pos(0, 3), false),
            Move::To(pos(1, 4), pos(2, 3), false),
            Move::To(pos(1, 4), pos(3, 2), false),
            Move::To(pos(1, 4), pos(4, 1), false),
            Move::To(pos(2, 4), pos(2, 3), false),
            Move::To(pos(2, 4), pos(1, 3), false),
            Move::To(pos(2, 4), pos(3, 3), false),
            Move::To(pos(3, 4), pos(3, 3), false),
            Move::To(pos(3, 4), pos(2, 3), false),
            Move::To(pos(4, 4), pos(3, 3), false),
        ]
    );
}

#[test]
fn initial_position_has_fourteen_moves_for_the_second_player() {
    let state = init();
    assert_eq!(generate_legal_moves(&state, Player::Gote).len(), 14);
}

#[test]
fn lone_kings_move_to_their_neighbours() {
    let mut state = empty_state();
    state.board[4][4] = piece(PieceType::King, Player::Sente);
    state.board[0][2] = piece(PieceType::King, Player::Gote);
    let sente = generate_legal_moves(&state, Player::Sente);
    let from = pos(4, 4);
    assert_eq!(
        sente,
        vec![
            Move::To(from, pos(4, 3), false),
            Move::To(from, pos(3, 4), false),
            Move::To(from, pos(3, 3), false),
        ]
    );
    let gote = generate_legal_moves(&state, Player::Gote);
    let from = pos(2, 0);
    assert_eq!(
        gote,
        vec![
            Move::To(from, pos(2, 1), false),
            Move::To(from, pos(3, 0), false),
            Move::To(from, pos(1, 0), false),
            Move::To(from, pos(3, 1), false),
            Move::To(from, pos(1, 1), false),
        ]
    );
}

#[test]
fn a_king_in_the_middle_has_eight_moves() {
    let mut state = empty_state();
    state.board[2][2] = piece(PieceType::King, Player::Sente);
    state.board[0][0] = piece(PieceType::King, Player::Gote);
    let moves = generate_legal_moves(&state, Player::Sente);
    assert_eq!(moves.len(), 8);
    for mv in &moves {
        match mv {
            Move::To(from, to, promote) => {
                assert_eq!(*from, pos(2, 2));
                assert!(!promote);
                assert!(to.x.abs_diff(2) <= 1 && to.y.abs_diff(2) <= 1 && *to != pos(2, 2));
            }
            Move::Drop(_, _) => panic!("a drop from an empty hand"),
        }
    }
}

#[test]
fn dropping_a_pawn_takes_it_from_the_hand() {
    let mut state = kings_only();
    state.sente_hand.pawn = 1;
    let mv = Move::Drop(pos(2, 2), PieceType::Pawn);
    assert!(generate_legal_moves(&state, Player::Sente).contains(&mv));
    let next = make_move(&state, mv, Player::Sente);
    assert_eq!(next.sente_hand.pawn, 0);
    assert_eq!(next.board[2][2], piece(PieceType::Pawn, Player::Sente));
    assert_eq!(next.gote_hand, state.gote_hand);
    for y in 0..5 {
        for x in 0..5 {
            if (x, y) != (2, 2) {
                assert_eq!(next.board[y][x], state.board[y][x]);
            }
        }
    }
}

#[test]
fn a_drop_without_the_piece_changes_nothing() {
    let state = kings_only();
    let next = make_move(&state, Move::Drop(pos(2, 2), PieceType::Gold), Player::Sente);
    assert_eq!(next, state);
    let next = make_move(&state, Move::Drop(pos(2, 2), PieceType::King), Player::Gote);
    assert_eq!(next, state);
}

#[test]
fn make_move_gives_the_same_state_each_time() {
    let state = init();
    let mv = Move::To(pos(0, 4), pos(0, 1), false);
    let first = make_move(&state, mv, Player::Sente);
    let second = make_move(&state, mv, Player::Sente);
    assert_eq!(first, second);
    assert_eq!(state, init());
}

#[test]
fn a_capture_adds_the_piece_to_the_hand() {
    let state = init();
    let next = make_move(&state, Move::To(pos(0, 4), pos(0, 1), false), Player::Sente);
    assert_eq!(next.sente_hand, Hand { gold: 0, silver: 0, bishop: 0, rook: 0, pawn: 1 });
    assert_eq!(next.gote_hand, Hand::new());
    assert_eq!(next.board[1][0], piece(PieceType::Rook, Player::Sente));
    assert_eq!(next.board[4][0], None);
}

#[test]
fn a_captured_promoted_piece_is_held_unpromoted() {
    let mut state = kings_only();
    state.board[2][2] = promoted(PieceType::Bishop, Player::Gote);
    state.board[3][2] = piece(PieceType::Gold, Player::Sente);
    let next = make_move(&state, Move::To(pos(2, 3), pos(2, 2), false), Player::Sente);
    assert_eq!(next.sente_hand.bishop, 1);
    let dropped = make_move(&next, Move::Drop(pos(0, 4), PieceType::Bishop), Player::Sente);
    assert_eq!(dropped.board[4][0], piece(PieceType::Bishop, Player::Sente));
    assert_eq!(dropped.sente_hand.bishop, 0);
}

#[test]
fn capturing_a_king_adds_nothing_to_the_hand() {
    let mut state = kings_only();
    state.board[1][0] = piece(PieceType::Gold, Player::Sente);
    let next = make_move(&state, Move::To(pos(0, 1), pos(0, 0), false), Player::Sente);
    assert_eq!(next.sente_hand, Hand::new());
    assert_eq!(find_king(&next, Player::Gote), None);
}

#[test]
fn a_promoting_move_promotes_the_piece() {
    let mut state = kings_only();
    state.board[1][2] = piece(PieceType::Silver, Player::Sente);
    let next = make_move(&state, Move::To(pos(2, 1), pos(2, 0), true), Player::Sente);
    assert_eq!(next.board[0][2], promoted(PieceType::Silver, Player::Sente));
    let kept = make_move(&state, Move::To(pos(2, 1), pos(2, 0), false), Player::Sente);
    assert_eq!(kept.board[0][2], piece(PieceType::Silver, Player::Sente));
}

#[test]
fn a_pawn_reaching_the_last_row_must_promote() {
    let mut state = kings_only();
    state.board[1][2] = piece(PieceType::Pawn, Player::Sente);
    let moves = generate_legal_moves(&state, Player::Sente);
    assert!(moves.contains(&Move::To(pos(2, 1), pos(2, 0), true)));
    assert!(!moves.contains(&Move::To(pos(2, 1), pos(2, 0), false)));

    let mut state = kings_only();
    state.board[3][2] = piece(PieceType::Pawn, Player::Gote);
    let moves = generate_legal_moves(&state, Player::Gote);
    assert!(moves.contains(&Move::To(pos(2, 3), pos(2, 4), true)));
    assert!(!moves.contains(&Move::To(pos(2, 3), pos(2, 4), false)));
}

#[test]
fn a_silver_entering_the_zone_may_promote_or_not() {
    let mut state = kings_only();
    state.board[1][2] = piece(PieceType::Silver, Player::Sente);
    let moves = generate_moves(&state, Player::Sente);
    assert_eq!(
        moves,
        vec![
            Move::To(pos(2, 1), pos(2, 0), true),
            Move::To(pos(2, 1), pos(2, 0), false),
            Move::To(pos(2, 1), pos(1, 0), true),
            Move::To(pos(2, 1), pos(1, 0), false),
            Move::To(pos(2, 1), pos(3, 0), true),
            Move::To(pos(2, 1), pos(3, 0), false),
            Move::To(pos(2, 1), pos(1, 2), false),
            Move::To(pos(2, 1), pos(3, 2), false),
            Move::To(pos(4, 4), pos(4, 3), false),
            Move::To(pos(4, 4), pos(3, 4), false),
            Move::To(pos(4, 4), pos(3, 3), false),
        ]
    );
}

#[test]
fn a_piece_leaving_the_zone_may_promote() {
    let mut state = kings_only();
    state.board[0][4] = piece(PieceType::Rook, Player::Sente);
    let moves = generate_legal_moves(&state, Player::Sente);
    assert!(moves.contains(&Move::To(pos(4, 0), pos(4, 1), true)));
    assert!(moves.contains(&Move::To(pos(4, 0), pos(4, 1), false)));
}

#[test]
fn promoted_pieces_and_golds_never_promote() {
    let mut state = kings_only();
    state.board[1][2] = promoted(PieceType::Silver, Player::Sente);
    state.board[1][3] = piece(PieceType::Gold, Player::Sente);
    for mv in generate_legal_moves(&state, Player::Sente) {
        match mv {
            Move::To(_, _, promote) => assert!(!promote),
            Move::Drop(_, _) => panic!("a drop from an empty hand"),
        }
    }
}

#[test]
fn a_rook_slides_until_it_is_blocked() {
    let mut board = [[None; 5]; 5];
    board[2][2] = piece(PieceType::Rook, Player::Sente);
    board[2][4] = piece(PieceType::Pawn, Player::Sente);
    board[0][2] = piece(PieceType::Pawn, Player::Gote);
    let dests =
        collect_piece_destinations(&board, Player::Sente, PieceType::Rook, false, pos(2, 2));
    assert_eq!(
        dests,
        vec![pos(2, 1), pos(2, 0), pos(2, 3), pos(2, 4), pos(1, 2), pos(0, 2), pos(3, 2)]
    );
}

#[test]
fn a_promoted_rook_also_steps_diagonally() {
    let mut board = [[None; 5]; 5];
    board[0][0] = promoted(PieceType::Rook, Player::Gote);
    let dests = collect_piece_destinations(&board, Player::Gote, PieceType::Rook, true, pos(0, 0));
    assert_eq!(
        dests,
        vec![
            pos(0, 1),
            pos(0, 2),
            pos(0, 3),
            pos(0, 4),
            pos(1, 0),
            pos(2, 0),
            pos(3, 0),
            pos(4, 0),
            pos(1, 1),
        ]
    );
}

#[test]
fn a_promoted_bishop_also_steps_straight() {
    let mut board = [[None; 5]; 5];
    board[4][4] = promoted(PieceType::Bishop, Player::Sente);
    let dests =
        collect_piece_destinations(&board, Player::Sente, PieceType::Bishop, true, pos(4, 4));
    assert_eq!(
        dests,
        vec![pos(3, 3), pos(2, 2), pos(1, 1), pos(0, 0), pos(4, 3), pos(3, 4)]
    );
}

#[test]
fn a_promoted_pawn_moves_as_a_gold() {
    let board = [[None; 5]; 5];
    let as_pawn =
        collect_piece_destinations(&board, Player::Gote, PieceType::Pawn, true, pos(2, 2));
    let as_gold =
        collect_piece_destinations(&board, Player::Gote, PieceType::Gold, false, pos(2, 2));
    assert_eq!(as_pawn, as_gold);
    assert_eq!(
        as_gold,
        vec![pos(2, 3), pos(2, 1), pos(3, 2), pos(1, 2), pos(3, 3), pos(1, 3)]
    );
}

#[test]
fn stepping_offsets_are_mirrored_for_the_second_player() {
    assert_eq!(get_stepping_offsets(Player::Sente, PieceType::Pawn), vec![(0, -1)]);
    assert_eq!(get_stepping_offsets(Player::Gote, PieceType::Pawn), vec![(0, 1)]);
    assert_eq!(
        get_stepping_offsets(Player::Sente, PieceType::Silver),
        vec![(0, -1), (-1, -1), (1, -1), (-1, 1), (1, 1)]
    );
    assert_eq!(
        get_stepping_offsets(Player::Gote, PieceType::Gold),
        vec![(0, 1), (0, -1), (1, 0), (-1, 0), (1, 1), (-1, 1)]
    );
    assert_eq!(get_stepping_offsets(Player::Sente, PieceType::King).len(), 8);
    assert_eq!(get_stepping_offsets(Player::Sente, PieceType::Rook), vec![]);
    assert_eq!(get_stepping_offsets(Player::Gote, PieceType::Bishop), vec![]);
}

#[test]
fn offsets_off_the_board_give_nothing() {
    assert_eq!(apply_offset(pos(0, 0), -1, 0), None);
    assert_eq!(apply_offset(pos(4, 4), 0, 1), None);
    assert_eq!(apply_offset(pos(4, 4), 127, 127), None);
    assert_eq!(apply_offset(pos(2, 2), -2, 2), Some(pos(0, 4)));
}

#[test]
fn drops_come_after_relocations_in_the_order_of_the_hand() {
    let mut state = empty_state();
    state.board[4][4] = piece(PieceType::King, Player::Sente);
    state.board[0][0] = piece(PieceType::King, Player::Gote);
    state.gote_hand.rook = 1;
    state.gote_hand.pawn = 2;
    let moves = generate_moves(&state, Player::Gote);
    assert_eq!(moves.len(), 3 + 23 + 23);
    assert_eq!(moves[3], Move::Drop(pos(1, 0), PieceType::Pawn));
    assert_eq!(moves[25], Move::Drop(pos(3, 4), PieceType::Pawn));
    assert_eq!(moves[26], Move::Drop(pos(1, 0), PieceType::Rook));
    assert_eq!(moves[48], Move::Drop(pos(3, 4), PieceType::Rook));
}

#[test]
fn no_second_pawn_is_dropped_into_a_column() {
    let mut state = kings_only();
    state.board[3][2] = piece(PieceType::Pawn, Player::Sente);
    state.board[3][1] = promoted(PieceType::Pawn, Player::Sente);
    state.board[1][3] = piece(PieceType::Pawn, Player::Gote);
    state.sente_hand.pawn = 1;
    state.sente_hand.gold = 1;
    let moves = generate_legal_moves(&state, Player::Sente);
    let mut pawn_drops = 0;
    let mut gold_drops = 0;
    for mv in &moves {
        match mv {
            Move::Drop(to, PieceType::Pawn) => {
                assert_ne!(to.x, 2);
                assert_eq!(state.board[to.y][to.x], None);
                pawn_drops += 1;
            }
            Move::Drop(to, PieceType::Gold) => {
                assert_eq!(state.board[to.y][to.x], None);
                gold_drops += 1;
            }
            Move::Drop(_, _) => panic!("a drop of a type that is not held"),
            Move::To(_, _, _) => {}
        }
    }
    assert_eq!(gold_drops, 20);
    assert_eq!(pawn_drops, 16);
    assert!(moves.contains(&Move::Drop(pos(1, 2), PieceType::Pawn)));
    assert!(moves.contains(&Move::Drop(pos(3, 2), PieceType::Pawn)));
    assert!(moves.contains(&Move::Drop(pos(2, 2), PieceType::Gold)));
}

/// Gote's king in the corner, hemmed in by two golds of Sente, who holds a
/// pawn.
fn pawn_drop_mate_position() -> GameState {
    let mut state = kings_only();
    state.board[1][2] = piece(PieceType::Gold, Player::Sente);
    state.board[2][1] = piece(PieceType::Gold, Player::Sente);
    state.sente_hand.pawn = 1;
    state
}

#[test]
fn a_pawn_drop_that_mates_is_not_legal() {
    let state = pawn_drop_mate_position();
    let mate = Move::Drop(pos(0, 1), PieceType::Pawn);
    assert!(!is_in_check(&state, Player::Gote));
    assert!(generate_moves(&state, Player::Sente).contains(&mate));
    let after = make_move(&state, mate, Player::Sente);
    assert!(is_in_check(&after, Player::Gote));
    assert!(is_checkmate(&after, Player::Gote));

    let legal = generate_legal_moves(&state, Player::Sente);
    assert!(!legal.contains(&mate));
    assert_eq!(legal.len() + 1, generate_moves(&state, Player::Sente).len());
    for mv in &legal {
        if let Move::Drop(_, PieceType::Pawn) = mv {
            let next = make_move(&state, *mv, Player::Sente);
            assert!(!is_checkmate(&next, Player::Gote));
        }
    }
}

#[test]
fn a_pawn_drop_that_only_checks_is_legal() {
    let mut state = pawn_drop_mate_position();
    state.board[1][2] = None;
    let check = Move::Drop(pos(0, 1), PieceType::Pawn);
    let after = make_move(&state, check, Player::Sente);
    assert!(is_in_check(&after, Player::Gote));
    assert!(!is_checkmate(&after, Player::Gote));
    assert!(generate_legal_moves(&state, Player::Sente).contains(&check));
}

#[test]
fn a_mate_by_a_dropped_gold_is_legal() {
    let mut state = pawn_drop_mate_position();
    state.sente_hand.pawn = 0;
    state.sente_hand.gold = 1;
    let mate = Move::Drop(pos(0, 1), PieceType::Gold);
    let after = make_move(&state, mate, Player::Sente);
    assert!(is_checkmate(&after, Player::Gote));
    assert!(generate_legal_moves(&state, Player::Sente).contains(&mate));
}

#[test]
fn moves_that_leave_the_own_king_in_check_are_generated() {
    let mut state = kings_only();
    state.board[4][0] = piece(PieceType::Rook, Player::Gote);
    state.board[4][2] = piece(PieceType::Gold, Player::Sente);
    assert!(!is_in_check(&state, Player::Sente));
    let unpin = Move::To(pos(2, 4), pos(2, 3), false);
    assert!(generate_legal_moves(&state, Player::Sente).contains(&unpin));
    let after = make_move(&state, unpin, Player::Sente);
    assert!(is_in_check(&after, Player::Sente));
}

#[test]
fn check_is_seen_along_a_line_and_blocked_by_a_piece() {
    let mut state = kings_only();
    state.board[4][0] = piece(PieceType::Rook, Player::Gote);
    assert!(is_in_check(&state, Player::Sente));
    assert!(!is_in_check(&state, Player::Gote));
    state.board[4][2] = piece(PieceType::Pawn, Player::Gote);
    assert!(!is_in_check(&state, Player::Sente));
}

#[test]
fn a_side_without_a_king_is_neither_in_check_nor_mated() {
    let mut state = empty_state();
    state.board[0][0] = piece(PieceType::King, Player::Gote);
    state.board[0][4] = piece(PieceType::Rook, Player::Gote);
    assert_eq!(find_king(&state, Player::Sente), None);
    assert!(!is_in_check(&state, Player::Sente));
    assert!(!is_checkmate(&state, Player::Sente));
}

#[test]
fn the_first_king_in_reading_order_is_found() {
    let mut state = empty_state();
    state.board[3][1] = piece(PieceType::King, Player::Sente);
    state.board[1][4] = piece(PieceType::King, Player::Sente);
    state.board[0][2] = piece(PieceType::King, Player::Gote);
    assert_eq!(find_king(&state, Player::Sente), Some(pos(4, 1)));
    assert_eq!(find_king(&state, Player::Gote), Some(pos(2, 0)));
}

#[test]
fn every_relocation_starts_from_an_own_piece_and_spares_own_pieces() {
    let mut state = init();
    state = make_move(&state, Move::To(pos(0, 4), pos(0, 1), false), Player::Sente);
    state = make_move(&state, Move::To(pos(0, 0), pos(0, 1), false), Player::Gote);
    for player in [Player::Sente, Player::Gote] {
        for mv in generate_legal_moves(&state, player) {
            assert!(is_playable(&state, mv, player));
            match mv {
                Move::To(from, to, _) => {
                    assert_eq!(state.board[from.y][from.x].map(|p| p.owner), Some(player));
                    assert_ne!(state.board[to.y][to.x].map(|p| p.owner), Some(player));
                }
                Move::Drop(to, piece_type) => {
                    assert_eq!(state.board[to.y][to.x], None);
                    assert!(state.get_hand(player).get(piece_type) > 0);
                }
            }
        }
    }
}

#[test]
fn generation_is_repeatable() {
    let state = pawn_drop_mate_position();
    assert_eq!(
        generate_legal_moves(&state, Player::Sente),
        generate_legal_moves(&state, Player::Sente)
    );
}

#[test]
fn moves_off_the_board_or_from_empty_squares_are_not_playable() {
    let state = init();
    assert!(!is_playable(&state, Move::To(pos(2, 2), pos(2, 1), false), Player::Sente));
    assert!(!is_playable(&state, Move::To(pos(0, 4), pos(0, 5), false), Player::Sente));
    assert!(!is_playable(&state, Move::Drop(pos(5, 0), PieceType::Pawn), Player::Sente));
    assert!(is_playable(&state, Move::Drop(pos(2, 2), PieceType::Pawn), Player::Sente));
    assert!(is_playable(&state, Move::To(pos(0, 4), pos(0, 1), false), Player::Sente));
    let mut full = init();
    full.sente_hand.pawn = 255;
    assert!(!is_playable(&full, Move::To(pos(0, 4), pos(0, 1), false), Player::Sente));
}

#[test]
fn opponents_are_each_other() {
    assert_eq!(opponent_of(Player::Sente), Player::Gote);
    assert_eq!(opponent_of(Player::Gote), Player::Sente);
}
