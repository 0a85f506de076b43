use minishogi_rs::board::{init, PieceType, Player};
use minishogi_rs::game::{check_kings_exist, get_winner, is_game_over, move_destination};
use minishogi_rs::notation::{
    format_move, format_position, parse_column, parse_input, parse_piece_type, parse_position,
    parse_row, piece_name, InputError, PositionError,
};
use minishogi_rs::rules::{generate_legal_moves, make_move, Move, Position};

fn chars(text: &str) -> Vec<char> {
    text.chars().collect()
}

fn split(input: &str) -> Vec<Vec<char>> {
    input.split_whitespace().map(chars).collect()
}

fn text(chars: Vec<char>) -> String {
    chars.into_iter().collect()
}

#[test]
fn columns_count_from_the_right_and_rows_from_the_top() {
    assert_eq!(parse_column('1'), Some(4));
    assert_eq!(parse_column('5'), Some(0));
    assert_eq!(parse_column('0'), None);
    assert_eq!(parse_column('6'), None);
    assert_eq!(parse_row('a'), Some(0));
    assert_eq!(parse_row('e'), Some(4));
    assert_eq!(parse_row('f'), None);
    assert_eq!(parse_row('A'), None);
}

#[test]
fn squares_are_read_from_two_characters() {
    assert_eq!(parse_position(&chars("1e")), Ok(Position::new(4, 4)));
    assert_eq!(parse_position(&chars("5a")), Ok(Position::new(0, 0)));
    assert_eq!(parse_position(&chars("3c")), Ok(Position::new(2, 2)));
    assert_eq!(parse_position(&chars("2d")), Ok(Position::new(3, 3)));
}

#[test]
fn bad_squares_are_told_apart() {
    assert_eq!(parse_position(&chars("")), Err(PositionError::Shape));
    assert_eq!(parse_position(&chars("1")), Err(PositionError::Shape));
    assert_eq!(parse_position(&chars("1ee")), Err(PositionError::Shape));
    assert_eq!(parse_position(&chars("\u{ff11}a")), Err(PositionError::Shape));
    assert_eq!(parse_position(&chars("1\u{e9}")), Err(PositionError::Shape));
    assert_eq!(parse_position(&chars("6a")), Err(PositionError::Column('6')));
    assert_eq!(parse_position(&chars("a1")), Err(PositionError::Column('a')));
    assert_eq!(parse_position(&chars("1f")), Err(PositionError::Row('f')));
    assert_eq!(parse_position(&chars("61")), Err(PositionError::Column('6')));
}

#[test]
fn squares_are_written_as_they_are_read() {
    for x in 0..5 {
        for y in 0..5 {
            let pos = Position::new(x, y);
            let (cx, cy) = format_position(pos);
            assert_eq!(parse_position(&[cx, cy]), Ok(pos));
        }
    }
    assert_eq!(format_position(Position::new(4, 4)), ('1', 'e'));
    assert_eq!(format_position(Position::new(0, 2)), ('5', 'c'));
    assert_eq!(format_position(Position::new(5, 0)), ('?', 'a'));
    assert_eq!(format_position(Position::new(0, 9)), ('5', '?'));
}

#[test]
fn pieces_have_their_characters() {
    assert_eq!(piece_name(PieceType::King, false), '\u{738b}');
    assert_eq!(piece_name(PieceType::Gold, false), '\u{91d1}');
    assert_eq!(piece_name(PieceType::Silver, false), '\u{9280}');
    assert_eq!(piece_name(PieceType::Bishop, false), '\u{89d2}');
    assert_eq!(piece_name(PieceType::Rook, false), '\u{98db}');
    assert_eq!(piece_name(PieceType::Pawn, false), '\u{6b69}');
    assert_eq!(piece_name(PieceType::Pawn, true), '\u{3068}');
    assert_eq!(piece_name(PieceType::Silver, true), '\u{5168}');
    assert_eq!(piece_name(PieceType::Bishop, true), '\u{99ac}');
    assert_eq!(piece_name(PieceType::Rook, true), '\u{9f8d}');
}

#[test]
fn piece_types_are_read_from_their_characters() {
    for piece_type in [
        PieceType::King,
        PieceType::Gold,
        PieceType::Silver,
        PieceType::Bishop,
        PieceType::Rook,
        PieceType::Pawn,
    ] {
        assert_eq!(parse_piece_type(&[piece_name(piece_type, false)]), Some(piece_type));
    }
    assert_eq!(parse_piece_type(&chars("\u{7389}")), Some(PieceType::King));
    assert_eq!(parse_piece_type(&chars("\u{3068}")), None);
    assert_eq!(parse_piece_type(&chars("")), None);
    assert_eq!(parse_piece_type(&chars("\u{91d1}\u{91d1}")), None);
    assert_eq!(parse_piece_type(&chars("gold")), None);
}

#[test]
fn moves_are_written_with_their_squares() {
    let mv = Move::To(Position::new(4, 4), Position::new(4, 3), false);
    assert_eq!(text(format_move(mv)), "1e 1d");
    let mv = Move::To(Position::new(2, 1), Position::new(2, 0), true);
    assert_eq!(text(format_move(mv)), "3b 3a+");
    let mv = Move::Drop(Position::new(2, 2), PieceType::Gold);
    assert_eq!(text(format_move(mv)), "drop \u{91d1} 3c");
}

#[test]
fn a_legal_relocation_is_read() {
    let state = init();
    let legal = generate_legal_moves(&state, Player::Sente);
    assert_eq!(
        parse_input(&split("1d 1c"), &legal, &state, Player::Sente),
        Ok(Move::To(Position::new(4, 3), Position::new(4, 2), false))
    );
    assert_eq!(
        parse_input(&split("  5e   5b "), &legal, &state, Player::Sente),
        Ok(Move::To(Position::new(0, 4), Position::new(0, 1), false))
    );
}

#[test]
fn every_legal_move_is_read_back_from_its_written_form() {
    let mut state = init();
    state = make_move(
        &state,
        Move::To(Position::new(0, 4), Position::new(0, 1), false),
        Player::Sente,
    );
    state = make_move(
        &state,
        Move::To(Position::new(0, 0), Position::new(0, 1), false),
        Player::Gote,
    );
    for player in [Player::Sente, Player::Gote] {
        let legal = generate_legal_moves(&state, player);
        assert!(legal.iter().any(|mv| matches!(mv, Move::Drop(_, _))));
        for &mv in &legal {
            let written = text(format_move(mv));
            assert_eq!(parse_input(&split(&written), &legal, &state, player), Ok(mv));
        }
    }
}

#[test]
fn a_promotion_is_read_from_its_sign() {
    let mut state = init();
    state.board = [[None; 5]; 5];
    state.board[4][4] = init().board[4][4];
    state.board[0][0] = init().board[0][0];
    state.board[1][2] = init().board[4][2];
    let legal = generate_legal_moves(&state, Player::Sente);
    assert_eq!(
        parse_input(&split("3b 3a+"), &legal, &state, Player::Sente),
        Ok(Move::To(Position::new(2, 1), Position::new(2, 0), true))
    );
    assert_eq!(
        parse_input(&split("3b 3a"), &legal, &state, Player::Sente),
        Ok(Move::To(Position::new(2, 1), Position::new(2, 0), false))
    );
    assert_eq!(
        parse_input(&split("3b 3c+"), &legal, &state, Player::Sente),
        Err(InputError::Illegal)
    );
}

#[test]
fn bad_inputs_are_told_apart() {
    let mut state = init();
    let legal = generate_legal_moves(&state, Player::Sente);
    let read = |input: &str| parse_input(&split(input), &legal, &state, Player::Sente);
    assert_eq!(read(""), Err(InputError::Empty));
    assert_eq!(read("   "), Err(InputError::Empty));
    assert_eq!(read("1d"), Err(InputError::MoveShape));
    assert_eq!(read("1d 1c 1b"), Err(InputError::MoveShape));
    assert_eq!(read("drop"), Err(InputError::DropShape));
    assert_eq!(read("drop \u{6b69}"), Err(InputError::DropShape));
    assert_eq!(read("drop \u{6b69} 3c 3d"), Err(InputError::DropShape));
    assert_eq!(read("drop pawn 3c"), Err(InputError::UnknownPiece));
    assert_eq!(
        read("drop \u{6b69} 3z"),
        Err(InputError::Position { part: 2, error: PositionError::Row('z') })
    );
    assert_eq!(read("drop \u{6b69} 3c"), Err(InputError::NotInHand(PieceType::Pawn)));
    assert_eq!(read("drop \u{738b} 3c"), Err(InputError::NotInHand(PieceType::King)));
    assert_eq!(
        read("9d 1c"),
        Err(InputError::Position { part: 0, error: PositionError::Column('9') })
    );
    assert_eq!(
        read("1d 1"),
        Err(InputError::Position { part: 1, error: PositionError::Shape })
    );
    assert_eq!(
        read("1d +"),
        Err(InputError::Position { part: 1, error: PositionError::Shape })
    );
    assert_eq!(
        read("1d 1c++"),
        Err(InputError::Position { part: 1, error: PositionError::Shape })
    );
    assert_eq!(read("1d 1b"), Err(InputError::Illegal));
    assert_eq!(read("1d 1c+"), Err(InputError::Illegal));
    assert_eq!(read("Drop \u{6b69} 3c"), Err(InputError::MoveShape));

    state.sente_hand.pawn = 1;
    assert_eq!(
        parse_input(&split("drop \u{6b69} 3c"), &legal, &state, Player::Sente),
        Err(InputError::Illegal)
    );
    let legal = generate_legal_moves(&state, Player::Sente);
    assert_eq!(
        parse_input(&split("drop \u{6b69} 3c"), &legal, &state, Player::Sente),
        Ok(Move::Drop(Position::new(2, 2), PieceType::Pawn))
    );
    assert_eq!(
        parse_input(&split("drop \u{6b69} 1c"), &legal, &state, Player::Sente),
        Err(InputError::Illegal)
    );
}

#[test]
fn a_move_ends_on_its_destination() {
    let to = Position::new(1, 2);
    assert_eq!(move_destination(Move::To(Position::new(0, 0), to, true)), to);
    assert_eq!(move_destination(Move::Drop(to, PieceType::Rook)), to);
}

#[test]
fn a_game_is_over_once_a_king_is_gone() {
    let state = init();
    assert_eq!(check_kings_exist(&state), (true, true));
    assert!(!is_game_over(&state));
    assert_eq!(get_winner(&state), None);

    let mut no_gote = init();
    no_gote.board[0][0] = None;
    assert_eq!(check_kings_exist(&no_gote), (true, false));
    assert!(is_game_over(&no_gote));
    assert_eq!(get_winner(&no_gote), Some(Player::Sente));

    let mut no_sente = init();
    no_sente.board[4][4] = None;
    assert_eq!(check_kings_exist(&no_sente), (false, true));
    assert!(is_game_over(&no_sente));
    assert_eq!(get_winner(&no_sente), Some(Player::Gote));

    no_sente.board[0][0] = None;
    assert_eq!(check_kings_exist(&no_sente), (false, false));
    assert_eq!(get_winner(&no_sente), Some(Player::Gote));
}
