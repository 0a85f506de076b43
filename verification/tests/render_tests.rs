use minishogi_rs::board::{init, GameState, Hand, Piece, PieceType, Player};
use minishogi_rs::render::{render_board, render_game_state, render_hand};
use minishogi_rs::rules::Position;

fn strings(lines: Vec<Vec<char>>) -> Vec<String> {
    lines.into_iter().map(|line| line.into_iter().collect()).collect()
}

fn string(line: Vec<char>) -> String {
    line.into_iter().collect()
}

#[test]
fn the_first_player_sees_its_pieces_at_the_bottom() {
    let lines = strings(render_board(&init(), Player::Sente, None));
    assert_eq!(
        lines,
        vec![
            "     5   4   3   2   1",
            "   +---+---+---+---+---+",
            " a|^王|^金|^銀|^角|^飛|",
            "   +---+---+---+---+---+",
            " b|^歩| . | . | . | . |",
            "   +---+---+---+---+---+",
            " c| . | . | . | . | . |",
            "   +---+---+---+---+---+",
            " d| . | . | . | . | 歩|",
            "   +---+---+---+---+---+",
            " e| 飛| 角| 銀| 金| 王|",
            "   +---+---+---+---+---+",
        ]
    );
}

#[test]
fn the_second_player_sees_the_board_turned_round() {
    let lines = strings(render_board(&init(), Player::Gote, None));
    assert_eq!(
        lines,
        vec![
            "     1   2   3   4   5",
            "   +---+---+---+---+---+",
            " e| 王| 金| 銀| 角| 飛|",
            "   +---+---+---+---+---+",
            " d| 歩| . | . | . | . |",
            "   +---+---+---+---+---+",
            " c| . | . | . | . | . |",
            "   +---+---+---+---+---+",
            " b| . | . | . | . |^歩|",
            "   +---+---+---+---+---+",
            " a|^飛|^角|^銀|^金|^王|",
            "   +---+---+---+---+---+",
        ]
    );
}

#[test]
fn the_last_move_is_marked() {
    let state = init();
    let lines = strings(render_board(&state, Player::Sente, Some(Position::new(4, 3))));
    assert_eq!(lines[8], " d| . | . | . | . |*歩|");
    let lines = strings(render_board(&state, Player::Sente, Some(Position::new(0, 0))));
    assert_eq!(lines[2], " a|*王|^金|^銀|^角|^飛|");
    let lines = strings(render_board(&state, Player::Sente, Some(Position::new(2, 2))));
    assert_eq!(lines[6], " c| . | . |*. | . | . |");
    let lines = strings(render_board(&state, Player::Gote, Some(Position::new(2, 2))));
    assert_eq!(lines[6], " c| . | . |*. | . | . |");
    let lines = strings(render_board(&state, Player::Gote, Some(Position::new(1, 2))));
    assert_eq!(lines[6], " c| . | . | . |*. | . |");
}

#[test]
fn promoted_pieces_have_their_own_characters() {
    let mut state =
        GameState { board: [[None; 5]; 5], sente_hand: Hand::new(), gote_hand: Hand::new() };
    let types = [PieceType::Pawn, PieceType::Silver, PieceType::Bishop, PieceType::Rook];
    for (x, piece_type) in types.into_iter().enumerate() {
        state.board[2][x] = Some(Piece { piece_type, owner: Player::Gote, promoted: true });
    }
    let lines = strings(render_board(&state, Player::Sente, None));
    assert_eq!(lines[6], " c|^と|^全|^馬|^龍| . |");
}

#[test]
fn an_empty_hand_is_shown_as_none() {
    assert_eq!(string(render_hand(&Hand::new(), Player::Sente)), "先手の持ち駒: なし");
    assert_eq!(string(render_hand(&Hand::new(), Player::Gote)), "後手の持ち駒: なし");
}

#[test]
fn a_hand_is_shown_with_its_counts() {
    let hand = Hand { gold: 2, silver: 0, bishop: 0, rook: 0, pawn: 10 };
    assert_eq!(string(render_hand(&hand, Player::Sente)), "先手の持ち駒: 金2 歩10");
    let hand = Hand { gold: 0, silver: 1, bishop: 0, rook: 255, pawn: 0 };
    assert_eq!(string(render_hand(&hand, Player::Gote)), "後手の持ち駒: 銀1 飛255");
    let hand = Hand { gold: 1, silver: 20, bishop: 100, rook: 109, pawn: 99 };
    assert_eq!(
        string(render_hand(&hand, Player::Gote)),
        "後手の持ち駒: 金1 銀20 角100 飛109 歩99"
    );
    let hand = Hand { gold: 0, silver: 0, bishop: 7, rook: 0, pawn: 0 };
    assert_eq!(string(render_hand(&hand, Player::Sente)), "先手の持ち駒: 角7");
}

#[test]
fn a_position_is_shown_between_the_hands() {
    let mut state = init();
    state.sente_hand.pawn = 1;
    state.gote_hand.gold = 3;
    let lines = strings(render_game_state(&state, Player::Sente, None));
    assert_eq!(lines.len(), 18);
    assert_eq!(lines[0], "");
    assert_eq!(lines[1], "後手の持ち駒: 金3");
    assert_eq!(lines[2], "");
    assert_eq!(lines[3..15].to_vec(), strings(render_board(&state, Player::Sente, None)));
    assert_eq!(lines[15], "");
    assert_eq!(lines[16], "先手の持ち駒: 歩1");
    assert_eq!(lines[17], "");

    let lines = strings(render_game_state(&state, Player::Gote, Some(Position::new(0, 0))));
    assert_eq!(lines[1], "先手の持ち駒: 歩1");
    assert_eq!(lines[16], "後手の持ち駒: 金3");
    assert_eq!(
        lines[3..15].to_vec(),
        strings(render_board(&state, Player::Gote, Some(Position::new(0, 0))))
    );
}
