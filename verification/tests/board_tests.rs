use minishogi_rs::board::{init, GameState, Hand, Piece, PieceType, Player};

const ALL_TYPES: [PieceType; 6] = [
    PieceType::King,
    PieceType::Gold,
    PieceType::Silver,
    PieceType::Bishop,
    PieceType::Rook,
    PieceType::Pawn,
];

#[test]
fn new_hand_is_empty() {
    let hand = Hand::new();
    for t in ALL_TYPES {
        assert_eq!(hand.get(t), 0);
    }
    assert_eq!(hand, Hand::default());
}

#[test]
fn add_counts_one_piece_of_the_type() {
    let mut hand = Hand::new();
    hand.add(PieceType::Pawn);
    hand.add(PieceType::Pawn);
    hand.add(PieceType::Rook);
    assert_eq!(hand.get(PieceType::Pawn), 2);
    assert_eq!(hand.get(PieceType::Rook), 1);
    assert_eq!(hand.get(PieceType::Gold), 0);
    assert_eq!(hand.get(PieceType::Silver), 0);
    assert_eq!(hand.get(PieceType::Bishop), 0);
}

#[test]
fn a_king_is_never_held() {
    let mut hand = Hand::new();
    hand.add(PieceType::King);
    assert_eq!(hand, Hand::new());
    assert_eq!(hand.get(PieceType::King), 0);
    assert!(!hand.remove(PieceType::King));
}

#[test]
fn remove_takes_one_piece_or_reports_none() {
    let mut hand = Hand::new();
    hand.add(PieceType::Silver);
    assert!(hand.remove(PieceType::Silver));
    assert_eq!(hand.get(PieceType::Silver), 0);
    assert!(!hand.remove(PieceType::Silver));
    assert_eq!(hand, Hand::new());
}

#[test]
fn a_full_count_can_still_be_read_and_lowered() {
    let mut hand = Hand { gold: 255, silver: 0, bishop: 0, rook: 0, pawn: 0 };
    assert_eq!(hand.get(PieceType::Gold), 255);
    assert!(hand.remove(PieceType::Gold));
    assert_eq!(hand.get(PieceType::Gold), 254);
    hand.add(PieceType::Gold);
    assert_eq!(hand.get(PieceType::Gold), 255);
}

#[test]
fn initial_layout_is_the_standard_one() {
    let state = init();
    let gote = [
        PieceType::King,
        PieceType::Gold,
        PieceType::Silver,
        PieceType::Bishop,
        PieceType::Rook,
    ];
    let sente = [
        PieceType::Rook,
        PieceType::Bishop,
        PieceType::Silver,
        PieceType::Gold,
        PieceType::King,
    ];
    for x in 0..5 {
        assert_eq!(
            state.board[0][x],
            Some(Piece { piece_type: gote[x], owner: Player::Gote, promoted: false })
        );
        assert_eq!(
            state.board[4][x],
            Some(Piece { piece_type: sente[x], owner: Player::Sente, promoted: false })
        );
        assert_eq!(state.board[2][x], None);
    }
    let gote_pawn =
        Some(Piece { piece_type: PieceType::Pawn, owner: Player::Gote, promoted: false });
    let sente_pawn =
        Some(Piece { piece_type: PieceType::Pawn, owner: Player::Sente, promoted: false });
    assert_eq!(state.board[1], [gote_pawn, None, None, None, None]);
    assert_eq!(state.board[3], [None, None, None, None, sente_pawn]);
    assert_eq!(state.sente_hand, Hand::new());
    assert_eq!(state.gote_hand, Hand::new());
    assert!(state.is_well_formed());
}

#[test]
fn hands_are_reached_by_player() {
    let mut state = init();
    state.get_hand_mut(Player::Gote).add(PieceType::Bishop);
    assert_eq!(state.get_hand(Player::Gote).get(PieceType::Bishop), 1);
    assert_eq!(state.get_hand(Player::Sente).get(PieceType::Bishop), 0);
    assert_eq!(state.gote_hand.bishop, 1);
    state.get_hand_mut(Player::Sente).add(PieceType::Gold);
    assert_eq!(state.sente_hand.gold, 1);
    assert_eq!(state.gote_hand.gold, 0);
}

#[test]
fn a_promoted_king_or_gold_is_not_well_formed() {
    let mut state = init();
    state.board[2][2] =
        Some(Piece { piece_type: PieceType::Gold, owner: Player::Sente, promoted: true });
    assert!(!state.is_well_formed());
    state.board[2][2] =
        Some(Piece { piece_type: PieceType::King, owner: Player::Gote, promoted: true });
    assert!(!state.is_well_formed());
    state.board[2][2] =
        Some(Piece { piece_type: PieceType::Pawn, owner: Player::Gote, promoted: true });
    assert!(state.is_well_formed());
}

#[test]
fn too_much_material_is_not_well_formed() {
    let empty =
        GameState { board: [[None; 5]; 5], sente_hand: Hand::new(), gote_hand: Hand::new() };
    assert!(empty.is_well_formed());
    let mut state = init();
    state.sente_hand.pawn = 243;
    assert!(state.is_well_formed());
    state.gote_hand.rook = 1;
    assert!(!state.is_well_formed());
}

#[test]
fn piece_validity_is_tested_apart_from_the_material() {
    let mut state = init();
    state.sente_hand.pawn = 255;
    assert!(state.has_valid_pieces());
    assert!(!state.is_well_formed());
    state.board[2][2] =
        Some(Piece { piece_type: PieceType::King, owner: Player::Gote, promoted: true });
    assert!(!state.has_valid_pieces());
}
