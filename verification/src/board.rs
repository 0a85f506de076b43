//! The state model: players, pieces, the 5x5 board, hands and the game state.

use vstd::prelude::*;

verus! {

/// The two sides. `Sente` moves first.
#[derive(Debug, Clone, Copy, PartialEq, Eq, Structural)]
pub enum Player {
    Sente,
    Gote,
}

/// The kinds of pieces.
#[derive(Debug, Clone, Copy, PartialEq, Eq, Structural)]
pub enum PieceType {
    King,
    Gold,
    Silver,
    Bishop,
    Rook,
    Pawn,
}

/// A piece on the board: its kind, its owner, and whether it is promoted.
#[derive(Debug, Clone, Copy, PartialEq, Eq, Structural)]
pub struct Piece {
    pub piece_type: PieceType,
    pub owner: Player,
    pub promoted: bool,
}

impl Piece {
    /// Kings and golds are never promoted.
    pub open spec fn wf(self) -> bool {
        self.promoted ==> self.piece_type != PieceType::King && self.piece_type != PieceType::Gold
    }
}

/// Indexed `board[y][x]`: `y` is the row (0 is the row nearest to `Gote`'s
/// side), `x` the column.
pub type Board = [[Option<Piece>; 5]; 5];

/// Captured pieces held off the board. A hand never holds a king.
#[derive(Debug, Clone, Copy, PartialEq, Eq, Structural)]
pub struct Hand {
    pub gold: u8,
    pub silver: u8,
    pub bishop: u8,
    pub rook: u8,
    pub pawn: u8,
}

impl Hand {
    /// How many pieces of `piece_type` the hand holds.
    pub open spec fn count(self, piece_type: PieceType) -> nat {
        match piece_type {
            PieceType::Gold => self.gold as nat,
            PieceType::Silver => self.silver as nat,
            PieceType::Bishop => self.bishop as nat,
            PieceType::Rook => self.rook as nat,
            PieceType::Pawn => self.pawn as nat,
            PieceType::King => 0,
        }
    }

    /// The number of pieces in the hand.
    pub open spec fn total(self) -> nat {
        (self.gold + self.silver + self.bishop + self.rook + self.pawn) as nat
    }

    /// The hand with one more piece of `piece_type`; unchanged for a king.
    pub open spec fn with_added(self, piece_type: PieceType) -> Hand {
        match piece_type {
            PieceType::Gold => Hand { gold: (self.gold + 1) as u8, ..self },
            PieceType::Silver => Hand { silver: (self.silver + 1) as u8, ..self },
            PieceType::Bishop => Hand { bishop: (self.bishop + 1) as u8, ..self },
            PieceType::Rook => Hand { rook: (self.rook + 1) as u8, ..self },
            PieceType::Pawn => Hand { pawn: (self.pawn + 1) as u8, ..self },
            PieceType::King => self,
        }
    }

    /// The hand with one piece of `piece_type` fewer; unchanged where it
    /// holds none.
    pub open spec fn with_removed(self, piece_type: PieceType) -> Hand {
        if self.count(piece_type) == 0 {
            self
        } else {
            match piece_type {
                PieceType::Gold => Hand { gold: (self.gold - 1) as u8, ..self },
                PieceType::Silver => Hand { silver: (self.silver - 1) as u8, ..self },
                PieceType::Bishop => Hand { bishop: (self.bishop - 1) as u8, ..self },
                PieceType::Rook => Hand { rook: (self.rook - 1) as u8, ..self },
                PieceType::Pawn => Hand { pawn: (self.pawn - 1) as u8, ..self },
                PieceType::King => self,
            }
        }
    }

    /// An empty hand.
    pub fn new() -> (hand: Self)
        ensures
            hand.gold == 0,
            hand.silver == 0,
            hand.bishop == 0,
            hand.rook == 0,
            hand.pawn == 0,
            forall|t: PieceType| hand.count(t) == 0,
            hand.total() == 0,
    {
        Self { gold: 0, silver: 0, bishop: 0, rook: 0, pawn: 0 }
    }

    /// Adds one piece of `piece_type`. A king is not kept.
    pub fn add(&mut self, piece_type: PieceType)
        requires
            old(self).count(piece_type) < 255,
        ensures
            *final(self) == old(self).with_added(piece_type),
            forall|t: PieceType|
                final(self).count(t) == old(self).count(t) + (if t == piece_type
                    && t != PieceType::King {
                    1nat
                } else {
                    0nat
                }),
    {
        match piece_type {
            PieceType::Gold => self.gold += 1,
            PieceType::Silver => self.silver += 1,
            PieceType::Bishop => self.bishop += 1,
            PieceType::Rook => self.rook += 1,
            PieceType::Pawn => self.pawn += 1,
            PieceType::King => {},
        }
    }

    /// Takes one piece of `piece_type` out, and says whether there was one.
    pub fn remove(&mut self, piece_type: PieceType) -> (removed: bool)
        ensures
            removed == (old(self).count(piece_type) > 0),
            *final(self) == old(self).with_removed(piece_type),
            forall|t: PieceType|
                final(self).count(t) == old(self).count(t) - (if t == piece_type && removed {
                    1int
                } else {
                    0int
                }),
    {
        match piece_type {
            PieceType::Gold => {
                if self.gold > 0 {
                    self.gold -= 1;
                    true
                } else {
                    false
                }
            },
            PieceType::Silver => {
                if self.silver > 0 {
                    self.silver -= 1;
                    true
                } else {
                    false
                }
            },
            PieceType::Bishop => {
                if self.bishop > 0 {
                    self.bishop -= 1;
                    true
                } else {
                    false
                }
            },
            PieceType::Rook => {
                if self.rook > 0 {
                    self.rook -= 1;
                    true
                } else {
                    false
                }
            },
            PieceType::Pawn => {
                if self.pawn > 0 {
                    self.pawn -= 1;
                    true
                } else {
                    false
                }
            },
            PieceType::King => false,
        }
    }

    /// How many pieces of `piece_type` the hand holds; none of a king.
    pub fn get(&self, piece_type: PieceType) -> (n: u8)
        ensures
            n == self.count(piece_type),
    {
        match piece_type {
            PieceType::Gold => self.gold,
            PieceType::Silver => self.silver,
            PieceType::Bishop => self.bishop,
            PieceType::Rook => self.rook,
            PieceType::Pawn => self.pawn,
            PieceType::King => 0,
        }
    }
}

impl Default for Hand {
    fn default() -> (hand: Self)
        ensures
            hand == (Hand { gold: 0, silver: 0, bishop: 0, rook: 0, pawn: 0 }),
    {
        Self::new()
    }
}

/// A position: the board and the hand of each player.
#[derive(Debug, Clone, Copy, PartialEq, Eq)]
pub struct GameState {
    pub board: Board,
    pub sente_hand: Hand,
    pub gote_hand: Hand,
}

/// What stands on the square of column `x` and row `y`.
pub open spec fn square(board: Board, x: int, y: int) -> Option<Piece> {
    board[y][x]
}

/// The number of occupied squares among the first `n` in row-major order.
pub open spec fn occupied_upto(board: Board, n: nat) -> nat
    decreases n,
{
    if n == 0 {
        0
    } else {
        let i = (n - 1) as int;
        occupied_upto(board, (n - 1) as nat) + (if square(board, i % 5, i / 5) is Some {
            1nat
        } else {
            0nat
        })
    }
}

impl GameState {
    /// The hand of `player`.
    pub open spec fn hand(self, player: Player) -> Hand {
        match player {
            Player::Sente => self.sente_hand,
            Player::Gote => self.gote_hand,
        }
    }

    /// The state with `hand` as the hand of `player`.
    pub open spec fn with_hand(self, player: Player, hand: Hand) -> GameState {
        match player {
            Player::Sente => GameState { sente_hand: hand, ..self },
            Player::Gote => GameState { gote_hand: hand, ..self },
        }
    }

    /// The number of pieces in play: those on the board and in both hands.
    pub open spec fn material(self) -> nat {
        occupied_upto(self.board, 25) + self.sente_hand.total() + self.gote_hand.total()
    }

    /// Every piece on the board is a valid piece.
    pub open spec fn pieces_wf(self) -> bool {
        forall|x: int, y: int|
            0 <= x < 5 && 0 <= y < 5 ==> (#[trigger] square(self.board, x, y) matches Some(p)
                ==> p.wf())
    }

    /// Every piece on the board is a valid piece, and the pieces in play
    /// are few enough for any of them to be counted in a hand.
    pub open spec fn wf(self) -> bool {
        &&& self.pieces_wf()
        &&& self.material() <= 255
    }

    /// Tests whether every piece on the board is a valid piece.
    pub fn has_valid_pieces(&self) -> (ok: bool)
        ensures
            ok == self.pieces_wf(),
    {
        let mut y: usize = 0;
        while y < 5
            invariant
                y <= 5,
                forall|i: int, j: int|
                    0 <= i < 5 && 0 <= j < y ==> (#[trigger] square(self.board, i, j) matches Some(
                        p,
                    ) ==> p.wf()),
            decreases 5 - y,
        {
            let mut x: usize = 0;
            while x < 5
                invariant
                    x <= 5,
                    y < 5,
                    forall|i: int, j: int|
                        0 <= i < 5 && (0 <= j < y || (j == y && i < x)) ==> (#[trigger] square(
                            self.board,
                            i,
                            j,
                        ) matches Some(p) ==> p.wf()),
                decreases 5 - x,
            {
                if let Some(piece) = self.board[y][x] {
                    if piece.promoted && (piece.piece_type == PieceType::King || piece.piece_type
                        == PieceType::Gold) {
                        assert(square(self.board, x as int, y as int) == Some(piece));
                        return false;
                    }
                }
                x += 1;
            }
            y += 1;
        }
        true
    }

    /// Tests whether the state is well-formed.
    pub fn is_well_formed(&self) -> (ok: bool)
        ensures
            ok == self.wf(),
    {
        let mut occupied: u32 = 0;
        let mut y: usize = 0;
        while y < 5
            invariant
                y <= 5,
                occupied == occupied_upto(self.board, (y * 5) as nat),
                occupied <= y * 5,
                forall|i: int, j: int|
                    0 <= i < 5 && 0 <= j < y ==> (#[trigger] square(self.board, i, j) matches Some(
                        p,
                    ) ==> p.wf()),
            decreases 5 - y,
        {
            let mut x: usize = 0;
            while x < 5
                invariant
                    x <= 5,
                    y < 5,
                    occupied == occupied_upto(self.board, (y * 5 + x) as nat),
                    occupied <= y * 5 + x,
                    forall|i: int, j: int|
                        0 <= i < 5 && (0 <= j < y || (j == y && i < x)) ==> (#[trigger] square(
                            self.board,
                            i,
                            j,
                        ) matches Some(p) ==> p.wf()),
                decreases 5 - x,
            {
                assert((y * 5 + x) % 5 == x && (y * 5 + x) / 5 == y);
                if let Some(piece) = self.board[y][x] {
                    if piece.promoted && (piece.piece_type == PieceType::King || piece.piece_type
                        == PieceType::Gold) {
                        assert(square(self.board, x as int, y as int) == Some(piece));
                        return false;
                    }
                    occupied += 1;
                }
                x += 1;
            }
            y += 1;
        }
        let sente = &self.sente_hand;
        let gote = &self.gote_hand;
        let in_hands: u32 = sente.gold as u32 + sente.silver as u32 + sente.bishop as u32
            + sente.rook as u32 + sente.pawn as u32 + gote.gold as u32 + gote.silver as u32
            + gote.bishop as u32 + gote.rook as u32 + gote.pawn as u32;
        occupied + in_hands <= 255
    }

    /// The hand of `player`.
    pub fn get_hand(&self, player: Player) -> (hand: &Hand)
        ensures
            *hand == self.hand(player),
    {
        match player {
            Player::Sente => &self.sente_hand,
            Player::Gote => &self.gote_hand,
        }
    }

    /// The hand of `player`, to change it; the board and the other hand stay
    /// as they are.
    pub fn get_hand_mut(&mut self, player: Player) -> (hand: &mut Hand)
        ensures
            *hand == old(self).hand(player),
            final(self).board == old(self).board,
            final(self).hand(player) == *final(hand),
            player == Player::Sente ==> final(self).gote_hand == old(self).gote_hand,
            player == Player::Gote ==> final(self).sente_hand == old(self).sente_hand,
    {
        match player {
            Player::Sente => &mut self.sente_hand,
            Player::Gote => &mut self.gote_hand,
        }
    }
}

/// The piece that stands on `(x, y)` at the start of a game, if any.
pub open spec fn initial_square(x: int, y: int) -> Option<Piece> {
    if y == 0 {
        Some(
            Piece {
                piece_type: if x == 0 {
                    PieceType::King
                } else if x == 1 {
                    PieceType::Gold
                } else if x == 2 {
                    PieceType::Silver
                } else if x == 3 {
                    PieceType::Bishop
                } else {
                    PieceType::Rook
                },
                owner: Player::Gote,
                promoted: false,
            },
        )
    } else if y == 1 && x == 0 {
        Some(Piece { piece_type: PieceType::Pawn, owner: Player::Gote, promoted: false })
    } else if y == 3 && x == 4 {
        Some(Piece { piece_type: PieceType::Pawn, owner: Player::Sente, promoted: false })
    } else if y == 4 {
        Some(
            Piece {
                piece_type: if x == 0 {
                    PieceType::Rook
                } else if x == 1 {
                    PieceType::Bishop
                } else if x == 2 {
                    PieceType::Silver
                } else if x == 3 {
                    PieceType::Gold
                } else {
                    PieceType::King
                },
                owner: Player::Sente,
                promoted: false,
            },
        )
    } else {
        None
    }
}

/// Whether `state` is the position from which every game starts: the
/// pieces stand on their first squares, and both hands are empty.
pub open spec fn is_initial(state: GameState) -> bool {
    &&& forall|x: int, y: int|
        0 <= x < 5 && 0 <= y < 5 ==> #[trigger] square(state.board, x, y) == initial_square(x, y)
    &&& state.sente_hand == (Hand { gold: 0, silver: 0, bishop: 0, rook: 0, pawn: 0 })
    &&& state.gote_hand == (Hand { gold: 0, silver: 0, bishop: 0, rook: 0, pawn: 0 })
}

/// The position from which every game starts.
pub fn init() -> (state: GameState)
    ensures
        is_initial(state),
        state.material() == 12,
        state.wf(),
{
    let gote = Player::Gote;
    let sente = Player::Sente;
    let board: Board = [
        [
            Some(Piece { piece_type: PieceType::King, owner: gote, promoted: false }),
            Some(Piece { piece_type: PieceType::Gold, owner: gote, promoted: false }),
            Some(Piece { piece_type: PieceType::Silver, owner: gote, promoted: false }),
            Some(Piece { piece_type: PieceType::Bishop, owner: gote, promoted: false }),
            Some(Piece { piece_type: PieceType::Rook, owner: gote, promoted: false }),
        ],
        [
            Some(Piece { piece_type: PieceType::Pawn, owner: gote, promoted: false }),
            None,
            None,
            None,
            None,
        ],
        [None, None, None, None, None],
        [
            None,
            None,
            None,
            None,
            Some(Piece { piece_type: PieceType::Pawn, owner: sente, promoted: false }),
        ],
        [
            Some(Piece { piece_type: PieceType::Rook, owner: sente, promoted: false }),
            Some(Piece { piece_type: PieceType::Bishop, owner: sente, promoted: false }),
            Some(Piece { piece_type: PieceType::Silver, owner: sente, promoted: false }),
            Some(Piece { piece_type: PieceType::Gold, owner: sente, promoted: false }),
            Some(Piece { piece_type: PieceType::King, owner: sente, promoted: false }),
        ],
    ];

    let state = GameState { board, sente_hand: Hand::new(), gote_hand: Hand::new() };
    proof {
        assert forall|x: int, y: int| 0 <= x < 5 && 0 <= y < 5 implies #[trigger] square(
            state.board,
            x,
            y,
        ) == initial_square(x, y) by {}
        lemma_initial_material(state.board);
    }
    state
}

/// The initial position is well-formed and holds twelve pieces.
pub proof fn lemma_initial_wf(state: GameState)
    requires
        is_initial(state),
    ensures
        state.wf(),
        state.material() == 12,
{
    lemma_initial_material(state.board);
    assert forall|x: int, y: int| 0 <= x < 5 && 0 <= y < 5 implies (#[trigger] square(
        state.board,
        x,
        y,
    ) matches Some(p) ==> p.wf()) by {
        assert(square(state.board, x, y) == initial_square(x, y));
    }
}

/// A board set up as at the start of a game holds twelve pieces.
proof fn lemma_initial_material(board: Board)
    requires
        forall|x: int, y: int|
            0 <= x < 5 && 0 <= y < 5 ==> #[trigger] square(board, x, y) == initial_square(x, y),
    ensures
        occupied_upto(board, 25) == 12,
{
    reveal_with_fuel(occupied_upto, 26);
    assert(square(board, 0, 0) is Some);
    assert(square(board, 1, 0) is Some);
    assert(square(board, 2, 0) is Some);
    assert(square(board, 3, 0) is Some);
    assert(square(board, 4, 0) is Some);
    assert(square(board, 0, 1) is Some);
    assert(square(board, 1, 1) is None);
    assert(square(board, 2, 1) is None);
    assert(square(board, 3, 1) is None);
    assert(square(board, 4, 1) is None);
    assert(square(board, 0, 2) is None);
    assert(square(board, 1, 2) is None);
    assert(square(board, 2, 2) is None);
    assert(square(board, 3, 2) is None);
    assert(square(board, 4, 2) is None);
    assert(square(board, 0, 3) is None);
    assert(square(board, 1, 3) is None);
    assert(square(board, 2, 3) is None);
    assert(square(board, 3, 3) is None);
    assert(square(board, 4, 3) is Some);
    assert(square(board, 0, 4) is Some);
    assert(square(board, 1, 4) is Some);
    assert(square(board, 2, 4) is Some);
    assert(square(board, 3, 4) is Some);
    assert(square(board, 4, 4) is Some);
}

} // verus!
