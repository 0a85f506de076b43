//! What the rules guarantee: of every legal move, and of every move made.

use crate::board::{
    is_initial, lemma_initial_wf, square, Board, GameState, Piece, PieceType, Player,
};
use crate::movement::{can_move_to, law_piece_destinations_exact};
use crate::proofs::{
    captures_king, generated_ok, is_destination, lemma_generated_moves,
    lemma_generated_moves_exact, lemma_generated_playable, lemma_make_move_wf,
    lemma_piece_destinations, promotion_offered,
};
use crate::rules::{
    at, attacks, board_with, is_legal, lemma_board_with, is_own_pawn, is_pawn_drop_mate, nth_square, pawn_in_column,
    piece_destinations, playable, spec_find_king, spec_generate_legal_moves, spec_generate_moves,
    spec_is_checkmate, spec_is_in_check, spec_is_in_promotion_zone, spec_make_move,
    spec_opponent_of, Move, Position,
};
use vstd::prelude::*;

verus! {

/// A legal move is a generated move that is no mate by a dropped pawn.
pub proof fn lemma_legal_move(state: GameState, player: Player, mv: Move)
    requires
        spec_generate_legal_moves(state, player).contains(mv),
    ensures
        spec_generate_moves(state, player).contains(mv),
        generated_ok(state, player, mv),
        !is_pawn_drop_mate(state, mv, player),
{
    let all = spec_generate_moves(state, player);
    let legal = spec_generate_legal_moves(state, player);
    all.lemma_filter_contains_rev(is_legal(state, player), mv);
    lemma_generated_moves(state, player);
    let i = choose|i: int| 0 <= i < all.len() && all[i] == mv;
    assert(generated_ok(state, player, all[i]));
    let j = choose|j: int| 0 <= j < legal.len() && legal[j] == mv;
    all.lemma_filter_pred(is_legal(state, player), j);
}

/// A generated move that is no mate by a dropped pawn is legal.
pub proof fn lemma_generated_move_is_legal(state: GameState, player: Player, mv: Move)
    requires
        spec_generate_moves(state, player).contains(mv),
        !is_pawn_drop_mate(state, mv, player),
    ensures
        spec_generate_legal_moves(state, player).contains(mv),
{
    let all = spec_generate_moves(state, player);
    let i = choose|i: int| 0 <= i < all.len() && all[i] == mv;
    all.lemma_filter_contains(is_legal(state, player), i);
}

/// The legal moves are the sound relocations and the sound drops that are
/// no mate by a dropped pawn, and no others.
pub proof fn law_legal_moves_exact(state: GameState, player: Player, mv: Move)
    ensures
        spec_generate_legal_moves(state, player).contains(mv) <==> generated_ok(state, player, mv)
            && !is_pawn_drop_mate(state, mv, player),
{
    lemma_generated_moves_exact(state, player, mv);
    if spec_generate_legal_moves(state, player).contains(mv) {
        lemma_legal_move(state, player, mv);
    }
    if generated_ok(state, player, mv) && !is_pawn_drop_mate(state, mv, player) {
        lemma_generated_move_is_legal(state, player, mv);
    }
}

/// A relocation is legal exactly if it starts from a piece of the player
/// on the board, lands on a square that the piece can move to, and makes
/// an offered choice of promotion.
pub proof fn law_legal_relocation(
    state: GameState,
    player: Player,
    from: Position,
    to: Position,
    promote: bool,
)
    ensures
        spec_generate_legal_moves(state, player).contains(Move::To(from, to, promote)) <==> {
            &&& from.wf()
            &&& at(state.board, from) matches Some(piece)
            &&& piece.owner == player
            &&& can_move_to(state.board, player, piece.piece_type, piece.promoted, from, to)
            &&& promotion_offered(player, piece.piece_type, piece.promoted, from, to, promote)
        },
{
    let mv = Move::To(from, to, promote);
    law_legal_moves_exact(state, player, mv);
    if from.wf() {
        if let Some(piece) = at(state.board, from) {
            let dests = piece_destinations(
                state.board,
                player,
                piece.piece_type,
                piece.promoted,
                from,
            );
            law_piece_destinations_exact(
                state.board,
                player,
                piece.piece_type,
                piece.promoted,
                from,
                to,
            );
            lemma_piece_destinations(state.board, player, piece.piece_type, piece.promoted, from);
            if dests.contains(to) {
                let i = choose|i: int| 0 <= i < dests.len() && dests[i] == to;
                assert(is_destination(state.board, player)(dests[i]));
            }
        }
    }
}

/// A column holds an unpromoted pawn of the player exactly if one of its
/// squares does.
pub proof fn lemma_pawn_in_column_exact(
    board: Board,
    player: Player,
    x: int,
    rows: nat,
)
    ensures
        pawn_in_column(board, player, x, rows) <==> exists|y: int|
            0 <= y < rows && is_own_pawn(#[trigger] square(board, x, y), player),
    decreases rows,
{
    if rows > 0 {
        lemma_pawn_in_column_exact(board, player, x, (rows - 1) as nat);
        if pawn_in_column(board, player, x, (rows - 1) as nat) {
            let y = choose|y: int|
                0 <= y < rows - 1 && is_own_pawn(#[trigger] square(board, x, y), player);
            assert(0 <= y < rows && is_own_pawn(square(board, x, y), player));
        }
        if is_own_pawn(square(board, x, rows - 1), player) {
            assert(0 <= rows - 1 < rows && is_own_pawn(square(board, x, rows - 1), player));
        }
    }
}

/// A drop is legal exactly if the hand holds the piece, the target is an
/// empty square of the board and, for a pawn, the column of the target
/// holds no unpromoted pawn of the player and the drop does not checkmate
/// the opponent.
pub proof fn law_legal_drop(state: GameState, player: Player, to: Position, p_type: PieceType)
    ensures
        spec_generate_legal_moves(state, player).contains(Move::Drop(to, p_type)) <==> {
            &&& to.wf()
            &&& state.hand(player).count(p_type) > 0
            &&& at(state.board, to) is None
            &&& p_type == PieceType::Pawn ==> {
                &&& forall|y: int|
                    0 <= y < 5 ==> !is_own_pawn(
                        #[trigger] square(state.board, to.x as int, y),
                        player,
                    )
                &&& !spec_is_checkmate(
                    spec_make_move(state, Move::Drop(to, p_type), player),
                    spec_opponent_of(player),
                )
            }
        },
{
    law_legal_moves_exact(state, player, Move::Drop(to, p_type));
    lemma_pawn_in_column_exact(state.board, player, to.x as int, 5);
}

/// A legal move can be made in a well-formed state, and leads to a
/// well-formed state with the same material in play, but for a king that it
/// captures.
pub proof fn law_legal_move_keeps_well_formed(state: GameState, player: Player, mv: Move)
    requires
        state.wf(),
        spec_generate_legal_moves(state, player).contains(mv),
    ensures
        playable(state, mv, player),
        spec_make_move(state, mv, player).wf(),
        spec_make_move(state, mv, player).material() == state.material() - (if captures_king(
            state,
            mv,
        ) {
            1int
        } else {
            0int
        }),
{
    lemma_legal_move(state, player, mv);
    lemma_generated_playable(state, player, mv);
    lemma_make_move_wf(state, player, mv);
}

/// A legal relocation starts from a square that holds a piece of the
/// player, and lands on a square that holds none of the player's pieces.
pub proof fn law_relocation_squares(
    state: GameState,
    player: Player,
    from: Position,
    to: Position,
    promote: bool,
)
    requires
        spec_generate_legal_moves(state, player).contains(Move::To(from, to, promote)),
    ensures
        from.wf(),
        to.wf(),
        at(state.board, from) matches Some(piece) && piece.owner == player,
        !(at(state.board, to) matches Some(piece) && piece.owner == player),
{
    lemma_legal_move(state, player, Move::To(from, to, promote));
}

/// A legal drop of a pawn lands on an empty square of a column that holds
/// no unpromoted pawn of the player, from a hand that holds a pawn.
pub proof fn law_pawn_drop_column(state: GameState, player: Player, to: Position, y: int)
    requires
        spec_generate_legal_moves(state, player).contains(Move::Drop(to, PieceType::Pawn)),
        0 <= y < 5,
    ensures
        to.wf(),
        at(state.board, to) is None,
        state.hand(player).count(PieceType::Pawn) > 0,
        !is_own_pawn(square(state.board, to.x as int, y), player),
{
    lemma_legal_move(state, player, Move::Drop(to, PieceType::Pawn));
    lemma_pawn_in_column_exact(state.board, player, to.x as int, 5);
}

/// A legal drop of any type lands on an empty square of the board, from a
/// hand that holds the type; no king is ever dropped.
pub proof fn law_drop_target(state: GameState, player: Player, to: Position, p_type: PieceType)
    requires
        spec_generate_legal_moves(state, player).contains(Move::Drop(to, p_type)),
    ensures
        to.wf(),
        at(state.board, to) is None,
        state.hand(player).count(p_type) > 0,
        p_type != PieceType::King,
{
    lemma_legal_move(state, player, Move::Drop(to, p_type));
}

/// A legal relocation of an unpromoted pawn into the last row promotes it.
pub proof fn law_pawn_promotes_in_last_row(
    state: GameState,
    player: Player,
    from: Position,
    to: Position,
    promote: bool,
)
    requires
        spec_generate_legal_moves(state, player).contains(Move::To(from, to, promote)),
        is_own_pawn(at(state.board, from), player),
        spec_is_in_promotion_zone(player, to.y),
    ensures
        promote,
{
    lemma_legal_move(state, player, Move::To(from, to, promote));
}

/// A legal relocation promotes only a piece that can promote and is not
/// promoted yet.
pub proof fn law_promotion_is_allowed(
    state: GameState,
    player: Player,
    from: Position,
    to: Position,
)
    requires
        spec_generate_legal_moves(state, player).contains(Move::To(from, to, true)),
    ensures
        at(state.board, from) matches Some(piece) && !piece.promoted && piece.piece_type
            != PieceType::King && piece.piece_type != PieceType::Gold,
{
    lemma_legal_move(state, player, Move::To(from, to, true));
}

/// No legal drop of a pawn leaves the opponent checkmated.
pub proof fn law_no_mate_by_dropped_pawn(state: GameState, player: Player, to: Position)
    requires
        spec_generate_legal_moves(state, player).contains(Move::Drop(to, PieceType::Pawn)),
    ensures
        !spec_is_checkmate(
            spec_make_move(state, Move::Drop(to, PieceType::Pawn), player),
            spec_opponent_of(player),
        ),
{
    lemma_legal_move(state, player, Move::Drop(to, PieceType::Pawn));
}

/// The state after a move depends on the state before, the move and the
/// player alone: the same three give the same state.
pub proof fn law_make_move_is_a_function(
    state1: GameState,
    mv1: Move,
    player1: Player,
    state2: GameState,
    mv2: Move,
    player2: Player,
)
    requires
        state1 == state2,
        mv1 == mv2,
        player1 == player2,
    ensures
        spec_make_move(state1, mv1, player1) == spec_make_move(state2, mv2, player2),
{
}

/// A relocation that lands on a piece other than a king adds exactly one
/// piece of its type to the hand of the player who moves, leaves the other
/// counts of that hand and the whole of the other hand as they were, and
/// puts the moved piece on the destination.
pub proof fn law_capture_adds_to_hand(
    state: GameState,
    player: Player,
    from: Position,
    to: Position,
    promote: bool,
    p_type: PieceType,
)
    requires
        playable(state, Move::To(from, to, promote), player),
        at(state.board, to) matches Some(captured) && captured.piece_type != PieceType::King,
    ensures
        spec_make_move(state, Move::To(from, to, promote), player).hand(player).count(p_type)
            == state.hand(player).count(p_type) + (if p_type == at(state.board, to)->0.piece_type {
            1nat
        } else {
            0nat
        }),
        spec_make_move(state, Move::To(from, to, promote), player).hand(spec_opponent_of(player))
            == state.hand(spec_opponent_of(player)),
{
}

/// A relocation that lands on an empty square, or on a king, leaves both
/// hands as they were.
pub proof fn law_no_capture_keeps_hands(
    state: GameState,
    player: Player,
    from: Position,
    to: Position,
    promote: bool,
)
    requires
        playable(state, Move::To(from, to, promote), player),
        at(state.board, to) matches Some(captured) ==> captured.piece_type == PieceType::King,
    ensures
        spec_make_move(state, Move::To(from, to, promote), player).sente_hand == state.sente_hand,
        spec_make_move(state, Move::To(from, to, promote), player).gote_hand == state.gote_hand,
{
}

/// A relocation empties its origin and puts the piece, promoted where the
/// move says so, on its destination; every other square stays as it was.
pub proof fn law_relocation_moves_the_piece(
    state: GameState,
    player: Player,
    from: Position,
    to: Position,
    promote: bool,
    x: int,
    y: int,
)
    requires
        playable(state, Move::To(from, to, promote), player),
        from != to,
        0 <= x < 5,
        0 <= y < 5,
    ensures
        square(spec_make_move(state, Move::To(from, to, promote), player).board, x, y) == (if x
            == from.x && y == from.y {
            None
        } else if x == to.x && y == to.y {
            Some(
                Piece {
                    promoted: at(state.board, from)->0.promoted || promote,
                    ..at(state.board, from)->0
                },
            )
        } else {
            square(state.board, x, y)
        }),
{
    let piece = at(state.board, from)->0;
    let moved = Piece { promoted: piece.promoted || promote, ..piece };
    lemma_board_with(state.board, to, Some(moved));
    lemma_board_with(board_with(state.board, to, Some(moved)), from, None);
}

/// A drop from a hand that holds the type takes exactly one piece of it out
/// of the hand, leaves the other counts and the other hand as they were, and
/// puts a fresh unpromoted piece of the player on the target; every other
/// square stays as it was.
pub proof fn law_drop_places_a_piece(
    state: GameState,
    player: Player,
    to: Position,
    dropped: PieceType,
    p_type: PieceType,
    x: int,
    y: int,
)
    requires
        to.wf(),
        state.hand(player).count(dropped) > 0,
        0 <= x < 5,
        0 <= y < 5,
    ensures
        spec_make_move(state, Move::Drop(to, dropped), player).hand(player).count(p_type)
            == state.hand(player).count(p_type) - (if p_type == dropped {
            1int
        } else {
            0int
        }),
        spec_make_move(state, Move::Drop(to, dropped), player).hand(spec_opponent_of(player))
            == state.hand(spec_opponent_of(player)),
        square(spec_make_move(state, Move::Drop(to, dropped), player).board, x, y) == (if x
            == to.x && y == to.y {
            Some(Piece { piece_type: dropped, owner: player, promoted: false })
        } else {
            square(state.board, x, y)
        }),
{
    lemma_board_with(
        state.board,
        to,
        Some(Piece { piece_type: dropped, owner: player, promoted: false }),
    );
}

/// A drop from a hand that does not hold the type changes nothing.
pub proof fn law_drop_without_piece_changes_nothing(
    state: GameState,
    player: Player,
    to: Position,
    dropped: PieceType,
)
    requires
        state.hand(player).count(dropped) == 0,
    ensures
        spec_make_move(state, Move::Drop(to, dropped), player) == state,
{
}

/// A player is in check exactly if its king is on the board and a piece
/// of the opponent can move to the square of the king.
pub proof fn law_in_check(state: GameState, player: Player)
    ensures
        spec_is_in_check(state, player) <==> (spec_find_king(state, player) matches Some(king)
            && exists|from: Position|
            from.wf() && (#[trigger] at(state.board, from) matches Some(piece) && piece.owner
                == spec_opponent_of(player) && can_move_to(
                state.board,
                spec_opponent_of(player),
                piece.piece_type,
                piece.promoted,
                from,
                king,
            ))),
{
    let opponent = spec_opponent_of(player);
    if let Some(king) = spec_find_king(state, player) {
        if spec_is_in_check(state, player) {
            let n = choose|n: int|
                0 <= n < 25 && #[trigger] attacks(state.board, opponent, n, king);
            let from = nth_square(n);
            let piece = at(state.board, from)->0;
            law_piece_destinations_exact(
                state.board,
                opponent,
                piece.piece_type,
                piece.promoted,
                from,
                king,
            );
            assert(from.wf() && (at(state.board, from) matches Some(piece) && piece.owner
                == opponent && can_move_to(
                state.board,
                opponent,
                piece.piece_type,
                piece.promoted,
                from,
                king,
            )));
        }
        if exists|from: Position|
            from.wf() && (#[trigger] at(state.board, from) matches Some(piece) && piece.owner
                == opponent && can_move_to(
                state.board,
                opponent,
                piece.piece_type,
                piece.promoted,
                from,
                king,
            )) {
            let from = choose|from: Position|
                from.wf() && (#[trigger] at(state.board, from) matches Some(piece) && piece.owner
                    == opponent && can_move_to(
                    state.board,
                    opponent,
                    piece.piece_type,
                    piece.promoted,
                    from,
                    king,
                ));
            let piece = at(state.board, from)->0;
            law_piece_destinations_exact(
                state.board,
                opponent,
                piece.piece_type,
                piece.promoted,
                from,
                king,
            );
            let n = from.y * 5 + from.x;
            assert(nth_square(n) == from);
            assert(attacks(state.board, opponent, n, king));
        }
    }
}

/// Whether a game can stand at `state` with `player` to move after `plies`
/// plies: it starts from the initial position with the first player to
/// move, and each ply is a legal move of the player whose turn it is.
pub open spec fn reachable(state: GameState, player: Player, plies: nat) -> bool
    decreases plies,
{
    if plies == 0 {
        is_initial(state) && player == Player::Sente
    } else {
        exists|before: GameState, mv: Move|
            reachable(before, spec_opponent_of(player), (plies - 1) as nat)
                && spec_generate_legal_moves(before, spec_opponent_of(player)).contains(mv)
                && state == #[trigger] spec_make_move(before, mv, spec_opponent_of(player))
    }
}

/// Every position of a game is well-formed and holds no more than the
/// twelve pieces that the game starts with.
pub proof fn law_reachable_is_well_formed(state: GameState, player: Player, plies: nat)
    requires
        reachable(state, player, plies),
    ensures
        state.wf(),
        state.material() <= 12,
    decreases plies,
{
    if plies == 0 {
        lemma_initial_wf(state);
    } else {
        let mover = spec_opponent_of(player);
        let (before, mv) = choose|before: GameState, mv: Move|
            reachable(before, mover, (plies - 1) as nat) && spec_generate_legal_moves(
                before,
                mover,
            ).contains(mv) && state == #[trigger] spec_make_move(before, mv, mover);
        law_reachable_is_well_formed(before, mover, (plies - 1) as nat);
        law_legal_move_keeps_well_formed(before, mover, mv);
    }
}

} // verus!
