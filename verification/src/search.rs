//! Static evaluation of a position and the depth-limited alpha-beta search.

use crate::board::{Board, GameState, Hand, Piece, PieceType, Player};
use crate::laws::lemma_legal_move;
use crate::minimax::{bounded_material, law_alpha_beta_chooses_first_best};
use crate::proofs::{generated_ok, lemma_generated_playable, lemma_make_move_wf};
use crate::rules::{
    at, find_king, generate_legal_moves, is_king_of, lemma_king_among_found, make_move,
    nth_square, spec_find_king, spec_generate_legal_moves, spec_make_move, Move, Position,
};
use vstd::prelude::*;

verus! {

/// The number of plies that the alpha-beta search looks ahead.
pub const SEARCH_DEPTH: u32 = 4;

/// The score of a position that is won for the first player; its negation
/// is the score of one that is lost.
pub const INF: i32 = 100_000;

/// The material value of a piece.
pub open spec fn spec_piece_value(piece_type: PieceType, promoted: bool) -> int {
    match piece_type {
        PieceType::Pawn => if promoted {
            500
        } else {
            100
        },
        PieceType::Silver => if promoted {
            500
        } else {
            400
        },
        PieceType::Gold => 500,
        PieceType::Bishop => if promoted {
            800
        } else {
            600
        },
        PieceType::Rook => if promoted {
            900
        } else {
            700
        },
        PieceType::King => 0,
    }
}

/// The material value of a piece.
pub fn piece_value(piece_type: PieceType, promoted: bool) -> (value: i32)
    ensures
        value == spec_piece_value(piece_type, promoted),
        0 <= value <= 900,
{
    match (piece_type, promoted) {
        (PieceType::Pawn, false) => 100,
        (PieceType::Pawn, true) => 500,
        (PieceType::Silver, false) => 400,
        (PieceType::Silver, true) => 500,
        (PieceType::Gold, _) => 500,
        (PieceType::Bishop, false) => 600,
        (PieceType::Bishop, true) => 800,
        (PieceType::Rook, false) => 700,
        (PieceType::Rook, true) => 900,
        (PieceType::King, _) => 0,
    }
}

/// What a square adds to the score: the value of the piece on it, counted
/// for the first player and against the second.
pub open spec fn square_score(cell: Option<Piece>) -> int {
    match cell {
        Some(piece) => match piece.owner {
            Player::Sente => spec_piece_value(piece.piece_type, piece.promoted),
            Player::Gote => -spec_piece_value(piece.piece_type, piece.promoted),
        },
        None => 0,
    }
}

/// The score of the first `n` squares of the board in row-major order.
pub open spec fn board_score(board: Board, n: nat) -> int
    decreases n,
{
    if n == 0 {
        0
    } else {
        board_score(board, (n - 1) as nat) + square_score(at(board, nth_square(n - 1)))
    }
}

/// The value of the pieces in a hand, each at its unpromoted value.
pub open spec fn hand_score(hand: Hand) -> int {
    spec_piece_value(PieceType::Pawn, false) * hand.count(PieceType::Pawn) + spec_piece_value(
        PieceType::Silver,
        false,
    ) * hand.count(PieceType::Silver) + spec_piece_value(PieceType::Gold, false) * hand.count(
        PieceType::Gold,
    ) + spec_piece_value(PieceType::Bishop, false) * hand.count(PieceType::Bishop)
        + spec_piece_value(PieceType::Rook, false) * hand.count(PieceType::Rook)
}

/// Whether the king of `player` is on the board.
pub open spec fn spec_has_king(state: GameState, player: Player) -> bool {
    spec_find_king(state, player) is Some
}

/// The king of `player` is on the board exactly if some square holds it.
pub proof fn law_has_king(state: GameState, player: Player)
    ensures
        spec_has_king(state, player) <==> exists|pos: Position|
            pos.wf() && is_king_of(#[trigger] at(state.board, pos), player),
{
    lemma_king_among_found(state.board, player, 25);
    if spec_has_king(state, player) {
        let pos = spec_find_king(state, player)->0;
        assert(pos.wf() && is_king_of(at(state.board, pos), player));
    } else {
        assert forall|pos: Position| pos.wf() implies !is_king_of(
            #[trigger] at(state.board, pos),
            player,
        ) by {
            let i = pos.y * 5 + pos.x;
            assert(nth_square(i) == pos);
        }
    }
}

/// Whether the king of `player` is on the board.
pub fn has_king(state: &GameState, player: Player) -> (has: bool)
    ensures
        has == spec_has_king(*state, player),
{
    find_king(state, player).is_some()
}

/// The static score of a position, positive where it favours the first
/// player: `-INF` without the first player's king, else `INF` without the
/// second player's, else the material on the board and in the hands.
pub open spec fn spec_evaluate(state: GameState) -> int {
    if !spec_has_king(state, Player::Sente) {
        -INF
    } else if !spec_has_king(state, Player::Gote) {
        INF as int
    } else {
        board_score(state.board, 25) + hand_score(state.sente_hand) - hand_score(state.gote_hand)
    }
}

/// The score of a partial board is bounded by the number of its squares.
pub proof fn lemma_board_score_bound(board: Board, n: nat)
    ensures
        -900 * n <= board_score(board, n) <= 900 * n,
    decreases n,
{
    if n > 0 {
        lemma_board_score_bound(board, (n - 1) as nat);
    }
}

fn hand_material(hand: &Hand) -> (value: i32)
    ensures
        value == hand_score(*hand),
        0 <= value <= 586_500,
{
    let hand_types = [
        PieceType::Pawn,
        PieceType::Silver,
        PieceType::Gold,
        PieceType::Bishop,
        PieceType::Rook,
    ];
    let pawns = piece_value(hand_types[0], false) * (hand.get(hand_types[0]) as i32);
    let silvers = piece_value(hand_types[1], false) * (hand.get(hand_types[1]) as i32);
    let golds = piece_value(hand_types[2], false) * (hand.get(hand_types[2]) as i32);
    let bishops = piece_value(hand_types[3], false) * (hand.get(hand_types[3]) as i32);
    let rooks = piece_value(hand_types[4], false) * (hand.get(hand_types[4]) as i32);
    pawns + silvers + golds + bishops + rooks
}

/// The static score of a position.
pub fn evaluate(state: &GameState) -> (score: i32)
    ensures
        score == spec_evaluate(*state),
        !spec_has_king(*state, Player::Sente) ==> score == -INF,
        spec_has_king(*state, Player::Sente) && !spec_has_king(*state, Player::Gote) ==> score
            == INF,
{
    let sente_king = has_king(state, Player::Sente);
    let gote_king = has_king(state, Player::Gote);
    if !sente_king {
        return -INF;
    }
    if !gote_king {
        return INF;
    }

    let mut score: i32 = 0;

    let mut y: usize = 0;
    while y < 5
        invariant
            y <= 5,
            score == board_score(state.board, (y * 5) as nat),
        decreases 5 - y,
    {
        let mut x: usize = 0;
        while x < 5
            invariant
                x <= 5,
                y < 5,
                score == board_score(state.board, (y * 5 + x) as nat),
            decreases 5 - x,
        {
            proof {
                assert(nth_square(y * 5 + x) == (Position { x, y }));
                lemma_board_score_bound(state.board, (y * 5 + x) as nat);
            }
            if let Some(cell) = state.board[y][x] {
                let value = piece_value(cell.piece_type, cell.promoted);
                match cell.owner {
                    Player::Sente => score += value,
                    Player::Gote => score -= value,
                }
            }
            x += 1;
        }
        y += 1;
    }
    proof {
        lemma_board_score_bound(state.board, 25);
    }

    score += hand_material(&state.sente_hand);
    score -= hand_material(&state.gote_hand);

    score
}

/// The side that moves where the first player maximises.
pub open spec fn side_to_move(maximizing: bool) -> Player {
    if maximizing {
        Player::Sente
    } else {
        Player::Gote
    }
}

/// The greater of two scores.
pub open spec fn spec_max(a: int, b: int) -> int {
    if a >= b {
        a
    } else {
        b
    }
}

/// The lesser of two scores.
pub open spec fn spec_min(a: int, b: int) -> int {
    if a <= b {
        a
    } else {
        b
    }
}

/// The score that the alpha-beta search gives to a position: the score of
/// a position without a king, the static score at depth 0, the score of a
/// loss for a side that cannot move, and otherwise what the scan of the
/// legal moves gives.
pub open spec fn spec_alpha_beta(
    state: GameState,
    depth: nat,
    alpha: int,
    beta: int,
    maximizing: bool,
) -> int
    decreases depth, 1nat, 0nat,
{
    if !spec_has_king(state, Player::Sente) {
        -INF
    } else if !spec_has_king(state, Player::Gote) {
        INF as int
    } else if depth == 0 {
        spec_evaluate(state)
    } else {
        let moves = spec_generate_legal_moves(state, side_to_move(maximizing));
        if moves.len() == 0 {
            if maximizing {
                -INF
            } else {
                INF as int
            }
        } else {
            scan_moves(
                state,
                depth,
                moves,
                0,
                alpha,
                beta,
                if maximizing {
                    -INF
                } else {
                    INF as int
                },
                maximizing,
            )
        }
    }
}

/// The scan of the moves from the `i`-th on, with the window and the best
/// score that the moves before it have left. The maximising side raises the
/// best score and `alpha`, the minimising side lowers the best score and
/// `beta`; the scan ends with the moves, or as soon as `beta <= alpha`.
pub open spec fn scan_moves(
    state: GameState,
    depth: nat,
    moves: Seq<Move>,
    i: nat,
    alpha: int,
    beta: int,
    best: int,
    maximizing: bool,
) -> int
    decreases depth, 0nat, moves.len() - i,
{
    if depth == 0 || i >= moves.len() {
        best
    } else {
        let eval = spec_alpha_beta(
            spec_make_move(state, moves[i as int], side_to_move(maximizing)),
            (depth - 1) as nat,
            alpha,
            beta,
            !maximizing,
        );
        if maximizing {
            let best = spec_max(best, eval);
            let alpha = spec_max(alpha, eval);
            if beta <= alpha {
                best
            } else {
                scan_moves(state, depth, moves, i + 1, alpha, beta, best, maximizing)
            }
        } else {
            let best = spec_min(best, eval);
            let beta = spec_min(beta, eval);
            if beta <= alpha {
                best
            } else {
                scan_moves(state, depth, moves, i + 1, alpha, beta, best, maximizing)
            }
        }
    }
}

/// Every legal move is a sound generated move.
pub proof fn lemma_legal_moves_ok(state: GameState, player: Player)
    ensures
        forall|i: int|
            0 <= i < spec_generate_legal_moves(state, player).len() ==> generated_ok(
                state,
                player,
                #[trigger] spec_generate_legal_moves(state, player)[i],
            ),
{
    let legal = spec_generate_legal_moves(state, player);
    assert forall|i: int| 0 <= i < legal.len() implies generated_ok(
        state,
        player,
        #[trigger] legal[i],
    ) by {
        assert(legal.contains(legal[i]));
        lemma_legal_move(state, player, legal[i]);
    }
}

/// The score of `state` searched `depth` plies deep within the window from
/// `alpha` to `beta`; the first player moves where `maximizing` holds.
pub fn alpha_beta(state: &GameState, depth: u32, alpha: i32, beta: i32, maximizing: bool) -> (score:
    i32)
    requires
        state.wf(),
    ensures
        score == spec_alpha_beta(*state, depth as nat, alpha as int, beta as int, maximizing),
    decreases depth,
{
    let mut alpha = alpha;
    let mut beta = beta;
    if !has_king(state, Player::Sente) {
        return -INF;
    }
    if !has_king(state, Player::Gote) {
        return INF;
    }
    if depth == 0 {
        return evaluate(state);
    }
    let player = if maximizing {
        Player::Sente
    } else {
        Player::Gote
    };
    let legal_moves = generate_legal_moves(state, player);

    if legal_moves.len() == 0 {
        return if maximizing {
            -INF
        } else {
            INF
        };
    }
    proof {
        lemma_legal_moves_ok(*state, player);
    }
    let ghost target = spec_alpha_beta(
        *state,
        depth as nat,
        alpha as int,
        beta as int,
        maximizing,
    );
    let n = legal_moves.len();
    let mut best: i32 = if maximizing {
        -INF
    } else {
        INF
    };
    let mut i: usize = 0;
    while i < n
        invariant_except_break
            i <= n,
            scan_moves(
                *state,
                depth as nat,
                legal_moves@,
                i as nat,
                alpha as int,
                beta as int,
                best as int,
                maximizing,
            ) == target,
        invariant
            n == legal_moves@.len(),
            depth > 0,
            state.wf(),
            player == side_to_move(maximizing),
            legal_moves@ == spec_generate_legal_moves(*state, player),
            forall|j: int|
                0 <= j < legal_moves@.len() ==> generated_ok(
                    *state,
                    player,
                    #[trigger] legal_moves@[j],
                ),
        ensures
            best == target,
        decreases n - i,
    {
        let mv = legal_moves[i];
        proof {
            lemma_generated_playable(*state, player, mv);
            lemma_make_move_wf(*state, player, mv);
        }
        let new_state = make_move(state, mv, player);
        let eval = alpha_beta(&new_state, depth - 1, alpha, beta, !maximizing);
        if maximizing {
            if eval > best {
                best = eval;
            }
            if eval > alpha {
                alpha = eval;
            }
        } else {
            if eval < best {
                best = eval;
            }
            if eval < beta {
                beta = eval;
            }
        }
        if beta <= alpha {
            break ;
        }
        i += 1;
    }
    best
}

/// The score that the root gives to a move: that of the position after
/// it, searched with the full window.
pub open spec fn root_score(state: GameState, player: Player, mv: Move) -> int {
    spec_alpha_beta(
        spec_make_move(state, mv, player),
        (SEARCH_DEPTH - 1) as nat,
        -INF as int,
        INF as int,
        player != Player::Sente,
    )
}

/// Whether the score `score` beats `best` for `player`: the first player
/// looks for the highest score, the second for the lowest.
pub open spec fn beats(player: Player, score: int, best: int) -> bool {
    if player == Player::Sente {
        score > best
    } else {
        score < best
    }
}

/// The choice after the first `n` of `moves`, with its score: none and a
/// score that any score within the window beats before the first move, then
/// each move that beats the best so far.
pub open spec fn best_among(state: GameState, player: Player, moves: Seq<Move>, n: nat) -> (
    Option<Move>,
    int,
)
    decreases n,
{
    if n == 0 {
        (
            None,
            if player == Player::Sente {
                -INF - 1
            } else {
                INF + 1
            },
        )
    } else {
        let before = best_among(state, player, moves, (n - 1) as nat);
        let score = root_score(state, player, moves[n - 1]);
        if beats(player, score, before.1) {
            (Some(moves[n - 1]), score)
        } else {
            before
        }
    }
}

/// The move that the alpha-beta search chooses for `player`.
pub open spec fn spec_best_move_alpha_beta(state: GameState, player: Player) -> Option<Move> {
    let moves = spec_generate_legal_moves(state, player);
    best_among(state, player, moves, moves.len()).0
}

/// The move that the search chooses for `player`: the first legal move with
/// the best score, or none where there is no legal move.
pub fn best_move_alpha_beta(state: &GameState, player: Player) -> (best: Option<Move>)
    requires
        state.wf(),
    ensures
        best == spec_best_move_alpha_beta(*state, player),
        spec_generate_legal_moves(*state, player).len() == 0 ==> best is None,
        best matches Some(mv) ==> spec_generate_legal_moves(*state, player).contains(mv),
        state.material() <= bounded_material() ==> (best is Some
            <==> spec_generate_legal_moves(*state, player).len() > 0),
{
    let legal_moves = generate_legal_moves(state, player);
    proof {
        if state.material() <= bounded_material() {
            law_alpha_beta_chooses_first_best(*state, player);
        }
    }
    if legal_moves.len() == 0 {
        return None;
    }
    proof {
        lemma_legal_moves_ok(*state, player);
    }
    let maximizing = player == Player::Sente;
    let mut best_mv: Option<Move> = None;
    let mut best_score: i32 = if maximizing {
        -INF - 1
    } else {
        INF + 1
    };

    let n = legal_moves.len();
    let mut i: usize = 0;
    while i < n
        invariant
            i <= n,
            n == legal_moves@.len(),
            state.wf(),
            maximizing == (player == Player::Sente),
            legal_moves@ == spec_generate_legal_moves(*state, player),
            forall|j: int|
                0 <= j < legal_moves@.len() ==> generated_ok(
                    *state,
                    player,
                    #[trigger] legal_moves@[j],
                ),
            (best_mv, best_score as int) == best_among(*state, player, legal_moves@, i as nat),
            best_mv matches Some(mv) ==> legal_moves@.contains(mv),
        decreases n - i,
    {
        let mv = legal_moves[i];
        proof {
            lemma_generated_playable(*state, player, mv);
            lemma_make_move_wf(*state, player, mv);
        }
        let new_state = make_move(state, mv, player);
        let score = alpha_beta(&new_state, SEARCH_DEPTH - 1, -INF, INF, !maximizing);

        let is_better = if maximizing {
            score > best_score
        } else {
            score < best_score
        };

        if is_better {
            best_score = score;
            best_mv = Some(mv);
        }
        i += 1;
    }

    best_mv
}

} // verus!
