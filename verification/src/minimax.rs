//! What the alpha-beta search computes: bounds on its scores, the choice at
//! the root, and its agreement with plain minimax.

use crate::board::{occupied_upto, square, Board, GameState, Player};
use crate::laws::lemma_legal_move;
use crate::proofs::lemma_make_move_wf;
use crate::rules::{at, nth_square, spec_generate_legal_moves, spec_make_move, Move};
use crate::search::{
    beats, best_among, board_score, lemma_legal_moves_ok, root_score, scan_moves, side_to_move,
    spec_alpha_beta, spec_best_move_alpha_beta, spec_evaluate, spec_has_king, spec_max, spec_min,
    INF, SEARCH_DEPTH,
};
use vstd::prelude::*;

verus! {

/// The most material with which every score lies between `-INF` and `INF`.
pub open spec fn bounded_material() -> nat {
    111
}

/// The score of a partial board is bounded by the pieces on it.
pub proof fn lemma_board_score_by_pieces(board: Board, n: nat)
    requires
        n <= 25,
    ensures
        -900 * occupied_upto(board, n) <= board_score(board, n) <= 900 * occupied_upto(board, n),
    decreases n,
{
    if n > 0 {
        lemma_board_score_by_pieces(board, (n - 1) as nat);
        let i = (n - 1) as int;
        assert(at(board, nth_square(i)) == square(board, i % 5, i / 5));
    }
}

/// The static score is bounded by the material in play.
pub proof fn lemma_evaluate_bound(state: GameState)
    requires
        state.material() <= bounded_material(),
    ensures
        -INF <= spec_evaluate(state) <= INF,
{
    lemma_board_score_by_pieces(state.board, 25);
}

/// With little enough material in play, every score of the alpha-beta
/// search lies between `-INF` and `INF`.
pub proof fn lemma_alpha_beta_bound(
    state: GameState,
    depth: nat,
    alpha: int,
    beta: int,
    maximizing: bool,
)
    requires
        state.wf(),
        state.material() <= bounded_material(),
    ensures
        -INF <= spec_alpha_beta(state, depth, alpha, beta, maximizing) <= INF,
    decreases depth, 1nat, 0nat,
{
    lemma_evaluate_bound(state);
    if spec_has_king(state, Player::Sente) && spec_has_king(state, Player::Gote) && depth > 0 {
        let moves = spec_generate_legal_moves(state, side_to_move(maximizing));
        if moves.len() > 0 {
            lemma_scan_bound(
                state,
                depth,
                moves,
                0,
                alpha,
                beta,
                if maximizing {
                    -INF
                } else {
                    INF as int
                },
                maximizing,
            );
        }
    }
}

/// With little enough material in play, a scan that starts from a score
/// between `-INF` and `INF` ends with one.
pub proof fn lemma_scan_bound(
    state: GameState,
    depth: nat,
    moves: Seq<Move>,
    i: nat,
    alpha: int,
    beta: int,
    best: int,
    maximizing: bool,
)
    requires
        state.wf(),
        state.material() <= bounded_material(),
        moves == spec_generate_legal_moves(state, side_to_move(maximizing)),
        -INF <= best <= INF,
    ensures
        -INF <= scan_moves(state, depth, moves, i, alpha, beta, best, maximizing) <= INF,
    decreases depth, 0nat, moves.len() - i,
{
    if depth > 0 && i < moves.len() {
        let player = side_to_move(maximizing);
        lemma_legal_moves_ok(state, player);
        lemma_make_move_wf(state, player, moves[i as int]);
        let next = spec_make_move(state, moves[i as int], player);
        lemma_alpha_beta_bound(next, (depth - 1) as nat, alpha, beta, !maximizing);
        let eval = spec_alpha_beta(next, (depth - 1) as nat, alpha, beta, !maximizing);
        if maximizing {
            let best2 = spec_max(best, eval);
            let alpha2 = spec_max(alpha, eval);
            if beta > alpha2 {
                lemma_scan_bound(state, depth, moves, i + 1, alpha2, beta, best2, maximizing);
            }
        } else {
            let best2 = spec_min(best, eval);
            let beta2 = spec_min(beta, eval);
            if beta2 > alpha {
                lemma_scan_bound(state, depth, moves, i + 1, alpha, beta2, best2, maximizing);
            }
        }
    }
}

/// The choice among the first `n` moves is the first of them whose score no
/// other beats; there is none only where no score beats the score that the
/// scan starts from.
pub proof fn lemma_best_among(state: GameState, player: Player, moves: Seq<Move>, n: nat)
    requires
        n <= moves.len(),
    ensures
        ({
            let (choice, score) = best_among(state, player, moves, n);
            let start = best_among(state, player, moves, 0).1;
            &&& forall|j: int|
                0 <= j < n ==> !beats(
                    player,
                    #[trigger] root_score(state, player, moves[j]),
                    score,
                )
            &&& choice is None ==> score == start
            &&& choice is Some ==> exists|k: int|
                0 <= k < n && choice == Some(#[trigger] moves[k]) && score == root_score(
                    state,
                    player,
                    moves[k],
                ) && beats(player, score, start) && (forall|j: int|
                    0 <= j < k ==> beats(
                        player,
                        score,
                        #[trigger] root_score(state, player, moves[j]),
                    ))
        }),
    decreases n,
{
    if n > 0 {
        lemma_best_among(state, player, moves, (n - 1) as nat);
        let before = best_among(state, player, moves, (n - 1) as nat);
        let start = best_among(state, player, moves, 0).1;
        let here = root_score(state, player, moves[n - 1]);
        let (choice, score) = best_among(state, player, moves, n);
        if beats(player, here, before.1) {
            assert(choice == Some(moves[n - 1]));
            assert forall|j: int| 0 <= j < n - 1 implies beats(
                player,
                score,
                #[trigger] root_score(state, player, moves[j]),
            ) by {
                assert(!beats(player, root_score(state, player, moves[j]), before.1));
            }
            if before.0 is Some {
                let k0 = choose|k: int|
                    0 <= k < n - 1 && before.0 == Some(#[trigger] moves[k]) && before.1
                        == root_score(state, player, moves[k]) && beats(player, before.1, start);
            }
        } else {
            if choice is Some {
                let k = choose|k: int|
                    0 <= k < n - 1 && before.0 == Some(#[trigger] moves[k]) && before.1
                        == root_score(state, player, moves[k]) && beats(player, before.1, start)
                        && (forall|j: int|
                        0 <= j < k ==> beats(
                            player,
                            before.1,
                            #[trigger] root_score(state, player, moves[j]),
                        ));
                assert(0 <= k < n && choice == Some(moves[k]));
            }
        }
    }
}

/// With little enough material in play, the alpha-beta search chooses a
/// move exactly if there is a legal move: the first of the legal moves
/// whose score no other beats.
pub proof fn law_alpha_beta_chooses_first_best(state: GameState, player: Player)
    requires
        state.wf(),
        state.material() <= bounded_material(),
    ensures
        spec_best_move_alpha_beta(state, player) is Some <==> spec_generate_legal_moves(
            state,
            player,
        ).len() > 0,
        spec_best_move_alpha_beta(state, player) is Some ==> exists|k: int|
            #![trigger spec_generate_legal_moves(state, player)[k]]
            {
                let moves = spec_generate_legal_moves(state, player);
                &&& 0 <= k < moves.len()
                &&& spec_best_move_alpha_beta(state, player) == Some(moves[k])
                &&& forall|j: int|
                    0 <= j < moves.len() ==> !beats(
                        player,
                        #[trigger] root_score(state, player, moves[j]),
                        root_score(state, player, moves[k]),
                    )
                &&& forall|j: int|
                    0 <= j < k ==> beats(
                        player,
                        root_score(state, player, moves[k]),
                        #[trigger] root_score(state, player, moves[j]),
                    )
            },
{
    let moves = spec_generate_legal_moves(state, player);
    lemma_best_among(state, player, moves, moves.len());
    let (choice, score) = best_among(state, player, moves, moves.len());
    if moves.len() > 0 {
        lemma_legal_moves_ok(state, player);
        lemma_make_move_wf(state, player, moves[0]);
        lemma_alpha_beta_bound(
            spec_make_move(state, moves[0], player),
            (SEARCH_DEPTH - 1) as nat,
            -INF as int,
            INF as int,
            player != Player::Sente,
        );
        let first = root_score(state, player, moves[0]);
        assert(!beats(player, first, score));
        if choice is None {
            assert(beats(player, first, score));
        }
        let k = choose|k: int|
            0 <= k < moves.len() && choice == Some(#[trigger] moves[k]) && score == root_score(
                state,
                player,
                moves[k],
            ) && beats(player, score, best_among(state, player, moves, 0).1) && (forall|j: int|
                0 <= j < k ==> beats(
                    player,
                    score,
                    #[trigger] root_score(state, player, moves[j]),
                ));
        assert(spec_best_move_alpha_beta(state, player) == Some(moves[k]));
    }
}

/// The score of a side that has not yet looked at any reply: a loss.
pub open spec fn worst_for(maximizing: bool) -> int {
    if maximizing {
        -INF
    } else {
        INF as int
    }
}

/// The minimax score of a position searched `depth` plies deep: the score
/// of a position without a king, the static score at depth 0, and otherwise
/// the best for the side to move of the scores of the positions that its
/// legal moves lead to, or the score of a loss where it has none.
pub open spec fn spec_minimax(state: GameState, depth: nat, maximizing: bool) -> int
    decreases depth, 1nat, 0nat,
{
    if !spec_has_king(state, Player::Sente) {
        -INF
    } else if !spec_has_king(state, Player::Gote) {
        INF as int
    } else if depth == 0 {
        spec_evaluate(state)
    } else {
        let moves = spec_generate_legal_moves(state, side_to_move(maximizing));
        best_reply(state, depth, moves, moves.len(), maximizing)
    }
}

/// The best for the side to move of the minimax scores after the first `n`
/// of `moves`, and of the score of a loss.
pub open spec fn best_reply(
    state: GameState,
    depth: nat,
    moves: Seq<Move>,
    n: nat,
    maximizing: bool,
) -> int
    decreases depth, 0nat, n,
{
    if depth == 0 || n == 0 {
        worst_for(maximizing)
    } else {
        let rest = best_reply(state, depth, moves, (n - 1) as nat, maximizing);
        let value = spec_minimax(
            spec_make_move(state, moves[n - 1], side_to_move(maximizing)),
            (depth - 1) as nat,
            !maximizing,
        );
        if maximizing {
            spec_max(rest, value)
        } else {
            spec_min(rest, value)
        }
    }
}

/// Looking at more replies never makes the best reply worse.
pub proof fn lemma_best_reply_monotone(
    state: GameState,
    depth: nat,
    moves: Seq<Move>,
    m: nat,
    n: nat,
    maximizing: bool,
)
    requires
        m <= n,
    ensures
        maximizing ==> best_reply(state, depth, moves, m, maximizing) <= best_reply(
            state,
            depth,
            moves,
            n,
            maximizing,
        ),
        !maximizing ==> best_reply(state, depth, moves, m, maximizing) >= best_reply(
            state,
            depth,
            moves,
            n,
            maximizing,
        ),
    decreases n,
{
    if m < n {
        lemma_best_reply_monotone(state, depth, moves, m, (n - 1) as nat, maximizing);
    }
}

/// How a score `r` found with the window from `alpha` to `beta` stands to
/// the true score `v`: it is the true score where it lies inside the
/// window, and a bound on the side of the true score where it does not.
pub open spec fn within_window(r: int, v: int, alpha: int, beta: int) -> bool {
    &&& r <= alpha ==> v <= r
    &&& r >= beta ==> v >= r
    &&& alpha < r < beta ==> v == r
}

/// The alpha-beta score agrees with the minimax score as far as the window
/// lets it: pruning never changes a score inside the window.
pub proof fn lemma_alpha_beta_is_minimax(
    state: GameState,
    depth: nat,
    alpha: int,
    beta: int,
    maximizing: bool,
)
    requires
        -INF <= alpha < beta <= INF,
    ensures
        within_window(
            spec_alpha_beta(state, depth, alpha, beta, maximizing),
            spec_minimax(state, depth, maximizing),
            alpha,
            beta,
        ),
    decreases depth, 1nat, 0nat,
{
    if spec_has_king(state, Player::Sente) && spec_has_king(state, Player::Gote) && depth > 0 {
        let moves = spec_generate_legal_moves(state, side_to_move(maximizing));
        if moves.len() > 0 {
            lemma_scan_is_minimax(
                state,
                depth,
                moves,
                0,
                alpha,
                beta,
                alpha,
                beta,
                worst_for(maximizing),
                maximizing,
            );
        }
    }
}

/// What holds while the scan goes on: the window has been narrowed by the
/// best score so far and is still open, the best score so far is no worse
/// than the best reply, and is the best reply once it lies inside the
/// window that the scan was given.
pub open spec fn scan_invariant(
    state: GameState,
    depth: nat,
    moves: Seq<Move>,
    i: nat,
    alpha0: int,
    beta0: int,
    alpha: int,
    beta: int,
    best: int,
    maximizing: bool,
) -> bool {
    let reply = best_reply(state, depth, moves, i, maximizing);
    &&& -INF <= alpha0 < beta0 <= INF
    &&& alpha < beta
    &&& maximizing ==> {
        &&& beta == beta0
        &&& alpha == spec_max(alpha0, best)
        &&& reply <= best
        &&& best > alpha0 ==> reply == best
    }
    &&& !maximizing ==> {
        &&& alpha == alpha0
        &&& beta == spec_min(beta0, best)
        &&& reply >= best
        &&& best < beta0 ==> reply == best
    }
}

/// A scan that stands as `scan_invariant` says ends with a score that
/// agrees with the best reply as far as the window of the scan lets it.
pub proof fn lemma_scan_is_minimax(
    state: GameState,
    depth: nat,
    moves: Seq<Move>,
    i: nat,
    alpha0: int,
    beta0: int,
    alpha: int,
    beta: int,
    best: int,
    maximizing: bool,
)
    requires
        depth > 0,
        i <= moves.len(),
        scan_invariant(state, depth, moves, i, alpha0, beta0, alpha, beta, best, maximizing),
    ensures
        within_window(
            scan_moves(state, depth, moves, i, alpha, beta, best, maximizing),
            best_reply(state, depth, moves, moves.len(), maximizing),
            alpha0,
            beta0,
        ),
    decreases depth, 0nat, moves.len() - i,
{
    let n = moves.len();
    if i < n {
        let next = spec_make_move(state, moves[i as int], side_to_move(maximizing));
        let eval = spec_alpha_beta(next, (depth - 1) as nat, alpha, beta, !maximizing);
        let value = spec_minimax(next, (depth - 1) as nat, !maximizing);
        lemma_alpha_beta_is_minimax(next, (depth - 1) as nat, alpha, beta, !maximizing);
        lemma_best_reply_monotone(state, depth, moves, i + 1, n, maximizing);
        let reply = best_reply(state, depth, moves, i, maximizing);
        let reply2 = best_reply(state, depth, moves, i + 1, maximizing);
        if maximizing {
            assert(reply2 == spec_max(reply, value));
            let best2 = spec_max(best, eval);
            let alpha2 = spec_max(alpha, eval);
            if beta > alpha2 {
                lemma_scan_is_minimax(
                    state,
                    depth,
                    moves,
                    i + 1,
                    alpha0,
                    beta0,
                    alpha2,
                    beta,
                    best2,
                    maximizing,
                );
            }
        } else {
            assert(reply2 == spec_min(reply, value));
            let best2 = spec_min(best, eval);
            let beta2 = spec_min(beta, eval);
            if beta2 > alpha {
                lemma_scan_is_minimax(
                    state,
                    depth,
                    moves,
                    i + 1,
                    alpha0,
                    beta0,
                    alpha,
                    beta2,
                    best2,
                    maximizing,
                );
            }
        }
    }
}

/// With little enough material in play, every minimax score lies between
/// `-INF` and `INF`.
pub proof fn lemma_minimax_bound(state: GameState, depth: nat, maximizing: bool)
    requires
        state.wf(),
        state.material() <= bounded_material(),
    ensures
        -INF <= spec_minimax(state, depth, maximizing) <= INF,
    decreases depth, 1nat, 0nat,
{
    lemma_evaluate_bound(state);
    if spec_has_king(state, Player::Sente) && spec_has_king(state, Player::Gote) && depth > 0 {
        let moves = spec_generate_legal_moves(state, side_to_move(maximizing));
        lemma_best_reply_bound(state, depth, moves, moves.len(), maximizing);
    }
}

/// With little enough material in play, the best of any number of replies
/// lies between `-INF` and `INF`.
pub proof fn lemma_best_reply_bound(
    state: GameState,
    depth: nat,
    moves: Seq<Move>,
    n: nat,
    maximizing: bool,
)
    requires
        state.wf(),
        state.material() <= bounded_material(),
        moves == spec_generate_legal_moves(state, side_to_move(maximizing)),
        n <= moves.len(),
    ensures
        -INF <= best_reply(state, depth, moves, n, maximizing) <= INF,
    decreases depth, 0nat, n,
{
    if depth > 0 && n > 0 {
        let player = side_to_move(maximizing);
        lemma_best_reply_bound(state, depth, moves, (n - 1) as nat, maximizing);
        lemma_legal_moves_ok(state, player);
        lemma_make_move_wf(state, player, moves[n - 1]);
        lemma_minimax_bound(
            spec_make_move(state, moves[n - 1], player),
            (depth - 1) as nat,
            !maximizing,
        );
    }
}

/// With little enough material in play, the score that the root gives to a
/// legal move is the minimax score of the position after it.
pub proof fn law_root_score_is_minimax(state: GameState, player: Player, mv: Move)
    requires
        state.wf(),
        state.material() <= bounded_material(),
        spec_generate_legal_moves(state, player).contains(mv),
    ensures
        root_score(state, player, mv) == spec_minimax(
            spec_make_move(state, mv, player),
            (SEARCH_DEPTH - 1) as nat,
            player != Player::Sente,
        ),
{
    let next = spec_make_move(state, mv, player);
    let depth = (SEARCH_DEPTH - 1) as nat;
    let maximizing = player != Player::Sente;
    lemma_legal_move(state, player, mv);
    lemma_make_move_wf(state, player, mv);
    lemma_alpha_beta_bound(next, depth, -INF as int, INF as int, maximizing);
    lemma_minimax_bound(next, depth, maximizing);
    lemma_alpha_beta_is_minimax(next, depth, -INF as int, INF as int, maximizing);
}

/// The minimax score of the position after a move of `player`, searched as
/// deep as the root searches.
pub open spec fn reply_score(state: GameState, player: Player, mv: Move) -> int {
    spec_minimax(
        spec_make_move(state, mv, player),
        (SEARCH_DEPTH - 1) as nat,
        player != Player::Sente,
    )
}

/// With little enough material in play, the alpha-beta search chooses the
/// first of the legal moves whose minimax score no other beats.
pub proof fn law_best_move_is_minimax(state: GameState, player: Player)
    requires
        state.wf(),
        state.material() <= bounded_material(),
        spec_generate_legal_moves(state, player).len() > 0,
    ensures
        exists|k: int|
            #![trigger spec_generate_legal_moves(state, player)[k]]
            {
                let moves = spec_generate_legal_moves(state, player);
                &&& 0 <= k < moves.len()
                &&& spec_best_move_alpha_beta(state, player) == Some(moves[k])
                &&& forall|j: int|
                    0 <= j < moves.len() ==> !beats(
                        player,
                        #[trigger] reply_score(state, player, moves[j]),
                        reply_score(state, player, moves[k]),
                    )
                &&& forall|j: int|
                    0 <= j < k ==> beats(
                        player,
                        reply_score(state, player, moves[k]),
                        #[trigger] reply_score(state, player, moves[j]),
                    )
            },
{
    let moves = spec_generate_legal_moves(state, player);
    law_alpha_beta_chooses_first_best(state, player);
    let k = choose|k: int|
        #![trigger spec_generate_legal_moves(state, player)[k]]
        {
            let moves = spec_generate_legal_moves(state, player);
            &&& 0 <= k < moves.len()
            &&& spec_best_move_alpha_beta(state, player) == Some(moves[k])
            &&& forall|j: int|
                0 <= j < moves.len() ==> !beats(
                    player,
                    #[trigger] root_score(state, player, moves[j]),
                    root_score(state, player, moves[k]),
                )
            &&& forall|j: int|
                0 <= j < k ==> beats(
                    player,
                    root_score(state, player, moves[k]),
                    #[trigger] root_score(state, player, moves[j]),
                )
        };
    assert forall|j: int| 0 <= j < moves.len() implies #[trigger] reply_score(
        state,
        player,
        moves[j],
    ) == root_score(state, player, moves[j]) by {
        assert(moves.contains(moves[j]));
        law_root_score_is_minimax(state, player, moves[j]);
    }
    assert(0 <= k < moves.len() && spec_best_move_alpha_beta(state, player) == Some(moves[k]));
    assert forall|j: int| 0 <= j < moves.len() implies !beats(
        player,
        #[trigger] reply_score(state, player, moves[j]),
        reply_score(state, player, moves[k]),
    ) by {
        assert(!beats(
            player,
            root_score(state, player, moves[j]),
            root_score(state, player, moves[k]),
        ));
    }
    assert forall|j: int| 0 <= j < k implies beats(
        player,
        reply_score(state, player, moves[k]),
        #[trigger] reply_score(state, player, moves[j]),
    ) by {
        assert(beats(
            player,
            root_score(state, player, moves[k]),
            root_score(state, player, moves[j]),
        ));
    }
}

} // verus!
