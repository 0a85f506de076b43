//! How the pieces move, stated square by square: which squares a step and
//! a slide reach, and that the destinations of a piece are those squares.

use crate::board::{Board, PieceType, Player};
use crate::proofs::lemma_contains_concat;
use crate::rules::{
    at, diagonal_dirs, orthogonal_dirs, piece_destinations, ray, slide_destinations,
    spec_apply_offset, spec_is_friendly_piece, step_destinations, stepping_offsets, Position,
};
use vstd::prelude::*;

verus! {

/// The square `n` steps of `dir` away from `from`, if it is on the board.
pub open spec fn along(from: Position, dir: (i8, i8), n: int) -> Option<Position> {
    let x = from.x + n * dir.0;
    let y = from.y + n * dir.1;
    if 0 <= x < 5 && 0 <= y < 5 {
        Some(Position { x: x as usize, y: y as usize })
    } else {
        None
    }
}

/// Whether a piece of `player` reaches `to` by one step of `offset`.
pub open spec fn steps_by(
    board: Board,
    player: Player,
    from: Position,
    offset: (i8, i8),
    to: Position,
) -> bool {
    spec_apply_offset(from, offset.0, offset.1) == Some(to) && !spec_is_friendly_piece(
        board,
        to,
        player,
    )
}

/// Whether a piece of `player` reaches `to` by one step of one of
/// `offsets`.
pub open spec fn steps_to(
    board: Board,
    player: Player,
    from: Position,
    offsets: Seq<(i8, i8)>,
    to: Position,
) -> bool {
    exists|k: int|
        0 <= k < offsets.len() && steps_by(board, player, from, #[trigger] offsets[k], to)
}

/// Whether a piece of `player` that slides from `from` along `dir` reaches
/// `to` as its `n`-th square: the squares before it are empty, and `to`
/// holds no piece of `player`.
pub open spec fn reaches(
    board: Board,
    player: Player,
    from: Position,
    dir: (i8, i8),
    n: int,
    to: Position,
) -> bool {
    &&& 1 <= n
    &&& along(from, dir, n) == Some(to)
    &&& !spec_is_friendly_piece(board, to, player)
    &&& forall|k: int|
        1 <= k < n ==> (#[trigger] along(from, dir, k) matches Some(p) && at(board, p) is None)
}

/// Whether a piece of `player` reaches `to` by sliding along one of `dirs`.
pub open spec fn slides_to(
    board: Board,
    player: Player,
    from: Position,
    dirs: Seq<(i8, i8)>,
    to: Position,
) -> bool {
    exists|d: int, n: int|
        0 <= d < dirs.len() && #[trigger] reaches(board, player, from, dirs[d], n, to)
}

/// Whether the piece of `player` with the given type and promotion can move
/// from `from` to `to`.
pub open spec fn can_move_to(
    board: Board,
    player: Player,
    p_type: PieceType,
    promoted: bool,
    from: Position,
    to: Position,
) -> bool {
    if promoted {
        match p_type {
            PieceType::Rook => slides_to(board, player, from, orthogonal_dirs(), to) || steps_to(
                board,
                player,
                from,
                diagonal_dirs(),
                to,
            ),
            PieceType::Bishop => slides_to(board, player, from, diagonal_dirs(), to) || steps_to(
                board,
                player,
                from,
                orthogonal_dirs(),
                to,
            ),
            PieceType::Pawn | PieceType::Silver => steps_to(
                board,
                player,
                from,
                stepping_offsets(player, PieceType::Gold),
                to,
            ),
            _ => false,
        }
    } else {
        match p_type {
            PieceType::Rook => slides_to(board, player, from, orthogonal_dirs(), to),
            PieceType::Bishop => slides_to(board, player, from, diagonal_dirs(), to),
            _ => steps_to(board, player, from, stepping_offsets(player, p_type), to),
        }
    }
}

/// The squares reached by steps are those that one of the offsets leads to
/// and that hold no piece of the player.
pub proof fn lemma_step_destinations_exact(
    board: Board,
    player: Player,
    from: Position,
    offsets: Seq<(i8, i8)>,
    to: Position,
)
    ensures
        step_destinations(board, player, from, offsets).contains(to) <==> steps_to(
            board,
            player,
            from,
            offsets,
            to,
        ),
    decreases offsets.len(),
{
    if offsets.len() == 0 {
        assert(!step_destinations(board, player, from, offsets).contains(to));
    } else {
        let shorter = offsets.drop_last();
        let o = offsets.last();
        let head = step_destinations(board, player, from, shorter);
        let tail: Seq<Position> = match spec_apply_offset(from, o.0, o.1) {
            Some(p) => if spec_is_friendly_piece(board, p, player) {
                Seq::empty()
            } else {
                seq![p]
            },
            None => Seq::empty(),
        };
        lemma_step_destinations_exact(board, player, from, shorter, to);
        lemma_contains_concat(head, tail, to);
        assert(tail.contains(to) <==> steps_by(board, player, from, o, to)) by {
            if tail.contains(to) {
                let i = choose|i: int| 0 <= i < tail.len() && tail[i] == to;
                assert(tail[i] == to);
            }
            if steps_by(board, player, from, o, to) {
                assert(tail[0] == to);
            }
        }
        if steps_to(board, player, from, shorter, to) {
            let k = choose|k: int|
                0 <= k < shorter.len() && steps_by(board, player, from, #[trigger] shorter[k], to);
            assert(offsets[k] == shorter[k]);
        }
        if steps_by(board, player, from, o, to) {
            assert(offsets[offsets.len() - 1] == o);
        }
        if steps_to(board, player, from, offsets, to) {
            let k = choose|k: int|
                0 <= k < offsets.len() && steps_by(board, player, from, #[trigger] offsets[k], to);
            if k < offsets.len() - 1 {
                assert(shorter[k] == offsets[k]);
            }
        }
    }
}

/// The square `n + 1` steps away is the square `n` steps away from the next
/// square.
pub proof fn lemma_along_shift(from: Position, dir: (i8, i8), next: Position, n: int)
    requires
        along(from, dir, 1) == Some(next),
    ensures
        along(from, dir, n + 1) == along(next, dir, n),
{
    assert((n + 1) * dir.0 == n * dir.0 + dir.0) by (nonlinear_arith);
    assert((n + 1) * dir.1 == n * dir.1 + dir.1) by (nonlinear_arith);
}

/// No slide along a direction other than `(0, 0)` goes further than four
/// squares on the board.
pub proof fn lemma_along_bound(from: Position, dir: (i8, i8), n: int)
    requires
        from.wf(),
        dir != (0i8, 0i8),
        n >= 5,
    ensures
        along(from, dir, n) is None,
{
    let dx = dir.0 as int;
    let dy = dir.1 as int;
    if dx >= 1 {
        assert(n * dx >= 5) by (nonlinear_arith)
            requires
                n >= 5,
                dx >= 1,
        ;
    } else if dx <= -1 {
        assert(n * dx <= -5) by (nonlinear_arith)
            requires
                n >= 5,
                dx <= -1,
        ;
    } else if dy >= 1 {
        assert(n * dy >= 5) by (nonlinear_arith)
            requires
                n >= 5,
                dy >= 1,
        ;
    } else {
        assert(n * dy <= -5) by (nonlinear_arith)
            requires
                n >= 5,
                dy <= -1,
        ;
    }
}

/// Sliding from the next square, where the next square is empty, reaches
/// what sliding from the square itself reaches one square later.
proof fn lemma_reaches_shift(
    board: Board,
    player: Player,
    from: Position,
    dir: (i8, i8),
    next: Position,
    n: int,
    to: Position,
)
    requires
        along(from, dir, 1) == Some(next),
        at(board, next) is None,
        n >= 1,
    ensures
        reaches(board, player, from, dir, n + 1, to) <==> reaches(board, player, next, dir, n, to),
{
    lemma_along_shift(from, dir, next, n);
    if reaches(board, player, from, dir, n + 1, to) {
        assert forall|k: int| 1 <= k < n implies (#[trigger] along(next, dir, k) matches Some(p)
            && at(board, p) is None) by {
            lemma_along_shift(from, dir, next, k);
            assert(along(from, dir, k + 1) matches Some(p) && at(board, p) is None);
        }
    }
    if reaches(board, player, next, dir, n, to) {
        assert forall|k: int| 1 <= k < n + 1 implies (#[trigger] along(from, dir, k) matches Some(
            p,
        ) && at(board, p) is None) by {
            if k > 1 {
                lemma_along_shift(from, dir, next, k - 1);
                assert(along(next, dir, k - 1) matches Some(p) && at(board, p) is None);
            }
        }
    }
}

/// The squares of a ray are those that the slide reaches within its fuel.
pub proof fn lemma_ray_exact(
    board: Board,
    player: Player,
    from: Position,
    dir: (i8, i8),
    fuel: nat,
    to: Position,
)
    ensures
        ray(board, player, from, dir, fuel).contains(to) <==> exists|n: int|
            n <= fuel && #[trigger] reaches(board, player, from, dir, n, to),
    decreases fuel,
{
    let squares = ray(board, player, from, dir, fuel);
    if fuel == 0 {
        assert(!squares.contains(to));
    } else {
        assert(along(from, dir, 1) == spec_apply_offset(from, dir.0, dir.1));
        match spec_apply_offset(from, dir.0, dir.1) {
            None => {
                assert(!squares.contains(to));
                assert forall|n: int| n <= fuel implies !#[trigger] reaches(
                    board,
                    player,
                    from,
                    dir,
                    n,
                    to,
                ) by {
                    if reaches(board, player, from, dir, n, to) && n > 1 {
                        assert(along(from, dir, 1) is Some);
                    }
                }
            },
            Some(next) => {
                if at(board, next) is Some {
                    assert(squares.contains(to) <==> to == next && !spec_is_friendly_piece(
                        board,
                        next,
                        player,
                    )) by {
                        if squares.contains(to) {
                            let i = choose|i: int| 0 <= i < squares.len() && squares[i] == to;
                            assert(squares[i] == to);
                        }
                        if to == next && !spec_is_friendly_piece(board, next, player) {
                            assert(squares[0] == to);
                        }
                    }
                    if to == next && !spec_is_friendly_piece(board, next, player) {
                        assert(reaches(board, player, from, dir, 1, to));
                    }
                    assert forall|n: int|
                        n <= fuel && #[trigger] reaches(
                            board,
                            player,
                            from,
                            dir,
                            n,
                            to,
                        ) implies to == next && !spec_is_friendly_piece(board, next, player) by {
                        if n > 1 {
                            assert(along(from, dir, 1) matches Some(p) && at(board, p) is None);
                        }
                    }
                } else {
                    let rest = ray(board, player, next, dir, (fuel - 1) as nat);
                    lemma_ray_exact(board, player, next, dir, (fuel - 1) as nat, to);
                    lemma_contains_concat(seq![next], rest, to);
                    assert(seq![next].contains(to) <==> to == next) by {
                        if to == next {
                            assert(seq![next][0] == to);
                        }
                    }
                    if to == next {
                        assert(reaches(board, player, from, dir, 1, to));
                    }
                    if rest.contains(to) {
                        let n = choose|n: int|
                            n <= fuel - 1 && #[trigger] reaches(board, player, next, dir, n, to);
                        lemma_reaches_shift(board, player, from, dir, next, n, to);
                        assert(reaches(board, player, from, dir, n + 1, to));
                    }
                    assert forall|n: int|
                        n <= fuel && #[trigger] reaches(
                            board,
                            player,
                            from,
                            dir,
                            n,
                            to,
                        ) implies squares.contains(to) by {
                        if n > 1 {
                            lemma_reaches_shift(board, player, from, dir, next, n - 1, to);
                            assert(reaches(board, player, next, dir, n - 1, to));
                        }
                    }
                }
            },
        }
    }
}

/// The squares reached by sliding from a square of the board along
/// directions other than `(0, 0)` are those that one of the slides reaches,
/// however far it goes.
pub proof fn lemma_slide_destinations_exact(
    board: Board,
    player: Player,
    from: Position,
    dirs: Seq<(i8, i8)>,
    to: Position,
)
    requires
        from.wf(),
        forall|d: int| 0 <= d < dirs.len() ==> #[trigger] dirs[d] != (0i8, 0i8),
    ensures
        slide_destinations(board, player, from, dirs).contains(to) <==> slides_to(
            board,
            player,
            from,
            dirs,
            to,
        ),
    decreases dirs.len(),
{
    if dirs.len() == 0 {
        assert(!slide_destinations(board, player, from, dirs).contains(to));
    } else {
        let shorter = dirs.drop_last();
        let dir = dirs.last();
        let head = slide_destinations(board, player, from, shorter);
        let tail = ray(board, player, from, dir, 4);
        assert forall|d: int| 0 <= d < shorter.len() implies #[trigger] shorter[d] != (
            0i8,
            0i8,
        ) by {
            assert(shorter[d] == dirs[d]);
        }
        lemma_slide_destinations_exact(board, player, from, shorter, to);
        lemma_ray_exact(board, player, from, dir, 4, to);
        lemma_contains_concat(head, tail, to);
        assert(dirs[dirs.len() - 1] == dir);
        if slides_to(board, player, from, shorter, to) {
            let (d, n) = choose|d: int, n: int|
                0 <= d < shorter.len() && #[trigger] reaches(
                    board,
                    player,
                    from,
                    shorter[d],
                    n,
                    to,
                );
            assert(dirs[d] == shorter[d]);
            assert(reaches(board, player, from, dirs[d], n, to));
        }
        if tail.contains(to) {
            let n = choose|n: int| n <= 4 && #[trigger] reaches(board, player, from, dir, n, to);
            assert(reaches(board, player, from, dirs[dirs.len() - 1], n, to));
        }
        if slides_to(board, player, from, dirs, to) {
            let (d, n) = choose|d: int, n: int|
                0 <= d < dirs.len() && #[trigger] reaches(board, player, from, dirs[d], n, to);
            if n >= 5 {
                lemma_along_bound(from, dirs[d], n);
            }
            if d < dirs.len() - 1 {
                assert(shorter[d] == dirs[d]);
                assert(reaches(board, player, from, shorter[d], n, to));
            } else {
                assert(reaches(board, player, from, dir, n, to));
            }
        }
    }
}

/// The destinations of a piece on the board are the squares that it can
/// move to.
pub proof fn law_piece_destinations_exact(
    board: Board,
    player: Player,
    p_type: PieceType,
    promoted: bool,
    from: Position,
    to: Position,
)
    requires
        from.wf(),
    ensures
        piece_destinations(board, player, p_type, promoted, from).contains(to) <==> can_move_to(
            board,
            player,
            p_type,
            promoted,
            from,
            to,
        ),
{
    let orth = orthogonal_dirs();
    let diag = diagonal_dirs();
    assert(orth[0] != (0i8, 0i8) && orth[1] != (0i8, 0i8) && orth[2] != (0i8, 0i8) && orth[3] != (
        0i8,
        0i8,
    ));
    assert(diag[0] != (0i8, 0i8) && diag[1] != (0i8, 0i8) && diag[2] != (0i8, 0i8) && diag[3] != (
        0i8,
        0i8,
    ));
    lemma_slide_destinations_exact(board, player, from, orth, to);
    lemma_slide_destinations_exact(board, player, from, diag, to);
    lemma_step_destinations_exact(board, player, from, orth, to);
    lemma_step_destinations_exact(board, player, from, diag, to);
    lemma_step_destinations_exact(
        board,
        player,
        from,
        stepping_offsets(player, PieceType::Gold),
        to,
    );
    lemma_step_destinations_exact(board, player, from, stepping_offsets(player, p_type), to);
    lemma_contains_concat(
        slide_destinations(board, player, from, orth),
        step_destinations(board, player, from, diag),
        to,
    );
    lemma_contains_concat(
        slide_destinations(board, player, from, diag),
        step_destinations(board, player, from, orth),
        to,
    );
    if promoted && p_type != PieceType::Rook && p_type != PieceType::Bishop && p_type
        != PieceType::Pawn && p_type != PieceType::Silver {
        assert(!Seq::<Position>::empty().contains(to));
    }
}

} // verus!
