//! What holds of every generated move, and what a move does to the
//! material in play.

use crate::board::{occupied_upto, square, Board, GameState, Piece, PieceType, Player};
use crate::rules::{
    at, board_with, diagonal_dirs, drop_order, drops, drops_of, lemma_board_with, may_drop,
    move_variants, moves_to, nth_square, orthogonal_dirs, piece_destinations, playable, ray,
    relocations, slide_destinations, spec_apply_offset, spec_can_piece_promote,
    spec_generate_moves, spec_is_friendly_piece, spec_is_in_promotion_zone, spec_make_move,
    spec_must_promote,
    square_moves, step_destinations, stepping_offsets, Move, Position,
};
use vstd::prelude::*;

verus! {

/// Whether `p` holds of every element of `s`.
pub open spec fn all_of<T>(s: Seq<T>, p: spec_fn(T) -> bool) -> bool {
    forall|i: int| 0 <= i < s.len() ==> p(#[trigger] s[i])
}

/// What holds of every element of two sequences holds of every element of
/// the one followed by the other.
pub proof fn lemma_all_of_concat<T>(a: Seq<T>, b: Seq<T>, p: spec_fn(T) -> bool)
    requires
        all_of(a, p),
        all_of(b, p),
    ensures
        all_of(a + b, p),
{
    assert forall|i: int| 0 <= i < (a + b).len() implies p(#[trigger] (a + b)[i]) by {
        if i < a.len() {
            assert((a + b)[i] == a[i]);
        } else {
            assert((a + b)[i] == b[i - a.len()]);
        }
    }
}

/// A destination is a square of the board that holds no piece of `player`.
pub open spec fn destination_ok(board: Board, player: Player, to: Position) -> bool {
    to.wf() && !spec_is_friendly_piece(board, to, player)
}

/// `destination_ok` as a test of squares.
pub open spec fn is_destination(board: Board, player: Player) -> spec_fn(Position) -> bool {
    |to: Position| destination_ok(board, player, to)
}

/// Every square reached by a step is on the board and holds no piece of
/// `player`.
pub proof fn lemma_step_destinations(
    board: Board,
    player: Player,
    from: Position,
    offsets: Seq<(i8, i8)>,
)
    requires
        from.wf(),
    ensures
        all_of(step_destinations(board, player, from, offsets), is_destination(board, player)),
    decreases offsets.len(),
{
    if offsets.len() > 0 {
        let o = offsets.last();
        let head = step_destinations(board, player, from, offsets.drop_last());
        let tail: Seq<Position> = match spec_apply_offset(from, o.0, o.1) {
            Some(to) => if spec_is_friendly_piece(board, to, player) {
                Seq::empty()
            } else {
                seq![to]
            },
            None => Seq::empty(),
        };
        lemma_step_destinations(board, player, from, offsets.drop_last());
        lemma_all_of_concat(head, tail, is_destination(board, player));
    }
}

/// Every square of a ray is on the board and holds no piece of `player`.
pub proof fn lemma_ray(board: Board, player: Player, curr: Position, dir: (i8, i8), fuel: nat)
    requires
        curr.wf(),
    ensures
        all_of(ray(board, player, curr, dir, fuel), is_destination(board, player)),
    decreases fuel,
{
    if fuel > 0 {
        match spec_apply_offset(curr, dir.0, dir.1) {
            None => {},
            Some(next) => {
                if at(board, next) is None {
                    lemma_ray(board, player, next, dir, (fuel - 1) as nat);
                    lemma_all_of_concat(
                        seq![next],
                        ray(board, player, next, dir, (fuel - 1) as nat),
                        is_destination(board, player),
                    );
                }
            },
        }
    }
}

/// Every square reached by a slide is on the board and holds no piece of
/// `player`.
pub proof fn lemma_slide_destinations(
    board: Board,
    player: Player,
    from: Position,
    dirs: Seq<(i8, i8)>,
)
    requires
        from.wf(),
    ensures
        all_of(slide_destinations(board, player, from, dirs), is_destination(board, player)),
    decreases dirs.len(),
{
    if dirs.len() > 0 {
        lemma_slide_destinations(board, player, from, dirs.drop_last());
        lemma_ray(board, player, from, dirs.last(), 4);
        lemma_all_of_concat(
            slide_destinations(board, player, from, dirs.drop_last()),
            ray(board, player, from, dirs.last(), 4),
            is_destination(board, player),
        );
    }
}

/// Every square that a piece of `player` can move to is on the board and
/// holds no piece of `player`.
pub proof fn lemma_piece_destinations(
    board: Board,
    player: Player,
    p_type: PieceType,
    promoted: bool,
    from: Position,
)
    requires
        from.wf(),
    ensures
        all_of(
            piece_destinations(board, player, p_type, promoted, from),
            is_destination(board, player),
        ),
{
    let p = is_destination(board, player);
    lemma_slide_destinations(board, player, from, orthogonal_dirs());
    lemma_slide_destinations(board, player, from, diagonal_dirs());
    lemma_step_destinations(board, player, from, orthogonal_dirs());
    lemma_step_destinations(board, player, from, diagonal_dirs());
    lemma_step_destinations(board, player, from, stepping_offsets(player, PieceType::Gold));
    lemma_step_destinations(board, player, from, stepping_offsets(player, p_type));
    lemma_all_of_concat(
        slide_destinations(board, player, from, orthogonal_dirs()),
        step_destinations(board, player, from, diagonal_dirs()),
        p,
    );
    lemma_all_of_concat(
        slide_destinations(board, player, from, diagonal_dirs()),
        step_destinations(board, player, from, orthogonal_dirs()),
        p,
    );
}

/// Whether a relocation from `from` to `to` is offered with the given
/// choice of promotion: with either choice where an unpromoted piece that
/// can promote starts or lands in the promotion zone, but only with
/// promotion where it has to promote; only without promotion otherwise.
pub open spec fn promotion_offered(
    player: Player,
    p_type: PieceType,
    promoted: bool,
    from: Position,
    to: Position,
    promote: bool,
) -> bool {
    if !promoted && spec_can_piece_promote(p_type) && (spec_is_in_promotion_zone(player, from.y)
        || spec_is_in_promotion_zone(player, to.y)) {
        promote || !spec_must_promote(player, p_type, to.y)
    } else {
        !promote
    }
}

/// The moves from `from` to `to` are those with an offered choice of
/// promotion.
pub proof fn lemma_move_variants(
    player: Player,
    p_type: PieceType,
    promoted: bool,
    from: Position,
    to: Position,
    m: Move,
)
    ensures
        move_variants(player, p_type, promoted, from, to).contains(m) <==> (m matches Move::To(
            origin,
            target,
            promote,
        ) && origin == from && target == to && promotion_offered(
            player,
            p_type,
            promoted,
            from,
            to,
            promote,
        )),
{
    let variants = move_variants(player, p_type, promoted, from, to);
    if variants.contains(m) {
        let i = choose|i: int| 0 <= i < variants.len() && variants[i] == m;
        assert(variants[i] == m);
    }
    if let Move::To(origin, target, promote) = m {
        if origin == from && target == to && promotion_offered(
            player,
            p_type,
            promoted,
            from,
            to,
            promote,
        ) {
            if variants.len() == 2 && !promote {
                assert(variants[1] == m);
            } else {
                assert(variants[0] == m);
            }
        }
    }
}

/// An element of one of two sequences is an element of the one followed by
/// the other, and the other way round.
pub proof fn lemma_contains_concat<T>(a: Seq<T>, b: Seq<T>, x: T)
    ensures
        (a + b).contains(x) <==> a.contains(x) || b.contains(x),
{
    if a.contains(x) {
        let i = choose|i: int| 0 <= i < a.len() && a[i] == x;
        assert((a + b)[i] == x);
    }
    if b.contains(x) {
        let i = choose|i: int| 0 <= i < b.len() && b[i] == x;
        assert((a + b)[a.len() + i] == x);
    }
    if (a + b).contains(x) {
        let i = choose|i: int| 0 <= i < (a + b).len() && (a + b)[i] == x;
        if i < a.len() {
            assert(a[i] == x);
        } else {
            assert(b[i - a.len()] == x);
        }
    }
}

/// What holds of a move from `from` that `moves_to` gives for the
/// destinations `destinations`.
pub open spec fn variant_ok(
    player: Player,
    p_type: PieceType,
    promoted: bool,
    from: Position,
    destinations: Seq<Position>,
    m: Move,
) -> bool {
    m matches Move::To(origin, to, promote) && origin == from && destinations.contains(to)
        && promotion_offered(player, p_type, promoted, from, to, promote)
}

/// The moves that `moves_to` gives are the moves from `from` to one of the
/// destinations with an offered choice of promotion.
pub proof fn lemma_moves_to_exact(
    player: Player,
    p_type: PieceType,
    promoted: bool,
    from: Position,
    destinations: Seq<Position>,
    m: Move,
)
    ensures
        moves_to(player, p_type, promoted, from, destinations).contains(m) <==> variant_ok(
            player,
            p_type,
            promoted,
            from,
            destinations,
            m,
        ),
    decreases destinations.len(),
{
    if destinations.len() == 0 {
        let none = moves_to(player, p_type, promoted, from, destinations);
        assert(!none.contains(m));
        assert(forall|to: Position| !destinations.contains(to));
    } else {
        let shorter = destinations.drop_last();
        let last = destinations.last();
        let head = moves_to(player, p_type, promoted, from, shorter);
        let tail = move_variants(player, p_type, promoted, from, last);
        lemma_moves_to_exact(player, p_type, promoted, from, shorter, m);
        lemma_move_variants(player, p_type, promoted, from, last, m);
        lemma_contains_concat(head, tail, m);
        if let Move::To(origin, to, promote) = m {
            assert(destinations =~= shorter + seq![last]);
            lemma_contains_concat(shorter, seq![last], to);
            assert(seq![last].contains(to) <==> to == last) by {
                if to == last {
                    assert(seq![last][0] == to);
                }
            }
        }
    }
}

/// Every move that `moves_to` gives is a move from `from` to one of the
/// destinations with an offered choice of promotion.
pub proof fn lemma_moves_to(
    player: Player,
    p_type: PieceType,
    promoted: bool,
    from: Position,
    destinations: Seq<Position>,
)
    ensures
        forall|i: int|
            0 <= i < moves_to(player, p_type, promoted, from, destinations).len() ==> variant_ok(
                player,
                p_type,
                promoted,
                from,
                destinations,
                #[trigger] moves_to(player, p_type, promoted, from, destinations)[i],
            ),
{
    let all = moves_to(player, p_type, promoted, from, destinations);
    assert forall|i: int| 0 <= i < all.len() implies variant_ok(
        player,
        p_type,
        promoted,
        from,
        destinations,
        #[trigger] all[i],
    ) by {
        assert(all.contains(all[i]));
        lemma_moves_to_exact(player, p_type, promoted, from, destinations, all[i]);
    }
}

/// The relocations that are generated for `player`: from a piece of
/// `player` to a square that the piece can move to, with an offered choice
/// of promotion. Such a square is on the board and holds no piece of
/// `player`.
pub open spec fn relocation_ok(board: Board, player: Player, m: Move) -> bool {
    m matches Move::To(from, to, promote) && from.wf() && to.wf() && (at(board, from) matches Some(
        piece,
    ) && piece.owner == player && piece_destinations(
        board,
        player,
        piece.piece_type,
        piece.promoted,
        from,
    ).contains(to) && promotion_offered(
        player,
        piece.piece_type,
        piece.promoted,
        from,
        to,
        promote,
    )) && !spec_is_friendly_piece(board, to, player)
}

/// `relocation_ok` as a test of moves.
pub open spec fn is_relocation(board: Board, player: Player) -> spec_fn(Move) -> bool {
    |m: Move| relocation_ok(board, player, m)
}

/// Every relocation from a square is a sound relocation.
pub proof fn lemma_square_moves(board: Board, player: Player, n: int)
    requires
        0 <= n < 25,
    ensures
        all_of(square_moves(board, player, n), is_relocation(board, player)),
{
    let from = nth_square(n);
    if let Some(piece) = at(board, from) {
        if piece.owner == player {
            let dests = piece_destinations(board, player, piece.piece_type, piece.promoted, from);
            let all = square_moves(board, player, n);
            lemma_moves_to(player, piece.piece_type, piece.promoted, from, dests);
            lemma_piece_destinations(board, player, piece.piece_type, piece.promoted, from);
            assert forall|i: int| 0 <= i < all.len() implies relocation_ok(
                board,
                player,
                #[trigger] all[i],
            ) by {
                let m = all[i];
                assert(variant_ok(player, piece.piece_type, piece.promoted, from, dests, m));
                let to = m->To_1;
                let j = choose|j: int| 0 <= j < dests.len() && dests[j] == to;
                assert(is_destination(board, player)(dests[j]));
            }
        }
    }
}

/// Every relocation from one of the first `n` squares is a sound
/// relocation.
pub proof fn lemma_relocations(board: Board, player: Player, n: nat)
    requires
        n <= 25,
    ensures
        all_of(relocations(board, player, n), is_relocation(board, player)),
    decreases n,
{
    if n > 0 {
        lemma_relocations(board, player, (n - 1) as nat);
        lemma_square_moves(board, player, n - 1);
        lemma_all_of_concat(
            relocations(board, player, (n - 1) as nat),
            square_moves(board, player, n - 1),
            is_relocation(board, player),
        );
    }
}

/// What holds of a drop that is generated for `player`: the hand holds the
/// piece, the target is an empty square, and a pawn does not join another
/// unpromoted pawn of `player` in its column.
pub open spec fn drop_ok(state: GameState, player: Player, m: Move) -> bool {
    m matches Move::Drop(to, p_type) && to.wf() && state.hand(player).count(p_type) > 0
        && may_drop(state.board, player, p_type, to)
}

/// The test of moves that the drops of the type `p_type` pass: they land
/// on a square of the board that takes the type.
pub open spec fn is_drop_of(board: Board, player: Player, p_type: PieceType) -> spec_fn(
    Move,
) -> bool {
    |m: Move|
        m matches Move::Drop(to, t) && t == p_type && to.wf() && may_drop(
            board,
            player,
            p_type,
            to,
        )
}

/// `drop_ok` as a test of moves.
pub open spec fn is_drop(state: GameState, player: Player) -> spec_fn(Move) -> bool {
    |m: Move| drop_ok(state, player, m)
}

/// Every drop of a type lands on a square of the board that takes it.
pub proof fn lemma_drops_of(board: Board, player: Player, p_type: PieceType, n: nat)
    requires
        n <= 25,
    ensures
        all_of(drops_of(board, player, p_type, n), is_drop_of(board, player, p_type)),
    decreases n,
{
    if n > 0 {
        lemma_drops_of(board, player, p_type, (n - 1) as nat);
        let head = drops_of(board, player, p_type, (n - 1) as nat);
        let tail: Seq<Move> = if may_drop(board, player, p_type, nth_square(n - 1)) {
            seq![Move::Drop(nth_square(n - 1), p_type)]
        } else {
            Seq::empty()
        };
        lemma_all_of_concat(head, tail, is_drop_of(board, player, p_type));
    }
}

/// Every drop of one of the first `k` types is a sound drop.
pub proof fn lemma_drops(state: GameState, player: Player, k: nat)
    requires
        k <= 5,
    ensures
        all_of(drops(state, player, k), is_drop(state, player)),
    decreases k,
{
    if k > 0 {
        let p_type = drop_order()[k - 1];
        lemma_drops(state, player, (k - 1) as nat);
        lemma_drops_of(state.board, player, p_type, 25);
        let head = drops(state, player, (k - 1) as nat);
        let tail: Seq<Move> = if state.hand(player).count(p_type) > 0 {
            drops_of(state.board, player, p_type, 25)
        } else {
            Seq::empty()
        };
        assert(all_of(tail, is_drop(state, player))) by {
            assert forall|i: int| 0 <= i < tail.len() implies is_drop(state, player)(
                #[trigger] tail[i],
            ) by {
                assert(is_drop_of(state.board, player, p_type)(tail[i]));
            }
        }
        lemma_all_of_concat(head, tail, is_drop(state, player));
    }
}

/// What holds of every move that is generated for `player`.
pub open spec fn generated_ok(state: GameState, player: Player, m: Move) -> bool {
    relocation_ok(state.board, player, m) || drop_ok(state, player, m)
}

/// `generated_ok` as a test of moves.
pub open spec fn is_generated(state: GameState, player: Player) -> spec_fn(Move) -> bool {
    |m: Move| generated_ok(state, player, m)
}

/// Every generated move is a sound relocation or a sound drop.
pub proof fn lemma_generated_moves(state: GameState, player: Player)
    ensures
        forall|i: int|
            0 <= i < spec_generate_moves(state, player).len() ==> generated_ok(
                state,
                player,
                #[trigger] spec_generate_moves(state, player)[i],
            ),
{
    let a = relocations(state.board, player, 25);
    let b = drops(state, player, 5);
    lemma_relocations(state.board, player, 25);
    lemma_drops(state, player, 5);
    assert(all_of(a, is_generated(state, player))) by {
        assert forall|i: int| 0 <= i < a.len() implies is_generated(state, player)(
            #[trigger] a[i],
        ) by {
            assert(is_relocation(state.board, player)(a[i]));
        }
    }
    assert(all_of(b, is_generated(state, player))) by {
        assert forall|i: int| 0 <= i < b.len() implies is_generated(state, player)(
            #[trigger] b[i],
        ) by {
            assert(is_drop(state, player)(b[i]));
        }
    }
    lemma_all_of_concat(a, b, is_generated(state, player));
    assert forall|i: int| 0 <= i < spec_generate_moves(state, player).len() implies generated_ok(
        state,
        player,
        #[trigger] spec_generate_moves(state, player)[i],
    ) by {
        assert(is_generated(state, player)(spec_generate_moves(state, player)[i]));
    }
}

/// The relocations of the first `n` squares are the sound relocations that
/// start from one of them.
pub proof fn lemma_relocations_exact(board: Board, player: Player, n: nat, m: Move)
    requires
        n <= 25,
    ensures
        relocations(board, player, n).contains(m) <==> relocation_ok(board, player, m)
            && m->To_0.y * 5 + m->To_0.x < n,
    decreases n,
{
    if n == 0 {
        assert(!relocations(board, player, n).contains(m));
    } else {
        let head = relocations(board, player, (n - 1) as nat);
        let tail = square_moves(board, player, n - 1);
        let from = nth_square(n - 1);
        lemma_relocations_exact(board, player, (n - 1) as nat, m);
        lemma_contains_concat(head, tail, m);
        lemma_square_moves(board, player, n - 1);
        if tail.contains(m) {
            let i = choose|i: int| 0 <= i < tail.len() && tail[i] == m;
            assert(is_relocation(board, player)(tail[i]));
            let piece = at(board, from)->0;
            lemma_moves_to_exact(
                player,
                piece.piece_type,
                piece.promoted,
                from,
                piece_destinations(board, player, piece.piece_type, piece.promoted, from),
                m,
            );
        }
        if relocation_ok(board, player, m) && m->To_0.y * 5 + m->To_0.x == n - 1 {
            assert(m->To_0 == from);
            let piece = at(board, from)->0;
            lemma_moves_to_exact(
                player,
                piece.piece_type,
                piece.promoted,
                from,
                piece_destinations(board, player, piece.piece_type, piece.promoted, from),
                m,
            );
        }
    }
}

/// The drops of a type on the first `n` squares are the drops of that type
/// on those of them that take it.
pub proof fn lemma_drops_of_exact(board: Board, player: Player, p_type: PieceType, n: nat, m: Move)
    requires
        n <= 25,
    ensures
        drops_of(board, player, p_type, n).contains(m) <==> (m matches Move::Drop(to, t) && t
            == p_type && to.wf() && may_drop(board, player, p_type, to) && to.y * 5 + to.x < n),
    decreases n,
{
    if n == 0 {
        assert(!drops_of(board, player, p_type, n).contains(m));
    } else {
        let head = drops_of(board, player, p_type, (n - 1) as nat);
        let pos = nth_square(n - 1);
        let tail: Seq<Move> = if may_drop(board, player, p_type, pos) {
            seq![Move::Drop(pos, p_type)]
        } else {
            Seq::empty()
        };
        lemma_drops_of_exact(board, player, p_type, (n - 1) as nat, m);
        lemma_contains_concat(head, tail, m);
        if tail.contains(m) {
            let i = choose|i: int| 0 <= i < tail.len() && tail[i] == m;
            assert(tail[i] == m);
        }
        if let Move::Drop(to, t) = m {
            if t == p_type && to.wf() && may_drop(board, player, p_type, to) && to.y * 5 + to.x
                == n - 1 {
                assert(to == pos);
                assert(tail[0] == m);
            }
        }
    }
}

/// The drops of the first `k` types in the order of the hand are the sound
/// drops of one of those types.
pub proof fn lemma_drops_exact(state: GameState, player: Player, k: nat, m: Move)
    requires
        k <= 5,
    ensures
        drops(state, player, k).contains(m) <==> drop_ok(state, player, m) && exists|j: int|
            0 <= j < k && #[trigger] drop_order()[j] == m->Drop_1,
    decreases k,
{
    if k == 0 {
        assert(!drops(state, player, k).contains(m));
    } else {
        let p_type = drop_order()[k - 1];
        let head = drops(state, player, (k - 1) as nat);
        let tail: Seq<Move> = if state.hand(player).count(p_type) > 0 {
            drops_of(state.board, player, p_type, 25)
        } else {
            Seq::empty()
        };
        lemma_drops_exact(state, player, (k - 1) as nat, m);
        lemma_drops_of_exact(state.board, player, p_type, 25, m);
        lemma_contains_concat(head, tail, m);
        if drops(state, player, k).contains(m) {
            if head.contains(m) {
                let j = choose|j: int| 0 <= j < k - 1 && #[trigger] drop_order()[j] == m->Drop_1;
                assert(0 <= j < k && drop_order()[j] == m->Drop_1);
            } else {
                assert(drop_order()[k - 1] == m->Drop_1);
            }
        }
        if drop_ok(state, player, m) && (exists|j: int|
            0 <= j < k && #[trigger] drop_order()[j] == m->Drop_1) {
            let j = choose|j: int| 0 <= j < k && #[trigger] drop_order()[j] == m->Drop_1;
            if j < k - 1 {
                assert(head.contains(m));
            } else {
                assert(tail.contains(m));
            }
        }
    }
}

/// The generated moves are the sound relocations and the sound drops, and
/// no others.
pub proof fn lemma_generated_moves_exact(state: GameState, player: Player, m: Move)
    ensures
        spec_generate_moves(state, player).contains(m) <==> generated_ok(state, player, m),
{
    let a = relocations(state.board, player, 25);
    let b = drops(state, player, 5);
    lemma_contains_concat(a, b, m);
    lemma_relocations_exact(state.board, player, 25, m);
    lemma_drops_exact(state, player, 5, m);
    if drop_ok(state, player, m) {
        let t = m->Drop_1;
        assert(drop_order()[0] == PieceType::Pawn);
        assert(drop_order()[1] == PieceType::Silver);
        assert(drop_order()[2] == PieceType::Gold);
        assert(drop_order()[3] == PieceType::Bishop);
        assert(drop_order()[4] == PieceType::Rook);
        assert(t != PieceType::King);
    }
}

/// The number of occupied squares grows with the number of squares counted.
pub proof fn lemma_occupied_monotone(board: Board, m: nat, n: nat)
    requires
        m <= n,
    ensures
        occupied_upto(board, m) <= occupied_upto(board, n) <= occupied_upto(board, m) + (n - m),
    decreases n,
{
    if m < n {
        lemma_occupied_monotone(board, m, (n - 1) as nat);
    }
}

/// A board with a piece on it has at least one occupied square, and never
/// more than 25.
pub proof fn lemma_occupied_bounds(board: Board, pos: Position)
    requires
        pos.wf(),
    ensures
        occupied_upto(board, 25) <= 25,
        at(board, pos) is Some ==> occupied_upto(board, 25) >= 1,
{
    let n = (pos.y * 5 + pos.x) as nat;
    lemma_occupied_monotone(board, 0, 25);
    lemma_occupied_monotone(board, 0, n);
    lemma_occupied_monotone(board, n + 1, 25);
    assert(nth_square(n as int) == pos);
}

/// Putting `content` on `pos` changes the count of occupied squares by what
/// `pos` gains or loses.
pub proof fn lemma_occupied_board_with(
    board: Board,
    pos: Position,
    content: Option<Piece>,
    n: nat,
)
    requires
        pos.wf(),
        n <= 25,
    ensures
        occupied_upto(board_with(board, pos, content), n) == occupied_upto(board, n) + (if pos.y
            * 5 + pos.x < n {
            (if content is Some {
                1int
            } else {
                0int
            }) - (if at(board, pos) is Some {
                1int
            } else {
                0int
            })
        } else {
            0int
        }),
    decreases n,
{
    if n > 0 {
        lemma_occupied_board_with(board, pos, content, (n - 1) as nat);
        lemma_board_with(board, pos, content);
        let i = (n - 1) as int;
        assert(0 <= i % 5 < 5 && 0 <= i / 5 < 5);
        assert((i % 5 == pos.x && i / 5 == pos.y) <==> i == pos.y * 5 + pos.x);
    }
}

/// A generated move can be made in a well-formed state.
pub proof fn lemma_generated_playable(state: GameState, player: Player, m: Move)
    requires
        state.wf(),
        generated_ok(state, player, m),
    ensures
        playable(state, m, player),
{
    if let Move::To(from, to, _) = m {
        lemma_occupied_bounds(state.board, to);
    }
}

/// Whether the move lands on a king.
pub open spec fn captures_king(state: GameState, m: Move) -> bool {
    m matches Move::To(_, to, _) && (at(state.board, to) matches Some(captured)
        && captured.piece_type == PieceType::King)
}

/// A generated move leads from a well-formed state to a well-formed state,
/// and keeps the material in play, but for a king that it captures.
pub proof fn lemma_make_move_wf(state: GameState, player: Player, m: Move)
    requires
        state.wf(),
        generated_ok(state, player, m),
    ensures
        spec_make_move(state, m, player).wf(),
        spec_make_move(state, m, player).material() <= state.material(),
        spec_make_move(state, m, player).material() == state.material() - (if captures_king(
            state,
            m,
        ) {
            1int
        } else {
            0int
        }),
{
    let next = spec_make_move(state, m, player);
    match m {
        Move::To(from, to, promote) => {
            let piece = at(state.board, from)->0;
            let moved = Piece { promoted: piece.promoted || promote, ..piece };
            let mid = board_with(state.board, to, Some(moved));
            lemma_board_with(state.board, to, Some(moved));
            lemma_board_with(mid, from, None);
            lemma_occupied_board_with(state.board, to, Some(moved), 25);
            lemma_occupied_board_with(mid, from, None, 25);
            lemma_occupied_bounds(state.board, to);
            assert(from != to);
            assert(at(mid, from) == at(state.board, from));
            assert(square(state.board, from.x as int, from.y as int).unwrap().wf());
            assert(moved.wf());
            assert forall|x: int, y: int| 0 <= x < 5 && 0 <= y < 5 implies (#[trigger] square(
                next.board,
                x,
                y,
            ) matches Some(p) ==> p.wf()) by {
                assert(square(mid, x, y) == if x == to.x && y == to.y {
                    Some(moved)
                } else {
                    square(state.board, x, y)
                });
            }
        },
        Move::Drop(to, p_type) => {
            let piece = Piece { piece_type: p_type, owner: player, promoted: false };
            lemma_board_with(state.board, to, Some(piece));
            lemma_occupied_board_with(state.board, to, Some(piece), 25);
            assert forall|x: int, y: int| 0 <= x < 5 && 0 <= y < 5 implies (#[trigger] square(
                next.board,
                x,
                y,
            ) matches Some(p) ==> p.wf()) by {}
        },
    }
}

} // verus!
