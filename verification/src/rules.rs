//! The rules: how pieces move, which moves a side may make, check and
//! checkmate, and how a move changes the state.

use crate::board::{square, Board, GameState, Piece, PieceType, Player};
use crate::proofs::{
    generated_ok, lemma_generated_moves, lemma_generated_playable, lemma_make_move_wf,
};
use vstd::prelude::*;

verus! {

/// A square of the board: column `x` and row `y`, both below 5.
#[derive(Debug, Clone, Copy, PartialEq, Eq, Structural)]
pub struct Position {
    pub x: usize,
    pub y: usize,
}

impl Position {
    /// The square is on the board.
    pub open spec fn wf(self) -> bool {
        self.x < 5 && self.y < 5
    }

    /// The square of column `x` and row `y`.
    pub fn new(x: usize, y: usize) -> (pos: Self)
        ensures
            pos.x == x,
            pos.y == y,
    {
        Self { x, y }
    }
}

/// `To(from, to, promote)` relocates a piece on the board; `Drop(to, type)`
/// places a piece from the hand.
#[derive(Debug, Clone, Copy, PartialEq, Eq, Structural)]
pub enum Move {
    To(Position, Position, bool),
    Drop(Position, PieceType),
}

impl Move {
    /// The squares of the move are on the board.
    pub open spec fn wf(self) -> bool {
        match self {
            Move::To(from, to, _) => from.wf() && to.wf(),
            Move::Drop(to, _) => to.wf(),
        }
    }
}

/// What stands on `pos`.
pub open spec fn at(board: Board, pos: Position) -> Option<Piece> {
    square(board, pos.x as int, pos.y as int)
}

/// The `n`-th square in row-major order.
pub open spec fn nth_square(n: int) -> Position {
    Position { x: (n % 5) as usize, y: (n / 5) as usize }
}

/// The other player.
pub open spec fn spec_opponent_of(player: Player) -> Player {
    match player {
        Player::Sente => Player::Gote,
        Player::Gote => Player::Sente,
    }
}

/// The other player.
#[verifier::when_used_as_spec(spec_opponent_of)]
pub fn opponent_of(player: Player) -> (opponent: Player)
    ensures
        opponent == spec_opponent_of(player),
        opponent != player,
{
    match player {
        Player::Sente => Player::Gote,
        Player::Gote => Player::Sente,
    }
}

/// Whether pieces of the type can promote.
pub open spec fn spec_can_piece_promote(p_type: PieceType) -> bool {
    p_type == PieceType::Pawn || p_type == PieceType::Silver || p_type == PieceType::Bishop
        || p_type == PieceType::Rook
}

/// Pawns, silvers, bishops and rooks can promote.
#[verifier::when_used_as_spec(spec_can_piece_promote)]
pub fn can_piece_promote(p_type: PieceType) -> (can: bool)
    ensures
        can == spec_can_piece_promote(p_type),
{
    match p_type {
        PieceType::Pawn | PieceType::Silver | PieceType::Bishop | PieceType::Rook => true,
        _ => false,
    }
}

/// Whether row `y` is the promotion zone of `player`.
pub open spec fn spec_is_in_promotion_zone(player: Player, y: usize) -> bool {
    match player {
        Player::Sente => y == 0,
        Player::Gote => y == 4,
    }
}

/// The promotion zone of a player is the row nearest to the opponent.
#[verifier::when_used_as_spec(spec_is_in_promotion_zone)]
pub fn is_in_promotion_zone(player: Player, y: usize) -> (inside: bool)
    ensures
        inside == spec_is_in_promotion_zone(player, y),
{
    match player {
        Player::Sente => y == 0,
        Player::Gote => y == 4,
    }
}

/// Whether a piece of the type that lands in row `to_y` has to promote.
pub open spec fn spec_must_promote(player: Player, p_type: PieceType, to_y: usize) -> bool {
    p_type == PieceType::Pawn && spec_is_in_promotion_zone(player, to_y)
}

/// A pawn that reaches the last row has to promote.
#[verifier::when_used_as_spec(spec_must_promote)]
pub fn must_promote(player: Player, p_type: PieceType, to_y: usize) -> (forced: bool)
    ensures
        forced == spec_must_promote(player, p_type, to_y),
{
    p_type == PieceType::Pawn && is_in_promotion_zone(player, to_y)
}

/// The square `(dx, dy)` away from `pos`, if it is on the board.
pub open spec fn spec_apply_offset(pos: Position, dx: i8, dy: i8) -> Option<Position> {
    let nx = pos.x + dx;
    let ny = pos.y + dy;
    if 0 <= nx < 5 && 0 <= ny < 5 {
        Some(Position { x: nx as usize, y: ny as usize })
    } else {
        None
    }
}

/// The square `(dx, dy)` away from `pos`, if it is on the board.
#[verifier::when_used_as_spec(spec_apply_offset)]
pub fn apply_offset(pos: Position, dx: i8, dy: i8) -> (moved: Option<Position>)
    requires
        pos.wf(),
    ensures
        moved == spec_apply_offset(pos, dx, dy),
        moved matches Some(p) ==> p.wf(),
{
    let nx: i16 = pos.x as i16 + dx as i16;
    let ny: i16 = pos.y as i16 + dy as i16;

    if 0 <= nx && nx < 5 && 0 <= ny && ny < 5 {
        Some(Position::new(nx as usize, ny as usize))
    } else {
        None
    }
}

/// Whether a piece of `player` stands on `pos`.
pub open spec fn spec_is_friendly_piece(board: Board, pos: Position, player: Player) -> bool {
    at(board, pos) matches Some(piece) && piece.owner == player
}

/// Whether a piece of `player` stands on `pos`.
pub fn is_friendly_piece(board: &Board, pos: Position, player: Player) -> (friendly: bool)
    requires
        pos.wf(),
    ensures
        friendly == spec_is_friendly_piece(*board, pos, player),
{
    if let Some(piece) = board[pos.y][pos.x] {
        piece.owner == player
    } else {
        false
    }
}

/// The steps of a piece type as the first player makes them: forward is
/// towards row 0.
pub open spec fn base_offsets(p_type: PieceType) -> Seq<(i8, i8)> {
    match p_type {
        PieceType::King => seq![
            (0i8, -1i8),
            (0i8, 1i8),
            (-1i8, 0i8),
            (1i8, 0i8),
            (-1i8, -1i8),
            (1i8, -1i8),
            (-1i8, 1i8),
            (1i8, 1i8),
        ],
        PieceType::Gold => seq![
            (0i8, -1i8),
            (0i8, 1i8),
            (-1i8, 0i8),
            (1i8, 0i8),
            (-1i8, -1i8),
            (1i8, -1i8),
        ],
        PieceType::Silver => seq![
            (0i8, -1i8),
            (-1i8, -1i8),
            (1i8, -1i8),
            (-1i8, 1i8),
            (1i8, 1i8),
        ],
        PieceType::Pawn => seq![(0i8, -1i8)],
        _ => seq![],
    }
}

/// The offset turned round.
pub open spec fn mirrored(offset: (i8, i8)) -> (i8, i8) {
    ((-offset.0) as i8, (-offset.1) as i8)
}

/// The steps of a stepping piece; those of the second player are the first
/// player's turned round.
pub open spec fn stepping_offsets(player: Player, p_type: PieceType) -> Seq<(i8, i8)> {
    if player == Player::Gote {
        base_offsets(p_type).map_values(|o: (i8, i8)| mirrored(o))
    } else {
        base_offsets(p_type)
    }
}

/// The steps of a stepping piece of `player`; none for a rook or a bishop.
pub fn get_stepping_offsets(player: Player, p_type: PieceType) -> (offsets: Vec<(i8, i8)>)
    ensures
        offsets@ == stepping_offsets(player, p_type),
{
    let forward: (i8, i8) = (0, -1);
    let back: (i8, i8) = (0, 1);
    let side_left: (i8, i8) = (-1, 0);
    let side_right: (i8, i8) = (1, 0);
    let diag_f_left: (i8, i8) = (-1, -1);
    let diag_f_right: (i8, i8) = (1, -1);
    let diag_b_left: (i8, i8) = (-1, 1);
    let diag_b_right: (i8, i8) = (1, 1);

    let mut offsets: Vec<(i8, i8)> = match p_type {
        PieceType::King => vec![
            forward,
            back,
            side_left,
            side_right,
            diag_f_left,
            diag_f_right,
            diag_b_left,
            diag_b_right,
        ],
        PieceType::Gold => vec![
            forward,
            back,
            side_left,
            side_right,
            diag_f_left,
            diag_f_right,
        ],
        PieceType::Silver => vec![forward, diag_f_left, diag_f_right, diag_b_left, diag_b_right],
        PieceType::Pawn => vec![forward],
        _ => vec![],
    };
    assert(offsets@ =~= base_offsets(p_type));

    if player == Player::Gote {
        let n = offsets.len();
        let mut i: usize = 0;
        while i < n
            invariant
                i <= n,
                n == offsets.len(),
                n == base_offsets(p_type).len(),
                forall|j: int|
                    0 <= j < i ==> offsets[j] == mirrored(#[trigger] base_offsets(p_type)[j]),
                forall|j: int| i <= j < n ==> offsets[j] == #[trigger] base_offsets(p_type)[j],
                forall|j: int|
                    0 <= j < n ==> -1 <= (#[trigger] base_offsets(p_type)[j]).0 <= 1 && -1
                        <= base_offsets(p_type)[j].1 <= 1,
            decreases n - i,
        {
            let p = offsets[i];
            assert(p == base_offsets(p_type)[i as int]);
            offsets.set(i, (-p.0, -p.1));
            i += 1;
        }
        assert(offsets@ =~= stepping_offsets(player, p_type));
    }
    offsets
}

/// The squares reached by one step each from `from`, in the order of
/// `offsets`: those on the board that hold no piece of `player`.
pub open spec fn step_destinations(
    board: Board,
    player: Player,
    from: Position,
    offsets: Seq<(i8, i8)>,
) -> Seq<Position>
    decreases offsets.len(),
{
    if offsets.len() == 0 {
        Seq::empty()
    } else {
        let o = offsets.last();
        step_destinations(board, player, from, offsets.drop_last()) + (match spec_apply_offset(
            from,
            o.0,
            o.1,
        ) {
            Some(to) => if spec_is_friendly_piece(board, to, player) {
                Seq::empty()
            } else {
                seq![to]
            },
            None => Seq::empty(),
        })
    }
}

/// Adds to `destinations` the squares that one step of each of `offsets`
/// reaches from `from`.
pub fn collect_stepping_moves(
    destinations: &mut Vec<Position>,
    board: &Board,
    player: Player,
    from: Position,
    offsets: &[(i8, i8)],
)
    requires
        from.wf(),
    ensures
        final(destinations)@ == old(destinations)@ + step_destinations(
            *board,
            player,
            from,
            offsets@,
        ),
{
    let n = offsets.len();
    let mut i: usize = 0;
    assert(offsets@.take(0) =~= Seq::empty());
    while i < n
        invariant
            i <= n,
            n == offsets@.len(),
            from.wf(),
            destinations@ == old(destinations)@ + step_destinations(
                *board,
                player,
                from,
                offsets@.take(i as int),
            ),
        decreases n - i,
    {
        let (dx, dy) = offsets[i];
        proof {
            assert(offsets@.take(i + 1).drop_last() =~= offsets@.take(i as int));
            assert(offsets@.take(i + 1).last() == offsets@[i as int]);
        }
        if let Some(to) = apply_offset(from, dx, dy) {
            if !is_friendly_piece(board, to, player) {
                destinations.push(to);
            }
        }
        i += 1;
    }
    assert(offsets@.take(n as int) =~= offsets@);
}

/// The squares that a piece sliding from `curr` along `dir` reaches, nearest
/// first: it passes over empty squares, stops on the first occupied one and
/// reaches it where the piece there is an opponent's. At most `fuel` squares
/// are walked; four reach every edge of the board.
pub open spec fn ray(board: Board, player: Player, curr: Position, dir: (i8, i8), fuel: nat) -> Seq<
    Position,
>
    decreases fuel,
{
    if fuel == 0 {
        Seq::empty()
    } else {
        match spec_apply_offset(curr, dir.0, dir.1) {
            None => Seq::empty(),
            Some(next) => match at(board, next) {
                Some(target) => if target.owner != player {
                    seq![next]
                } else {
                    Seq::empty()
                },
                None => seq![next] + ray(board, player, next, dir, (fuel - 1) as nat),
            },
        }
    }
}

/// The squares reached by sliding from `from` along each of `dirs` in turn.
pub open spec fn slide_destinations(
    board: Board,
    player: Player,
    from: Position,
    dirs: Seq<(i8, i8)>,
) -> Seq<Position>
    decreases dirs.len(),
{
    if dirs.len() == 0 {
        Seq::empty()
    } else {
        slide_destinations(board, player, from, dirs.drop_last()) + ray(
            board,
            player,
            from,
            dirs.last(),
            4,
        )
    }
}

/// Adds to `destinations` the squares that a slide along each of `dirs`
/// reaches from `from`.
pub fn collect_sliding_moves(
    destinations: &mut Vec<Position>,
    board: &Board,
    player: Player,
    from: Position,
    dirs: &[(i8, i8)],
)
    requires
        from.wf(),
    ensures
        final(destinations)@ == old(destinations)@ + slide_destinations(
            *board,
            player,
            from,
            dirs@,
        ),
{
    let n = dirs.len();
    let mut i: usize = 0;
    assert(dirs@.take(0) =~= Seq::empty());
    while i < n
        invariant
            i <= n,
            n == dirs@.len(),
            from.wf(),
            destinations@ == old(destinations)@ + slide_destinations(
                *board,
                player,
                from,
                dirs@.take(i as int),
            ),
        decreases n - i,
    {
        let (dx, dy) = dirs[i];
        let ghost before = destinations@;
        let ghost whole = ray(*board, player, from, (dx, dy), 4);
        let mut curr = from;
        let mut steps: usize = 0;
        while steps < 4
            invariant_except_break
                steps <= 4,
                curr.wf(),
                destinations@ + ray(*board, player, curr, (dx, dy), (4 - steps) as nat) == before
                    + whole,
            ensures
                destinations@ == before + whole,
            decreases 4 - steps,
        {
            match apply_offset(curr, dx, dy) {
                None => {
                    assert(destinations@ + Seq::<Position>::empty() =~= destinations@);
                    break ;
                },
                Some(next) => {
                    let ghost rest = ray(*board, player, next, (dx, dy), (4 - steps - 1) as nat);
                    if let Some(target_piece) = board[next.y][next.x] {
                        let ghost prev = destinations@;
                        if target_piece.owner != player {
                            destinations.push(next);
                            assert(prev + seq![next] =~= destinations@);
                        } else {
                            assert(prev + Seq::<Position>::empty() =~= destinations@);
                        }
                        break ;
                    } else {
                        let ghost prev = destinations@;
                        destinations.push(next);
                        assert(prev + (seq![next] + rest) =~= destinations@ + rest);
                        curr = next;
                    }
                },
            }
            steps += 1;
        }
        proof {
            assert(destinations@ + Seq::<Position>::empty() =~= destinations@);
            assert(dirs@.take(i + 1).drop_last() =~= dirs@.take(i as int));
            assert(dirs@.take(i + 1).last() == dirs@[i as int]);
            let sofar = slide_destinations(*board, player, from, dirs@.take(i as int));
            assert(old(destinations)@ + (sofar + whole) =~= (old(destinations)@ + sofar) + whole);
        }
        i += 1;
    }
    assert(dirs@.take(n as int) =~= dirs@);
}

/// The directions along columns and rows.
pub open spec fn orthogonal_dirs() -> Seq<(i8, i8)> {
    seq![(0i8, -1i8), (0i8, 1i8), (-1i8, 0i8), (1i8, 0i8)]
}

/// The directions along diagonals.
pub open spec fn diagonal_dirs() -> Seq<(i8, i8)> {
    seq![(-1i8, -1i8), (-1i8, 1i8), (1i8, -1i8), (1i8, 1i8)]
}

/// The squares that the piece of `player` with the given type and promotion,
/// standing on `from`, can move to. A rook slides along rows and columns, a
/// bishop along diagonals; promoted, each also steps one square the other
/// way. A promoted pawn or silver steps as a gold. Every other piece steps
/// by its own offsets.
pub open spec fn piece_destinations(
    board: Board,
    player: Player,
    p_type: PieceType,
    promoted: bool,
    from: Position,
) -> Seq<Position> {
    if promoted {
        match p_type {
            PieceType::Rook => slide_destinations(board, player, from, orthogonal_dirs())
                + step_destinations(board, player, from, diagonal_dirs()),
            PieceType::Bishop => slide_destinations(board, player, from, diagonal_dirs())
                + step_destinations(board, player, from, orthogonal_dirs()),
            PieceType::Pawn | PieceType::Silver => step_destinations(
                board,
                player,
                from,
                stepping_offsets(player, PieceType::Gold),
            ),
            _ => Seq::empty(),
        }
    } else {
        match p_type {
            PieceType::Rook => slide_destinations(board, player, from, orthogonal_dirs()),
            PieceType::Bishop => slide_destinations(board, player, from, diagonal_dirs()),
            _ => step_destinations(board, player, from, stepping_offsets(player, p_type)),
        }
    }
}

/// The squares that a piece on `from` can move to.
pub fn collect_piece_destinations(
    board: &Board,
    player: Player,
    p_type: PieceType,
    promoted: bool,
    from: Position,
) -> (destinations: Vec<Position>)
    requires
        from.wf(),
    ensures
        destinations@ == piece_destinations(*board, player, p_type, promoted, from),
{
    let mut destinations: Vec<Position> = Vec::new();
    let ortho: [(i8, i8); 4] = [(0, -1), (0, 1), (-1, 0), (1, 0)];
    let diag: [(i8, i8); 4] = [(-1, -1), (-1, 1), (1, -1), (1, 1)];
    assert(ortho@ =~= orthogonal_dirs());
    assert(diag@ =~= diagonal_dirs());

    if promoted {
        match p_type {
            PieceType::Rook => {
                collect_sliding_moves(&mut destinations, board, player, from, &ortho);
                collect_stepping_moves(&mut destinations, board, player, from, &diag);
            },
            PieceType::Bishop => {
                collect_sliding_moves(&mut destinations, board, player, from, &diag);
                collect_stepping_moves(&mut destinations, board, player, from, &ortho);
            },
            PieceType::Pawn | PieceType::Silver => {
                let offsets = get_stepping_offsets(player, PieceType::Gold);
                collect_stepping_moves(&mut destinations, board, player, from, offsets.as_slice());
            },
            _ => {},
        }
    } else {
        match p_type {
            PieceType::Rook => {
                collect_sliding_moves(&mut destinations, board, player, from, &ortho);
            },
            PieceType::Bishop => {
                collect_sliding_moves(&mut destinations, board, player, from, &diag);
            },
            _ => {
                let offsets = get_stepping_offsets(player, p_type);
                collect_stepping_moves(&mut destinations, board, player, from, offsets.as_slice());
            },
        }
    }
    assert(destinations@ =~= piece_destinations(*board, player, p_type, promoted, from));
    destinations
}

/// The moves that take a piece from `from` to `to`: with and without
/// promotion where an unpromoted piece that can promote starts or lands in
/// the promotion zone, but only with promotion where it has to promote;
/// without promotion otherwise.
pub open spec fn move_variants(
    player: Player,
    p_type: PieceType,
    promoted: bool,
    from: Position,
    to: Position,
) -> Seq<Move> {
    if !promoted && spec_can_piece_promote(p_type) && (spec_is_in_promotion_zone(player, from.y)
        || spec_is_in_promotion_zone(player, to.y)) {
        if spec_must_promote(player, p_type, to.y) {
            seq![Move::To(from, to, true)]
        } else {
            seq![Move::To(from, to, true), Move::To(from, to, false)]
        }
    } else {
        seq![Move::To(from, to, false)]
    }
}

/// The moves from `from` to each of `destinations` in turn.
pub open spec fn moves_to(
    player: Player,
    p_type: PieceType,
    promoted: bool,
    from: Position,
    destinations: Seq<Position>,
) -> Seq<Move>
    decreases destinations.len(),
{
    if destinations.len() == 0 {
        Seq::empty()
    } else {
        moves_to(player, p_type, promoted, from, destinations.drop_last()) + move_variants(
            player,
            p_type,
            promoted,
            from,
            destinations.last(),
        )
    }
}

/// The relocations of the piece of `player` that stands on `from`.
pub open spec fn piece_moves(
    board: Board,
    player: Player,
    p_type: PieceType,
    promoted: bool,
    from: Position,
) -> Seq<Move> {
    moves_to(
        player,
        p_type,
        promoted,
        from,
        piece_destinations(board, player, p_type, promoted, from),
    )
}

/// Adds to `moves` the relocations of the piece on `from`.
pub fn add_move_for_piece(
    moves: &mut Vec<Move>,
    board: &Board,
    player: Player,
    p_type: PieceType,
    promoted: bool,
    from: Position,
)
    requires
        from.wf(),
    ensures
        final(moves)@ == old(moves)@ + piece_moves(*board, player, p_type, promoted, from),
{
    let destinations = collect_piece_destinations(board, player, p_type, promoted, from);
    let can_promote = !promoted && can_piece_promote(p_type);

    let n = destinations.len();
    let mut i: usize = 0;
    assert(destinations@.take(0) =~= Seq::empty());
    while i < n
        invariant
            i <= n,
            n == destinations@.len(),
            can_promote == (!promoted && spec_can_piece_promote(p_type)),
            moves@ == old(moves)@ + moves_to(
                player,
                p_type,
                promoted,
                from,
                destinations@.take(i as int),
            ),
        decreases n - i,
    {
        let to = destinations[i];
        let ghost before = moves@;
        let ghost sofar = moves_to(player, p_type, promoted, from, destinations@.take(i as int));
        if can_promote && (is_in_promotion_zone(player, from.y) || is_in_promotion_zone(
            player,
            to.y,
        )) {
            moves.push(Move::To(from, to, true));
            if !must_promote(player, p_type, to.y) {
                moves.push(Move::To(from, to, false));
            }
        } else {
            moves.push(Move::To(from, to, false));
        }
        proof {
            assert(destinations@.take(i + 1).drop_last() =~= destinations@.take(i as int));
            assert(destinations@.take(i + 1).last() == to);
            let added = move_variants(player, p_type, promoted, from, to);
            assert(moves@ =~= before + added);
            assert(old(moves)@ + (sofar + added) =~= (old(moves)@ + sofar) + added);
        }
        i += 1;
    }
    assert(destinations@.take(n as int) =~= destinations@);
}

/// The relocations of the piece on the `n`-th square, if it is one of
/// `player`.
pub open spec fn square_moves(board: Board, player: Player, n: int) -> Seq<Move> {
    match at(board, nth_square(n)) {
        Some(piece) => if piece.owner == player {
            piece_moves(board, player, piece.piece_type, piece.promoted, nth_square(n))
        } else {
            Seq::empty()
        },
        None => Seq::empty(),
    }
}

/// The relocations of the pieces of `player` on the first `n` squares, in
/// row-major order of their origins.
pub open spec fn relocations(board: Board, player: Player, n: nat) -> Seq<Move>
    decreases n,
{
    if n == 0 {
        Seq::empty()
    } else {
        relocations(board, player, (n - 1) as nat) + square_moves(board, player, n - 1)
    }
}

/// Whether `cell` holds an unpromoted pawn of `player`.
pub open spec fn is_own_pawn(cell: Option<Piece>, player: Player) -> bool {
    cell matches Some(piece) && piece.piece_type == PieceType::Pawn && piece.owner == player
        && !piece.promoted
}

/// Whether one of the first `rows` rows holds, in column `x`, an unpromoted
/// pawn of `player`.
pub open spec fn pawn_in_column(board: Board, player: Player, x: int, rows: nat) -> bool
    decreases rows,
{
    if rows == 0 {
        false
    } else {
        pawn_in_column(board, player, x, (rows - 1) as nat) || is_own_pawn(
            square(board, x, rows - 1),
            player,
        )
    }
}

/// Whether `player` may put a piece of type `p_type` from the hand on `pos`
/// as far as the board alone decides: the square is empty, and a pawn does
/// not join another unpromoted pawn of `player` in its column.
pub open spec fn may_drop(board: Board, player: Player, p_type: PieceType, pos: Position) -> bool {
    at(board, pos) is None && !(p_type == PieceType::Pawn && pawn_in_column(
        board,
        player,
        pos.x as int,
        5,
    ))
}

/// The drops of a piece of type `p_type` on the first `n` squares.
pub open spec fn drops_of(board: Board, player: Player, p_type: PieceType, n: nat) -> Seq<Move>
    decreases n,
{
    if n == 0 {
        Seq::empty()
    } else {
        drops_of(board, player, p_type, (n - 1) as nat) + (if may_drop(
            board,
            player,
            p_type,
            nth_square(n - 1),
        ) {
            seq![Move::Drop(nth_square(n - 1), p_type)]
        } else {
            Seq::empty()
        })
    }
}

/// The order in which the types in a hand are tried for drops.
pub open spec fn drop_order() -> Seq<PieceType> {
    seq![PieceType::Pawn, PieceType::Silver, PieceType::Gold, PieceType::Bishop, PieceType::Rook]
}

/// The drops of the first `k` types of `drop_order` that `player` holds.
pub open spec fn drops(state: GameState, player: Player, k: nat) -> Seq<Move>
    decreases k,
{
    if k == 0 {
        Seq::empty()
    } else {
        let p_type = drop_order()[k - 1];
        drops(state, player, (k - 1) as nat) + (if state.hand(player).count(p_type) > 0 {
            drops_of(state.board, player, p_type, 25)
        } else {
            Seq::empty()
        })
    }
}

/// The moves of `player` before the rule against mating with a dropped
/// pawn is applied: the relocations of every piece, then the drops.
pub open spec fn spec_generate_moves(state: GameState, player: Player) -> Seq<Move> {
    relocations(state.board, player, 25) + drops(state, player, 5)
}

/// The moves of `player` with the two-pawn rule applied and without the
/// test for a mate by a dropped pawn.
pub fn generate_moves(state: &GameState, player: Player) -> (moves: Vec<Move>)
    ensures
        moves@ == spec_generate_moves(*state, player),
{
    let mut moves: Vec<Move> = Vec::new();

    let mut y: usize = 0;
    while y < 5
        invariant
            y <= 5,
            moves@ == relocations(state.board, player, (y * 5) as nat),
        decreases 5 - y,
    {
        let mut x: usize = 0;
        while x < 5
            invariant
                x <= 5,
                y < 5,
                moves@ == relocations(state.board, player, (y * 5 + x) as nat),
            decreases 5 - x,
        {
            let from = Position::new(x, y);
            assert(nth_square(y * 5 + x) == from);
            let ghost before = moves@;
            if let Some(piece) = state.board[y][x] {
                if piece.owner == player {
                    add_move_for_piece(
                        &mut moves,
                        &state.board,
                        player,
                        piece.piece_type,
                        piece.promoted,
                        from,
                    );
                }
            }
            assert(moves@ =~= before + square_moves(state.board, player, y * 5 + x));
            x += 1;
        }
        y += 1;
    }

    let hand = state.get_hand(player);
    let piece_types = [
        PieceType::Pawn,
        PieceType::Silver,
        PieceType::Gold,
        PieceType::Bishop,
        PieceType::Rook,
    ];
    assert(piece_types@ =~= drop_order());

    let mut pawn_columns = [false;5];
    let mut x: usize = 0;
    while x < 5
        invariant
            x <= 5,
            forall|c: int|
                0 <= c < x ==> #[trigger] pawn_columns[c] == pawn_in_column(
                    state.board,
                    player,
                    c,
                    5,
                ),
        decreases 5 - x,
    {
        let mut found = false;
        let mut y: usize = 0;
        while y < 5
            invariant
                y <= 5,
                x < 5,
                found == pawn_in_column(state.board, player, x as int, y as nat),
            decreases 5 - y,
        {
            if let Some(piece) = state.board[y][x] {
                if piece.piece_type == PieceType::Pawn && piece.owner == player && !piece.promoted {
                    found = true;
                }
            }
            y += 1;
        }
        pawn_columns[x] = found;
        x += 1;
    }

    let ghost relocated = moves@;
    let mut k: usize = 0;
    while k < 5
        invariant
            k <= 5,
            piece_types@ == drop_order(),
            *hand == state.hand(player),
            forall|c: int|
                0 <= c < 5 ==> #[trigger] pawn_columns[c] == pawn_in_column(
                    state.board,
                    player,
                    c,
                    5,
                ),
            moves@ == relocated + drops(*state, player, k as nat),
        decreases 5 - k,
    {
        let piece_type = piece_types[k];
        let ghost before = moves@;
        if hand.get(piece_type) > 0 {
            let mut y: usize = 0;
            while y < 5
                invariant
                    y <= 5,
                    forall|c: int|
                        0 <= c < 5 ==> #[trigger] pawn_columns[c] == pawn_in_column(
                            state.board,
                            player,
                            c,
                            5,
                        ),
                    moves@ == before + drops_of(state.board, player, piece_type, (y * 5) as nat),
                decreases 5 - y,
            {
                let mut x: usize = 0;
                while x < 5
                    invariant
                        x <= 5,
                        y < 5,
                        forall|c: int|
                            0 <= c < 5 ==> #[trigger] pawn_columns[c] == pawn_in_column(
                                state.board,
                                player,
                                c,
                                5,
                            ),
                        moves@ == before + drops_of(
                            state.board,
                            player,
                            piece_type,
                            (y * 5 + x) as nat,
                        ),
                    decreases 5 - x,
                {
                    let ghost prev = moves@;
                    let ghost sofar = drops_of(
                        state.board,
                        player,
                        piece_type,
                        (y * 5 + x) as nat,
                    );
                    assert(nth_square(y * 5 + x) == (Position { x, y }));
                    if state.board[y][x].is_none() {
                        if !(piece_type == PieceType::Pawn && pawn_columns[x]) {
                            moves.push(Move::Drop(Position::new(x, y), piece_type));
                            assert(moves@ =~= before + (sofar + seq![
                                Move::Drop(Position { x, y }, piece_type),
                            ]));
                        }
                    }
                    assert(moves@ =~= before + drops_of(
                        state.board,
                        player,
                        piece_type,
                        (y * 5 + x + 1) as nat,
                    ));
                    x += 1;
                }
                y += 1;
            }
        }
        proof {
            let sofar = drops(*state, player, k as nat);
            let added = if state.hand(player).count(piece_type) > 0 {
                drops_of(state.board, player, piece_type, 25)
            } else {
                Seq::empty()
            };
            assert(moves@ =~= before + added);
            assert(relocated + (sofar + added) =~= (relocated + sofar) + added);
        }
        k += 1;
    }
    moves
}

/// The board with `content` on `pos` and every other square as before.
pub open spec fn board_with(board: Board, pos: Position, content: Option<Piece>) -> Board {
    vstd::array::spec_array_update(
        board,
        pos.y as int,
        vstd::array::spec_array_update(board[pos.y as int], pos.x as int, content),
    )
}

/// `board_with` changes the one square and no other.
pub proof fn lemma_board_with(board: Board, pos: Position, content: Option<Piece>)
    requires
        pos.wf(),
    ensures
        at(board_with(board, pos, content), pos) == content,
        forall|x: int, y: int|
            0 <= x < 5 && 0 <= y < 5 ==> #[trigger] square(board_with(board, pos, content), x, y)
                == (if x == pos.x && y == pos.y {
                content
            } else {
                square(board, x, y)
            }),
{
}

/// Whether `make_move` can apply `mv`: its squares are on the board, a
/// relocation starts from an occupied square, and the hand of `player` can
/// still count the piece that a relocation captures.
pub open spec fn playable(state: GameState, mv: Move, player: Player) -> bool {
    &&& mv.wf()
    &&& mv matches Move::To(from, to, _) ==> {
        &&& at(state.board, from) is Some
        &&& at(state.board, to) matches Some(captured) ==> state.hand(player).count(
            captured.piece_type,
        ) < 255
    }
}

/// Tests whether `make_move` can apply `mv`.
pub fn is_playable(state: &GameState, mv: Move, player: Player) -> (ok: bool)
    ensures
        ok == playable(*state, mv, player),
{
    match mv {
        Move::To(from, to, _) => {
            if from.x >= 5 || from.y >= 5 || to.x >= 5 || to.y >= 5 {
                return false;
            }
            if state.board[from.y][from.x].is_none() {
                return false;
            }
            match state.board[to.y][to.x] {
                Some(captured) => state.get_hand(player).get(captured.piece_type) < 255,
                None => true,
            }
        },
        Move::Drop(to, _) => to.x < 5 && to.y < 5,
    }
}

/// The state after `player` has made the move `mv`.
///
/// A relocation takes the piece from its origin to its destination and
/// promotes it where the move says so; a piece that stood on the
/// destination goes, unpromoted, to the hand of `player`. A drop takes one
/// piece of the type out of the hand and puts it, unpromoted, on the target;
/// where the hand holds none, the state stays as it is.
pub open spec fn spec_make_move(state: GameState, mv: Move, player: Player) -> GameState {
    match mv {
        Move::To(from, to, promote) => {
            let piece = at(state.board, from)->0;
            let moved = Piece { promoted: piece.promoted || promote, ..piece };
            let hand = match at(state.board, to) {
                Some(captured) => state.hand(player).with_added(captured.piece_type),
                None => state.hand(player),
            };
            let board = board_with(board_with(state.board, to, Some(moved)), from, None);
            GameState { board, ..state.with_hand(player, hand) }
        },
        Move::Drop(to, p_type) => {
            if state.hand(player).count(p_type) > 0 {
                let piece = Piece { piece_type: p_type, owner: player, promoted: false };
                GameState {
                    board: board_with(state.board, to, Some(piece)),
                    ..state.with_hand(player, state.hand(player).with_removed(p_type))
                }
            } else {
                state
            }
        },
    }
}

/// The state after `player` has made the move `mv`; `state` itself stays as
/// it is.
pub fn make_move(state: &GameState, mv: Move, player: Player) -> (next: GameState)
    requires
        playable(*state, mv, player),
    ensures
        next == spec_make_move(*state, mv, player),
{
    let mut new_state = *state;

    match mv {
        Move::To(from, to, promote) => {
            let mut piece = new_state.board[from.y][from.x].unwrap();

            if let Some(captured) = new_state.board[to.y][to.x] {
                new_state.get_hand_mut(player).add(captured.piece_type);
            }
            if promote {
                piece.promoted = true;
            }
            new_state.board[to.y][to.x] = Some(piece);
            new_state.board[from.y][from.x] = None;
            proof {
                let expected = spec_make_move(*state, mv, player);
                lemma_board_with(state.board, to, Some(piece));
                lemma_board_with(board_with(state.board, to, Some(piece)), from, None);
                assert(new_state.board =~~= expected.board);
            }
        },
        Move::Drop(to, piece_type) => {
            if new_state.get_hand_mut(player).remove(piece_type) {
                let piece = Piece { piece_type, owner: player, promoted: false };
                new_state.board[to.y][to.x] = Some(piece);
                proof {
                    let expected = spec_make_move(*state, mv, player);
                    lemma_board_with(state.board, to, Some(piece));
                    assert(new_state.board =~~= expected.board);
                }
            }
        },
    }

    new_state
}

/// Whether `cell` holds the king of `player`.
pub open spec fn is_king_of(cell: Option<Piece>, player: Player) -> bool {
    cell matches Some(piece) && piece.piece_type == PieceType::King && piece.owner == player
}

/// The first of the first `n` squares, in row-major order, that holds the
/// king of `player`.
pub open spec fn king_among(board: Board, player: Player, n: nat) -> Option<Position>
    decreases n,
{
    if n == 0 {
        None
    } else {
        match king_among(board, player, (n - 1) as nat) {
            Some(pos) => Some(pos),
            None => if is_king_of(at(board, nth_square(n - 1)), player) {
                Some(nth_square(n - 1))
            } else {
                None
            },
        }
    }
}

/// Where the king of `player` stands, if it is on the board.
pub open spec fn spec_find_king(state: GameState, player: Player) -> Option<Position> {
    king_among(state.board, player, 25)
}

/// A king found among the first `m` squares is the one found among more.
pub proof fn lemma_king_among_stable(board: Board, player: Player, m: nat, n: nat)
    requires
        m <= n,
        king_among(board, player, m) is Some,
    ensures
        king_among(board, player, n) == king_among(board, player, m),
    decreases n,
{
    if m < n {
        lemma_king_among_stable(board, player, m, (n - 1) as nat);
    }
}

/// A king that is found stands on the board, and is the king of `player`.
pub proof fn lemma_king_among_found(board: Board, player: Player, n: nat)
    requires
        n <= 25,
    ensures
        king_among(board, player, n) matches Some(pos) ==> pos.wf() && is_king_of(
            at(board, pos),
            player,
        ),
        king_among(board, player, n) is None ==> forall|i: int|
            0 <= i < n ==> !is_king_of(at(board, #[trigger] nth_square(i)), player),
    decreases n,
{
    if n > 0 {
        lemma_king_among_found(board, player, (n - 1) as nat);
    }
}

/// Where the king of `player` stands: the first square in row-major order
/// that holds one.
pub fn find_king(state: &GameState, player: Player) -> (king: Option<Position>)
    ensures
        king == spec_find_king(*state, player),
        king matches Some(pos) ==> pos.wf(),
{
    let mut y: usize = 0;
    while y < 5
        invariant
            y <= 5,
            king_among(state.board, player, (y * 5) as nat) is None,
        decreases 5 - y,
    {
        let mut x: usize = 0;
        while x < 5
            invariant
                x <= 5,
                y < 5,
                king_among(state.board, player, (y * 5 + x) as nat) is None,
            decreases 5 - x,
        {
            assert(nth_square(y * 5 + x) == (Position { x, y }));
            if let Some(piece) = state.board[y][x] {
                if piece.piece_type == PieceType::King && piece.owner == player {
                    proof {
                        lemma_king_among_stable(state.board, player, (y * 5 + x + 1) as nat, 25);
                    }
                    return Some(Position::new(x, y));
                }
            }
            x += 1;
        }
        y += 1;
    }
    None
}

/// Whether the piece on the `n`-th square is one of `attacker` that can
/// move to `target`.
pub open spec fn attacks(board: Board, attacker: Player, n: int, target: Position) -> bool {
    at(board, nth_square(n)) matches Some(piece) && piece.owner == attacker && piece_destinations(
        board,
        attacker,
        piece.piece_type,
        piece.promoted,
        nth_square(n),
    ).contains(target)
}

/// Whether a piece of `attacker` can move to `target`.
pub open spec fn is_attacked(board: Board, attacker: Player, target: Position) -> bool {
    exists|n: int| 0 <= n < 25 && #[trigger] attacks(board, attacker, n, target)
}

/// A player is in check when it has a king on the board and a piece of the
/// opponent can move to the square of that king.
pub open spec fn spec_is_in_check(state: GameState, player: Player) -> bool {
    match spec_find_king(state, player) {
        None => false,
        Some(king_pos) => is_attacked(state.board, spec_opponent_of(player), king_pos),
    }
}

/// Whether `player` is in check.
pub fn is_in_check(state: &GameState, player: Player) -> (check: bool)
    ensures
        check == spec_is_in_check(*state, player),
{
    let king_pos = match find_king(state, player) {
        Some(pos) => pos,
        None => return false,
    };

    let opponent = opponent_of(player);

    let mut y: usize = 0;
    while y < 5
        invariant
            y <= 5,
            opponent == spec_opponent_of(player),
            spec_find_king(*state, player) == Some(king_pos),
            forall|n: int|
                0 <= n < y * 5 ==> !#[trigger] attacks(state.board, opponent, n, king_pos),
        decreases 5 - y,
    {
        let mut x: usize = 0;
        while x < 5
            invariant
                x <= 5,
                y < 5,
                opponent == spec_opponent_of(player),
                spec_find_king(*state, player) == Some(king_pos),
                forall|n: int|
                    0 <= n < y * 5 + x ==> !#[trigger] attacks(state.board, opponent, n, king_pos),
            decreases 5 - x,
        {
            assert(nth_square(y * 5 + x) == (Position { x, y }));
            if let Some(piece) = state.board[y][x] {
                if piece.owner == opponent {
                    let from = Position::new(x, y);
                    let dests = collect_piece_destinations(
                        &state.board,
                        opponent,
                        piece.piece_type,
                        piece.promoted,
                        from,
                    );
                    let n = dests.len();
                    let mut i: usize = 0;
                    while i < n
                        invariant
                            i <= n,
                            n == dests@.len(),
                            x < 5,
                            y < 5,
                            forall|j: int| 0 <= j < i ==> dests@[j] != king_pos,
                            dests@ == piece_destinations(
                                state.board,
                                opponent,
                                piece.piece_type,
                                piece.promoted,
                                Position { x, y },
                            ),
                            state.board[y as int][x as int] == Some(piece),
                            piece.owner == opponent,
                            opponent == spec_opponent_of(player),
                            spec_find_king(*state, player) == Some(king_pos),
                            nth_square(y * 5 + x) == (Position { x, y }),
                        decreases n - i,
                    {
                        let d = dests[i];
                        if d.x == king_pos.x && d.y == king_pos.y {
                            assert(dests@[i as int] == king_pos);
                            assert(attacks(state.board, opponent, y * 5 + x, king_pos));
                            return true;
                        }
                        i += 1;
                    }
                    assert(!dests@.contains(king_pos));
                }
            }
            x += 1;
        }
        y += 1;
    }

    false
}

/// A player is checkmated when it is in check and stays in check after
/// every move it can make, the test for a mate by a dropped pawn left aside.
pub open spec fn spec_is_checkmate(state: GameState, player: Player) -> bool {
    spec_is_in_check(state, player) && forall|i: int|
        0 <= i < spec_generate_moves(state, player).len() ==> spec_is_in_check(
            spec_make_move(state, #[trigger] spec_generate_moves(state, player)[i], player),
            player,
        )
}

/// Whether `player` is checkmated.
pub fn is_checkmate(state: &GameState, player: Player) -> (mate: bool)
    requires
        state.wf(),
    ensures
        mate == spec_is_checkmate(*state, player),
{
    if !is_in_check(state, player) {
        return false;
    }
    let moves = generate_moves(state, player);
    proof {
        lemma_generated_moves(*state, player);
    }
    let n = moves.len();
    let mut i: usize = 0;
    while i < n
        invariant
            i <= n,
            n == moves@.len(),
            state.wf(),
            moves@ == spec_generate_moves(*state, player),
            forall|j: int|
                0 <= j < moves@.len() ==> generated_ok(
                    *state,
                    player,
                    #[trigger] moves@[j],
                ),
            forall|j: int|
                0 <= j < i ==> spec_is_in_check(
                    spec_make_move(*state, #[trigger] moves@[j], player),
                    player,
                ),
        decreases n - i,
    {
        let mv = moves[i];
        proof {
            lemma_generated_playable(*state, player, mv);
        }
        let new_state = make_move(state, mv, player);
        if !is_in_check(&new_state, player) {
            return false;
        }
        i += 1;
    }

    true
}

/// Whether `mv` is the drop of a pawn that leaves the opponent of `player`
/// checkmated.
pub open spec fn is_pawn_drop_mate(state: GameState, mv: Move, player: Player) -> bool {
    mv matches Move::Drop(_, PieceType::Pawn) && spec_is_checkmate(
        spec_make_move(state, mv, player),
        spec_opponent_of(player),
    )
}

/// The test that a generated move passes to be legal.
pub open spec fn is_legal(state: GameState, player: Player) -> spec_fn(Move) -> bool {
    |mv: Move| !is_pawn_drop_mate(state, mv, player)
}

/// The legal moves of `player`: the generated moves, in their order,
/// without the drops of a pawn that would checkmate the opponent.
pub open spec fn spec_generate_legal_moves(state: GameState, player: Player) -> Seq<Move> {
    spec_generate_moves(state, player).filter(is_legal(state, player))
}

/// The legal moves of `player`, in the order in which they are generated.
pub fn generate_legal_moves(state: &GameState, player: Player) -> (moves: Vec<Move>)
    requires
        state.wf(),
    ensures
        moves@ == spec_generate_legal_moves(*state, player),
{
    let candidates = generate_moves(state, player);
    let opponent = opponent_of(player);
    proof {
        lemma_generated_moves(*state, player);
    }

    let mut moves: Vec<Move> = Vec::new();
    let n = candidates.len();
    let mut i: usize = 0;
    proof {
        reveal(Seq::filter);
        assert(candidates@.take(0) =~= Seq::empty());
    }
    while i < n
        invariant
            i <= n,
            n == candidates@.len(),
            state.wf(),
            opponent == spec_opponent_of(player),
            candidates@ == spec_generate_moves(*state, player),
            forall|j: int|
                0 <= j < candidates@.len() ==> generated_ok(
                    *state,
                    player,
                    #[trigger] candidates@[j],
                ),
            moves@ == candidates@.take(i as int).filter(is_legal(*state, player)),
        decreases n - i,
    {
        let mv = candidates[i];
        let keep = match mv {
            Move::Drop(_, PieceType::Pawn) => {
                proof {
                    lemma_generated_playable(*state, player, mv);
                    lemma_make_move_wf(*state, player, mv);
                }
                let new_state = make_move(state, mv, player);
                !is_checkmate(&new_state, opponent)
            },
            _ => true,
        };
        proof {
            assert(keep == is_legal(*state, player)(mv));
            assert(candidates@.take(i + 1) =~= candidates@.take(i as int).push(mv));
            candidates@.take(i as int).lemma_filter_push(mv, is_legal(*state, player));
        }
        if keep {
            moves.push(mv);
        }
        i += 1;
    }
    assert(candidates@.take(n as int) =~= candidates@);
    moves
}

} // verus!
