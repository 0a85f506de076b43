//! The written form of squares, pieces and moves.
//!
//! A square is written as its column, `1` to `5` from the right, and its
//! row, `a` to `e` from the top. A relocation is written as its origin and
//! its destination, with `+` after the destination where the piece promotes;
//! a drop as the word `drop`, the piece and the target.

use crate::board::{GameState, PieceType, Player};
use crate::rules::{Move, Position};
use vstd::prelude::*;

verus! {

/// The column that a digit names.
pub open spec fn spec_parse_column(c: char) -> Option<usize> {
    if c == '1' {
        Some(4usize)
    } else if c == '2' {
        Some(3usize)
    } else if c == '3' {
        Some(2usize)
    } else if c == '4' {
        Some(1usize)
    } else if c == '5' {
        Some(0usize)
    } else {
        None
    }
}

/// Reads the digit of a column.
#[verifier::when_used_as_spec(spec_parse_column)]
pub fn parse_column(c: char) -> (column: Option<usize>)
    ensures
        column == spec_parse_column(c),
        column matches Some(x) ==> x < 5,
{
    match c {
        '1' => Some(4),
        '2' => Some(3),
        '3' => Some(2),
        '4' => Some(1),
        '5' => Some(0),
        _ => None,
    }
}

/// The row that a letter names.
pub open spec fn spec_parse_row(c: char) -> Option<usize> {
    if c == 'a' {
        Some(0usize)
    } else if c == 'b' {
        Some(1usize)
    } else if c == 'c' {
        Some(2usize)
    } else if c == 'd' {
        Some(3usize)
    } else if c == 'e' {
        Some(4usize)
    } else {
        None
    }
}

/// Reads the letter of a row.
#[verifier::when_used_as_spec(spec_parse_row)]
pub fn parse_row(c: char) -> (row: Option<usize>)
    ensures
        row == spec_parse_row(c),
        row matches Some(y) ==> y < 5,
{
    match c {
        'a' => Some(0),
        'b' => Some(1),
        'c' => Some(2),
        'd' => Some(3),
        'e' => Some(4),
        _ => None,
    }
}

/// Why a text is not the name of a square.
#[derive(Debug, Clone, Copy, PartialEq, Eq, Structural)]
pub enum PositionError {
    /// The text is not made of two characters of one byte each.
    Shape,
    /// The first character names no column.
    Column(char),
    /// The second character names no row.
    Row(char),
}

/// Whether a character takes one byte in UTF-8.
pub open spec fn is_one_byte(c: char) -> bool {
    (c as u32) < 128
}

/// The square that a text names.
pub open spec fn spec_parse_position(text: Seq<char>) -> Result<Position, PositionError> {
    if text.len() != 2 || !is_one_byte(text[0]) || !is_one_byte(text[1]) {
        Err(PositionError::Shape)
    } else {
        match spec_parse_column(text[0]) {
            None => Err(PositionError::Column(text[0])),
            Some(x) => match spec_parse_row(text[1]) {
                None => Err(PositionError::Row(text[1])),
                Some(y) => Ok(Position { x, y }),
            },
        }
    }
}

/// Reads the name of a square.
pub fn parse_position(text: &[char]) -> (parsed: Result<Position, PositionError>)
    ensures
        parsed == spec_parse_position(text@),
        parsed matches Ok(pos) ==> pos.wf(),
{
    if text.len() != 2 {
        return Err(PositionError::Shape);
    }
    let x_char = text[0];
    let y_char = text[1];
    if (x_char as u32) >= 128 || (y_char as u32) >= 128 {
        return Err(PositionError::Shape);
    }
    let x = match parse_column(x_char) {
        Some(x) => x,
        None => return Err(PositionError::Column(x_char)),
    };
    let y = match parse_row(y_char) {
        Some(y) => y,
        None => return Err(PositionError::Row(y_char)),
    };
    Ok(Position::new(x, y))
}

/// The digit that names a column; `?` for one that is not on the board.
pub open spec fn spec_column_char(x: usize) -> char {
    if x == 0 {
        '5'
    } else if x == 1 {
        '4'
    } else if x == 2 {
        '3'
    } else if x == 3 {
        '2'
    } else if x == 4 {
        '1'
    } else {
        '?'
    }
}

/// The letter that names a row; `?` for one that is not on the board.
pub open spec fn spec_row_char(y: usize) -> char {
    if y == 0 {
        'a'
    } else if y == 1 {
        'b'
    } else if y == 2 {
        'c'
    } else if y == 3 {
        'd'
    } else if y == 4 {
        'e'
    } else {
        '?'
    }
}

/// The digit that names a column.
#[verifier::when_used_as_spec(spec_column_char)]
pub fn column_char(x: usize) -> (c: char)
    ensures
        c == spec_column_char(x),
{
    match x {
        0 => '5',
        1 => '4',
        2 => '3',
        3 => '2',
        4 => '1',
        _ => '?',
    }
}

/// The letter that names a row.
#[verifier::when_used_as_spec(spec_row_char)]
pub fn row_char(y: usize) -> (c: char)
    ensures
        c == spec_row_char(y),
{
    match y {
        0 => 'a',
        1 => 'b',
        2 => 'c',
        3 => 'd',
        4 => 'e',
        _ => '?',
    }
}

/// The two characters that name a square.
pub open spec fn spec_format_position(pos: Position) -> (char, char) {
    (spec_column_char(pos.x), spec_row_char(pos.y))
}

/// The two characters that name a square.
#[verifier::when_used_as_spec(spec_format_position)]
pub fn format_position(pos: Position) -> (text: (char, char))
    ensures
        text == spec_format_position(pos),
{
    let x_char = column_char(pos.x);
    let y_char = row_char(pos.y);
    (x_char, y_char)
}

/// Writing a square of the board and reading it again gives the square.
pub proof fn law_position_round_trip(pos: Position)
    requires
        pos.wf(),
    ensures
        spec_parse_position(seq![spec_format_position(pos).0, spec_format_position(pos).1]) == Ok::<
            Position,
            PositionError,
        >(pos),
{
    let text = seq![spec_format_position(pos).0, spec_format_position(pos).1];
    assert(text[0] == spec_format_position(pos).0);
    assert(text[1] == spec_format_position(pos).1);
    assert(is_one_byte('1') && is_one_byte('2') && is_one_byte('3') && is_one_byte('4')
        && is_one_byte('5'));
    assert(is_one_byte('a') && is_one_byte('b') && is_one_byte('c') && is_one_byte('d')
        && is_one_byte('e'));
}

/// Reading the name of a square and writing it again gives the name.
pub proof fn law_position_text_round_trip(text: Seq<char>)
    requires
        spec_parse_position(text) is Ok,
    ensures
        text == seq![
            spec_format_position(spec_parse_position(text)->Ok_0).0,
            spec_format_position(spec_parse_position(text)->Ok_0).1,
        ],
{
    let pos = spec_parse_position(text)->Ok_0;
    assert(text =~= seq![spec_format_position(pos).0, spec_format_position(pos).1]);
}

/// The character for a piece. A promoted king or gold has none.
pub open spec fn spec_piece_name(piece_type: PieceType, promoted: bool) -> char {
    if promoted {
        match piece_type {
            PieceType::Pawn => 'と',
            PieceType::Silver => '全',
            PieceType::Bishop => '馬',
            _ => '龍',
        }
    } else {
        match piece_type {
            PieceType::King => '王',
            PieceType::Gold => '金',
            PieceType::Silver => '銀',
            PieceType::Bishop => '角',
            PieceType::Rook => '飛',
            PieceType::Pawn => '歩',
        }
    }
}

/// The character for a piece that has one.
pub fn piece_name(piece_type: PieceType, promoted: bool) -> (name: char)
    requires
        promoted ==> piece_type != PieceType::King && piece_type != PieceType::Gold,
    ensures
        name == spec_piece_name(piece_type, promoted),
{
    if promoted {
        match piece_type {
            PieceType::Pawn => 'と',
            PieceType::Silver => '全',
            PieceType::Bishop => '馬',
            _ => '龍',
        }
    } else {
        match piece_type {
            PieceType::King => '王',
            PieceType::Gold => '金',
            PieceType::Silver => '銀',
            PieceType::Bishop => '角',
            PieceType::Rook => '飛',
            PieceType::Pawn => '歩',
        }
    }
}

/// The piece type that a text names: the character of an unpromoted piece,
/// or the other character for a king.
pub open spec fn spec_parse_piece_type(text: Seq<char>) -> Option<PieceType> {
    if text.len() != 1 {
        None
    } else if text[0] == '王' || text[0] == '玉' {
        Some(PieceType::King)
    } else if text[0] == '金' {
        Some(PieceType::Gold)
    } else if text[0] == '銀' {
        Some(PieceType::Silver)
    } else if text[0] == '角' {
        Some(PieceType::Bishop)
    } else if text[0] == '飛' {
        Some(PieceType::Rook)
    } else if text[0] == '歩' {
        Some(PieceType::Pawn)
    } else {
        None
    }
}

/// Reads the name of a piece type.
pub fn parse_piece_type(text: &[char]) -> (parsed: Option<PieceType>)
    ensures
        parsed == spec_parse_piece_type(text@),
{
    if text.len() != 1 {
        return None;
    }
    match text[0] {
        '王' | '玉' => Some(PieceType::King),
        '金' => Some(PieceType::Gold),
        '銀' => Some(PieceType::Silver),
        '角' => Some(PieceType::Bishop),
        '飛' => Some(PieceType::Rook),
        '歩' => Some(PieceType::Pawn),
        _ => None,
    }
}

/// The name of an unpromoted piece names its type.
pub proof fn law_piece_name_round_trip(piece_type: PieceType)
    ensures
        spec_parse_piece_type(seq![spec_piece_name(piece_type, false)]) == Some(piece_type),
{
    let text = seq![spec_piece_name(piece_type, false)];
    assert(text[0] == spec_piece_name(piece_type, false));
}

/// Why an input is not a move that can be made.
#[derive(Debug, Clone, Copy, PartialEq, Eq, Structural)]
pub enum InputError {
    /// The input has no word.
    Empty,
    /// A drop is not made of the word `drop`, a piece and a square.
    DropShape,
    /// A relocation is not made of two squares.
    MoveShape,
    /// The second word of a drop names no piece.
    UnknownPiece,
    /// The word at `part`, without its `+`, names no square.
    Position { part: usize, error: PositionError },
    /// The hand does not hold the piece to drop.
    NotInHand(PieceType),
    /// The move is not among the legal moves.
    Illegal,
}

/// The word that begins a drop.
pub open spec fn drop_word() -> Seq<char> {
    seq!['d', 'r', 'o', 'p']
}

/// Whether a word ends with the sign for a promotion.
pub open spec fn promotes(word: Seq<char>) -> bool {
    word.len() > 0 && word.last() == '+'
}

/// The move that the words of an input name, whether it is legal or not.
pub open spec fn spec_read_move(parts: Seq<Seq<char>>, state: GameState, player: Player) -> Result<
    Move,
    InputError,
> {
    if parts.len() == 0 {
        Err(InputError::Empty)
    } else if parts[0] == drop_word() {
        if parts.len() != 3 {
            Err(InputError::DropShape)
        } else {
            match spec_parse_piece_type(parts[1]) {
                None => Err(InputError::UnknownPiece),
                Some(piece_type) => match spec_parse_position(parts[2]) {
                    Err(error) => Err(InputError::Position { part: 2, error }),
                    Ok(to) => if state.hand(player).count(piece_type) == 0 {
                        Err(InputError::NotInHand(piece_type))
                    } else {
                        Ok(Move::Drop(to, piece_type))
                    },
                },
            }
        }
    } else if parts.len() != 2 {
        Err(InputError::MoveShape)
    } else {
        match spec_parse_position(parts[0]) {
            Err(error) => Err(InputError::Position { part: 0, error }),
            Ok(from) => {
                let promote = promotes(parts[1]);
                let target = if promote {
                    parts[1].drop_last()
                } else {
                    parts[1]
                };
                match spec_parse_position(target) {
                    Err(error) => Err(InputError::Position { part: 1, error }),
                    Ok(to) => Ok(Move::To(from, to, promote)),
                }
            },
        }
    }
}

/// The move that the words of an input name, where it is one of the legal
/// moves.
pub open spec fn spec_parse_input(
    parts: Seq<Seq<char>>,
    legal_moves: Seq<Move>,
    state: GameState,
    player: Player,
) -> Result<Move, InputError> {
    match spec_read_move(parts, state, player) {
        Err(error) => Err(error),
        Ok(mv) => if legal_moves.contains(mv) {
            Ok(mv)
        } else {
            Err(InputError::Illegal)
        },
    }
}

/// The words as sequences of characters.
pub open spec fn words(parts: Seq<Vec<char>>) -> Seq<Seq<char>> {
    parts.map_values(|word: Vec<char>| word@)
}

fn is_drop_word(word: &[char]) -> (is: bool)
    ensures
        is == (word@ == drop_word()),
{
    let is = word.len() == 4 && word[0] == 'd' && word[1] == 'r' && word[2] == 'o' && word[3]
        == 'p';
    proof {
        if is {
            assert(word@ =~= drop_word());
        } else if word@.len() == 4 {
            assert(drop_word()[0] == 'd' && drop_word()[1] == 'r' && drop_word()[2] == 'o'
                && drop_word()[3] == 'p');
        }
    }
    is
}

fn contains_move(moves: &[Move], mv: Move) -> (found: bool)
    ensures
        found == moves@.contains(mv),
{
    let n = moves.len();
    let mut i: usize = 0;
    while i < n
        invariant
            i <= n,
            n == moves@.len(),
            forall|j: int| 0 <= j < i ==> moves@[j] != mv,
        decreases n - i,
    {
        if moves[i] == mv {
            return true;
        }
        i += 1;
    }
    false
}

/// Reads a move from the words of an input, and accepts it where it is one
/// of `legal_moves`.
pub fn parse_input(
    parts: &[Vec<char>],
    legal_moves: &[Move],
    state: &GameState,
    player: Player,
) -> (parsed: Result<Move, InputError>)
    ensures
        parsed == spec_parse_input(words(parts@), legal_moves@, *state, player),
        parsed matches Ok(mv) ==> legal_moves@.contains(mv),
{
    if parts.len() == 0 {
        return Err(InputError::Empty);
    }
    let mv = if is_drop_word(parts[0].as_slice()) {
        if parts.len() != 3 {
            return Err(InputError::DropShape);
        }
        let piece_type = match parse_piece_type(parts[1].as_slice()) {
            Some(piece_type) => piece_type,
            None => return Err(InputError::UnknownPiece),
        };
        let to = match parse_position(parts[2].as_slice()) {
            Ok(to) => to,
            Err(error) => return Err(InputError::Position { part: 2, error }),
        };
        if state.get_hand(player).get(piece_type) == 0 {
            return Err(InputError::NotInHand(piece_type));
        }
        Move::Drop(to, piece_type)
    } else {
        if parts.len() != 2 {
            return Err(InputError::MoveShape);
        }
        let from = match parse_position(parts[0].as_slice()) {
            Ok(from) => from,
            Err(error) => return Err(InputError::Position { part: 0, error }),
        };
        let word = parts[1].as_slice();
        let promote = word.len() > 0 && word[word.len() - 1] == '+';
        let target = if promote {
            vstd::slice::slice_subrange(word, 0, word.len() - 1)
        } else {
            word
        };
        let to = match parse_position(target) {
            Ok(to) => to,
            Err(error) => return Err(InputError::Position { part: 1, error }),
        };
        Move::To(from, to, promote)
    };

    if !contains_move(legal_moves, mv) {
        return Err(InputError::Illegal);
    }
    Ok(mv)
}

/// The name of a square as a word.
pub open spec fn position_word(pos: Position) -> Seq<char> {
    seq![spec_format_position(pos).0, spec_format_position(pos).1]
}

/// The words that name a move.
pub open spec fn move_words(mv: Move) -> Seq<Seq<char>> {
    match mv {
        Move::To(from, to, promote) => seq![
            position_word(from),
            if promote {
                position_word(to).push('+')
            } else {
                position_word(to)
            },
        ],
        Move::Drop(to, piece_type) => seq![
            drop_word(),
            seq![spec_piece_name(piece_type, false)],
            position_word(to),
        ],
    }
}

/// The written form of a move: its words with a space between them.
pub open spec fn spec_format_move(mv: Move) -> Seq<char> {
    let parts = move_words(mv);
    match mv {
        Move::To(_, _, _) => parts[0] + seq![' '] + parts[1],
        Move::Drop(_, _) => parts[0] + seq![' '] + parts[1] + seq![' '] + parts[2],
    }
}

/// Writes a move.
pub fn format_move(mv: Move) -> (text: Vec<char>)
    ensures
        text@ == spec_format_move(mv),
{
    let mut text: Vec<char> = Vec::new();
    match mv {
        Move::To(from, to, promote) => {
            let (fx, fy) = format_position(from);
            let (tx, ty) = format_position(to);
            text.push(fx);
            text.push(fy);
            text.push(' ');
            text.push(tx);
            text.push(ty);
            if promote {
                text.push('+');
            }
        },
        Move::Drop(to, piece_type) => {
            let (tx, ty) = format_position(to);
            text.push('d');
            text.push('r');
            text.push('o');
            text.push('p');
            text.push(' ');
            text.push(piece_name(piece_type, false));
            text.push(' ');
            text.push(tx);
            text.push(ty);
        },
    }
    assert(text@ =~= spec_format_move(mv));
    text
}

/// The words that name a move on the board name that move: a relocation
/// always, a drop where the hand holds the piece.
pub proof fn law_move_words_round_trip(mv: Move, state: GameState, player: Player)
    requires
        mv.wf(),
        mv matches Move::Drop(_, piece_type) ==> state.hand(player).count(piece_type) > 0,
    ensures
        spec_read_move(move_words(mv), state, player) == Ok::<Move, InputError>(mv),
{
    let parts = move_words(mv);
    match mv {
        Move::To(from, to, promote) => {
            law_position_round_trip(from);
            law_position_round_trip(to);
            assert(parts[0] == position_word(from));
            assert(position_word(from)[0] != 'd');
            assert(parts[0] != drop_word()) by {
                assert(drop_word()[0] == 'd');
            }
            if promote {
                assert(parts[1].drop_last() =~= position_word(to));
                assert(parts[1].last() == '+');
            } else {
                assert(position_word(to).last() == spec_format_position(to).1);
            }
        },
        Move::Drop(to, piece_type) => {
            law_position_round_trip(to);
            law_piece_name_round_trip(piece_type);
            assert(parts[0] == drop_word());
        },
    }
}

} // verus!
