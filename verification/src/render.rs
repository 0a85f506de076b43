//! The lines of text that show a position: the board as one of the players
//! sees it, and the hands.

use crate::board::{square, Board, GameState, Hand, Piece, PieceType, Player};
use crate::notation::{
    column_char, piece_name, row_char, spec_column_char, spec_piece_name, spec_row_char,
};
use crate::rules::{spec_opponent_of, Position};
use vstd::prelude::*;

verus! {

/// The lines as sequences of characters.
pub open spec fn texts(lines: Seq<Vec<char>>) -> Seq<Seq<char>> {
    lines.map_values(|line: Vec<char>| line@)
}

/// The column or row that stands at place `i` for the player who looks at
/// the board: the second player sees it turned round.
pub open spec fn spec_shown(perspective: Player, i: usize) -> usize {
    match perspective {
        Player::Sente => i,
        Player::Gote => (4 - i) as usize,
    }
}

/// The column or row that stands at place `i` for `perspective`.
#[verifier::when_used_as_spec(spec_shown)]
pub fn shown(perspective: Player, i: usize) -> (at: usize)
    requires
        i < 5,
    ensures
        at == spec_shown(perspective, i),
        at < 5,
{
    match perspective {
        Player::Sente => i,
        Player::Gote => 4 - i,
    }
}

/// The line that names the first `n` columns shown.
pub open spec fn header_cells(perspective: Player, n: nat) -> Seq<char>
    decreases n,
{
    if n == 0 {
        seq![' ', ' ']
    } else {
        header_cells(perspective, (n - 1) as nat) + seq![
            ' ',
            ' ',
            ' ',
            spec_column_char(spec_shown(perspective, (n - 1) as usize)),
        ]
    }
}

/// The line between two rows.
pub open spec fn separator_line() -> Seq<char> {
    seq![
        ' ',
        ' ',
        ' ',
        '+',
        '-',
        '-',
        '-',
        '+',
        '-',
        '-',
        '-',
        '+',
        '-',
        '-',
        '-',
        '+',
        '-',
        '-',
        '-',
        '+',
        '-',
        '-',
        '-',
        '+',
    ]
}

/// Whether the last move ended on the square.
pub open spec fn is_last_move(last_move_to: Option<Position>, x: usize, y: usize) -> bool {
    last_move_to matches Some(p) && p.x == x && p.y == y
}

/// The text of a square: a mark, the piece and a bar, or a mark, a dot, a
/// blank and a bar for an empty square. The mark is `*` on the square where
/// the last move ended, and else a blank before a piece of the first player
/// and `^` before a piece of the second.
pub open spec fn cell_text(cell: Option<Piece>, last: bool) -> Seq<char> {
    match cell {
        Some(piece) => seq![
            if last {
                '*'
            } else if piece.owner == Player::Sente {
                ' '
            } else {
                '^'
            },
            spec_piece_name(piece.piece_type, piece.promoted),
            '|',
        ],
        None => seq![
            if last {
                '*'
            } else {
                ' '
            },
            '.',
            ' ',
            '|',
        ],
    }
}

/// The line of row `y` up to the first `n` squares shown.
pub open spec fn row_cells(
    board: Board,
    perspective: Player,
    last_move_to: Option<Position>,
    y: usize,
    n: nat,
) -> Seq<char>
    decreases n,
{
    if n == 0 {
        seq![' ', spec_row_char(y), '|']
    } else {
        let x = spec_shown(perspective, (n - 1) as usize);
        row_cells(board, perspective, last_move_to, y, (n - 1) as nat) + cell_text(
            square(board, x as int, y as int),
            is_last_move(last_move_to, x, y),
        )
    }
}

/// The header, a separator, and the first `n` rows shown, each with a
/// separator after it.
pub open spec fn board_lines(
    board: Board,
    perspective: Player,
    last_move_to: Option<Position>,
    n: nat,
) -> Seq<Seq<char>>
    decreases n,
{
    if n == 0 {
        seq![header_cells(perspective, 5), separator_line()]
    } else {
        board_lines(board, perspective, last_move_to, (n - 1) as nat) + seq![
            row_cells(
                board,
                perspective,
                last_move_to,
                spec_shown(perspective, (n - 1) as usize),
                5,
            ),
            separator_line(),
        ]
    }
}

fn separator() -> (line: Vec<char>)
    ensures
        line@ == separator_line(),
{
    let mut line: Vec<char> = Vec::new();
    line.push(' ');
    line.push(' ');
    line.push(' ');
    let mut j: usize = 0;
    while j < 5
        invariant
            j <= 5,
            line@.len() == 3 + 4 * j,
            forall|k: int| 0 <= k < line@.len() ==> line@[k] == separator_line()[k],
        decreases 5 - j,
    {
        line.push('+');
        line.push('-');
        line.push('-');
        line.push('-');
        j += 1;
    }
    line.push('+');
    assert(line@ =~= separator_line());
    line
}

/// The board as `perspective` sees it: the names of the columns, then the
/// rows between separators, twelve lines in all.
pub fn render_board(
    state: &GameState,
    perspective: Player,
    last_move_to: Option<Position>,
) -> (lines: Vec<Vec<char>>)
    requires
        state.pieces_wf(),
    ensures
        texts(lines@) == board_lines(state.board, perspective, last_move_to, 5),
        lines@.len() == 12,
{
    let mut header: Vec<char> = Vec::new();
    header.push(' ');
    header.push(' ');
    let mut j: usize = 0;
    while j < 5
        invariant
            j <= 5,
            header@ == header_cells(perspective, j as nat),
        decreases 5 - j,
    {
        let ghost before = header@;
        header.push(' ');
        header.push(' ');
        header.push(' ');
        header.push(column_char(shown(perspective, j)));
        assert(header@ =~= before + seq![
            ' ',
            ' ',
            ' ',
            spec_column_char(spec_shown(perspective, j)),
        ]);
        j += 1;
    }

    let mut lines: Vec<Vec<char>> = Vec::new();
    lines.push(header);
    lines.push(separator());
    assert(texts(lines@) =~= board_lines(state.board, perspective, last_move_to, 0));

    let mut i: usize = 0;
    while i < 5
        invariant
            i <= 5,
            state.pieces_wf(),
            texts(lines@) == board_lines(state.board, perspective, last_move_to, i as nat),
            lines@.len() == 2 + 2 * i,
        decreases 5 - i,
    {
        let y = shown(perspective, i);
        let mut line: Vec<char> = Vec::new();
        line.push(' ');
        line.push(row_char(y));
        line.push('|');
        assert(line@ =~= row_cells(state.board, perspective, last_move_to, y, 0));
        let mut j: usize = 0;
        while j < 5
            invariant
                j <= 5,
                y < 5,
                state.pieces_wf(),
                line@ == row_cells(state.board, perspective, last_move_to, y, j as nat),
            decreases 5 - j,
        {
            let x = shown(perspective, j);
            let last = match last_move_to {
                Some(p) => p.x == x && p.y == y,
                None => false,
            };
            let ghost before = line@;
            match state.board[y][x] {
                Some(p) => {
                    let mark = if last {
                        '*'
                    } else if p.owner == Player::Sente {
                        ' '
                    } else {
                        '^'
                    };
                    assert(square(state.board, x as int, y as int) == Some(p));
                    assert(p.wf());
                    line.push(mark);
                    line.push(piece_name(p.piece_type, p.promoted));
                    line.push('|');
                },
                None => {
                    if last {
                        line.push('*');
                    } else {
                        line.push(' ');
                    }
                    line.push('.');
                    line.push(' ');
                    line.push('|');
                },
            }
            assert(line@ =~= before + cell_text(
                square(state.board, x as int, y as int),
                is_last_move(last_move_to, x, y),
            ));
            j += 1;
        }
        let ghost before = texts(lines@);
        let ghost row = line@;
        lines.push(line);
        lines.push(separator());
        assert(texts(lines@) =~= before + seq![row, separator_line()]);
        i += 1;
    }
    lines
}

/// The digit for a number below ten.
pub open spec fn digit_char(d: nat) -> char {
    if d == 0 {
        '0'
    } else if d == 1 {
        '1'
    } else if d == 2 {
        '2'
    } else if d == 3 {
        '3'
    } else if d == 4 {
        '4'
    } else if d == 5 {
        '5'
    } else if d == 6 {
        '6'
    } else if d == 7 {
        '7'
    } else if d == 8 {
        '8'
    } else {
        '9'
    }
}

/// A number in decimal digits.
pub open spec fn decimal(n: nat) -> Seq<char>
    decreases n,
{
    if n < 10 {
        seq![digit_char(n)]
    } else {
        decimal(n / 10).push(digit_char(n % 10))
    }
}

fn digit(d: u8) -> (c: char)
    requires
        d < 10,
    ensures
        c == digit_char(d as nat),
{
    match d {
        0 => '0',
        1 => '1',
        2 => '2',
        3 => '3',
        4 => '4',
        5 => '5',
        6 => '6',
        7 => '7',
        8 => '8',
        _ => '9',
    }
}

fn push_decimal(text: &mut Vec<char>, n: u8)
    ensures
        final(text)@ == old(text)@ + decimal(n as nat),
{
    let ghost before = text@;
    if n >= 100 {
        text.push(digit(n / 100));
    }
    if n >= 10 {
        text.push(digit((n / 10) % 10));
    }
    text.push(digit(n % 10));
    proof {
        reveal_with_fuel(decimal, 3);
        assert(text@ =~= before + decimal(n as nat));
    }
}

/// The order in which the pieces of a hand are shown.
pub open spec fn shown_types() -> Seq<PieceType> {
    seq![PieceType::Gold, PieceType::Silver, PieceType::Bishop, PieceType::Rook, PieceType::Pawn]
}

/// The pieces of the first `k` shown types that the hand holds, each with
/// its count, with a blank between two of them.
pub open spec fn hand_text(hand: Hand, k: nat) -> Seq<char>
    decreases k,
{
    if k == 0 {
        Seq::empty()
    } else {
        let before = hand_text(hand, (k - 1) as nat);
        let piece_type = shown_types()[k - 1];
        if hand.count(piece_type) == 0 {
            before
        } else {
            (if before.len() == 0 {
                before
            } else {
                before.push(' ')
            }) + seq![spec_piece_name(piece_type, false)] + decimal(hand.count(piece_type))
        }
    }
}

/// The words that introduce the hand of a player.
pub open spec fn hand_title(player: Player) -> Seq<char> {
    seq![
        match player {
            Player::Sente => '先',
            Player::Gote => '後',
        },
        '手',
        'の',
        '持',
        'ち',
        '駒',
        ':',
        ' ',
    ]
}

/// The line that shows a hand: its title, then the pieces it holds, or the
/// word for none.
pub open spec fn spec_render_hand(hand: Hand, player: Player) -> Seq<char> {
    hand_title(player) + (if hand_text(hand, 5).len() == 0 {
        seq!['な', 'し']
    } else {
        hand_text(hand, 5)
    })
}

/// The line that shows the hand of `player`.
pub fn render_hand(hand: &Hand, player: Player) -> (line: Vec<char>)
    ensures
        line@ == spec_render_hand(*hand, player),
{
    let mut line: Vec<char> = Vec::new();
    line.push(
        match player {
            Player::Sente => '先',
            Player::Gote => '後',
        },
    );
    line.push('手');
    line.push('の');
    line.push('持');
    line.push('ち');
    line.push('駒');
    line.push(':');
    line.push(' ');
    assert(line@ =~= hand_title(player));

    let types = [
        PieceType::Gold,
        PieceType::Silver,
        PieceType::Bishop,
        PieceType::Rook,
        PieceType::Pawn,
    ];
    assert(types@ =~= shown_types());
    let mut any = false;
    let mut k: usize = 0;
    while k < 5
        invariant
            k <= 5,
            types@ == shown_types(),
            line@ == hand_title(player) + hand_text(*hand, k as nat),
            any == (hand_text(*hand, k as nat).len() > 0),
        decreases 5 - k,
    {
        let piece_type = types[k];
        let count = hand.get(piece_type);
        if count > 0 {
            let ghost sofar = hand_text(*hand, k as nat);
            if any {
                line.push(' ');
            }
            line.push(piece_name(piece_type, false));
            push_decimal(&mut line, count);
            assert(line@ =~= hand_title(player) + hand_text(*hand, (k + 1) as nat));
            any = true;
        }
        k += 1;
    }
    if !any {
        line.push('な');
        line.push('し');
        assert(line@ =~= hand_title(player) + seq!['な', 'し']);
    }
    line
}

/// The lines that show a position to `perspective`: the hand of the other
/// player above the board and the own hand below it, with an empty line
/// before, between and after them.
pub open spec fn spec_render_game_state(
    state: GameState,
    perspective: Player,
    last_move_to: Option<Position>,
) -> Seq<Seq<char>> {
    let top = spec_opponent_of(perspective);
    seq![Seq::empty(), spec_render_hand(state.hand(top), top), Seq::empty()] + board_lines(
        state.board,
        perspective,
        last_move_to,
        5,
    ) + seq![Seq::empty(), spec_render_hand(state.hand(perspective), perspective), Seq::empty()]
}

/// The lines that show a position to `perspective`, eighteen in all.
pub fn render_game_state(
    state: &GameState,
    perspective: Player,
    last_move_to: Option<Position>,
) -> (lines: Vec<Vec<char>>)
    requires
        state.pieces_wf(),
    ensures
        texts(lines@) == spec_render_game_state(*state, perspective, last_move_to),
{
    let (top_player, bottom_player) = match perspective {
        Player::Sente => (Player::Gote, Player::Sente),
        Player::Gote => (Player::Sente, Player::Gote),
    };
    let mut lines: Vec<Vec<char>> = Vec::new();
    lines.push(Vec::new());
    lines.push(render_hand(state.get_hand(top_player), top_player));
    lines.push(Vec::new());
    let mut board = render_board(state, perspective, last_move_to);
    let ghost head = texts(lines@);
    let ghost middle = texts(board@);
    lines.append(&mut board);
    assert(texts(lines@) =~= head + middle);
    lines.push(Vec::new());
    lines.push(render_hand(state.get_hand(bottom_player), bottom_player));
    lines.push(Vec::new());
    assert(texts(lines@) =~= spec_render_game_state(*state, perspective, last_move_to));
    lines
}

} // verus!
