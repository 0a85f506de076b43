//! How a game stands: whether it is over, and who has won.

use crate::board::{GameState, Player};
use crate::rules::{Move, Position};
use crate::search::{has_king, spec_has_king};
use vstd::prelude::*;

verus! {

/// The square on which a move puts its piece.
pub open spec fn spec_move_destination(mv: Move) -> Position {
    match mv {
        Move::To(_, to, _) => to,
        Move::Drop(to, _) => to,
    }
}

/// The square on which a move puts its piece.
#[verifier::when_used_as_spec(spec_move_destination)]
pub fn move_destination(mv: Move) -> (to: Position)
    ensures
        to == spec_move_destination(mv),
{
    match mv {
        Move::To(_, to, _) => to,
        Move::Drop(to, _) => to,
    }
}

/// Whether the king of the first player and the king of the second player
/// are on the board.
pub fn check_kings_exist(state: &GameState) -> (kings: (bool, bool))
    ensures
        kings.0 == spec_has_king(*state, Player::Sente),
        kings.1 == spec_has_king(*state, Player::Gote),
{
    (has_king(state, Player::Sente), has_king(state, Player::Gote))
}

/// A game is over once a king has left the board.
pub open spec fn spec_is_game_over(state: GameState) -> bool {
    !spec_has_king(state, Player::Sente) || !spec_has_king(state, Player::Gote)
}

/// Whether a king has left the board.
pub fn is_game_over(state: &GameState) -> (over: bool)
    ensures
        over == spec_is_game_over(*state),
{
    let (sente_king_exists, gote_king_exists) = check_kings_exist(state);
    !sente_king_exists || !gote_king_exists
}

/// The winner is the second player where the first has no king, the first
/// player where only the second has none, and nobody while both kings are
/// on the board.
pub open spec fn spec_get_winner(state: GameState) -> Option<Player> {
    if !spec_has_king(state, Player::Sente) {
        Some(Player::Gote)
    } else if !spec_has_king(state, Player::Gote) {
        Some(Player::Sente)
    } else {
        None
    }
}

/// Who has won, if the game is over.
pub fn get_winner(state: &GameState) -> (winner: Option<Player>)
    ensures
        winner == spec_get_winner(*state),
        winner is Some <==> spec_is_game_over(*state),
{
    let (sente_king_exists, gote_king_exists) = check_kings_exist(state);

    if !sente_king_exists {
        Some(Player::Gote)
    } else if !gote_king_exists {
        Some(Player::Sente)
    } else {
        None
    }
}

} // verus!
