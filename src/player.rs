//! The players' side of the game: a human at a terminal, and a computer player.
pub mod ai;
pub mod human;

use vstd::prelude::*;

verus! {

/// A human player with the given name.
pub fn new_human_player(name: &str) -> (r: human::Player)
    ensures
        r.name@ == name@,
        r.sort_cards_by == crate::collections::SortCardsBy::Rank,
{
    human::Player::new(name)
}

} // verus!
