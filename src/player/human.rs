use crate::collections::{Cards, SortCardsBy};
use crate::error::ParseError;
use crate::notation::hand_from_text;
use crate::text::same_text;
use vstd::prelude::*;

verus! {

/// A player at the terminal, with the order in which their hand is shown.
pub struct Player {
    pub name: String,
    pub sort_cards_by: SortCardsBy,
}

/// What a line typed at the terminal asks for.
pub enum Command {
    /// Pass the turn (`p` or `pass`).
    Pass,
    /// Leave the game at once (`q` or `quit`).
    Quit,
    /// Show how to play (an empty line or `help`).
    Help,
    /// Switch the order of the hand between rank first and suit first (`sort`).
    Sort,
    /// Play these cards.
    Play(Cards),
    /// The line is none of the above and names no hand.
    Invalid(ParseError),
}

/// What the trimmed line `input` asks for.
pub fn interpret(input: &str) -> (r: Command)
    ensures
        (input@ == "p"@ || input@ == "pass"@) ==> r is Pass,
        !(input@ == "p"@ || input@ == "pass"@) && (input@ == "q"@ || input@ == "quit"@) ==> r is Quit,
        !(input@ == "p"@ || input@ == "pass"@ || input@ == "q"@ || input@ == "quit"@) && (input@
            == ""@ || input@ == "help"@) ==> r is Help,
        !(input@ == "p"@ || input@ == "pass"@ || input@ == "q"@ || input@ == "quit"@ || input@
            == ""@ || input@ == "help"@) && input@ == "sort"@ ==> r is Sort,
        !(input@ == "p"@ || input@ == "pass"@ || input@ == "q"@ || input@ == "quit"@ || input@
            == ""@ || input@ == "help"@ || input@ == "sort"@) ==> match hand_from_text(input@) {
            Ok(cs) => r matches Command::Play(h) && h@ == cs,
            Err(w) => r matches Command::Invalid(ParseError::NotACard(t)) && t@ == w,
        },
{
    if same_text(input, "p") || same_text(input, "pass") {
        Command::Pass
    } else if same_text(input, "q") || same_text(input, "quit") {
        Command::Quit
    } else if same_text(input, "") || same_text(input, "help") {
        Command::Help
    } else if same_text(input, "sort") {
        Command::Sort
    } else {
        match Cards::parse(input) {
            Ok(cards) => Command::Play(cards),
            Err(e) => Command::Invalid(e),
        }
    }
}

impl Player {
    pub fn new(name: &str) -> (r: Player)
        ensures
            r.name@ == name@,
            r.sort_cards_by == SortCardsBy::Rank,
    {
        Player { name: String::from_str(name), sort_cards_by: SortCardsBy::Rank }
    }

    pub fn name(&self) -> (r: &str)
        ensures
            r@ == self.name@,
    {
        self.name.as_str()
    }

    /// Switches the order of the hand between rank first and suit first.
    pub fn toggle_precedence(&mut self)
        ensures
            final(self).name == old(self).name,
            final(self).sort_cards_by == match old(self).sort_cards_by {
                SortCardsBy::Rank => SortCardsBy::Suit,
                SortCardsBy::Suit => SortCardsBy::Rank,
            },
    {
        self.sort_cards_by = match self.sort_cards_by {
            SortCardsBy::Rank => SortCardsBy::Suit,
            SortCardsBy::Suit => SortCardsBy::Rank,
        };
    }

    pub fn sort_cards_by(&self) -> (r: SortCardsBy)
        ensures
            r == self.sort_cards_by,
    {
        self.sort_cards_by
    }
}

} // verus!
