use crate::error::ParseError;
use crate::text::{matches_word, word_at};
use vstd::prelude::*;

verus! {

/// The thirteen ranks of a standard deck.
///
/// Their order in Cho Dai Di is given by [`Rank::precedence`], not by the order of the
/// variants.
#[derive(Debug, Clone, Copy, PartialEq, Eq, Structural)]
pub enum Rank {
    Two,
    Three,
    Four,
    Five,
    Six,
    Seven,
    Eight,
    Nine,
    Ten,
    Jack,
    Queen,
    King,
    Ace,
}

/// The rank that a token names: a number from 1 to 13, or a word in any ASCII case.
pub open spec fn rank_from_token(t: Seq<char>) -> Option<Rank> {
    if matches_word(t, "2"@) || matches_word(t, "two"@) || matches_word(t, "deuce"@) {
        Some(Rank::Two)
    } else if matches_word(t, "3"@) || matches_word(t, "three"@) {
        Some(Rank::Three)
    } else if matches_word(t, "4"@) || matches_word(t, "four"@) {
        Some(Rank::Four)
    } else if matches_word(t, "5"@) || matches_word(t, "five"@) {
        Some(Rank::Five)
    } else if matches_word(t, "6"@) || matches_word(t, "six"@) {
        Some(Rank::Six)
    } else if matches_word(t, "7"@) || matches_word(t, "seven"@) {
        Some(Rank::Seven)
    } else if matches_word(t, "8"@) || matches_word(t, "eight"@) {
        Some(Rank::Eight)
    } else if matches_word(t, "9"@) || matches_word(t, "nine"@) {
        Some(Rank::Nine)
    } else if matches_word(t, "10"@) || matches_word(t, "ten"@) {
        Some(Rank::Ten)
    } else if matches_word(t, "11"@) || matches_word(t, "j"@) || matches_word(t, "jack"@) {
        Some(Rank::Jack)
    } else if matches_word(t, "12"@) || matches_word(t, "q"@) || matches_word(t, "queen"@) {
        Some(Rank::Queen)
    } else if matches_word(t, "13"@) || matches_word(t, "k"@) || matches_word(t, "king"@) {
        Some(Rank::King)
    } else if matches_word(t, "1"@) || matches_word(t, "a"@) || matches_word(t, "ace"@) {
        Some(Rank::Ace)
    } else {
        None
    }
}

impl Rank {
    /// Position of the rank in Cho Dai Di precedence, from Three (0) up to Two (12).
    pub open spec fn precedence(self) -> int {
        match self {
            Rank::Two => 12,
            Rank::Three => 0,
            Rank::Four => 1,
            Rank::Five => 2,
            Rank::Six => 3,
            Rank::Seven => 4,
            Rank::Eight => 5,
            Rank::Nine => 6,
            Rank::Ten => 7,
            Rank::Jack => 8,
            Rank::Queen => 9,
            Rank::King => 10,
            Rank::Ace => 11,
        }
    }

    pub fn position(&self) -> (r: usize)
        ensures
            r == self.precedence(),
    {
        match self {
            Rank::Two => 12,
            Rank::Three => 0,
            Rank::Four => 1,
            Rank::Five => 2,
            Rank::Six => 3,
            Rank::Seven => 4,
            Rank::Eight => 5,
            Rank::Nine => 6,
            Rank::Ten => 7,
            Rank::Jack => 8,
            Rank::Queen => 9,
            Rank::King => 10,
            Rank::Ace => 11,
        }
    }

    /// The rank as it is displayed.
    pub open spec fn text(self) -> Seq<char> {
        match self {
            Rank::Two => "2"@,
            Rank::Three => "3"@,
            Rank::Four => "4"@,
            Rank::Five => "5"@,
            Rank::Six => "6"@,
            Rank::Seven => "7"@,
            Rank::Eight => "8"@,
            Rank::Nine => "9"@,
            Rank::Ten => "10"@,
            Rank::Jack => "J"@,
            Rank::Queen => "Q"@,
            Rank::King => "K"@,
            Rank::Ace => "A"@,
        }
    }

    pub fn symbol(&self) -> (r: &'static str)
        ensures
            r@ == self.text(),
    {
        match self {
            Rank::Two => "2",
            Rank::Three => "3",
            Rank::Four => "4",
            Rank::Five => "5",
            Rank::Six => "6",
            Rank::Seven => "7",
            Rank::Eight => "8",
            Rank::Nine => "9",
            Rank::Ten => "10",
            Rank::Jack => "J",
            Rank::Queen => "Q",
            Rank::King => "K",
            Rank::Ace => "A",
        }
    }

    pub fn to_string(&self) -> (r: String)
        ensures
            r@ == self.text(),
    {
        String::from_str(self.symbol())
    }

    /// The rank named by the characters `start..end` of `s`.
    pub fn from_part(s: &str, start: usize, end: usize) -> (r: Option<Rank>)
        requires
            start <= end <= s@.len(),
        ensures
            r == rank_from_token(s@.subrange(start as int, end as int)),
    {
        if word_at(s, start, end, "2") || word_at(s, start, end, "two") || word_at(s, start, end, "deuce") {
            Some(Rank::Two)
        } else if word_at(s, start, end, "3") || word_at(s, start, end, "three") {
            Some(Rank::Three)
        } else if word_at(s, start, end, "4") || word_at(s, start, end, "four") {
            Some(Rank::Four)
        } else if word_at(s, start, end, "5") || word_at(s, start, end, "five") {
            Some(Rank::Five)
        } else if word_at(s, start, end, "6") || word_at(s, start, end, "six") {
            Some(Rank::Six)
        } else if word_at(s, start, end, "7") || word_at(s, start, end, "seven") {
            Some(Rank::Seven)
        } else if word_at(s, start, end, "8") || word_at(s, start, end, "eight") {
            Some(Rank::Eight)
        } else if word_at(s, start, end, "9") || word_at(s, start, end, "nine") {
            Some(Rank::Nine)
        } else if word_at(s, start, end, "10") || word_at(s, start, end, "ten") {
            Some(Rank::Ten)
        } else if word_at(s, start, end, "11") || word_at(s, start, end, "j") || word_at(s, start, end, "jack") {
            Some(Rank::Jack)
        } else if word_at(s, start, end, "12") || word_at(s, start, end, "q") || word_at(s, start, end, "queen") {
            Some(Rank::Queen)
        } else if word_at(s, start, end, "13") || word_at(s, start, end, "k") || word_at(s, start, end, "king") {
            Some(Rank::King)
        } else if word_at(s, start, end, "1") || word_at(s, start, end, "a") || word_at(s, start, end, "ace") {
            Some(Rank::Ace)
        } else {
            None
        }
    }

    /// Reads a rank: a number from 1 to 13, or its name in any ASCII case (`j`, `jack`,
    /// `deuce`, ...).
    pub fn parse(s: &str) -> (r: Result<Rank, ParseError>)
        ensures
            match rank_from_token(s@) {
                Some(k) => r == Ok::<Rank, ParseError>(k),
                None => r matches Err(ParseError::NotARank(t)) && t@ == s@,
            },
    {
        let n = s.unicode_len();
        assert(s@.subrange(0, n as int) =~= s@);
        match Rank::from_part(s, 0, n) {
            Some(k) => Ok(k),
            None => Err(ParseError::NotARank(String::from_str(s))),
        }
    }
}

} // verus!
