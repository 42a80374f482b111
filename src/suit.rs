use crate::error::ParseError;
use crate::text::{matches_word, word_at};
use vstd::prelude::*;

verus! {

/// The four suits of a standard deck.
#[derive(Debug, Clone, Copy, PartialEq, Eq, Structural)]
pub enum Suit {
    Diamonds,
    Clubs,
    Hearts,
    Spades,
}

/// The suit that a token names: a letter or a word in any ASCII case, or a glyph.
pub open spec fn suit_from_token(t: Seq<char>) -> Option<Suit> {
    if matches_word(t, "d"@) || matches_word(t, "diamonds"@) || matches_word(t, "\u{2666}"@) || matches_word(t, "\u{2662}"@) {
        Some(Suit::Diamonds)
    } else if matches_word(t, "c"@) || matches_word(t, "clubs"@) || matches_word(t, "\u{2663}"@) || matches_word(t, "\u{2667}"@) {
        Some(Suit::Clubs)
    } else if matches_word(t, "h"@) || matches_word(t, "hearts"@) || matches_word(t, "\u{2665}"@) || matches_word(t, "\u{2661}"@) {
        Some(Suit::Hearts)
    } else if matches_word(t, "s"@) || matches_word(t, "spades"@) || matches_word(t, "\u{2660}"@) || matches_word(t, "\u{2664}"@) {
        Some(Suit::Spades)
    } else {
        None
    }
}

impl Suit {
    /// Position of the suit in Cho Dai Di precedence: Diamonds, Clubs, Hearts, Spades.
    pub open spec fn precedence(self) -> int {
        match self {
            Suit::Diamonds => 0,
            Suit::Clubs => 1,
            Suit::Hearts => 2,
            Suit::Spades => 3,
        }
    }

    pub fn position(&self) -> (r: usize)
        ensures
            r == self.precedence(),
    {
        match self {
            Suit::Diamonds => 0,
            Suit::Clubs => 1,
            Suit::Hearts => 2,
            Suit::Spades => 3,
        }
    }

    /// The suit's glyph, as it is displayed.
    pub open spec fn text(self) -> Seq<char> {
        match self {
            Suit::Diamonds => "\u{2666}"@,
            Suit::Clubs => "\u{2663}"@,
            Suit::Hearts => "\u{2665}"@,
            Suit::Spades => "\u{2660}"@,
        }
    }

    pub fn symbol(&self) -> (r: &'static str)
        ensures
            r@ == self.text(),
    {
        match self {
            Suit::Diamonds => "\u{2666}",
            Suit::Clubs => "\u{2663}",
            Suit::Hearts => "\u{2665}",
            Suit::Spades => "\u{2660}",
        }
    }

    pub fn to_string(&self) -> (r: String)
        ensures
            r@ == self.text(),
    {
        String::from_str(self.symbol())
    }

    /// The suit named by the characters `start..end` of `s`.
    pub fn from_part(s: &str, start: usize, end: usize) -> (r: Option<Suit>)
        requires
            start <= end <= s@.len(),
        ensures
            r == suit_from_token(s@.subrange(start as int, end as int)),
    {
        if word_at(s, start, end, "d") || word_at(s, start, end, "diamonds") || word_at(
            s,
            start,
            end,
            "\u{2666}",
        ) || word_at(s, start, end, "\u{2662}") {
            Some(Suit::Diamonds)
        } else if word_at(s, start, end, "c") || word_at(s, start, end, "clubs") || word_at(
            s,
            start,
            end,
            "\u{2663}",
        ) || word_at(s, start, end, "\u{2667}") {
            Some(Suit::Clubs)
        } else if word_at(s, start, end, "h") || word_at(s, start, end, "hearts") || word_at(
            s,
            start,
            end,
            "\u{2665}",
        ) || word_at(s, start, end, "\u{2661}") {
            Some(Suit::Hearts)
        } else if word_at(s, start, end, "s") || word_at(s, start, end, "spades") || word_at(
            s,
            start,
            end,
            "\u{2660}",
        ) || word_at(s, start, end, "\u{2664}") {
            Some(Suit::Spades)
        } else {
            None
        }
    }


    /// Reads a suit: `d`, `diamonds`, `c`, `clubs`, `h`, `hearts`, `s` or `spades` in any
    /// ASCII case, or one of the suit glyphs.
    pub fn parse(s: &str) -> (r: Result<Suit, ParseError>)
        ensures
            match suit_from_token(s@) {
                Some(k) => r == Ok::<Suit, ParseError>(k),
                None => r matches Err(ParseError::NotASuit(t)) && t@ == s@,
            },
    {
        let n = s.unicode_len();
        assert(s@.subrange(0, n as int) =~= s@);
        match Suit::from_part(s, 0, n) {
            Some(k) => Ok(k),
            None => Err(ParseError::NotASuit(String::from_str(s))),
        }
    }
}

} // verus!
