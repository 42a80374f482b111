use crate::error::ParseError;
use crate::rank::{rank_from_token, Rank};
use crate::suit::{suit_from_token, Suit};
use crate::text::{is_space, lemma_word_start, matches_word, trim_bounds, trimmed};
use vstd::prelude::*;

verus! {

/// A playing card: a rank and a suit.
///
/// Cards have no order of their own; Cho Dai Di orders them by [`Card::value`].
#[derive(Debug, Clone, Copy, PartialEq, Eq, Structural)]
pub struct Card {
    pub rank: Rank,
    pub suit: Suit,
}

/// The card that `t` spells when it is split after `k` or more characters: the first split
/// whose head is a rank and whose tail is a suit.
pub open spec fn card_split(t: Seq<char>, k: int) -> Option<Card>
    decreases t.len() - k,
{
    if k <= 0 || k >= t.len() {
        None
    } else {
        match (rank_from_token(t.subrange(0, k)), suit_from_token(t.subrange(k, t.len() as int))) {
            (Some(r), Some(s)) => Some(Card { rank: r, suit: s }),
            _ => card_split(t, k + 1),
        }
    }
}

/// The card that a token names: a rank token immediately followed by a suit token.
pub open spec fn card_from_token(t: Seq<char>) -> Option<Card> {
    card_split(t, 1)
}

/// The card that the text `t` names once whitespace is dropped from both of its ends.
pub open spec fn card_from_text(t: Seq<char>) -> Option<Card> {
    card_from_token(trimmed(t))
}

impl Card {
    /// The lowest card of Cho Dai Di, which opens a game.
    pub fn three_of_diamonds() -> (r: Card)
        ensures
            r == (Card { rank: Rank::Three, suit: Suit::Diamonds }),
    {
        Card { rank: Rank::Three, suit: Suit::Diamonds }
    }

    /// The highest card of Cho Dai Di.
    pub fn two_of_spades() -> (r: Card)
        ensures
            r == (Card { rank: Rank::Two, suit: Suit::Spades }),
    {
        Card { rank: Rank::Two, suit: Suit::Spades }
    }

    pub fn new(rank: Rank, suit: Suit) -> (r: Card)
        ensures
            r == (Card { rank, suit }),
    {
        Card { rank, suit }
    }

    pub fn rank(&self) -> (r: Rank)
        ensures
            r == self.rank,
    {
        self.rank
    }

    pub fn suit(&self) -> (r: Suit)
        ensures
            r == self.suit,
    {
        self.suit
    }

    /// Position of the card in Cho Dai Di precedence: by rank, then by suit.
    /// The Three of Diamonds is 0 and the Two of Spades is 51.
    pub open spec fn value(self) -> int {
        self.rank.precedence() * 4 + self.suit.precedence()
    }

    /// The card as it is displayed: its rank, then the glyph of its suit.
    pub open spec fn text(self) -> Seq<char> {
        self.rank.text() + self.suit.text()
    }

    pub fn to_string(&self) -> (r: String)
        ensures
            r@ == self.text(),
    {
        let mut s = self.rank.to_string();
        s.append(self.suit.symbol());
        s
    }

    /// The card named by the characters `start..end` of `s`.
    pub fn from_part(s: &str, start: usize, end: usize) -> (r: Option<Card>)
        requires
            start <= end <= s@.len(),
        ensures
            r == card_from_token(s@.subrange(start as int, end as int)),
    {
        let ghost t = s@.subrange(start as int, end as int);
        if start == end {
            return None;
        }
        let mut k: usize = start + 1;
        while k < end
            invariant
                start < k,
                start <= end <= s@.len(),
                t == s@.subrange(start as int, end as int),
                card_split(t, 1) == card_split(t, k - start),
            decreases end - k,
        {
            assert(t.subrange(0, k - start) =~= s@.subrange(start as int, k as int));
            assert(t.subrange(k - start, t.len() as int) =~= s@.subrange(k as int, end as int));
            let rank = Rank::from_part(s, start, k);
            let suit = Suit::from_part(s, k, end);
            if let (Some(r), Some(u)) = (rank, suit) {
                return Some(Card { rank: r, suit: u });
            }
            k += 1;
        }
        None
    }

    /// Reads a card written as a rank immediately followed by a suit (`3D`, `10h`,
    /// `AceSpades`, or the displayed form), with any whitespace around it. An error names
    /// the text without that whitespace.
    pub fn parse(s: &str) -> (r: Result<Card, ParseError>)
        ensures
            match card_from_text(s@) {
                Some(c) => r == Ok::<Card, ParseError>(c),
                None => r matches Err(ParseError::NotACard(t)) && t@ == trimmed(s@),
            },
    {
        let (a, b) = trim_bounds(s);
        match Card::from_part(s, a, b) {
            Some(c) => Ok(c),
            None => Err(ParseError::NotACard(String::from_str(s.substring_char(a, b)))),
        }
    }
}

proof fn lemma_suit_text(u: Suit)
    ensures
        suit_from_token(u.text()) == Some(u),
{
    reveal_strlit("\u{2660}");
    reveal_strlit("\u{2661}");
    reveal_strlit("\u{2662}");
    reveal_strlit("\u{2663}");
    reveal_strlit("\u{2664}");
    reveal_strlit("\u{2665}");
    reveal_strlit("\u{2666}");
    reveal_strlit("\u{2667}");
    reveal_strlit("c");
    reveal_strlit("clubs");
    reveal_strlit("d");
    reveal_strlit("diamonds");
    reveal_strlit("h");
    reveal_strlit("hearts");
    reveal_strlit("s");
    reveal_strlit("spades");
    let t = u.text();
    lemma_word_start(t, "d"@);
    lemma_word_start(t, "diamonds"@);
    lemma_word_start(t, "\u{2666}"@);
    lemma_word_start(t, "\u{2662}"@);
    lemma_word_start(t, "c"@);
    lemma_word_start(t, "clubs"@);
    lemma_word_start(t, "\u{2663}"@);
    lemma_word_start(t, "\u{2667}"@);
    lemma_word_start(t, "h"@);
    lemma_word_start(t, "hearts"@);
    lemma_word_start(t, "\u{2665}"@);
    lemma_word_start(t, "\u{2661}"@);
    lemma_word_start(t, "s"@);
    lemma_word_start(t, "spades"@);
    lemma_word_start(t, "\u{2660}"@);
    lemma_word_start(t, "\u{2664}"@);
    match u {
        Suit::Diamonds => {
            assert(t[0] == '\u{2666}');
            assert(matches_word(t, "\u{2666}"@));
        },
        Suit::Clubs => {
            assert(t[0] == '\u{2663}');
            assert(matches_word(t, "\u{2663}"@));
        },
        Suit::Hearts => {
            assert(t[0] == '\u{2665}');
            assert(matches_word(t, "\u{2665}"@));
        },
        Suit::Spades => {
            assert(t[0] == '\u{2660}');
            assert(matches_word(t, "\u{2660}"@));
        },
    }
}

proof fn lemma_rank_text(r: Rank)
    ensures
        rank_from_token(r.text()) == Some(r),
{
    reveal_strlit("1");
    reveal_strlit("10");
    reveal_strlit("11");
    reveal_strlit("12");
    reveal_strlit("13");
    reveal_strlit("2");
    reveal_strlit("3");
    reveal_strlit("4");
    reveal_strlit("5");
    reveal_strlit("6");
    reveal_strlit("7");
    reveal_strlit("8");
    reveal_strlit("9");
    reveal_strlit("A");
    reveal_strlit("J");
    reveal_strlit("K");
    reveal_strlit("Q");
    reveal_strlit("a");
    reveal_strlit("ace");
    reveal_strlit("deuce");
    reveal_strlit("eight");
    reveal_strlit("five");
    reveal_strlit("four");
    reveal_strlit("j");
    reveal_strlit("jack");
    reveal_strlit("k");
    reveal_strlit("king");
    reveal_strlit("nine");
    reveal_strlit("q");
    reveal_strlit("queen");
    reveal_strlit("seven");
    reveal_strlit("six");
    reveal_strlit("ten");
    reveal_strlit("three");
    reveal_strlit("two");
    let t = r.text();
    lemma_word_start(t, "2"@);
    lemma_word_start(t, "two"@);
    lemma_word_start(t, "deuce"@);
    lemma_word_start(t, "3"@);
    lemma_word_start(t, "three"@);
    lemma_word_start(t, "4"@);
    lemma_word_start(t, "four"@);
    lemma_word_start(t, "5"@);
    lemma_word_start(t, "five"@);
    lemma_word_start(t, "6"@);
    lemma_word_start(t, "six"@);
    lemma_word_start(t, "7"@);
    lemma_word_start(t, "seven"@);
    lemma_word_start(t, "8"@);
    lemma_word_start(t, "eight"@);
    lemma_word_start(t, "9"@);
    lemma_word_start(t, "nine"@);
    lemma_word_start(t, "10"@);
    lemma_word_start(t, "ten"@);
    lemma_word_start(t, "11"@);
    lemma_word_start(t, "j"@);
    lemma_word_start(t, "jack"@);
    lemma_word_start(t, "12"@);
    lemma_word_start(t, "q"@);
    lemma_word_start(t, "queen"@);
    lemma_word_start(t, "13"@);
    lemma_word_start(t, "k"@);
    lemma_word_start(t, "king"@);
    lemma_word_start(t, "1"@);
    lemma_word_start(t, "a"@);
    lemma_word_start(t, "ace"@);
    match r {
        Rank::Two => {
            assert(t[0] == '2');
            assert(matches_word(t, "2"@));
        },
        Rank::Three => {
            assert(t[0] == '3');
            assert(matches_word(t, "3"@));
        },
        Rank::Four => {
            assert(t[0] == '4');
            assert(matches_word(t, "4"@));
        },
        Rank::Five => {
            assert(t[0] == '5');
            assert(matches_word(t, "5"@));
        },
        Rank::Six => {
            assert(t[0] == '6');
            assert(matches_word(t, "6"@));
        },
        Rank::Seven => {
            assert(t[0] == '7');
            assert(matches_word(t, "7"@));
        },
        Rank::Eight => {
            assert(t[0] == '8');
            assert(matches_word(t, "8"@));
        },
        Rank::Nine => {
            assert(t[0] == '9');
            assert(matches_word(t, "9"@));
        },
        Rank::Ten => {
            assert(t[0] == '1');
            assert(t[1] == '0');
            assert(matches_word(t, "10"@));
        },
        Rank::Jack => {
            assert(t[0] == 'J');
            assert(matches_word(t, "j"@));
        },
        Rank::Queen => {
            assert(t[0] == 'Q');
            assert(matches_word(t, "q"@));
        },
        Rank::King => {
            assert(t[0] == 'K');
            assert(matches_word(t, "k"@));
        },
        Rank::Ace => {
            assert(t[0] == 'A');
            assert(matches_word(t, "a"@));
        },
    }
}

/// Formatting a card and reading the text back gives the same card.
pub proof fn lemma_text_round_trip(c: Card)
    ensures
        card_from_text(c.text()) == Some(c),
{
    lemma_rank_text(c.rank);
    lemma_suit_text(c.suit);
    reveal_strlit("\u{2660}");
    reveal_strlit("\u{2661}");
    reveal_strlit("\u{2662}");
    reveal_strlit("\u{2663}");
    reveal_strlit("\u{2664}");
    reveal_strlit("\u{2665}");
    reveal_strlit("\u{2666}");
    reveal_strlit("\u{2667}");
    reveal_strlit("c");
    reveal_strlit("clubs");
    reveal_strlit("d");
    reveal_strlit("diamonds");
    reveal_strlit("h");
    reveal_strlit("hearts");
    reveal_strlit("s");
    reveal_strlit("spades");
    reveal_strlit("10");
    reveal_strlit("2");
    reveal_strlit("3");
    reveal_strlit("4");
    reveal_strlit("5");
    reveal_strlit("6");
    reveal_strlit("7");
    reveal_strlit("8");
    reveal_strlit("9");
    reveal_strlit("J");
    reveal_strlit("Q");
    reveal_strlit("K");
    reveal_strlit("A");
    let t = c.text();
    let n = c.rank.text().len() as int;
    assert(c.suit.text().len() == 1);
    assert(t.subrange(0, n) =~= c.rank.text());
    assert(t.subrange(n, t.len() as int) =~= c.suit.text());
    if n == 2 {
        assert(t.subrange(1, t.len() as int).len() == 2);
        assert(suit_from_token(t.subrange(1, t.len() as int)) is None);
        assert(card_split(t, 1) == card_split(t, 2));
        assert(card_split(t, 2) == Some(c));
    } else {
        assert(n == 1);
        assert(card_split(t, 1) == Some(c));
    }
    assert(!is_space(t[0]) && !is_space(t.last()));
    assert(trimmed(t) == t);
}

} // verus!
