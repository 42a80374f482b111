//! Reading hands from text: card tokens separated by whitespace, each optionally followed
//! by commas.
use crate::card::{card_from_text, card_from_token, Card};
use crate::collections::Cards;
use crate::error::ParseError;
use crate::text::{is_space, is_space_char, trimmed};
use vstd::prelude::*;

verus! {

/// `w` without its trailing commas.
pub open spec fn strip_commas(w: Seq<char>) -> Seq<char>
    decreases w.len(),
{
    if w.len() > 0 && w.last() == ',' {
        strip_commas(w.drop_last())
    } else {
        w
    }
}

/// Puts `acc` in front of the cards that `r` holds.
pub open spec fn prepend(acc: Seq<Card>, r: Result<Seq<Card>, Seq<char>>) -> Result<
    Seq<Card>,
    Seq<char>,
> {
    match r {
        Ok(cs) => Ok(acc + cs),
        Err(w) => Err(w),
    }
}

/// The cards named by the text `t` from position `i` on, where a token began at `start`
/// (no token is open when `start == i`); or the first token, commas stripped, that names
/// no card.
pub open spec fn hand_scan(t: Seq<char>, start: int, i: int) -> Result<Seq<Card>, Seq<char>>
    decreases t.len() - i,
{
    if i < t.len() && !is_space(t[i]) {
        hand_scan(t, start, i + 1)
    } else {
        let rest = if i < t.len() {
            hand_scan(t, i + 1, i + 1)
        } else {
            Ok(Seq::empty())
        };
        if start < i {
            let w = strip_commas(t.subrange(start, i));
            match card_from_token(w) {
                None => Err(w),
                Some(c) => prepend(seq![c], rest),
            }
        } else {
            rest
        }
    }
}

/// The cards named by the tokens of `t`, or the first token that names no card.
pub open spec fn hand_from_text(t: Seq<char>) -> Result<Seq<Card>, Seq<char>> {
    hand_scan(t, 0, 0)
}

/// The cards named by the words `ws`, or the first word that names no card, without the
/// whitespace around it.
pub open spec fn cards_from_words(ws: Seq<Seq<char>>) -> Result<Seq<Card>, Seq<char>>
    decreases ws.len(),
{
    if ws.len() == 0 {
        Ok(Seq::empty())
    } else {
        match card_from_text(ws[0]) {
            None => Err(trimmed(ws[0])),
            Some(c) => prepend(seq![c], cards_from_words(ws.drop_first())),
        }
    }
}

proof fn lemma_prepend(acc: Seq<Card>, c: Card, r: Result<Seq<Card>, Seq<char>>)
    ensures
        prepend(acc, prepend(seq![c], r)) == prepend(acc.push(c), r),
{
    if let Ok(cs) = r {
        assert(acc + (seq![c] + cs) =~= acc.push(c) + cs);
    }
}

proof fn lemma_prepend_empty(r: Result<Seq<Card>, Seq<char>>)
    ensures
        prepend(Seq::empty(), r) == r,
{
    if let Ok(cs) = r {
        assert(Seq::<Card>::empty() + cs =~= cs);
    }
}

/// The end of the characters `start..end` of `s` once trailing commas are dropped.
fn comma_free_end(s: &str, start: usize, end: usize) -> (e: usize)
    requires
        start <= end <= s@.len(),
    ensures
        start <= e <= end,
        s@.subrange(start as int, e as int) == strip_commas(s@.subrange(start as int, end as int)),
{
    let mut e = end;
    while e > start && s.get_char(e - 1) == ','
        invariant
            start <= e <= end <= s@.len(),
            strip_commas(s@.subrange(start as int, e as int)) == strip_commas(
                s@.subrange(start as int, end as int),
            ),
        decreases e,
    {
        assert(s@.subrange(start as int, e as int).drop_last() =~= s@.subrange(
            start as int,
            e - 1,
        ));
        e -= 1;
    }
    e
}

impl Cards {
    /// Reads a hand: card tokens separated by whitespace, each optionally followed by
    /// commas (`3D 3H`, `2c, 2d, 2h`). An error names the first token that is no card.
    pub fn parse(s: &str) -> (r: Result<Cards, ParseError>)
        ensures
            match hand_from_text(s@) {
                Ok(cs) => r matches Ok(h) && h@ == cs,
                Err(w) => r matches Err(ParseError::NotACard(t)) && t@ == w,
            },
    {
        let n = s.unicode_len();
        let mut cards: Vec<Card> = Vec::new();
        let mut start: usize = 0;
        let mut i: usize = 0;
        proof {
            lemma_prepend_empty(hand_from_text(s@));
        }
        while i < n
            invariant
                n == s@.len(),
                start <= i <= n,
                hand_from_text(s@) == prepend(cards@, hand_scan(s@, start as int, i as int)),
            decreases n - i,
        {
            if !is_space_char(s.get_char(i)) {
                i += 1;
            } else {
                let ghost rest = hand_scan(s@, i + 1, i + 1);
                if start < i {
                    let e = comma_free_end(s, start, i);
                    match Card::from_part(s, start, e) {
                        None => {
                            return Err(
                                ParseError::NotACard(String::from_str(s.substring_char(start, e))),
                            );
                        },
                        Some(c) => {
                            proof {
                                lemma_prepend(cards@, c, rest);
                            }
                            cards.push(c);
                        },
                    }
                }
                i += 1;
                start = i;
            }
        }
        if start < n {
            let e = comma_free_end(s, start, n);
            match Card::from_part(s, start, e) {
                None => {
                    return Err(ParseError::NotACard(String::from_str(s.substring_char(start, e))));
                },
                Some(c) => {
                    proof {
                        lemma_prepend(cards@, c, Ok(Seq::empty()));
                    }
                    cards.push(c);
                },
            }
        }
        assert(cards@ + Seq::<Card>::empty() =~= cards@);
        Ok(Cards::from_vec(cards))
    }

    /// Reads one card from each word.
    pub fn try_from(value: Vec<&str>) -> (r: Result<Cards, ParseError>)
        ensures
            match cards_from_words(value@.map_values(|w: &str| w@)) {
                Ok(cs) => r matches Ok(h) && h@ == cs,
                Err(w) => r matches Err(ParseError::NotACard(t)) && t@ == w,
            },
    {
        let ghost ws = value@.map_values(|w: &str| w@);
        let mut cards: Vec<Card> = Vec::new();
        let mut i: usize = 0;
        proof {
            assert(ws.subrange(0, ws.len() as int) =~= ws);
            lemma_prepend_empty(cards_from_words(ws));
        }
        while i < value.len()
            invariant
                i <= value@.len(),
                ws == value@.map_values(|w: &str| w@),
                cards_from_words(ws) == prepend(cards@, cards_from_words(ws.subrange(i as int, ws.len() as int))),
            decreases value@.len() - i,
        {
            let ghost tail = ws.subrange(i as int, ws.len() as int);
            assert(tail.drop_first() =~= ws.subrange(i + 1, ws.len() as int));
            assert(tail[0] == value@[i as int]@);
            match Card::parse(value[i]) {
                Err(e) => {
                    return Err(e);
                },
                Ok(c) => {
                    proof {
                        lemma_prepend(cards@, c, cards_from_words(tail.drop_first()));
                    }
                    cards.push(c);
                },
            }
            i += 1;
        }
        assert(ws.subrange(i as int, ws.len() as int) =~= Seq::<Seq<char>>::empty());
        assert(cards@ + Seq::<Card>::empty() =~= cards@);
        Ok(Cards::from_vec(cards))
    }
}

} // verus!
