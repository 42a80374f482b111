//! The deck: the 52 cards, shuffling, and dealing them out to the players.
use crate::card::Card;
use crate::collections::Cards;
use crate::rules::rank_at;
use crate::rules::rank_from_position;
use crate::suit::Suit;
use vstd::prelude::*;

verus! {

/// The suit at precedence `q`.
pub open spec fn suit_at(q: int) -> Suit {
    if q == 0 {
        Suit::Diamonds
    } else if q == 1 {
        Suit::Clubs
    } else if q == 2 {
        Suit::Hearts
    } else {
        Suit::Spades
    }
}

/// The card whose [`Card::value`] is `v`.
pub open spec fn card_at(v: int) -> Card {
    Card { rank: rank_at(v / 4), suit: suit_at(v % 4) }
}

/// Every one of the 52 cards, each exactly once.
pub open spec fn is_full_deck(d: Seq<Card>) -> bool {
    &&& d.len() == 52
    &&& d.no_duplicates()
    &&& forall|c: Card| d.contains(c)
}

/// The cards that player `j` of four is dealt from `d`: the dealer takes cards from the
/// end of `d`, one to each player in turn, for as long as every player can get one.
pub open spec fn dealt(d: Seq<Card>, j: int) -> Seq<Card> {
    Seq::new((d.len() / 4) as nat, |k: int| d[d.len() - 1 - 4 * k - j])
}

/// What is left of `d` after the deal.
pub open spec fn undealt(d: Seq<Card>) -> Seq<Card> {
    d.subrange(0, d.len() - 4 * (d.len() / 4))
}

proof fn lemma_card_at(v: int)
    requires
        0 <= v < 52,
    ensures
        card_at(v).value() == v,
{
    let r = rank_at(v / 4);
    assert(r.precedence() == v / 4);
    assert(suit_at(v % 4).precedence() == v % 4);
}

proof fn lemma_card_at_value(c: Card)
    ensures
        card_at(c.value()) == c,
{
    assert(c.value() / 4 == c.rank.precedence());
    assert(c.value() % 4 == c.suit.precedence());
}

fn suit_from_position(q: usize) -> (r: Suit)
    requires
        q < 4,
    ensures
        r == suit_at(q as int),
{
    match q {
        0 => Suit::Diamonds,
        1 => Suit::Clubs,
        2 => Suit::Hearts,
        _ => Suit::Spades,
    }
}

/// The 52 cards, lowest first.
pub fn standard_deck() -> (r: Vec<Card>)
    ensures
        r@ == Seq::new(52, |v: int| card_at(v)),
        is_full_deck(r@),
{
    let mut cards: Vec<Card> = Vec::new();
    let mut v: usize = 0;
    while v < 52
        invariant
            v <= 52,
            cards@ == Seq::new(v as nat, |w: int| card_at(w)),
        decreases 52 - v,
    {
        cards.push(Card { rank: rank_from_position(v / 4), suit: suit_from_position(v % 4) });
        v += 1;
        assert(cards@ =~= Seq::new(v as nat, |w: int| card_at(w)));
    }
    proof {
        let d = cards@;
        assert forall|i: int, j: int| 0 <= i < d.len() && 0 <= j < d.len() && i != j implies d[i]
            != d[j] by {
            lemma_card_at(i);
            lemma_card_at(j);
        }
        assert forall|c: Card| d.contains(c) by {
            lemma_card_at_value(c);
            crate::rules::lemma_value_injective(c, c);
            assert(d[c.value()] == c);
        }
    }
    cards
}

/// Relies on rand's `SliceRandom::shuffle`, which only reorders the slice, and on
/// `SmallRng::from_entropy` to seed it.
#[verifier::external_body]
fn shuffle(cards: &mut Vec<Card>)
    ensures
        final(cards)@.to_multiset() == old(cards)@.to_multiset(),
{
    let mut rng = <rand::rngs::SmallRng as rand::SeedableRng>::from_entropy();
    rand::seq::SliceRandom::shuffle(cards.as_mut_slice(), &mut rng);
}

/// The cards of five sequences put end to end are the cards of each of them.
pub proof fn lemma_five_parts(a: Seq<Card>, b: Seq<Card>, c: Seq<Card>, d: Seq<Card>, e: Seq<Card>)
    ensures
        (a + b + c + d + e).to_multiset() =~= a.to_multiset().add(b.to_multiset()).add(
            c.to_multiset(),
        ).add(d.to_multiset()).add(e.to_multiset()),
{
    vstd::seq_lib::lemma_multiset_commutative(a + b + c + d, e);
    vstd::seq_lib::lemma_multiset_commutative(a + b + c, d);
    vstd::seq_lib::lemma_multiset_commutative(a + b, c);
    vstd::seq_lib::lemma_multiset_commutative(a, b);
}

/// A reordering of a full deck is a full deck.
pub proof fn lemma_reordered_full_deck(d: Seq<Card>, e: Seq<Card>)
    requires
        is_full_deck(d),
        e.to_multiset() == d.to_multiset(),
    ensures
        is_full_deck(e),
{
    broadcast use vstd::seq_lib::group_to_multiset_ensures;

    d.lemma_multiset_has_no_duplicates();
    assert forall|c: Card| e.contains(c) by {
        assert(d.contains(c));
        assert(d.to_multiset().count(c) > 0);
    }
    assert forall|c: Card| e.to_multiset().contains(c) implies e.to_multiset().count(c) == 1 by {
        assert(d.to_multiset().contains(c));
    }
    e.lemma_multiset_has_no_duplicates_conv();
    assert(e.len() == e.to_multiset().len());
    assert(d.len() == d.to_multiset().len());
}

/// The 52 cards in a random order.
pub fn shuffled_deck() -> (r: Vec<Card>)
    ensures
        is_full_deck(r@),
{
    let mut cards = standard_deck();
    let ghost before = cards@;
    shuffle(&mut cards);
    proof {
        lemma_reordered_full_deck(before, cards@);
    }
    cards
}

/// The cards that have not been dealt.
pub struct Deck {
    cards: Vec<Card>,
}

impl View for Deck {
    type V = Seq<Card>;

    closed spec fn view(&self) -> Seq<Card> {
        self.cards@
    }
}

impl Deck {
    /// A shuffled deck of the 52 cards.
    pub fn new() -> (r: Deck)
        ensures
            is_full_deck(r@),
    {
        Deck { cards: shuffled_deck() }
    }

    /// A deck that holds `cards`; the last card is dealt first.
    pub fn from_cards(cards: Vec<Card>) -> (r: Deck)
        ensures
            r@ == cards@,
    {
        Deck { cards }
    }

    pub fn len(&self) -> (r: usize)
        ensures
            r == self@.len(),
    {
        self.cards.len()
    }

    pub fn is_empty(&self) -> (r: bool)
        ensures
            r == (self@.len() == 0),
    {
        self.cards.len() == 0
    }

    /// Deals the cards out to four players, one at a time from the end of the deck, until
    /// fewer cards are left than there are players.
    pub fn draw_starting_hands(&mut self) -> (r: [Cards; 4])
        ensures
            forall|j: int| 0 <= j < 4 ==> (#[trigger] r[j])@ == dealt(old(self)@, j),
            final(self)@ == undealt(old(self)@),
            (r[0]@ + r[1]@ + r[2]@ + r[3]@ + final(self)@).to_multiset() == old(self)@.to_multiset(),
    {

        let ghost d = self@;
        let n = self.cards.len();
        let mut h0: Vec<Card> = Vec::new();
        let mut h1: Vec<Card> = Vec::new();
        let mut h2: Vec<Card> = Vec::new();
        let mut h3: Vec<Card> = Vec::new();
        let mut t: usize = 0;
        while self.cards.len() >= 4
            invariant
                n == d.len(),
                4 * t <= n,
                self.cards@ == d.subrange(0, n - 4 * t),
                h0@ == Seq::new(t as nat, |k: int| d[n - 1 - 4 * k]),
                h1@ == Seq::new(t as nat, |k: int| d[n - 1 - 4 * k - 1]),
                h2@ == Seq::new(t as nat, |k: int| d[n - 1 - 4 * k - 2]),
                h3@ == Seq::new(t as nat, |k: int| d[n - 1 - 4 * k - 3]),
                (h0@ + h1@ + h2@ + h3@ + self.cards@).to_multiset() == d.to_multiset(),
            decreases self.cards@.len(),
        {
            let ghost m0 = self.cards@;
            let ghost (o0, o1, o2, o3) = (h0@, h1@, h2@, h3@);
            let c0 = self.cards.pop().unwrap();
            h0.push(c0);
            let c1 = self.cards.pop().unwrap();
            h1.push(c1);
            let c2 = self.cards.pop().unwrap();
            h2.push(c2);
            let c3 = self.cards.pop().unwrap();
            h3.push(c3);
            proof {
                let rest = self.cards@;
                let r1 = rest.push(c3);
                let r2 = r1.push(c2);
                let r3 = r2.push(c1);
                assert(m0 =~= r3.push(c0));
                vstd::seq_lib::to_multiset_build(rest, c3);
                assert(r1.to_multiset() =~= rest.to_multiset().insert(c3));
                vstd::seq_lib::to_multiset_build(r1, c2);
                assert(r2.to_multiset() =~= r1.to_multiset().insert(c2));
                vstd::seq_lib::to_multiset_build(r2, c1);
                assert(r3.to_multiset() =~= r2.to_multiset().insert(c1));
                vstd::seq_lib::to_multiset_build(r3, c0);
                assert(m0.to_multiset() =~= r3.to_multiset().insert(c0));
                assert(h0@ == o0.push(c0) && h1@ == o1.push(c1) && h2@ == o2.push(c2) && h3@ == o3.push(c3));
                vstd::seq_lib::to_multiset_build(o0, c0);
                assert(h0@.to_multiset() =~= o0.to_multiset().insert(c0));
                vstd::seq_lib::to_multiset_build(o1, c1);
                assert(h1@.to_multiset() =~= o1.to_multiset().insert(c1));
                vstd::seq_lib::to_multiset_build(o2, c2);
                assert(h2@.to_multiset() =~= o2.to_multiset().insert(c2));
                vstd::seq_lib::to_multiset_build(o3, c3);
                assert(h3@.to_multiset() =~= o3.to_multiset().insert(c3));
                let before = o0 + o1 + o2 + o3 + m0;
                let after = h0@ + h1@ + h2@ + h3@ + rest;
                lemma_five_parts(o0, o1, o2, o3, m0);
                lemma_five_parts(h0@, h1@, h2@, h3@, rest);
                assert(before.to_multiset() =~= o0.to_multiset().add(o1.to_multiset()).add(o2.to_multiset()).add(o3.to_multiset()).add(m0.to_multiset()));
                assert(after.to_multiset() =~= h0@.to_multiset().add(h1@.to_multiset()).add(h2@.to_multiset()).add(h3@.to_multiset()).add(rest.to_multiset()));
                assert(after.to_multiset() =~= before.to_multiset());
            }
            t += 1;
            assert(self.cards@ =~= d.subrange(0, n - 4 * t));
            assert(h0@ =~= Seq::new(t as nat, |k: int| d[n - 1 - 4 * k]));
            assert(h1@ =~= Seq::new(t as nat, |k: int| d[n - 1 - 4 * k - 1]));
            assert(h2@ =~= Seq::new(t as nat, |k: int| d[n - 1 - 4 * k - 2]));
            assert(h3@ =~= Seq::new(t as nat, |k: int| d[n - 1 - 4 * k - 3]));
        }
        assert(t == n / 4);
        let r = [Cards::from_vec(h0), Cards::from_vec(h1), Cards::from_vec(h2), Cards::from_vec(h3)];
        assert(r[0]@ =~= dealt(d, 0));
        assert(r[1]@ =~= dealt(d, 1));
        assert(r[2]@ =~= dealt(d, 2));
        assert(r[3]@ =~= dealt(d, 3));
        r
    }
}

/// Dealing a full deck to four players gives each of them 13 cards, no card to two
/// players, every card to one of them, and leaves nothing undealt.
pub proof fn lemma_deal_partitions(d: Seq<Card>)
    requires
        is_full_deck(d),
    ensures
        forall|j: int| 0 <= j < 4 ==> (#[trigger] dealt(d, j)).len() == 13,
        forall|j1: int, j2: int, c: Card|
            0 <= j1 < 4 && 0 <= j2 < 4 && j1 != j2 && #[trigger] dealt(d, j1).contains(c) ==> !#[trigger] dealt(d, j2).contains(c),
        forall|c: Card| #[trigger] d.contains(c) ==> exists|j: int| 0 <= j < 4 && #[trigger] dealt(d, j).contains(c),
        undealt(d).len() == 0,
{
    assert forall|j1: int, j2: int, c: Card|
        0 <= j1 < 4 && 0 <= j2 < 4 && j1 != j2 && #[trigger] dealt(d, j1).contains(c) implies !#[trigger] dealt(d, j2).contains(c) by {
        if dealt(d, j2).contains(c) {
            let k1 = choose|k: int| 0 <= k < 13 && dealt(d, j1)[k] == c;
            let k2 = choose|k: int| 0 <= k < 13 && dealt(d, j2)[k] == c;
            assert(d[51 - 4 * k1 - j1] == d[51 - 4 * k2 - j2]);
        }
    }
    assert forall|c: Card| #[trigger] d.contains(c) implies exists|j: int| 0 <= j < 4 && #[trigger] dealt(d, j).contains(c) by {
        let i = choose|i: int| 0 <= i < 52 && d[i] == c;
        let k = (51 - i) / 4;
        let j = (51 - i) % 4;
        assert(51 - 4 * k - j == i);
        assert(0 <= k < 13 && 0 <= j < 4);
        assert(dealt(d, j)[k] == c);
        assert(dealt(d, j).contains(c));
    }
}

} // verus!
