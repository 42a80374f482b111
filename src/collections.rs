use crate::card::Card;
use crate::rank::Rank;
use crate::suit::Suit;
use vstd::prelude::*;
use vstd::std_specs::iter::IteratorSpec;

verus! {

/// Number of cards of rank `r` in `s`.
pub open spec fn rank_count(s: Seq<Card>, r: Rank) -> nat
    decreases s.len(),
{
    if s.len() == 0 {
        0
    } else {
        rank_count(s.drop_last(), r) + if s.last().rank == r {
            1nat
        } else {
            0nat
        }
    }
}

/// Every card of `s` has the rank of the first one.
pub open spec fn all_same_rank(s: Seq<Card>) -> bool {
    forall|i: int| 0 <= i < s.len() ==> #[trigger] s[i].rank == s[0].rank
}

pub open spec fn forms_pair(s: Seq<Card>) -> bool {
    s.len() == 2 && s[0].rank == s[1].rank
}

pub open spec fn forms_triplet(s: Seq<Card>) -> bool {
    s.len() == 3 && s[0].rank == s[1].rank && s[1].rank == s[2].rank
}

/// Five cards: four of one rank and one of another.
pub open spec fn forms_four_plus_one(s: Seq<Card>) -> bool {
    &&& s.len() == 5
    &&& exists|i: int| 0 <= i < 5 && rank_count(s, #[trigger] s[i].rank) == 4
    &&& exists|j: int| 0 <= j < 5 && rank_count(s, #[trigger] s[j].rank) == 1
}

/// Five cards: three of one rank and two of another.
pub open spec fn forms_full_house(s: Seq<Card>) -> bool {
    &&& s.len() == 5
    &&& exists|i: int| 0 <= i < 5 && rank_count(s, #[trigger] s[i].rank) == 3
    &&& exists|j: int| 0 <= j < 5 && rank_count(s, #[trigger] s[j].rank) == 2
}

/// Five cards of one suit.
pub open spec fn forms_flush(s: Seq<Card>) -> bool {
    s.len() == 5 && forall|i: int| 0 <= i < 5 ==> #[trigger] s[i].suit == s[0].suit
}

/// `idx` lists `k` different positions below `n`.
pub open spec fn is_selection(idx: Seq<usize>, n: nat, k: nat) -> bool {
    &&& idx.len() == k
    &&& idx.no_duplicates()
    &&& forall|t: int| 0 <= t < idx.len() ==> #[trigger] idx[t] < n
}

/// The cards of `hand` at the positions `idx`, in that order.
pub open spec fn pick(hand: Seq<Card>, idx: Seq<usize>) -> Seq<Card> {
    idx.map_values(|i: usize| hand[i as int])
}

/// `play` is `k` of the cards of `hand`, each taken from a different position.
pub open spec fn is_arrangement(hand: Seq<Card>, k: nat, play: Seq<Card>) -> bool {
    exists|idx: Seq<usize>| #[trigger] is_selection(idx, hand.len(), k) && play == pick(hand, idx)
}

/// Relies on itertools' `Itertools::permutations`, which yields every sequence of `k`
/// distinct elements of its input, here the positions `0..n`.
#[verifier::external_body]
fn index_permutations(n: usize, k: usize) -> (r: Vec<Vec<usize>>)
    ensures
        forall|p: int| 0 <= p < r@.len() ==> is_selection(#[trigger] r@[p]@, n as nat, k as nat),
        forall|idx: Seq<usize>|
            #[trigger] is_selection(idx, n as nat, k as nat) ==> exists|p: int|
                0 <= p < r@.len() && #[trigger] r@[p]@ == idx,
{
    itertools::Itertools::permutations(0..n, k).collect()
}

/// The cards of `s` at the positions where `verdicts` holds true.
pub open spec fn kept(s: Seq<Card>, verdicts: Seq<bool>) -> Seq<Card>
    decreases s.len(),
{
    if s.len() == 0 || verdicts.len() == 0 {
        Seq::empty()
    } else {
        let rest = kept(s.drop_last(), verdicts.drop_last());
        if verdicts.last() {
            rest.push(s.last())
        } else {
            rest
        }
    }
}

/// The cards as they are displayed, separated by a comma and a space.
pub open spec fn cards_text(s: Seq<Card>) -> Seq<char>
    decreases s.len(),
{
    if s.len() == 0 {
        Seq::empty()
    } else if s.len() == 1 {
        s[0].text()
    } else {
        cards_text(s.drop_last()) + ", "@ + s.last().text()
    }
}

/// A collection of cards, in the order in which they are held.
#[derive(Debug, Clone)]
pub struct Cards {
    inner: Vec<Card>,
}

impl View for Cards {
    type V = Seq<Card>;

    closed spec fn view(&self) -> Seq<Card> {
        self.inner@
    }
}

impl PartialEq for Cards {
    fn eq(&self, other: &Cards) -> (r: bool) {
        if self.inner.len() != other.inner.len() {
            return false;
        }
        let mut i: usize = 0;
        while i < self.inner.len()
            invariant
                i <= self@.len(),
                self@.len() == other@.len(),
                forall|k: int| 0 <= k < i ==> self@[k] == other@[k],
            decreases self@.len() - i,
        {
            if self.inner[i] != other.inner[i] {
                return false;
            }
            i += 1;
        }
        assert(self@ =~= other@);
        true
    }
}

impl vstd::std_specs::cmp::PartialEqSpecImpl for Cards {
    open spec fn obeys_eq_spec() -> bool {
        true
    }

    open spec fn eq_spec(&self, other: &Cards) -> bool {
        self@ == other@
    }
}

impl Eq for Cards {

}

/// Whether the order of display is rank first or suit first.
#[derive(Debug, Clone, Copy, PartialEq, Eq, Structural)]
pub enum SortCardsBy {
    Rank,
    Suit,
}

impl SortCardsBy {
    /// The name of the order, as it is displayed.
    pub fn to_string(&self) -> (r: String)
        ensures
            r@ == match self {
                SortCardsBy::Rank => "rank"@,
                SortCardsBy::Suit => "suit"@,
            },
    {
        match self {
            SortCardsBy::Rank => String::from_str("rank"),
            SortCardsBy::Suit => String::from_str("suit"),
        }
    }
}

impl Cards {
    pub fn from_vec(inner: Vec<Card>) -> (r: Cards)
        ensures
            r@ == inner@,
    {
        Cards { inner }
    }

    pub fn single(card: Card) -> (r: Cards)
        ensures
            r@ == seq![card],
    {
        let mut inner = Vec::new();
        inner.push(card);
        assert(inner@ =~= seq![card]);
        Cards { inner }
    }

    /// A copy of this collection.
    pub fn duplicate(&self) -> (r: Cards)
        ensures
            r@ == self@,
    {
        let mut inner: Vec<Card> = Vec::new();
        let mut i: usize = 0;
        while i < self.inner.len()
            invariant
                i <= self.inner@.len(),
                inner@ == self.inner@.subrange(0, i as int),
            decreases self.inner@.len() - i,
        {
            inner.push(self.inner[i]);
            i += 1;
            assert(inner@ =~= self.inner@.subrange(0, i as int));
        }
        assert(inner@ =~= self.inner@);
        Cards { inner }
    }

    /// The cards as they are displayed, separated by a comma and a space.
    pub fn to_string(&self) -> (r: String)
        ensures
            r@ == cards_text(self@),
    {
        let mut out = String::new();
        let mut i: usize = 0;
        while i < self.inner.len()
            invariant
                i <= self@.len(),
                out@ == cards_text(self@.subrange(0, i as int)),
            decreases self@.len() - i,
        {
            let ghost before = out@;
            if i > 0 {
                out.append(", ");
            }
            let card = self.inner[i];
            out.append(card.rank.symbol());
            out.append(card.suit.symbol());
            proof {
                let t = self@.subrange(0, i + 1);
                assert(t.drop_last() =~= self@.subrange(0, i as int));
                assert(t.last() == card);
                if i == 0 {
                    assert(out@ =~= card.text());
                } else {
                    assert(out@ =~= before + ", "@ + card.text());
                }
            }
            i += 1;
        }
        assert(self@.subrange(0, i as int) =~= self@);
        out
    }

    pub fn into_inner(self) -> (r: Vec<Card>)
        ensures
            r@ == self@,
    {
        self.inner
    }

    pub fn iter(&self) -> (r: std::slice::Iter<'_, Card>)
        ensures
            r.remaining() == self@.as_ref(),
    {
        self.inner.as_slice().iter()
    }

    pub fn len(&self) -> (r: usize)
        ensures
            r == self@.len(),
    {
        self.inner.len()
    }

    pub fn is_empty(&self) -> (r: bool)
        ensures
            r == (self@.len() == 0),
    {
        self.inner.len() == 0
    }

    pub fn get(&self, i: usize) -> (r: &Card)
        requires
            i < self@.len(),
        ensures
            *r == self@[i as int],
    {
        &self.inner[i]
    }

    /// Replaces the cards.
    pub(crate) fn inner_replace(&mut self, cards: Vec<Card>)
        ensures
            final(self)@ == cards@,
    {
        self.inner = cards;
    }

    pub fn contains(&self, card: &Card) -> (r: bool)
        ensures
            r == self@.contains(*card),
    {
        let mut i: usize = 0;
        while i < self.inner.len()
            invariant
                i <= self.inner@.len(),
                forall|k: int| 0 <= k < i ==> self.inner@[k] != *card,
            decreases self.inner@.len() - i,
        {
            if self.inner[i] == *card {
                return true;
            }
            i += 1;
        }
        false
    }

    /// Whether no card occurs twice.
    pub fn all_distinct(&self) -> (r: bool)
        ensures
            r == self@.no_duplicates(),
    {
        let n = self.inner.len();
        let mut i: usize = 0;
        while i < n
            invariant
                n == self@.len(),
                i <= n,
                forall|a: int, b: int| 0 <= a < i && 0 <= b < n && a != b ==> self@[a] != self@[b],
            decreases n - i,
        {
            let mut j: usize = 0;
            while j < n
                invariant
                    n == self@.len(),
                    i < n,
                    j <= n,
                    forall|a: int, b: int| 0 <= a < i && 0 <= b < n && a != b ==> self@[a] != self@[b],
                    forall|b: int| 0 <= b < j && b != i ==> self@[i as int] != self@[b],
                decreases n - j,
            {
                if j != i && self.inner[i] == self.inner[j] {
                    return false;
                }
                j += 1;
            }
            i += 1;
        }
        true
    }

    /// Whether every card of `other` is also in this collection.
    pub fn includes(&self, other: &Cards) -> (r: bool)
        ensures
            r == (forall|i: int| 0 <= i < other@.len() ==> self@.contains(#[trigger] other@[i])),
    {
        let mut i: usize = 0;
        while i < other.inner.len()
            invariant
                i <= other@.len(),
                forall|k: int| 0 <= k < i ==> self@.contains(#[trigger] other@[k]),
            decreases other@.len() - i,
        {
            if !self.contains(&other.inner[i]) {
                return false;
            }
            i += 1;
        }
        true
    }

    pub fn first(&self) -> (r: Option<&Card>)
        ensures
            self@.len() == 0 ==> r is None,
            self@.len() > 0 ==> r == Some(&self@[0]),
    {
        if self.inner.len() == 0 {
            None
        } else {
            Some(&self.inner[0])
        }
    }

    /// Whether all the cards have the same rank; an error for an empty collection.
    pub fn are_all_of_same_rank(&self) -> (r: Result<bool, ()>)
        ensures
            self@.len() == 0 ==> r is Err,
            self@.len() > 0 ==> r == Ok::<bool, ()>(all_same_rank(self@)),
    {
        if self.inner.len() == 0 {
            return Err(());
        }
        let rank = self.inner[0].rank;
        let mut i: usize = 0;
        while i < self.inner.len()
            invariant
                i <= self@.len(),
                self@.len() > 0,
                rank == self@[0].rank,
                forall|k: int| 0 <= k < i ==> #[trigger] self@[k].rank == rank,
            decreases self@.len() - i,
        {
            if self.inner[i].rank != rank {
                return Ok(false);
            }
            i += 1;
        }
        Ok(true)
    }

    /// Keeps, in their order, the cards for which `keep` returns true.
    pub fn retain<F: Fn(&Card) -> bool>(&mut self, keep: F)
        requires
            forall|c: &Card| keep.requires((c,)),
        ensures
            exists|verdicts: Seq<bool>|
                verdicts.len() == old(self)@.len() && (forall|i: int|
                    0 <= i < verdicts.len() ==> keep.ensures((&old(self)@[i],), #[trigger] verdicts[i]))
                    && final(self)@ == kept(old(self)@, verdicts),
    {
        let ghost old_cards = self@;
        let ghost mut verdicts: Seq<bool> = Seq::empty();
        let mut out: Vec<Card> = Vec::new();
        let mut i: usize = 0;
        while i < self.inner.len()
            invariant
                i <= self@.len(),
                self@ == old_cards,
                forall|c: &Card| keep.requires((c,)),
                verdicts.len() == i,
                forall|k: int| 0 <= k < i ==> keep.ensures((&old_cards[k],), #[trigger] verdicts[k]),
                out@ == kept(old_cards.subrange(0, i as int), verdicts),
            decreases self@.len() - i,
        {
            let c = self.inner[i];
            let b = keep(&c);
            proof {
                let t = old_cards.subrange(0, i + 1);
                assert(t.drop_last() =~= old_cards.subrange(0, i as int));
                let earlier = verdicts;
                verdicts = verdicts.push(b);
                assert(verdicts.drop_last() =~= earlier);
                assert(t.last() == c);
                assert(verdicts.last() == b);
            }
            if b {
                out.push(c);
            }
            i += 1;
        }
        assert(old_cards.subrange(0, i as int) =~= old_cards);
        self.inner = out;
    }

    /// Number of cards of rank `r`.
    pub fn count_rank(&self, r: Rank) -> (n: usize)
        ensures
            n == rank_count(self@, r),
    {
        let mut n: usize = 0;
        let mut i: usize = 0;
        while i < self.inner.len()
            invariant
                i <= self@.len(),
                n == rank_count(self@.subrange(0, i as int), r),
                n <= i,
            decreases self@.len() - i,
        {
            assert(self@.subrange(0, i + 1).drop_last() =~= self@.subrange(0, i as int));
            if self.inner[i].rank == r {
                n += 1;
            }
            i += 1;
        }
        assert(self@.subrange(0, i as int) =~= self@);
        n
    }

    pub fn is_a_pair(&self) -> (r: bool)
        ensures
            r == forms_pair(self@),
    {
        self.inner.len() == 2 && self.inner[0].rank == self.inner[1].rank
    }

    pub fn is_a_triplet(&self) -> (r: bool)
        ensures
            r == forms_triplet(self@),
    {
        self.inner.len() == 3 && self.inner[0].rank == self.inner[1].rank && self.inner[1].rank
            == self.inner[2].rank
    }

    /// Whether some card's rank occurs `a` times and some card's rank occurs `b` times,
    /// among exactly five cards.
    fn has_groups(&self, a: usize, b: usize) -> (r: bool)
        ensures
            r == (self@.len() == 5 && (exists|i: int|
                0 <= i < 5 && rank_count(self@, #[trigger] self@[i].rank) == a) && (exists|j: int|
                0 <= j < 5 && rank_count(self@, #[trigger] self@[j].rank) == b)),
    {
        if self.inner.len() != 5 {
            return false;
        }
        let mut found_a = false;
        let mut found_b = false;
        let mut i: usize = 0;
        while i < 5
            invariant
                self@.len() == 5,
                i <= 5,
                found_a == exists|k: int| 0 <= k < i && rank_count(self@, #[trigger] self@[k].rank) == a,
                found_b == exists|k: int| 0 <= k < i && rank_count(self@, #[trigger] self@[k].rank) == b,
            decreases 5 - i,
        {
            let n = self.count_rank(self.inner[i].rank);
            if n == a {
                found_a = true;
            }
            if n == b {
                found_b = true;
            }
            i += 1;
        }
        found_a && found_b
    }

    /// Every arrangement of `k` of these cards, as the itertools permutations of their
    /// positions: the same cards in another order count as another arrangement.
    pub fn permutations(&self, k: usize) -> (r: Vec<Cards>)
        ensures
            forall|p: int| 0 <= p < r@.len() ==> is_arrangement(self@, k as nat, (#[trigger] r@[p])@),
            forall|idx: Seq<usize>|
                #[trigger] is_selection(idx, self@.len(), k as nat) ==> exists|p: int|
                    0 <= p < r@.len() && (#[trigger] r@[p])@ == pick(self@, idx),
    {
        let n = self.len();
        let perms = index_permutations(n, k);
        let mut out: Vec<Cards> = Vec::new();
        let mut q: usize = 0;
        while q < perms.len()
            invariant
                q <= perms@.len(),
                n == self@.len(),
                out@.len() == q,
                forall|p: int| 0 <= p < perms@.len() ==> is_selection(#[trigger] perms@[p]@, n as nat, k as nat),
                forall|p: int| 0 <= p < q ==> (#[trigger] out@[p])@ == pick(self@, perms@[p]@),
            decreases perms@.len() - q,
        {
            let idx = &perms[q];
            assert(is_selection(perms@[q as int]@, n as nat, k as nat));
            let mut picked: Vec<Card> = Vec::new();
            let mut t: usize = 0;
            while t < idx.len()
                invariant
                    t <= idx@.len(),
                    q < perms@.len(),
                    n == self@.len(),
                    idx@ == perms@[q as int]@,
                    is_selection(idx@, n as nat, k as nat),
                    picked@ == pick(self@, idx@.subrange(0, t as int)),
                decreases idx@.len() - t,
            {
                let i = idx[t];
                assert(i < n);
                picked.push(*self.get(i));
                t += 1;
                assert(picked@ =~= pick(self@, idx@.subrange(0, t as int)));
            }
            assert(idx@.subrange(0, t as int) =~= idx@);
            out.push(Cards::from_vec(picked));
            q += 1;
        }
        proof {
            assert forall|p: int| 0 <= p < out@.len() implies is_arrangement(self@, k as nat, (#[trigger] out@[p])@) by {
                let idx = perms@[p]@;
                assert(is_selection(idx, n as nat, k as nat) && out@[p]@ == pick(self@, idx));
            }
            assert forall|idx: Seq<usize>|
                #[trigger] is_selection(idx, self@.len(), k as nat) implies exists|p: int|
                    0 <= p < out@.len() && (#[trigger] out@[p])@ == pick(self@, idx) by {
                let p = choose|p: int| 0 <= p < perms@.len() && #[trigger] perms@[p]@ == idx;
                assert(out@[p]@ == pick(self@, idx));
            }
        }
        out
    }

    /// Four cards of one rank and one card of another.
    pub fn is_four_of_a_kind_plus_one(&self) -> (r: bool)
        ensures
            r == forms_four_plus_one(self@),
    {
        self.has_groups(4, 1)
    }

    /// Three cards of one rank and two of another.
    pub fn is_a_full_house(&self) -> (r: bool)
        ensures
            r == forms_full_house(self@),
    {
        self.has_groups(3, 2)
    }

    /// Five cards of the same suit.
    pub fn is_a_flush(&self) -> (r: bool)
        ensures
            r == forms_flush(self@),
    {
        if self.inner.len() != 5 {
            return false;
        }
        let suit: Suit = self.inner[0].suit;
        let mut i: usize = 0;
        while i < 5
            invariant
                self@.len() == 5,
                i <= 5,
                suit == self@[0].suit,
                forall|k: int| 0 <= k < i ==> #[trigger] self@[k].suit == suit,
            decreases 5 - i,
        {
            if self.inner[i].suit != suit {
                return false;
            }
            i += 1;
        }
        true
    }
}

pub fn is_a_pair(cards: [&Card; 2]) -> (r: bool)
    ensures
        r == forms_pair(seq![*cards[0], *cards[1]]),
{
    cards[0].rank == cards[1].rank
}

pub fn is_a_triplet(cards: [&Card; 3]) -> (r: bool)
    ensures
        r == forms_triplet(seq![*cards[0], *cards[1], *cards[2]]),
{
    cards[0].rank == cards[1].rank && cards[1].rank == cards[2].rank
}

fn five_cards(cards: [&Card; 5]) -> (r: Cards)
    ensures
        r@ == seq![*cards[0], *cards[1], *cards[2], *cards[3], *cards[4]],
{
    let mut inner = Vec::new();
    inner.push(*cards[0]);
    inner.push(*cards[1]);
    inner.push(*cards[2]);
    inner.push(*cards[3]);
    inner.push(*cards[4]);
    assert(inner@ =~= seq![*cards[0], *cards[1], *cards[2], *cards[3], *cards[4]]);
    Cards { inner }
}

pub fn is_four_of_a_kind_plus_one(cards: [&Card; 5]) -> (r: bool)
    ensures
        r == forms_four_plus_one(seq![*cards[0], *cards[1], *cards[2], *cards[3], *cards[4]]),
{
    five_cards(cards).is_four_of_a_kind_plus_one()
}

pub fn is_a_full_house(cards: [&Card; 5]) -> (r: bool)
    ensures
        r == forms_full_house(seq![*cards[0], *cards[1], *cards[2], *cards[3], *cards[4]]),
{
    five_cards(cards).is_a_full_house()
}

pub fn is_flush(cards: [&Card; 5]) -> (r: bool)
    ensures
        r == forms_flush(seq![*cards[0], *cards[1], *cards[2], *cards[3], *cards[4]]),
{
    five_cards(cards).is_a_flush()
}

} // verus!
