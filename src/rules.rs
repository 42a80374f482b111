//! The rules of Cho Dai Di on collections of cards: the order of suits, ranks and cards,
//! the shapes a play may take, and when one play may follow another.
use crate::card::Card;
use crate::collections::{
    all_same_rank, forms_flush, forms_four_plus_one, forms_full_house, rank_count, Cards,
    SortCardsBy,
};
use crate::error::{HandKind, PlayError};
use crate::rank::Rank;
use crate::suit::Suit;
use std::cmp::Ordering;
use vstd::prelude::*;

verus! {

/// How `x` compares with `y`.
pub open spec fn ordering_of(x: int, y: int) -> Ordering {
    if x < y {
        Ordering::Less
    } else if x == y {
        Ordering::Equal
    } else {
        Ordering::Greater
    }
}

/// The greatest [`Card::value`] in `s`, or -1 for no cards.
pub open spec fn max_value(s: Seq<Card>) -> int
    decreases s.len(),
{
    if s.len() == 0 {
        -1
    } else {
        let m = max_value(s.drop_last());
        if s.last().value() > m {
            s.last().value()
        } else {
            m
        }
    }
}

/// The least [`Card::value`] in `s`, or 52 for no cards.
pub open spec fn min_value(s: Seq<Card>) -> int
    decreases s.len(),
{
    if s.len() == 0 {
        52
    } else {
        let m = min_value(s.drop_last());
        if s.last().value() < m {
            s.last().value()
        } else {
            m
        }
    }
}

/// The key that orders cards for display: rank first, or suit first.
pub open spec fn sort_key(c: Card, order: SortCardsBy) -> int {
    match order {
        SortCardsBy::Rank => c.value(),
        SortCardsBy::Suit => c.suit.precedence() * 13 + c.rank.precedence(),
    }
}

pub open spec fn sorted_by(s: Seq<Card>, order: SortCardsBy) -> bool {
    forall|i: int, j: int| 0 <= i < j < s.len() ==> sort_key(s[i], order) <= sort_key(s[j], order)
}

/// No two cards of `s` share a rank.
pub open spec fn distinct_ranks(s: Seq<Card>) -> bool {
    forall|i: int, j: int|
        0 <= i < s.len() && 0 <= j < s.len() && i != j ==> s[i].rank != s[j].rank
}

/// The runs of five ranks that make a straight start at the precedence of Three through
/// Jack (ending at Seven through Two), or at Ace or Two, wrapping round to Three.
pub open spec fn run_start(start: int) -> bool {
    (0 <= start && start <= 8) || start == 11 || start == 12
}

/// `r` lies in the run of five ranks that starts at precedence `start`.
pub open spec fn in_run(r: Rank, start: int) -> bool {
    (r.precedence() - start + 13) % 13 < 5
}

/// Five cards of five different ranks that form one run.
pub open spec fn forms_straight(s: Seq<Card>) -> bool {
    &&& s.len() == 5
    &&& distinct_ranks(s)
    &&& exists|start: int| run_start(start) && forall|i: int| 0 <= i < 5 ==> #[trigger] in_run(s[i].rank, start)
}

pub open spec fn forms_straight_flush(s: Seq<Card>) -> bool {
    forms_straight(s) && forms_flush(s)
}

/// `r` occurs at least as often in `s` as any rank, and more often than every lower rank.
pub open spec fn is_largest_group(s: Seq<Card>, r: Rank) -> bool {
    &&& forall|r2: Rank| rank_count(s, r2) <= rank_count(s, r)
    &&& forall|r2: Rank| r2.precedence() < r.precedence() ==> rank_count(s, r2) < rank_count(s, r)
}

/// The rank of the largest group of `s`: the most frequent rank, the lowest one on a tie.
pub open spec fn largest_group_rank(s: Seq<Card>) -> Rank {
    choose|r: Rank| is_largest_group(s, r)
}

pub open spec fn forms_five_card_hand(s: Seq<Card>) -> bool {
    forms_four_plus_one(s) || forms_straight(s) || forms_flush(s) || forms_full_house(s)
        || forms_straight_flush(s)
}

/// Why `s` is not a play of a legal shape, if it is not one.
pub open spec fn shape_error(s: Seq<Card>) -> Option<PlayError> {
    if s.len() == 0 {
        Some(PlayError::Empty)
    } else if !(s.len() == 1 || s.len() == 2 || s.len() == 3 || s.len() == 5) {
        Some(PlayError::WrongSize)
    } else if s.len() <= 3 {
        if all_same_rank(s) {
            None
        } else {
            Some(PlayError::MixedRanks)
        }
    } else if forms_five_card_hand(s) {
        None
    } else {
        Some(PlayError::NoFiveCardHand)
    }
}

/// One to three cards of one rank, or five cards of one of the five-card kinds.
pub open spec fn valid_shape(s: Seq<Card>) -> bool {
    shape_error(s) is None
}

/// `cand` beats `prev` when its highest card is higher.
pub open spec fn beats_by_top(prev: Seq<Card>, cand: Seq<Card>, kind: HandKind) -> Result<
    (),
    PlayError,
> {
    if max_value(prev) < max_value(cand) {
        Ok(())
    } else {
        Err(PlayError::NotHigher(kind))
    }
}

/// The kind of a five-card hand, checked in this order: straight flush, straight, flush,
/// full house, four of a kind plus one. A straight flush is of that kind only, not also a
/// straight or a flush.
pub open spec fn five_card_kind_of(s: Seq<Card>) -> Option<HandKind> {
    if forms_straight_flush(s) {
        Some(HandKind::StraightFlush)
    } else if forms_straight(s) {
        Some(HandKind::Straight)
    } else if forms_flush(s) {
        Some(HandKind::Flush)
    } else if forms_full_house(s) {
        Some(HandKind::FullHouse)
    } else if forms_four_plus_one(s) {
        Some(HandKind::FourOfAKindPlusOne)
    } else {
        None
    }
}

/// Whether `cand` may be played on `prev` in the same trick, and if not, why. Five-card
/// plays are compared only when they are of the same kind (see [`five_card_kind_of`]);
/// plays of different kinds do not compare.
pub open spec fn follow_result(prev: Seq<Card>, cand: Seq<Card>) -> Result<(), PlayError> {
    if prev.len() != cand.len() {
        Err(PlayError::SizeMismatch)
    } else if let Some(e) = shape_error(cand) {
        Err(e)
    } else if cand.len() == 1 {
        beats_by_top(prev, cand, HandKind::Single)
    } else if cand.len() == 2 {
        beats_by_top(prev, cand, HandKind::Pair)
    } else if cand.len() == 3 {
        beats_by_top(prev, cand, HandKind::Triplet)
    } else if let (Some(a), Some(b)) = (five_card_kind_of(prev), five_card_kind_of(cand)) {
        if a != b {
            Err(PlayError::DifferentFiveCardHands)
        } else if a == HandKind::FourOfAKindPlusOne {
            if largest_group_rank(prev).precedence() < largest_group_rank(cand).precedence() {
                Ok(())
            } else {
                Err(PlayError::NotHigher(HandKind::FourOfAKindPlusOne))
            }
        } else {
            beats_by_top(prev, cand, a)
        }
    } else {
        Err(PlayError::DifferentFiveCardHands)
    }
}

/// The rank at precedence `q`.
pub open spec fn rank_at(q: int) -> Rank {
    if q == 0 {
        Rank::Three
    } else if q == 1 {
        Rank::Four
    } else if q == 2 {
        Rank::Five
    } else if q == 3 {
        Rank::Six
    } else if q == 4 {
        Rank::Seven
    } else if q == 5 {
        Rank::Eight
    } else if q == 6 {
        Rank::Nine
    } else if q == 7 {
        Rank::Ten
    } else if q == 8 {
        Rank::Jack
    } else if q == 9 {
        Rank::Queen
    } else if q == 10 {
        Rank::King
    } else if q == 11 {
        Rank::Ace
    } else {
        Rank::Two
    }
}

pub fn rank_from_position(q: usize) -> (r: Rank)
    requires
        q < 13,
    ensures
        r == rank_at(q as int),
        r.precedence() == q,
{
    match q {
        0 => Rank::Three,
        1 => Rank::Four,
        2 => Rank::Five,
        3 => Rank::Six,
        4 => Rank::Seven,
        5 => Rank::Eight,
        6 => Rank::Nine,
        7 => Rank::Ten,
        8 => Rank::Jack,
        9 => Rank::Queen,
        10 => Rank::King,
        11 => Rank::Ace,
        _ => Rank::Two,
    }
}

proof fn lemma_rank_at_precedence(r: Rank)
    ensures
        rank_at(r.precedence()) == r,
        0 <= r.precedence() < 13,
{
}

pub fn card_value(c: &Card) -> (r: usize)
    ensures
        r == c.value(),
        r < 52,
{
    c.rank.position() * 4 + c.suit.position()
}

fn key_of(c: &Card, order: SortCardsBy) -> (r: usize)
    ensures
        r == sort_key(*c, order),
{
    match order {
        SortCardsBy::Rank => c.rank.position() * 4 + c.suit.position(),
        SortCardsBy::Suit => c.suit.position() * 13 + c.rank.position(),
    }
}

/// Two cards of equal value are the same card.
pub proof fn lemma_value_injective(a: Card, b: Card)
    ensures
        a.value() == b.value() ==> a == b,
        0 <= a.value() < 52,
{
}

pub proof fn lemma_max_value(s: Seq<Card>)
    ensures
        forall|i: int| 0 <= i < s.len() ==> #[trigger] s[i].value() <= max_value(s),
        s.len() > 0 ==> exists|i: int| 0 <= i < s.len() && #[trigger] s[i].value() == max_value(s),
        s.len() == 0 ==> max_value(s) == -1,
    decreases s.len(),
{
    if s.len() > 0 {
        lemma_max_value(s.drop_last());
        if s.len() > 1 && max_value(s) == max_value(s.drop_last()) {
            let i = choose|i: int| 0 <= i < s.len() - 1 && #[trigger] s.drop_last()[i].value() == max_value(s.drop_last());
            assert(s[i] == s.drop_last()[i]);
        } else {
            assert(s[s.len() - 1] == s.last());
        }
        assert forall|i: int| 0 <= i < s.len() implies #[trigger] s[i].value() <= max_value(s) by {
            if i < s.len() - 1 {
                assert(s[i] == s.drop_last()[i]);
            }
        }
    }
}

pub proof fn lemma_max_value_empty(s: Seq<Card>)
    requires
        s.len() == 0,
    ensures
        max_value(s) == -1,
{
}

impl Cards {
    /// Compares two suits by Cho Dai Di precedence: Diamonds, Clubs, Hearts, Spades.
    pub fn cmp_suit(a: &Suit, b: &Suit) -> (r: Ordering)
        ensures
            r == ordering_of(a.precedence(), b.precedence()),
    {
        let x = a.position();
        let y = b.position();
        if x < y {
            Ordering::Less
        } else if x == y {
            Ordering::Equal
        } else {
            Ordering::Greater
        }
    }

    /// Compares two ranks by Cho Dai Di precedence: Three, Four, ..., King, Ace, Two.
    pub fn cmp_rank(a: &Rank, b: &Rank) -> (r: Ordering)
        ensures
            r == ordering_of(a.precedence(), b.precedence()),
    {
        let x = a.position();
        let y = b.position();
        if x < y {
            Ordering::Less
        } else if x == y {
            Ordering::Equal
        } else {
            Ordering::Greater
        }
    }

    /// Compares two cards by rank, and by suit between cards of one rank.
    pub fn cmp_card(a: &Card, b: &Card) -> (r: Ordering)
        ensures
            r == ordering_of(a.value(), b.value()),
    {
        if a.rank == b.rank {
            Self::cmp_suit(&a.suit, &b.suit)
        } else {
            Self::cmp_rank(&a.rank, &b.rank)
        }
    }

    /// The card of highest precedence, if there is a card.
    pub fn highest_card(&self) -> (r: Option<&Card>)
        ensures
            self@.len() == 0 ==> r is None,
            self@.len() > 0 ==> (r matches Some(c) && self@.contains(*c) && c.value() == max_value(
                self@,
            )),
    {
        let n = self.len();
        if n == 0 {
            return None;
        }
        let mut best: usize = 0;
        let mut i: usize = 1;
        proof {
            assert(self@.subrange(0, 1).drop_last() =~= Seq::<Card>::empty());
            assert(max_value(Seq::<Card>::empty()) == -1);
            lemma_value_injective(self@[0], self@[0]);
            assert(self@.subrange(0, 1).last() == self@[0]);
        }
        while i < n
            invariant
                n == self@.len(),
                1 <= i <= n,
                best < i,
                self@[best as int].value() == max_value(self@.subrange(0, i as int)),
            decreases n - i,
        {
            assert(self@.subrange(0, i + 1).drop_last() =~= self@.subrange(0, i as int));
            if card_value(self.get(i)) > card_value(self.get(best)) {
                best = i;
            }
            i += 1;
        }
        assert(self@.subrange(0, n as int) =~= self@);
        Some(self.get(best))
    }

    /// The card of lowest precedence, if there is a card.
    pub fn lowest_card(&self) -> (r: Option<&Card>)
        ensures
            self@.len() == 0 ==> r is None,
            self@.len() > 0 ==> (r matches Some(c) && self@.contains(*c) && c.value() == min_value(
                self@,
            )),
    {
        let n = self.len();
        if n == 0 {
            return None;
        }
        let mut best: usize = 0;
        let mut i: usize = 1;
        proof {
            assert(self@.subrange(0, 1).drop_last() =~= Seq::<Card>::empty());
            assert(min_value(Seq::<Card>::empty()) == 52);
            lemma_value_injective(self@[0], self@[0]);
            assert(self@.subrange(0, 1).last() == self@[0]);
        }
        while i < n
            invariant
                n == self@.len(),
                1 <= i <= n,
                best < i,
                self@[best as int].value() == min_value(self@.subrange(0, i as int)),
            decreases n - i,
        {
            assert(self@.subrange(0, i + 1).drop_last() =~= self@.subrange(0, i as int));
            if card_value(self.get(i)) < card_value(self.get(best)) {
                best = i;
            }
            i += 1;
        }
        assert(self@.subrange(0, n as int) =~= self@);
        Some(self.get(best))
    }
}

impl Cards {
    /// Orders the cards for display, by rank first or by suit first; cards of equal key
    /// keep their order.
    pub fn sort_by(&mut self, order: SortCardsBy)
        ensures
            final(self)@.to_multiset() == old(self)@.to_multiset(),
            sorted_by(final(self)@, order),
    {
        broadcast use vstd::seq_lib::group_to_multiset_ensures;

        let ghost old_cards = self@;
        let n = self.len();
        let mut out: Vec<Card> = Vec::new();
        let mut i: usize = 0;
        while i < n
            invariant
                n == old_cards.len(),
                self@ == old_cards,
                i <= n,
                out@.to_multiset() == old_cards.subrange(0, i as int).to_multiset(),
                sorted_by(out@, order),
            decreases n - i,
        {
            let x = *self.get(i);
            let kx = key_of(&x, order);
            let mut p: usize = 0;
            while p < out.len() && key_of(&out[p], order) <= kx
                invariant
                    p <= out@.len(),
                    forall|k: int| 0 <= k < p ==> sort_key(#[trigger] out@[k], order) <= kx,
                decreases out@.len() - p,
            {
                p += 1;
            }
            let ghost before = out@;
            out.insert(p, x);
            proof {
                assert(out@ == before.insert(p as int, x));
                vstd::seq_lib::to_multiset_insert(before, p as int, x);
                assert(old_cards.subrange(0, i + 1) =~= old_cards.subrange(0, i as int).push(x));
                vstd::seq_lib::to_multiset_build(old_cards.subrange(0, i as int), x);
                assert forall|a: int, b: int| 0 <= a < b < out@.len() implies sort_key(
                    out@[a],
                    order,
                ) <= sort_key(out@[b], order) by {
                    if b < p {
                    } else if b == p {
                    } else if a < p {
                        assert(out@[b] == before[b - 1]);
                        if p < before.len() {
                            assert(sort_key(before[p as int], order) > kx);
                            assert(sort_key(before[p as int], order) <= sort_key(before[b - 1], order));
                        }
                    } else if a == p {
                        assert(out@[b] == before[b - 1]);
                        assert(sort_key(before[p as int], order) > kx);
                        if b - 1 > p {
                            assert(sort_key(before[p as int], order) <= sort_key(before[b - 1], order));
                        }
                    } else {
                        assert(out@[a] == before[a - 1]);
                        assert(out@[b] == before[b - 1]);
                    }
                }
            }
            i += 1;
        }
        assert(old_cards.subrange(0, n as int) =~= old_cards);
        self.inner_replace(out);
    }

    /// Orders the cards by rank, and by suit within a rank.
    pub fn sort_by_rank(&mut self)
        ensures
            final(self)@.to_multiset() == old(self)@.to_multiset(),
            sorted_by(final(self)@, SortCardsBy::Rank),
    {
        self.sort_by(SortCardsBy::Rank)
    }

    /// Orders the cards by suit, and by rank within a suit.
    pub fn sort_by_suit(&mut self)
        ensures
            final(self)@.to_multiset() == old(self)@.to_multiset(),
            sorted_by(final(self)@, SortCardsBy::Suit),
    {
        self.sort_by(SortCardsBy::Suit)
    }

    /// Orders the cards by precedence, lowest first.
    pub fn sort_by_precedence(&mut self)
        ensures
            final(self)@.to_multiset() == old(self)@.to_multiset(),
            sorted_by(final(self)@, SortCardsBy::Rank),
    {
        self.sort_by(SortCardsBy::Rank)
    }

    /// Five cards of five ranks that form a run: Three to Seven up to Jack to Two, or one
    /// of the runs Ace to Five and Two to Six.
    pub fn is_a_straight(&self) -> (r: bool)
        ensures
            r == forms_straight(self@),
    {
        if self.len() != 5 {
            return false;
        }
        let mut i: usize = 0;
        while i < 5
            invariant
                self@.len() == 5,
                i <= 5,
                forall|a: int, b: int| 0 <= a < i && 0 <= b < 5 && a != b ==> self@[a].rank != self@[b].rank,
            decreases 5 - i,
        {
            let mut j: usize = 0;
            while j < 5
                invariant
                    self@.len() == 5,
                    i < 5,
                    j <= 5,
                    forall|a: int, b: int| 0 <= a < i && 0 <= b < 5 && a != b ==> self@[a].rank != self@[b].rank,
                    forall|b: int| 0 <= b < j && b != i ==> self@[i as int].rank != self@[b].rank,
                decreases 5 - j,
            {
                if j != i && self.get(i).rank == self.get(j).rank {
                    return false;
                }
                j += 1;
            }
            i += 1;
        }
        let mut start: usize = 0;
        while start < 13
            invariant
                self@.len() == 5,
                distinct_ranks(self@),
                start <= 13,
                forall|st: int| 0 <= st < start && run_start(st) ==> !(forall|k: int| 0 <= k < 5 ==> #[trigger] in_run(self@[k].rank, st)),
            decreases 13 - start,
        {
            if start <= 8 || start >= 11 {
                let mut k: usize = 0;
                let mut all = true;
                while k < 5
                    invariant
                        self@.len() == 5,
                        k <= 5,
                        start < 13,
                        all == forall|m: int| 0 <= m < k ==> #[trigger] in_run(self@[m].rank, start as int),
                    decreases 5 - k,
                {
                    let q = self.get(k).rank.position();
                    let inside = (q + 13 - start) % 13 < 5;
                    assert(inside == in_run(self@[k as int].rank, start as int));
                    all = all && inside;
                    k += 1;
                }
                if all {
                    assert(run_start(start as int));
                    return true;
                }
            }
            start += 1;
        }
        proof {
            assert forall|st: int| run_start(st) implies !(forall|k: int| 0 <= k < 5 ==> #[trigger] in_run(self@[k].rank, st)) by {
                assert(0 <= st < 13);
            }
        }
        false
    }

    /// A straight whose cards are all of one suit.
    pub fn is_a_straight_flush(&self) -> (r: bool)
        ensures
            r == forms_straight_flush(self@),
    {
        self.is_a_straight() && self.is_a_flush()
    }

    /// The rank of the largest group of cards: the most frequent rank, the lowest one on a
    /// tie. None for no cards.
    pub fn rank_of_largest_group(&self) -> (r: Option<Rank>)
        ensures
            self@.len() == 0 ==> r is None,
            self@.len() > 0 ==> (r matches Some(k) && is_largest_group(self@, k)
                && largest_group_rank(self@) == k),
    {
        if self.len() == 0 {
            return None;
        }
        let mut best: usize = 0;
        let mut best_count: usize = self.count_rank(Rank::Three);
        let mut q: usize = 1;
        while q < 13
            invariant
                1 <= q <= 13,
                best < q,
                best_count == rank_count(self@, rank_at(best as int)),
                forall|p: int| 0 <= p < q ==> rank_count(self@, #[trigger] rank_at(p)) <= best_count,
                forall|p: int| 0 <= p < best ==> rank_count(self@, #[trigger] rank_at(p)) < best_count,
            decreases 13 - q,
        {
            let c = self.count_rank(rank_from_position(q));
            if c > best_count {
                best = q;
                best_count = c;
            }
            q += 1;
        }
        let k = rank_from_position(best);
        proof {
            assert forall|r2: Rank| rank_count(self@, r2) <= rank_count(self@, k) by {
                lemma_rank_at_precedence(r2);
                assert(rank_at(r2.precedence()) == r2);
            }
            assert forall|r2: Rank| r2.precedence() < k.precedence() implies rank_count(self@, r2) < rank_count(self@, k) by {
                lemma_rank_at_precedence(r2);
                assert(rank_at(r2.precedence()) == r2);
            }
            lemma_largest_group_unique(self@, k);
        }
        Some(k)
    }
}

/// The rank of the largest group is determined.
proof fn lemma_largest_group_unique(s: Seq<Card>, r: Rank)
    requires
        is_largest_group(s, r),
    ensures
        largest_group_rank(s) == r,
{
    let c = largest_group_rank(s);
    assert(is_largest_group(s, c));
    if c != r {
        if c.precedence() < r.precedence() {
            assert(rank_count(s, c) < rank_count(s, r));
            assert(rank_count(s, r) <= rank_count(s, c));
        } else if r.precedence() < c.precedence() {
            assert(rank_count(s, r) < rank_count(s, c));
            assert(rank_count(s, c) <= rank_count(s, r));
        }
    }
}

impl Cards {
    /// Whether these cards form a play of a legal shape, and if not, why.
    pub fn is_valid_hand(&self) -> (r: Result<(), PlayError>)
        ensures
            r == match shape_error(self@) {
                None => Ok::<(), PlayError>(()),
                Some(e) => Err(e),
            },
    {
        let n = self.len();
        if n == 0 {
            return Err(PlayError::Empty);
        }
        if !(n == 1 || n == 2 || n == 3 || n == 5) {
            return Err(PlayError::WrongSize);
        }
        if n <= 3 {
            return match self.are_all_of_same_rank() {
                Ok(true) => Ok(()),
                _ => Err(PlayError::MixedRanks),
            };
        }
        if self.is_four_of_a_kind_plus_one() || self.is_a_straight() || self.is_a_flush()
            || self.is_a_full_house() || self.is_a_straight_flush() {
            Ok(())
        } else {
            Err(PlayError::NoFiveCardHand)
        }
    }

    /// The kind of five cards: straight flush, straight, flush, full house or four of a kind
    /// plus one, checked in that order; none for other hands.
    pub fn five_card_kind(&self) -> (r: Option<HandKind>)
        ensures
            r == five_card_kind_of(self@),
    {
        if self.is_a_straight_flush() {
            Some(HandKind::StraightFlush)
        } else if self.is_a_straight() {
            Some(HandKind::Straight)
        } else if self.is_a_flush() {
            Some(HandKind::Flush)
        } else if self.is_a_full_house() {
            Some(HandKind::FullHouse)
        } else if self.is_four_of_a_kind_plus_one() {
            Some(HandKind::FourOfAKindPlusOne)
        } else {
            None
        }
    }

    /// Whether `other` may be played on this play within a trick: it holds as many cards,
    /// has a legal shape, and beats this play. Singles, pairs and triplets are judged by
    /// their highest card. Five-card plays are compared only with plays of the same kind
    /// (a straight flush is neither a straight nor a flush here): by their highest card, or
    /// for four of a kind plus one by the rank of the four.
    pub fn may_be_followed_by(&self, other: &Cards) -> (r: Result<(), PlayError>)
        requires
            valid_shape(self@),
        ensures
            r == follow_result(self@, other@),
    {
        if self.len() != other.len() {
            return Err(PlayError::SizeMismatch);
        }
        if let Err(e) = other.is_valid_hand() {
            return Err(e);
        }
        let n = other.len();
        let kind = if n == 1 {
            HandKind::Single
        } else if n == 2 {
            HandKind::Pair
        } else if n == 3 {
            HandKind::Triplet
        } else {
            let mine = self.five_card_kind();
            let theirs = other.five_card_kind();
            match (mine, theirs) {
                (Some(a), Some(b)) => {
                    if a != b {
                        return Err(PlayError::DifferentFiveCardHands);
                    }
                    if a == HandKind::FourOfAKindPlusOne {
                        return match (self.rank_of_largest_group(), other.rank_of_largest_group()) {
                            (Some(x), Some(y)) => match Self::cmp_rank(&x, &y) {
                                Ordering::Less => Ok(()),
                                _ => Err(PlayError::NotHigher(HandKind::FourOfAKindPlusOne)),
                            },
                            _ => Err(PlayError::NotHigher(HandKind::FourOfAKindPlusOne)),
                        };
                    }
                    a
                },
                _ => {
                    return Err(PlayError::DifferentFiveCardHands);
                },
            }
        };
        match (self.highest_card(), other.highest_card()) {
            (Some(a), Some(b)) => match Self::cmp_card(a, b) {
                Ordering::Less => Ok(()),
                _ => Err(PlayError::NotHigher(kind)),
            },
            _ => Err(PlayError::NotHigher(kind)),
        }
    }
}

/// Each card ranks equal to itself; the Three of Diamonds ranks below every other card and
/// the Two of Spades above every other card.
pub proof fn lemma_card_order_bounds(a: Card)
    ensures
        ordering_of(a.value(), a.value()) == Ordering::Equal,
        a != (Card { rank: Rank::Three, suit: Suit::Diamonds }) ==> ordering_of(
            (Card { rank: Rank::Three, suit: Suit::Diamonds }).value(),
            a.value(),
        ) == Ordering::Less,
        a != (Card { rank: Rank::Two, suit: Suit::Spades }) ==> ordering_of(
            a.value(),
            (Card { rank: Rank::Two, suit: Suit::Spades }).value(),
        ) == Ordering::Less,
{
}

/// No play may follow itself, and when `b` may follow `a`, `a` may not follow `b`.
pub proof fn lemma_follow_is_strict(a: Seq<Card>, b: Seq<Card>)
    ensures
        follow_result(a, a) is Err,
        follow_result(a, b) is Ok ==> follow_result(b, a) is Err,
{
}

/// A rank that occurs in `s` is the rank of one of its cards.
proof fn lemma_count_witness(s: Seq<Card>, r: Rank)
    ensures
        rank_count(s, r) > 0 ==> exists|i: int| 0 <= i < s.len() && #[trigger] s[i].rank == r,
        rank_count(s, r) <= s.len(),
    decreases s.len(),
{
    if s.len() > 0 {
        lemma_count_witness(s.drop_last(), r);
        if rank_count(s.drop_last(), r) > 0 {
            let i = choose|i: int| 0 <= i < s.len() - 1 && #[trigger] s.drop_last()[i].rank == r;
            assert(s[i] == s.drop_last()[i]);
        } else if rank_count(s, r) > 0 {
            assert(s[s.len() - 1] == s.last());
        }
    }
}

/// Two different ranks together occur at most once per card.
proof fn lemma_two_counts(s: Seq<Card>, r1: Rank, r2: Rank)
    requires
        r1 != r2,
    ensures
        rank_count(s, r1) + rank_count(s, r2) <= s.len(),
    decreases s.len(),
{
    if s.len() > 0 {
        lemma_two_counts(s.drop_last(), r1, r2);
    }
}

/// When no two cards share a rank, each rank occurs at most once.
proof fn lemma_distinct_counts(s: Seq<Card>, r: Rank)
    requires
        distinct_ranks(s),
    ensures
        rank_count(s, r) <= 1,
    decreases s.len(),
{
    if s.len() > 0 {
        let t = s.drop_last();
        assert(distinct_ranks(t)) by {
            assert forall|i: int, j: int| 0 <= i < t.len() && 0 <= j < t.len() && i != j implies t[i].rank != t[j].rank by {
                assert(t[i] == s[i] && t[j] == s[j]);
            }
        }
        lemma_distinct_counts(t, r);
        lemma_count_witness(t, r);
        if s.last().rank == r && rank_count(t, r) > 0 {
            let i = choose|i: int| 0 <= i < t.len() && #[trigger] t[i].rank == r;
            assert(t[i] == s[i]);
            assert(s[s.len() - 1] == s.last());
        }
    }
}

/// A rank that occurs twice or more is shared by a second card.
proof fn lemma_count_twice(s: Seq<Card>, i: int)
    requires
        0 <= i < s.len(),
        rank_count(s, s[i].rank) >= 2,
    ensures
        exists|j: int| 0 <= j < s.len() && j != i && #[trigger] s[j].rank == s[i].rank,
    decreases s.len(),
{
    let t = s.drop_last();
    let r = s[i].rank;
    if i == s.len() - 1 {
        lemma_count_witness(t, r);
        let j = choose|j: int| 0 <= j < t.len() && #[trigger] t[j].rank == r;
        assert(t[j] == s[j]);
    } else if s.last().rank == r {
        assert(s[s.len() - 1] == s.last());
    } else {
        assert(t[i] == s[i]);
        lemma_count_twice(t, i);
        let j = choose|j: int| 0 <= j < t.len() && j != i && #[trigger] t[j].rank == t[i].rank;
        assert(t[j] == s[j]);
    }
}

/// A flush of distinct cards holds no two cards of one rank.
proof fn lemma_flush_no_repeat(s: Seq<Card>, i: int)
    requires
        forms_flush(s),
        s.no_duplicates(),
        0 <= i < 5,
    ensures
        rank_count(s, s[i].rank) <= 1,
{
    if rank_count(s, s[i].rank) >= 2 {
        lemma_count_twice(s, i);
        let j = choose|j: int| 0 <= j < s.len() && j != i && #[trigger] s[j].rank == s[i].rank;
        assert(s[j].suit == s[0].suit && s[i].suit == s[0].suit);
        assert(s[i] == s[j]);
    }
}

/// Of the five-card kinds, a straight flush is both a straight and a flush; apart from
/// that, five distinct cards form at most one kind.
pub proof fn lemma_five_card_kinds_exclusive(s: Seq<Card>)
    requires
        s.len() == 5,
        s.no_duplicates(),
    ensures
        forms_straight_flush(s) ==> forms_straight(s) && forms_flush(s),
        !(forms_straight(s) && forms_full_house(s)),
        !(forms_straight(s) && forms_four_plus_one(s)),
        !(forms_flush(s) && forms_full_house(s)),
        !(forms_flush(s) && forms_four_plus_one(s)),
        !(forms_full_house(s) && forms_four_plus_one(s)),
{
    if forms_straight(s) {
        if forms_full_house(s) {
            let i = choose|i: int| 0 <= i < 5 && rank_count(s, #[trigger] s[i].rank) == 3;
            lemma_distinct_counts(s, s[i].rank);
        }
        if forms_four_plus_one(s) {
            let i = choose|i: int| 0 <= i < 5 && rank_count(s, #[trigger] s[i].rank) == 4;
            lemma_distinct_counts(s, s[i].rank);
        }
    }
    if forms_flush(s) {
        if forms_full_house(s) {
            let i = choose|i: int| 0 <= i < 5 && rank_count(s, #[trigger] s[i].rank) == 3;
            lemma_flush_no_repeat(s, i);
        }
        if forms_four_plus_one(s) {
            let i = choose|i: int| 0 <= i < 5 && rank_count(s, #[trigger] s[i].rank) == 4;
            lemma_flush_no_repeat(s, i);
        }
    }
    if forms_full_house(s) && forms_four_plus_one(s) {
        let i = choose|i: int| 0 <= i < 5 && rank_count(s, #[trigger] s[i].rank) == 3;
        let k = choose|k: int| 0 <= k < 5 && rank_count(s, #[trigger] s[k].rank) == 4;
        lemma_two_counts(s, s[i].rank, s[k].rank);
    }
}

} // verus!
