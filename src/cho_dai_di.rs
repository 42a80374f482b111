//! A four-player game session of Cho Dai Di: the hands, the pile of played cards, the
//! play to beat, whose turn it is, and the scores at the end.
use crate::card::Card;
use crate::collections::{is_arrangement, kept, Cards};
use crate::deck::{
    dealt, is_full_deck, lemma_deal_partitions, lemma_five_parts, lemma_reordered_full_deck, undealt,
    Deck,
};
use crate::error::PlayError;
use crate::rank::Rank;
use crate::rules::{follow_result, max_value, shape_error, valid_shape};
use crate::suit::Suit;
use vstd::prelude::*;

verus! {

pub const FOUR_PLAYERS: usize = 4;

/// The lowest card, which the first play of a game must hold.
pub open spec fn three_of_diamonds() -> Card {
    Card { rank: Rank::Three, suit: Suit::Diamonds }
}

/// The penalty for ending a game with `n` cards in hand: one point per card up to ten
/// cards, two per card for eleven or twelve, three per card for thirteen.
pub open spec fn penalty(n: int) -> int {
    if n <= 10 {
        n
    } else if n <= 12 {
        2 * n
    } else {
        3 * n
    }
}

/// The score for ending a game with `hand_size` cards: minus the penalty.
pub fn hand_size_to_score(hand_size: usize) -> (r: isize)
    requires
        hand_size <= 13,
    ensures
        r == -penalty(hand_size as int),
{
    let n = hand_size as isize;
    let score = if hand_size <= 10 {
        n
    } else if hand_size <= 12 {
        n * 2
    } else {
        n * 3
    };
    -score
}

/// The sum of the penalties for the hand sizes `sizes`.
pub open spec fn total_penalty(sizes: Seq<usize>) -> int
    decreases sizes.len(),
{
    if sizes.len() == 0 {
        0
    } else {
        total_penalty(sizes.drop_last()) + penalty(sizes.last() as int)
    }
}

/// The final scores of a game: each player scores minus the penalty for the cards left in
/// hand, and the player with no card left collects the sum of all the penalties.
pub fn final_scores(hand_sizes: &Vec<usize>) -> (r: Vec<isize>)
    requires
        hand_sizes@.len() <= FOUR_PLAYERS,
        forall|i: int| 0 <= i < hand_sizes@.len() ==> #[trigger] hand_sizes@[i] <= 13,
    ensures
        r@.len() == hand_sizes@.len(),
        forall|i: int|
            0 <= i < r@.len() ==> #[trigger] r@[i] == if hand_sizes@[i] == 0 {
                total_penalty(hand_sizes@)
            } else {
                -penalty(hand_sizes@[i] as int)
            },
{
    let n = hand_sizes.len();
    let mut total: isize = 0;
    let mut i: usize = 0;
    while i < n
        invariant
            n == hand_sizes@.len() <= 4,
            i <= n,
            forall|k: int| 0 <= k < n ==> #[trigger] hand_sizes@[k] <= 13,
            total == total_penalty(hand_sizes@.subrange(0, i as int)),
            0 <= total <= 39 * i,
        decreases n - i,
    {
        assert(hand_sizes@.subrange(0, i + 1).drop_last() =~= hand_sizes@.subrange(0, i as int));
        total = total - hand_size_to_score(hand_sizes[i]);
        i += 1;
    }
    assert(hand_sizes@.subrange(0, n as int) =~= hand_sizes@);
    let mut scores: Vec<isize> = Vec::new();
    let mut j: usize = 0;
    while j < n
        invariant
            n == hand_sizes@.len() <= 4,
            j <= n,
            forall|k: int| 0 <= k < n ==> #[trigger] hand_sizes@[k] <= 13,
            total == total_penalty(hand_sizes@),
            scores@.len() == j,
            forall|k: int|
                0 <= k < j ==> #[trigger] scores@[k] == if hand_sizes@[k] == 0 {
                    total_penalty(hand_sizes@)
                } else {
                    -penalty(hand_sizes@[k] as int)
                },
        decreases n - j,
    {
        let score = hand_size_to_score(hand_sizes[j]);
        if score == 0 {
            scores.push(total);
        } else {
            scores.push(score);
        }
        j += 1;
    }
    scores
}

/// What a game session is, as the rules see it.
pub struct GameView {
    /// Every card played so far, in order.
    pub pile: Seq<Card>,
    /// The play to beat, or none at the start of a round.
    pub last_play: Option<Seq<Card>>,
    /// The cards that were not dealt.
    pub deck: Seq<Card>,
    /// The four players' hands.
    pub hands: Seq<Seq<Card>>,
    /// The player whose turn it is.
    pub turn: int,
    /// Passes since the last accepted play or the start of the round.
    pub passes: int,
}

/// Whether `cand` is a legal play in `g`, and if not, why: within a round it must follow
/// the play to beat; at the start of a round it must have a legal shape, and the first play
/// of a game must also hold the Three of Diamonds.
pub open spec fn play_result(g: GameView, cand: Seq<Card>) -> Result<(), PlayError> {
    match g.last_play {
        Some(prev) => follow_result(prev, cand),
        None => match shape_error(cand) {
            Some(e) => Err(e),
            None => if g.pile.len() == 0 && !cand.contains(three_of_diamonds()) {
                Err(PlayError::MissingThreeOfDiamonds)
            } else {
                Ok(())
            },
        },
    }
}

/// `g` after the player whose turn it is plays `cand`.
pub open spec fn after_play(g: GameView, cand: Seq<Card>) -> GameView {
    GameView {
        pile: g.pile + cand,
        last_play: Some(cand),
        hands: g.hands.update(g.turn, g.hands[g.turn].filter(|c: Card| !cand.contains(c))),
        ..g
    }
}

/// The highest [`Card::value`] that any of the four hands holds, or -1 when they are empty.
pub open spec fn top_held(hands: Seq<Seq<Card>>) -> int {
    let a = max_value(hands[0]);
    let b = max_value(hands[1]);
    let c = max_value(hands[2]);
    let d = max_value(hands[3]);
    let ab = if a >= b {
        a
    } else {
        b
    };
    let cd = if c >= d {
        c
    } else {
        d
    };
    if ab >= cd {
        ab
    } else {
        cd
    }
}

/// The sizes of the plays worth trying now: the size of the play to beat, or every legal
/// size at the start of a round.
pub open spec fn candidate_size(g: GameView, k: nat) -> bool {
    match g.last_play {
        Some(p) => k == p.len(),
        None => k == 1 || k == 2 || k == 3 || k == 5,
    }
}

/// What a player does on their turn.
pub enum TurnAction {
    PlayCards(Cards),
    Pass,
}

/// What came of a turn.
#[derive(Debug, Clone, Copy, PartialEq, Eq, Structural)]
pub enum TurnOutcome {
    /// The play was accepted; it ended the round when it held the highest card still in
    /// play, and its player then leads the next round.
    Played { ended_round: bool },
    /// The player passed; a new round starts when three players in a row have passed.
    Passed { new_round: bool },
}

/// Every card of a session: the four hands, then the pile, then the undealt deck.
pub open spec fn all_cards(g: GameView) -> Seq<Card> {
    g.hands[0] + g.hands[1] + g.hands[2] + g.hands[3] + g.pile + g.deck
}

proof fn lemma_all_cards_parts(g: GameView)
    ensures
        all_cards(g).to_multiset() =~= g.hands[0].to_multiset().add(g.hands[1].to_multiset()).add(
            g.hands[2].to_multiset(),
        ).add(g.hands[3].to_multiset()).add(g.pile.to_multiset()).add(g.deck.to_multiset()),
{
    lemma_five_parts(g.hands[0], g.hands[1], g.hands[2], g.hands[3], g.pile);
    vstd::seq_lib::lemma_multiset_commutative(
        g.hands[0] + g.hands[1] + g.hands[2] + g.hands[3] + g.pile,
        g.deck,
    );
}

/// Keeping the cards that `cand` does not hold is filtering them.
proof fn lemma_kept_filter(s: Seq<Card>, verdicts: Seq<bool>, cand: Seq<Card>)
    requires
        verdicts.len() == s.len(),
        forall|i: int| 0 <= i < s.len() ==> #[trigger] verdicts[i] == !cand.contains(s[i]),
    ensures
        kept(s, verdicts) == s.filter(|c: Card| !cand.contains(c)),
    decreases s.len(),
{
    reveal(Seq::filter);
    if s.len() > 0 {
        let t = s.drop_last();
        let v = verdicts.drop_last();
        assert forall|i: int| 0 <= i < t.len() implies #[trigger] v[i] == !cand.contains(t[i]) by {
            assert(v[i] == verdicts[i] && t[i] == s[i]);
        }
        lemma_kept_filter(t, v, cand);
        assert(verdicts.last() == verdicts[s.len() - 1]);
    }
}

/// How often `y` is left in `s` once the cards of `cand` are taken out.
proof fn lemma_filter_count(s: Seq<Card>, cand: Seq<Card>, y: Card)
    ensures
        s.filter(|c: Card| !cand.contains(c)).to_multiset().count(y) == if cand.contains(y) {
            0
        } else {
            s.to_multiset().count(y)
        },
    decreases s.len(),
{
    reveal(Seq::filter);
    broadcast use vstd::multiset::group_multiset_axioms, vstd::seq_lib::group_to_multiset_ensures;

    if s.len() == 0 {
        let f = s.filter(|c: Card| !cand.contains(c));
        assert(f.len() == 0);
        assert(!s.contains(y) && !f.contains(y));
    } else {
        let t = s.drop_last();
        lemma_filter_count(t, cand, y);
        assert(s =~= t.push(s.last()));
        vstd::seq_lib::to_multiset_build(t, s.last());
        let f = t.filter(|c: Card| !cand.contains(c));
        vstd::seq_lib::to_multiset_build(f, s.last());
    }
}

/// A play of cards that the player holds, none twice, keeps the cards of the session.
proof fn lemma_play_keeps_cards(g: GameView, cand: Seq<Card>)
    requires
        g.hands.len() == 4,
        0 <= g.turn < 4,
        is_full_deck(all_cards(g)),
        cand.no_duplicates(),
        forall|i: int| 0 <= i < cand.len() ==> g.hands[g.turn].contains(#[trigger] cand[i]),
    ensures
        all_cards(after_play(g, cand)).to_multiset() =~= all_cards(g).to_multiset(),
{
    broadcast use vstd::multiset::group_multiset_axioms, vstd::seq_lib::group_to_multiset_ensures;

    let w = g.turn;
    let h = g.hands[w];
    let f = h.filter(|c: Card| !cand.contains(c));
    let a = after_play(g, cand);
    lemma_all_cards_parts(g);
    lemma_all_cards_parts(a);
    vstd::seq_lib::lemma_multiset_commutative(g.pile, cand);
    all_cards(g).lemma_multiset_has_no_duplicates();
    cand.lemma_multiset_has_no_duplicates();
    assert forall|y: Card| #[trigger] f.to_multiset().count(y) + cand.to_multiset().count(y)
        == h.to_multiset().count(y) by {
        lemma_filter_count(h, cand, y);
        assert(all_cards(g).to_multiset().count(y) <= 1);
        if cand.contains(y) {
            let i = choose|i: int| 0 <= i < cand.len() && cand[i] == y;
            assert(h.contains(cand[i]));
        }
    }
    assert(a.hands[0] == if w == 0 { f } else { g.hands[0] });
    assert(a.hands[1] == if w == 1 { f } else { g.hands[1] });
    assert(a.hands[2] == if w == 2 { f } else { g.hands[2] });
    assert(a.hands[3] == if w == 3 { f } else { g.hands[3] });
}

/// A game of Cho Dai Di for four players.
pub struct ChoDaiDi {
    card_pile: Vec<Card>,
    last_play: Option<Cards>,
    deck: Deck,
    hands: Vec<Cards>,
    scores: [usize; 4],
    turn: usize,
    pass_counter: usize,
}

impl View for ChoDaiDi {
    type V = GameView;

    closed spec fn view(&self) -> GameView {
        GameView {
            pile: self.card_pile@,
            last_play: match self.last_play {
                Some(p) => Some(p@),
                None => None,
            },
            deck: self.deck@,
            hands: self.hands@.map_values(|h: Cards| h@),
            turn: self.turn as int,
            passes: self.pass_counter as int,
        }
    }
}

/// A new game with four players; the player holding the Three of Diamonds goes first.
pub fn new_4p_game() -> (r: ChoDaiDi)
    ensures
        r@.pile.len() == 0,
        r@.last_play is None,
        r@.passes == 0,
        r@.hands[r@.turn].contains(three_of_diamonds()),
        exists|d: Seq<Card>|
            is_full_deck(d) && r@.deck == undealt(d) && forall|j: int|
                0 <= j < 4 ==> #[trigger] r@.hands[j] == dealt(d, j),
        is_full_deck(all_cards(r@)),
{
    ChoDaiDi::new_game()
}

impl ChoDaiDi {
    #[verifier::type_invariant]
    spec fn well_formed(&self) -> bool {
        &&& self.hands@.len() == 4
        &&& self.turn < 4
        &&& forall|j: int| 0 <= j < 4 ==> self.scores[j] == 0
        &&& match self.last_play {
            Some(p) => valid_shape(p@),
            None => true,
        }
    }

    /// A game dealt from `deck`, the last card first, one card to each player in turn; the
    /// player holding the Three of Diamonds goes first. None when nobody holds it.
    pub fn from_deck(deck: Deck) -> (r: Option<Self>)
        ensures
            (r is Some) == (exists|j: int|
                0 <= j < 4 && #[trigger] dealt(deck@, j).contains(three_of_diamonds())),
            r matches Some(g) ==> {
                &&& g@.pile.len() == 0
                &&& g@.last_play is None
                &&& g@.passes == 0
                &&& g@.deck == undealt(deck@)
                &&& forall|j: int| 0 <= j < 4 ==> #[trigger] g@.hands[j] == dealt(deck@, j)
                &&& g@.hands[g@.turn].contains(three_of_diamonds())
                &&& forall|j: int| 0 <= j < g@.turn ==> !(#[trigger] g@.hands[j]).contains(
                    three_of_diamonds(),
                )
                &&& all_cards(g@).to_multiset() == deck@.to_multiset()
            },
    {
        let ghost d = deck@;
        let mut deck = deck;
        let dealt_hands = deck.draw_starting_hands();
        let three = Card::three_of_diamonds();
        let mut hands: Vec<Cards> = Vec::new();
        let mut first: usize = 4;
        let mut j: usize = 0;
        while j < 4
            invariant
                j <= 4,
                hands@.len() == j,
                forall|k: int| 0 <= k < 4 ==> (#[trigger] dealt_hands[k])@ == dealt(d, k),
                forall|k: int| 0 <= k < j ==> (#[trigger] hands@[k])@ == dealt(d, k),
                first <= 4,
                first < 4 ==> first < j && dealt(d, first as int).contains(three),
                forall|k: int| 0 <= k < j && k < first ==> !(#[trigger] dealt(d, k)).contains(three),
                three == three_of_diamonds(),
            decreases 4 - j,
        {
            let h = dealt_hands[j].duplicate();
            if first == 4 && h.contains(&three) {
                first = j;
            }
            hands.push(h);
            j += 1;
        }
        if first == 4 {
            return None;
        }
        let game = ChoDaiDi {
            card_pile: Vec::new(),
            last_play: None,
            deck,
            hands,
            scores: [0, 0, 0, 0],
            turn: first,
            pass_counter: 0,
        };
        assert(game@.hands.len() == 4);
        assert forall|k: int| 0 <= k < 4 implies #[trigger] game@.hands[k] == dealt(d, k) by {
            assert(game@.hands[k] == hands@[k]@);
        }
        assert(all_cards(game@) =~= dealt_hands[0]@ + dealt_hands[1]@ + dealt_hands[2]@
            + dealt_hands[3]@ + deck@);
        Some(game)
    }

    /// A new game, dealt from a shuffled deck; the player holding the Three of Diamonds
    /// goes first.
    pub fn new_game() -> (r: Self)
        ensures
            r@.pile.len() == 0,
            r@.last_play is None,
            r@.passes == 0,
            r@.hands[r@.turn].contains(three_of_diamonds()),
            exists|d: Seq<Card>|
                is_full_deck(d) && r@.deck == undealt(d) && forall|j: int|
                    0 <= j < 4 ==> #[trigger] r@.hands[j] == dealt(d, j),
            is_full_deck(all_cards(r@)),
    {
        let deck = Deck::new();
        let ghost d = deck@;
        let game = Self::from_deck(deck);
        match game {
            Some(g) => {
                proof {
                    lemma_deal_partitions(d);
                    lemma_reordered_full_deck(d, all_cards(g@));
                }
                g
            },
            None => {
                proof {
                    lemma_deal_partitions(d);
                    assert(d.contains(three_of_diamonds()));
                    let j = choose|j: int|
                        0 <= j < 4 && #[trigger] dealt(d, j).contains(three_of_diamonds());
                }
                vstd::pervasive::unreached()
            },
        }
    }
}

impl ChoDaiDi {
    /// Starts the count of passes again; this happens whenever a new round starts.
    pub fn reset_pass_counter(&mut self)
        ensures
            final(self)@ == (GameView { passes: 0, ..old(self)@ }),
    {
        proof {
            use_type_invariant(&*self);
        }
        self.pass_counter = 0;
    }

    /// Forgets the play to beat; this happens whenever a new round starts.
    pub fn unset_last_play(&mut self)
        ensures
            final(self)@ == (GameView { last_play: None, ..old(self)@ }),
    {
        proof {
            use_type_invariant(&*self);
        }
        self.last_play = None;
    }

    /// Passes the turn to the next player.
    pub fn increment_turn_counter(&mut self)
        ensures
            final(self)@ == (GameView { turn: (old(self)@.turn + 1) % 4, ..old(self)@ }),
    {
        proof {
            use_type_invariant(&*self);
        }
        self.turn = (self.turn + 1) % FOUR_PLAYERS;
    }

    /// The hand of the player whose turn it is.
    pub fn get_current_players_hand(&self) -> (r: Cards)
        ensures
            r@ == self@.hands[self@.turn],
    {
        proof {
            use_type_invariant(self);
        }
        self.hands[self.turn].duplicate()
    }

    /// The four players' hands.
    pub fn hands(&self) -> (r: &Vec<Cards>)
        ensures
            r@.len() == 4,
            self@.hands.len() == 4,
            forall|j: int| 0 <= j < 4 ==> (#[trigger] r@[j])@ == self@.hands[j],
    {
        proof {
            use_type_invariant(self);
        }
        &self.hands
    }

    pub fn deck(&self) -> (r: &Deck)
        ensures
            r@ == self@.deck,
    {
        &self.deck
    }

    /// The play to beat, if a round is under way.
    pub fn last_play(&self) -> (r: Option<Cards>)
        ensures
            match r {
                Some(p) => self@.last_play == Some(p@),
                None => self@.last_play is None,
            },
    {
        match &self.last_play {
            Some(p) => Some(p.duplicate()),
            None => None,
        }
    }

    /// Passes since the last accepted play or the start of the round.
    pub fn pass_counter(&self) -> (r: usize)
        ensures
            r == self@.passes,
    {
        self.pass_counter
    }

    /// The players' scores, which stay at zero during play; they are computed at the end of
    /// the game, by [`final_scores`].
    pub fn scores(&self) -> (r: [usize; 4])
        ensures
            forall|j: int| 0 <= j < 4 ==> r[j] == 0,
    {
        proof {
            use_type_invariant(self);
        }
        self.scores
    }

    pub fn number_of_players(&self) -> (r: usize)
        ensures
            r == 4,
    {
        FOUR_PLAYERS
    }

    /// The player whose turn it is.
    pub fn whose_turn(&self) -> (r: usize)
        ensures
            r == self@.turn,
            r < 4,
    {
        proof {
            use_type_invariant(self);
        }
        self.turn
    }

    /// A round has ended when every player has passed.
    pub fn is_round_ended(&self) -> (r: bool)
        ensures
            r == (self@.passes >= 4),
    {
        self.pass_counter >= FOUR_PLAYERS
    }

    /// A game has ended when a player has no cards left.
    pub fn is_game_ended(&self) -> (r: bool)
        ensures
            r == exists|j: int| 0 <= j < 4 && (#[trigger] self@.hands[j]).len() == 0,
    {
        proof {
            use_type_invariant(self);
        }
        let mut j: usize = 0;
        while j < FOUR_PLAYERS
            invariant
                j <= 4,
                self.hands@.len() == 4,
                forall|k: int| 0 <= k < j ==> (#[trigger] self@.hands[k]).len() != 0,
            decreases 4 - j,
        {
            if self.hands[j].is_empty() {
                assert(self@.hands[j as int] == self.hands@[j as int]@);
                return true;
            }
            j += 1;
        }
        false
    }

    /// Whether `cards` is a legal play now, and if not, why.
    pub fn is_valid_play(&self, cards: &Cards) -> (r: Result<(), PlayError>)
        ensures
            r == play_result(self@, cards@),
    {
        proof {
            use_type_invariant(self);
        }
        match &self.last_play {
            Some(last_play) => last_play.may_be_followed_by(cards),
            None => {
                if let Err(e) = cards.is_valid_hand() {
                    return Err(e);
                }
                if self.card_pile.len() == 0 && !cards.contains(&Card::three_of_diamonds()) {
                    Err(PlayError::MissingThreeOfDiamonds)
                } else {
                    Ok(())
                }
            },
        }
    }

    /// Plays `cards` for the player whose turn it is: when the play is legal, the cards
    /// leave that player's hand, become the play to beat and go onto the pile. An illegal
    /// play changes nothing.
    pub fn play_cards(&mut self, cards: Cards) -> (r: Result<(), PlayError>)
        ensures
            r == play_result(old(self)@, cards@),
            r is Ok ==> final(self)@ == after_play(old(self)@, cards@),
            r is Err ==> final(self)@ == old(self)@,
    {
        proof {
            use_type_invariant(&*self);
        }
        if let Err(e) = self.is_valid_play(&cards) {
            return Err(e);
        }
        let ghost g = self@;
        let w = self.turn;
        let mut hand = self.hands[w].duplicate();
        let ghost before = hand@;
        hand.retain(|c: &Card| -> (keep: bool)
            ensures
                keep == !cards@.contains(*c),
            { !cards.contains(c) });
        proof {
            let verdicts = choose|verdicts: Seq<bool>|
                verdicts.len() == before.len() && (forall|i: int|
                    0 <= i < verdicts.len() ==> #[trigger] verdicts[i] == !cards@.contains(before[i]))
                    && hand@ == kept(before, verdicts);
            lemma_kept_filter(before, verdicts, cards@);
        }
        let mut hands: Vec<Cards> = Vec::new();
        let mut j: usize = 0;
        while j < FOUR_PLAYERS
            invariant
                j <= 4,
                w < 4,
                self.hands@.len() == 4,
                hands@.len() == j,
                forall|k: int| 0 <= k < j ==> (#[trigger] hands@[k])@ == if k == w {
                    hand@
                } else {
                    self.hands@[k]@
                },
            decreases 4 - j,
        {
            if j == w {
                hands.push(hand.duplicate());
            } else {
                hands.push(self.hands[j].duplicate());
            }
            j += 1;
        }
        let mut pile: Vec<Card> = Vec::new();
        let mut i: usize = 0;
        while i < self.card_pile.len()
            invariant
                i <= self.card_pile@.len(),
                pile@ == self.card_pile@.subrange(0, i as int),
            decreases self.card_pile@.len() - i,
        {
            pile.push(self.card_pile[i]);
            i += 1;
            assert(pile@ =~= self.card_pile@.subrange(0, i as int));
        }
        assert(pile@ =~= g.pile);
        let mut i: usize = 0;
        while i < cards.len()
            invariant
                i <= cards@.len(),
                pile@ == g.pile + cards@.subrange(0, i as int),
            decreases cards@.len() - i,
        {
            pile.push(*cards.get(i));
            i += 1;
            assert(pile@ =~= g.pile + cards@.subrange(0, i as int));
        }
        assert(cards@.subrange(0, i as int) =~= cards@);
        self.hands = hands;
        self.card_pile = pile;
        self.last_play = Some(cards);
        assert(self@.hands =~= after_play(g, self.last_play->Some_0@).hands);
        Ok(())
    }

    /// Counts a pass.
    pub fn pass(&mut self)
        requires
            old(self)@.passes < usize::MAX,
        ensures
            final(self)@ == (GameView { passes: old(self)@.passes + 1, ..old(self)@ }),
    {
        proof {
            use_type_invariant(&*self);
        }
        self.pass_counter += 1;
    }

    /// Whether the player whose turn it is holds every card of `cards`.
    pub fn current_players_hand_includes(&self, cards: &Cards) -> (r: bool)
        ensures
            r == (forall|i: int|
                0 <= i < cards@.len() ==> self@.hands[self@.turn].contains(#[trigger] cards@[i])),
    {
        proof {
            use_type_invariant(self);
        }
        self.hands[self.turn].includes(cards)
    }

    /// The highest card that any player still holds, if any player holds a card.
    pub fn highest_card_still_in_play(&self) -> (r: Option<&Card>)
        ensures
            (r is None) == (forall|j: int| 0 <= j < 4 ==> (#[trigger] self@.hands[j]).len() == 0),
            r matches Some(c) ==> (exists|j: int| 0 <= j < 4 && (#[trigger] self@.hands[j]).contains(*c))
                && (forall|j: int| 0 <= j < 4 ==> max_value(#[trigger] self@.hands[j]) <= c.value())
                && c.value() == top_held(self@.hands),
    {
        proof {
            use_type_invariant(self);
        }
        let mut best: Option<&Card> = None;
        let mut j: usize = 0;
        while j < FOUR_PLAYERS
            invariant
                j <= 4,
                self.hands@.len() == 4,
                (best is None) == (forall|k: int| 0 <= k < j ==> (#[trigger] self@.hands[k]).len() == 0),
                best matches Some(c) ==> (exists|k: int| 0 <= k < j && (#[trigger] self@.hands[k]).contains(*c))
                    && forall|k: int| 0 <= k < j ==> max_value(#[trigger] self@.hands[k]) <= c.value(),
            decreases 4 - j,
        {
            let h: &Cards = &self.hands[j];
            assert(h@ == self@.hands[j as int]);
            match h.highest_card() {
                None => {
                    proof {
                        crate::rules::lemma_max_value_empty(h@);
                    }
                },
                Some(c) => {
                    match best {
                        None => {
                            best = Some(c);
                        },
                        Some(b) => {
                            if crate::rules::card_value(c) > crate::rules::card_value(b) {
                                best = Some(c);
                            }
                        },
                    }
                },
            }
            j += 1;
        }
        proof {
            if let Some(c) = best {
                let k = choose|k: int| 0 <= k < 4 && (#[trigger] self@.hands[k]).contains(*c);
                crate::rules::lemma_max_value(self@.hands[k]);
            } else {
                assert forall|k: int| 0 <= k < 4 implies max_value(#[trigger] self@.hands[k]) == -1 by {
                    crate::rules::lemma_max_value_empty(self@.hands[k]);
                }
            }
        }
        best
    }
}

impl ChoDaiDi {
    /// Appends to `out` every arrangement of `k` cards of `hand` that is a legal play now.
    fn add_plays(&self, hand: &Cards, k: usize, out: &mut Vec<Cards>)
        ensures
            final(out)@.len() >= old(out)@.len(),
            forall|p: int| 0 <= p < old(out)@.len() ==> #[trigger] final(out)@[p] == old(out)@[p],
            forall|p: int|
                old(out)@.len() <= p < final(out)@.len() ==> play_result(self@, (#[trigger] final(out)@[p])@)
                    is Ok && is_arrangement(hand@, k as nat, final(out)@[p]@),
            forall|play: Seq<Card>|
                #[trigger] is_arrangement(hand@, k as nat, play) && play_result(self@, play) is Ok
                    ==> exists|p: int|
                    old(out)@.len() <= p < final(out)@.len() && (#[trigger] final(out)@[p])@ == play,
    {
        let ghost start = out@;
        let perms = hand.permutations(k);
        let mut q: usize = 0;
        while q < perms.len()
            invariant
                q <= perms@.len(),
                out@.len() >= start.len(),
                forall|p: int| 0 <= p < start.len() ==> #[trigger] out@[p] == start[p],
                forall|p: int| 0 <= p < perms@.len() ==> is_arrangement(hand@, k as nat, (#[trigger] perms@[p])@),
                forall|p: int|
                    start.len() <= p < out@.len() ==> play_result(self@, (#[trigger] out@[p])@) is Ok
                        && is_arrangement(hand@, k as nat, out@[p]@),
                forall|p: int|
                    0 <= p < q && play_result(self@, (#[trigger] perms@[p])@) is Ok ==> exists|m: int|
                        start.len() <= m < out@.len() && (#[trigger] out@[m])@ == perms@[p]@,
            decreases perms@.len() - q,
        {
            let cand = &perms[q];
            let ghost before = out@;
            if self.is_valid_play(cand).is_ok() {
                out.push(cand.duplicate());
                assert(out@[out@.len() - 1]@ == perms@[q as int]@);
            }
            proof {
                assert forall|p: int|
                    0 <= p < q + 1 && play_result(self@, (#[trigger] perms@[p])@) is Ok implies exists|m: int|
                        start.len() <= m < out@.len() && (#[trigger] out@[m])@ == perms@[p]@ by {
                    if p < q {
                        let m = choose|m: int| start.len() <= m < before.len() && (#[trigger] before[m])@ == perms@[p]@;
                        assert(out@[m] == before[m]);
                    } else {
                        assert(out@[out@.len() - 1]@ == perms@[q as int]@);
                    }
                }
            }
            q += 1;
        }
        proof {
            assert forall|play: Seq<Card>|
                #[trigger] is_arrangement(hand@, k as nat, play) && play_result(self@, play) is Ok
                    implies exists|p: int|
                    start.len() <= p < out@.len() && (#[trigger] out@[p])@ == play by {
                let idx = choose|idx: Seq<usize>| #[trigger] crate::collections::is_selection(idx, hand@.len(), k as nat) && play == crate::collections::pick(hand@, idx);
                let p = choose|p: int| 0 <= p < perms@.len() && (#[trigger] perms@[p])@ == crate::collections::pick(hand@, idx);
                assert(perms@[p]@ == play);
            }
        }
    }

    /// Every legal play that can be made from `hand` now: within a round, the arrangements
    /// of as many cards as the play to beat that beat it; at the start of a round, the
    /// arrangements of one, two, three or five cards of a legal shape, which must hold the
    /// Three of Diamonds on the first play of the game. The same cards in another order
    /// count as another play. No play means the player must pass.
    pub fn possible_plays(&self, hand: &Cards) -> (r: Vec<Cards>)
        ensures
            forall|p: int|
                0 <= p < r@.len() ==> play_result(self@, (#[trigger] r@[p])@) is Ok && candidate_size(
                    self@,
                    r@[p]@.len(),
                ) && is_arrangement(hand@, r@[p]@.len(), r@[p]@),
            forall|k: nat, play: Seq<Card>|
                candidate_size(self@, k) && #[trigger] is_arrangement(hand@, k, play) && play_result(
                    self@,
                    play,
                ) is Ok ==> exists|p: int| 0 <= p < r@.len() && (#[trigger] r@[p])@ == play,
    {
        proof {
            use_type_invariant(self);
        }
        let mut out: Vec<Cards> = Vec::new();
        match &self.last_play {
            Some(last_play) => {
                let n = last_play.len();
                self.add_plays(hand, n, &mut out);
                proof {
                    assert forall|p: int| 0 <= p < out@.len() implies play_result(self@, (#[trigger] out@[p])@) is Ok && candidate_size(self@, out@[p]@.len()) && is_arrangement(hand@, out@[p]@.len(), out@[p]@) by {
                        lemma_arrangement_len(hand@, n as nat, out@[p]@);
                    }
                }
            },
            None => {
                self.add_plays(hand, 1, &mut out);
                let ghost o1 = out@;
                self.add_plays(hand, 2, &mut out);
                let ghost o2 = out@;
                self.add_plays(hand, 3, &mut out);
                let ghost o3 = out@;
                self.add_plays(hand, 5, &mut out);
                proof {
                    assert forall|p: int| 0 <= p < out@.len() implies play_result(self@, (#[trigger] out@[p])@) is Ok && candidate_size(self@, out@[p]@.len()) && is_arrangement(hand@, out@[p]@.len(), out@[p]@) by {
                        if p < o1.len() {
                            assert(out@[p] == o3[p] && o3[p] == o2[p] && o2[p] == o1[p]);
                            lemma_arrangement_len(hand@, 1, out@[p]@);
                        } else if p < o2.len() {
                            assert(out@[p] == o3[p] && o3[p] == o2[p]);
                            lemma_arrangement_len(hand@, 2, out@[p]@);
                        } else if p < o3.len() {
                            assert(out@[p] == o3[p]);
                            lemma_arrangement_len(hand@, 3, out@[p]@);
                        } else {
                            lemma_arrangement_len(hand@, 5, out@[p]@);
                        }
                    }
                    assert forall|k: nat, play: Seq<Card>|
                        candidate_size(self@, k) && #[trigger] is_arrangement(hand@, k, play) && play_result(self@, play) is Ok implies exists|p: int| 0 <= p < out@.len() && (#[trigger] out@[p])@ == play by {
                        if k == 1 {
                            let p = choose|p: int| 0 <= p < o1.len() && (#[trigger] o1[p])@ == play;
                            assert(out@[p] == o3[p] && o3[p] == o2[p] && o2[p] == o1[p]);
                        } else if k == 2 {
                            let p = choose|p: int| o1.len() <= p < o2.len() && (#[trigger] o2[p])@ == play;
                            assert(out@[p] == o3[p] && o3[p] == o2[p]);
                        } else if k == 3 {
                            let p = choose|p: int| o2.len() <= p < o3.len() && (#[trigger] o3[p])@ == play;
                            assert(out@[p] == o3[p]);
                        }
                    }
                }
            },
        }
        out
    }
}

/// An arrangement of `k` cards holds `k` cards.
proof fn lemma_arrangement_len(hand: Seq<Card>, k: nat, play: Seq<Card>)
    requires
        is_arrangement(hand, k, play),
    ensures
        play.len() == k,
        is_arrangement(hand, play.len(), play),
{
    let idx = choose|idx: Seq<usize>| #[trigger] crate::collections::is_selection(idx, hand.len(), k) && play == crate::collections::pick(hand, idx);
}

/// `cards` holds the highest card that any player holds in `g`.
pub open spec fn holds_top_card(g: GameView, cards: Seq<Card>) -> bool {
    exists|i: int| 0 <= i < cards.len() && (#[trigger] cards[i]).value() == top_held(g.hands)
}

impl ChoDaiDi {
    /// Carries out one turn of the player whose turn it is.
    ///
    /// A play of cards that the player does not all hold, that names a card twice, or that
    /// breaks the rules, is refused and changes nothing; the same player is to act again. An accepted play
    /// clears the passes; when it holds the highest card that any player held before it,
    /// the round ends at once and the same player leads the next one, and otherwise the
    /// turn moves on. A pass always moves the turn on; when it is the third pass in a row,
    /// a new round starts.
    pub fn take_turn(&mut self, action: TurnAction) -> (r: Result<TurnOutcome, PlayError>)
        requires
            old(self)@.passes < usize::MAX,
        ensures
            match action {
                TurnAction::PlayCards(cards) => {
                    let g = old(self)@;
                    if !(cards@.no_duplicates() && forall|i: int| 0 <= i < cards@.len() ==> g.hands[g.turn].contains(#[trigger] cards@[i])) {
                        r == Err::<TurnOutcome, PlayError>(PlayError::NotInHand) && final(self)@ == g
                    } else if let Err(e) = play_result(g, cards@) {
                        r == Err::<TurnOutcome, PlayError>(e) && final(self)@ == g
                    } else if holds_top_card(g, cards@) {
                        r == Ok::<TurnOutcome, PlayError>(TurnOutcome::Played { ended_round: true })
                            && final(self)@ == (GameView { passes: 0, last_play: None, ..after_play(g, cards@) })
                    } else {
                        r == Ok::<TurnOutcome, PlayError>(TurnOutcome::Played { ended_round: false })
                            && final(self)@ == (GameView { passes: 0, turn: (g.turn + 1) % 4, ..after_play(g, cards@) })
                    }
                },
                TurnAction::Pass => {
                    let g = old(self)@;
                    if g.passes + 1 == 3 {
                        r == Ok::<TurnOutcome, PlayError>(TurnOutcome::Passed { new_round: true })
                            && final(self)@ == (GameView { passes: 0, last_play: None, turn: (g.turn + 1) % 4, ..g })
                    } else {
                        r == Ok::<TurnOutcome, PlayError>(TurnOutcome::Passed { new_round: false })
                            && final(self)@ == (GameView { passes: g.passes + 1, turn: (g.turn + 1) % 4, ..g })
                    }
                },
            },
            is_full_deck(all_cards(old(self)@)) ==> is_full_deck(all_cards(final(self)@)),
    {
        proof {
            use_type_invariant(&*self);
        }
        match action {
            TurnAction::PlayCards(cards) => {
                if !(cards.all_distinct() && self.current_players_hand_includes(&cards)) {
                    return Err(PlayError::NotInHand);
                }
                let ghost g = self@;
                let top: Option<Card> = match self.highest_card_still_in_play() {
                    Some(c) => Some(*c),
                    None => None,
                };
                let mut ended = false;
                if let Some(c) = top {
                    ended = cards.contains(&c);
                }
                proof {
                    if let Some(c) = top {
                        if holds_top_card(g, cards@) {
                            let i = choose|i: int| 0 <= i < cards@.len() && (#[trigger] cards@[i]).value() == top_held(g.hands);
                            crate::rules::lemma_value_injective(cards@[i], c);
                        }
                        if ended {
                            let i = choose|i: int| 0 <= i < cards@.len() && cards@[i] == c;
                            assert(cards@[i].value() == top_held(g.hands));
                        }
                    } else {
                        if holds_top_card(g, cards@) {
                            let i = choose|i: int| 0 <= i < cards@.len() && (#[trigger] cards@[i]).value() == top_held(g.hands);
                            crate::rules::lemma_value_injective(cards@[i], cards@[i]);
                        }
                    }
                }
                proof {
                    if is_full_deck(all_cards(g)) {
                        lemma_play_keeps_cards(g, cards@);
                        lemma_reordered_full_deck(all_cards(g), all_cards(after_play(g, cards@)));
                    }
                }
                match self.play_cards(cards) {
                    Err(e) => Err(e),
                    Ok(()) => {
                        self.reset_pass_counter();
                        if ended {
                            self.unset_last_play();
                        } else {
                            self.increment_turn_counter();
                        }
                        Ok(TurnOutcome::Played { ended_round: ended })
                    },
                }
            },
            TurnAction::Pass => {
                self.pass();
                let new_round = self.pass_counter() == FOUR_PLAYERS - 1;
                if new_round {
                    self.reset_pass_counter();
                    self.unset_last_play();
                }
                self.increment_turn_counter();
                Ok(TurnOutcome::Passed { new_round })
            },
        }
    }
}

} // verus!
