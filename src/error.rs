use vstd::prelude::*;

verus! {

/// Why a piece of text could not be read as a rank, a suit, a card or a hand.
///
/// Each variant carries the offending token.
#[derive(Debug, Clone)]
pub enum ParseError {
    NotARank(String),
    NotASuit(String),
    NotACard(String),
}

impl ParseError {
    /// A sentence that names the offending token.
    pub fn message(&self) -> (r: String)
        ensures
            r@ == match self {
                ParseError::NotARank(t) => "`"@ + t@ + "` is not a rank"@,
                ParseError::NotASuit(t) => "`"@ + t@ + "` is not a suit"@,
                ParseError::NotACard(t) => "`"@ + t@ + "` is not a valid card"@,
            },
    {
        let mut out = String::from_str("`");
        match self {
            ParseError::NotARank(t) => {
                out.append(t.as_str());
                out.append("` is not a rank");
            },
            ParseError::NotASuit(t) => {
                out.append(t.as_str());
                out.append("` is not a suit");
            },
            ParseError::NotACard(t) => {
                out.append(t.as_str());
                out.append("` is not a valid card");
            },
        }
        out
    }
}

/// The kind of play that failed to beat the previous one.
#[derive(Debug, Clone, Copy, PartialEq, Eq, Structural)]
pub enum HandKind {
    Single,
    Pair,
    Triplet,
    StraightFlush,
    Straight,
    Flush,
    FullHouse,
    FourOfAKindPlusOne,
}

/// Why a play breaks the rules of Cho Dai Di.
#[derive(Debug, Clone, Copy, PartialEq, Eq, Structural)]
pub enum PlayError {
    /// A play must hold at least one card.
    Empty,
    /// A play must be a single card, a pair, a triplet or five cards.
    WrongSize,
    /// Plays of one to three cards must be of a single rank.
    MixedRanks,
    /// Five cards must form a straight, a flush, a full house, four of a kind plus one, or
    /// a straight flush.
    NoFiveCardHand,
    /// During a trick every play holds as many cards as the one before it.
    SizeMismatch,
    /// The play does not beat the previous play of its kind.
    NotHigher(HandKind),
    /// Five-card plays of different kinds are not compared.
    DifferentFiveCardHands,
    /// The first play of a game must hold the Three of Diamonds.
    MissingThreeOfDiamonds,
    /// The player does not hold every card of the play.
    NotInHand,
}

/// The sentence that describes `e`.
pub open spec fn play_error_text(e: PlayError) -> Seq<char> {
    match e {
        PlayError::Empty => "a hand must contain at least one card"@,
        PlayError::WrongSize => "plays must be either a single card, a pair, a triplet, or a quintuple"@,
        PlayError::MixedRanks => "1-3 card plays may only contain cards of the same rank"@,
        PlayError::NoFiveCardHand => "5 card plays must be a straight, a flush, a full house, four of a kind plus one, or a straight flush"@,
        PlayError::SizeMismatch => "during a trick, all hands must contain the same number of cards"@,
        PlayError::NotHigher(HandKind::Single) => "the played card must be higher than the previous card"@,
        PlayError::NotHigher(HandKind::Pair) => "the played pair must be higher than the previous pair"@,
        PlayError::NotHigher(HandKind::Triplet) => "the played triplet must be higher than the previous triplet"@,
        PlayError::NotHigher(HandKind::StraightFlush) => "the played straight flush must be higher than the previous straight flush"@,
        PlayError::NotHigher(HandKind::Straight) => "the played straight must be higher than the previous straight"@,
        PlayError::NotHigher(HandKind::Flush) => "the played flush must be higher than the previous flush"@,
        PlayError::NotHigher(HandKind::FullHouse) => "the played full house must be higher than the previous full house"@,
        PlayError::NotHigher(HandKind::FourOfAKindPlusOne) => "the played four of a kind plus one must be higher than the previous four of a kind plus one"@,
        PlayError::DifferentFiveCardHands => "five-card plays of different kinds cannot be compared"@,
        PlayError::MissingThreeOfDiamonds => "the first play must contain the three of diamonds"@,
        PlayError::NotInHand => "the player does not hold every card of the play"@,
    }
}

impl PlayError {
    /// A sentence that describes the error.
    pub fn message(&self) -> (r: &'static str)
        ensures
            r@ == play_error_text(*self),
    {
        match self {
            PlayError::Empty => "a hand must contain at least one card",
            PlayError::WrongSize => "plays must be either a single card, a pair, a triplet, or a quintuple",
            PlayError::MixedRanks => "1-3 card plays may only contain cards of the same rank",
            PlayError::NoFiveCardHand => "5 card plays must be a straight, a flush, a full house, four of a kind plus one, or a straight flush",
            PlayError::SizeMismatch => "during a trick, all hands must contain the same number of cards",
            PlayError::NotHigher(HandKind::Single) => "the played card must be higher than the previous card",
            PlayError::NotHigher(HandKind::Pair) => "the played pair must be higher than the previous pair",
            PlayError::NotHigher(HandKind::Triplet) => "the played triplet must be higher than the previous triplet",
            PlayError::NotHigher(HandKind::StraightFlush) => "the played straight flush must be higher than the previous straight flush",
            PlayError::NotHigher(HandKind::Straight) => "the played straight must be higher than the previous straight",
            PlayError::NotHigher(HandKind::Flush) => "the played flush must be higher than the previous flush",
            PlayError::NotHigher(HandKind::FullHouse) => "the played full house must be higher than the previous full house",
            PlayError::NotHigher(HandKind::FourOfAKindPlusOne) => "the played four of a kind plus one must be higher than the previous four of a kind plus one",
            PlayError::DifferentFiveCardHands => "five-card plays of different kinds cannot be compared",
            PlayError::MissingThreeOfDiamonds => "the first play must contain the three of diamonds",
            PlayError::NotInHand => "the player does not hold every card of the play",
        }
    }
}

} // verus!
