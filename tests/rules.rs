use card_games::card::Card;
use card_games::collections::Cards;
use card_games::deck::standard_deck;
use card_games::error::{HandKind, PlayError};
use card_games::rank::Rank;
use card_games::suit::Suit;
use std::cmp::Ordering;

fn hand(words: Vec<&str>) -> Cards {
    Cards::try_from(words).unwrap()
}

fn card(text: &str) -> Card {
    Card::parse(text).unwrap()
}

#[test]
fn test_cmp_suit() {
    assert!(Cards::cmp_suit(&Suit::Spades, &Suit::Spades) == Ordering::Equal);
    assert!(Cards::cmp_suit(&Suit::Hearts, &Suit::Hearts) == Ordering::Equal);
    assert!(Cards::cmp_suit(&Suit::Clubs, &Suit::Clubs) == Ordering::Equal);
    assert!(Cards::cmp_suit(&Suit::Diamonds, &Suit::Diamonds) == Ordering::Equal);

    assert!(Cards::cmp_suit(&Suit::Diamonds, &Suit::Clubs) == Ordering::Less);
    assert!(Cards::cmp_suit(&Suit::Clubs, &Suit::Hearts) == Ordering::Less);
    assert!(Cards::cmp_suit(&Suit::Hearts, &Suit::Spades) == Ordering::Less);
    assert!(Cards::cmp_suit(&Suit::Spades, &Suit::Diamonds) == Ordering::Greater);
}

#[test]
fn test_cmp_rank() {
    let precedence = [
        Rank::Three,
        Rank::Four,
        Rank::Five,
        Rank::Six,
        Rank::Seven,
        Rank::Eight,
        Rank::Nine,
        Rank::Ten,
        Rank::Jack,
        Rank::Queen,
        Rank::King,
        Rank::Ace,
        Rank::Two,
    ];
    for rank in precedence.iter() {
        assert!(Cards::cmp_rank(rank, rank) == Ordering::Equal);
    }

    assert!(Cards::cmp_rank(&Rank::Three, &Rank::Four) == Ordering::Less);
    assert!(Cards::cmp_rank(&Rank::Four, &Rank::Five) == Ordering::Less);
    assert!(Cards::cmp_rank(&Rank::Five, &Rank::Six) == Ordering::Less);
    assert!(Cards::cmp_rank(&Rank::Six, &Rank::Seven) == Ordering::Less);
    assert!(Cards::cmp_rank(&Rank::Seven, &Rank::Eight) == Ordering::Less);
    assert!(Cards::cmp_rank(&Rank::Eight, &Rank::Nine) == Ordering::Less);
    assert!(Cards::cmp_rank(&Rank::Nine, &Rank::Ten) == Ordering::Less);
    assert!(Cards::cmp_rank(&Rank::Ten, &Rank::Jack) == Ordering::Less);
    assert!(Cards::cmp_rank(&Rank::Jack, &Rank::Queen) == Ordering::Less);
    assert!(Cards::cmp_rank(&Rank::Queen, &Rank::King) == Ordering::Less);
    assert!(Cards::cmp_rank(&Rank::King, &Rank::Ace) == Ordering::Less);
    assert!(Cards::cmp_rank(&Rank::Ace, &Rank::Two) == Ordering::Less);
}

#[test]
fn test_cmp_card() {
    let deck = standard_deck();
    for card in deck.iter() {
        assert!(Cards::cmp_card(card, card) == Ordering::Equal);
    }

    for card in deck.iter() {
        if *card == Card::three_of_diamonds() {
            continue;
        }
        assert!(Cards::cmp_card(&Card::three_of_diamonds(), card) == Ordering::Less);
    }

    for card in deck.iter() {
        if *card == Card::two_of_spades() {
            continue;
        }
        assert!(Cards::cmp_card(card, &Card::two_of_spades()) == Ordering::Less);
    }
}

#[test]
fn test_is_a_straight() {
    assert!(hand(vec!["2S", "3D", "4S", "5C", "6H"]).is_a_straight());
    assert!(hand(vec!["AC", "2D", "3S", "4D", "5H"]).is_a_straight());
    assert!(hand(vec!["JD", "QC", "KS", "AD", "2H"]).is_a_straight());
    assert!(hand(vec!["5C", "6H", "7S", "8D", "9H"]).is_a_straight());
}

#[test]
fn straights_that_do_not_wrap() {
    assert!(!hand(vec!["QD", "KC", "AS", "2D", "3H"]).is_a_straight());
    assert!(!hand(vec!["KD", "AC", "2S", "3D", "4H"]).is_a_straight());
    assert!(!hand(vec!["5C", "6H", "7S", "8D", "8H"]).is_a_straight());
    assert!(!hand(vec!["5C", "6H", "7S", "8D"]).is_a_straight());
    assert!(hand(vec!["10C", "JH", "QS", "KD", "AH"]).is_a_straight());
}

#[test]
fn test_highest_card() {
    let cards = hand(vec!["2S", "3D", "4S", "5C", "6H"]);
    assert_eq!(Card::two_of_spades(), *cards.highest_card().unwrap());

    let cards = hand(vec!["3S", "4D", "5H"]);
    assert_eq!(card("5H"), *cards.highest_card().unwrap());

    let cards = hand(vec!["JD", "QC", "KS", "AD"]);
    assert_eq!(card("AD"), *cards.highest_card().unwrap());

    let cards = hand(vec!["5C", "6H", "7S", "8D", "9H"]);
    assert_eq!(card("9H"), *cards.highest_card().unwrap());
}

#[test]
fn test_lowest_card() {
    let cards = hand(vec!["2S", "3D", "4S", "5C", "6H"]);
    assert_eq!(Card::three_of_diamonds(), *cards.lowest_card().unwrap());

    let cards = hand(vec!["4D", "3S", "5H"]);
    assert_eq!(card("3S"), *cards.lowest_card().unwrap());

    let cards = hand(vec!["QC", "KS", "JD", "AD"]);
    assert_eq!(card("JD"), *cards.lowest_card().unwrap());

    let cards = hand(vec!["7S", "8D", "9H", "5C", "6H"]);
    assert_eq!(card("5C"), *cards.lowest_card().unwrap());
}

#[test]
fn highest_and_lowest_of_nothing() {
    let cards = Cards::from_vec(Vec::new());
    assert!(cards.highest_card().is_none());
    assert!(cards.lowest_card().is_none());
}

#[test]
fn test_sort_by_rank() {
    let mut cards = hand(vec!["2S", "3D", "JS", "AC", "6H"]);
    cards.sort_by_rank();
    assert_eq!(hand(vec!["3D", "6H", "JS", "AC", "2S"]), cards);

    let mut cards = hand(vec!["AD", "AS", "AH", "AC"]);
    cards.sort_by_rank();
    assert_eq!(hand(vec!["AD", "AC", "AH", "AS"]), cards);
}

#[test]
fn test_sort_by_suit() {
    let mut cards = hand(vec!["2S", "3D", "JS", "AC", "6H"]);
    cards.sort_by_suit();
    assert_eq!(hand(vec!["3D", "AC", "6H", "JS", "2S"]), cards);

    let mut cards = hand(vec!["AD", "AS", "AH", "AC"]);
    cards.sort_by_suit();
    assert_eq!(hand(vec!["AD", "AC", "AH", "AS"]), cards);
}

#[test]
fn sort_by_precedence_orders_lowest_first() {
    let mut cards = hand(vec!["2S", "KD", "3C", "3D"]);
    cards.sort_by_precedence();
    assert_eq!(hand(vec!["3D", "3C", "KD", "2S"]), cards);
}

#[test]
fn test_may_be_followed_by_singles() {
    let two_of_spades = Cards::single(Card::two_of_spades());
    for card in standard_deck() {
        if card == Card::two_of_spades() {
            continue;
        }
        let last_play = Cards::single(card);
        match last_play.may_be_followed_by(&two_of_spades) {
            Ok(_) => continue,
            Err(e) => panic!(
                "expected {two_of_spades:?} to be able to follow {last_play:?} but got an error: {e:?}",
            ),
        }
    }
    let three_of_diamonds = Cards::single(Card::three_of_diamonds());
    for card in standard_deck() {
        if card == Card::three_of_diamonds() {
            continue;
        }
        let last_play = Cards::single(card);
        match three_of_diamonds.may_be_followed_by(&last_play) {
            Ok(_) => continue,
            Err(e) => panic!(
                "expected {last_play:?} to be able to follow {three_of_diamonds:?} but got an error: {e:?}",
            ),
        }
    }

    let last_play = hand(vec!["3D"]);
    let single = hand(vec!["3S"]);
    assert!(last_play.may_be_followed_by(&single).is_ok());

    let last_play = hand(vec!["AC"]);
    let single = hand(vec!["AH"]);
    assert!(last_play.may_be_followed_by(&single).is_ok());

    let last_play = hand(vec!["6C"]);
    let single = hand(vec!["6H"]);
    assert!(last_play.may_be_followed_by(&single).is_ok());
}

#[test]
fn test_may_not_be_followed_by_singles() {
    let last_play = hand(vec!["7D"]);
    let single = hand(vec!["5C"]);
    assert!(last_play.may_be_followed_by(&single).is_err());

    let last_play = hand(vec!["AS"]);
    let single = hand(vec!["KH"]);
    assert!(last_play.may_be_followed_by(&single).is_err());

    let last_play = hand(vec!["8S"]);
    let single = hand(vec!["8H"]);
    assert!(last_play.may_be_followed_by(&single).is_err());
}

#[test]
fn test_may_be_followed_by_pairs() {
    let last_play = hand(vec!["3D", "3H"]);
    let pair = hand(vec!["3C", "3S"]);
    assert!(last_play.may_be_followed_by(&pair).is_ok());

    let last_play = hand(vec!["3S", "3H"]);
    let pair = hand(vec!["4C", "4D"]);
    assert!(last_play.may_be_followed_by(&pair).is_ok());
}

#[test]
fn test_may_not_be_followed_by_pairs() {
    let last_play = hand(vec!["2D", "2H"]);
    let pair = hand(vec!["AC", "AS"]);
    assert!(last_play.may_be_followed_by(&pair).is_err());

    let last_play = hand(vec!["3S", "3H"]);
    let pair = hand(vec!["3C", "3D"]);
    assert!(last_play.may_be_followed_by(&pair).is_err());

    let last_play = hand(vec!["5S", "5H"]);
    let full_house = hand(vec!["6C", "6D", "6H", "7C", "7D"]);
    assert!(last_play.may_be_followed_by(&full_house).is_err());
}

#[test]
fn test_may_be_followed_by_triplets() {
    let last_play = hand(vec!["3D", "3H", "3S"]);
    let triplet = hand(vec!["4C", "4D", "4H"]);
    assert!(last_play.may_be_followed_by(&triplet).is_ok());

    let last_play = hand(vec!["9S", "9H", "9D"]);
    let triplet = hand(vec!["JC", "JD", "JH"]);
    assert!(last_play.may_be_followed_by(&triplet).is_ok());
}

#[test]
fn test_may_not_be_followed_by_triplets() {
    let last_play = hand(vec!["2D", "2H", "2S"]);
    let triplet = hand(vec!["AC", "AS", "AH"]);
    assert!(last_play.may_be_followed_by(&triplet).is_err());

    let last_play = hand(vec!["AS", "AH", "AD"]);
    let triplet = hand(vec!["JC", "JD", "JH"]);
    assert!(last_play.may_be_followed_by(&triplet).is_err());

    let last_play = hand(vec!["5S", "5H", "5D"]);
    let full_house = hand(vec!["6C", "6D", "6H", "7C", "7D"]);
    assert!(last_play.may_be_followed_by(&full_house).is_err());
}

#[test]
fn test_may_be_followed_by_four_of_a_kind_plus_one() {
    let last_play = hand(vec!["3D", "3H", "3S", "3C", "2S"]);
    let four_of_a_kind_plus_one = hand(vec!["4C", "4D", "4H", "4S", "5H"]);
    assert!(last_play.may_be_followed_by(&four_of_a_kind_plus_one).is_ok());

    let last_play = hand(vec!["9S", "9H", "9D", "9C", "4C"]);
    let four_of_a_kind_plus_one = hand(vec!["JC", "JD", "JH", "JS", "5H"]);
    assert!(last_play.may_be_followed_by(&four_of_a_kind_plus_one).is_ok());

    let last_play = hand(vec!["AS", "AH", "AD", "AC", "3S"]);
    let four_of_a_kind_plus_one = hand(vec!["2C", "2D", "2H", "2S", "JH"]);
    assert!(last_play.may_be_followed_by(&four_of_a_kind_plus_one).is_ok());
}

#[test]
fn test_may_not_be_followed_by_four_of_a_kind_plus_one() {
    let last_play = hand(vec!["2D", "2H", "2S", "2C", "3S"]);
    let four_of_a_kind_plus_one = hand(vec!["AC", "AS", "AH", "AD", "5H"]);
    assert!(last_play.may_be_followed_by(&four_of_a_kind_plus_one).is_err());

    let last_play = hand(vec!["AS", "AH", "AD", "AC", "3S"]);
    let four_of_a_kind_plus_one = hand(vec!["JC", "JD", "JH", "JS", "5H"]);
    assert!(last_play.may_be_followed_by(&four_of_a_kind_plus_one).is_err());
}

#[test]
fn higher_pair_follows_and_equal_rank_tie_breaks_by_suit() {
    let last_play = hand(vec!["3D", "3H"]);
    assert_eq!(last_play.may_be_followed_by(&hand(vec!["4C", "4D"])), Ok(()));
    assert_eq!(last_play.may_be_followed_by(&hand(vec!["3C", "3S"])), Ok(()));
    assert_eq!(
        last_play.may_be_followed_by(&hand(vec!["3C", "3D"])),
        Err(PlayError::NotHigher(HandKind::Pair))
    );
}

#[test]
fn four_of_a_kind_judged_by_the_four() {
    let last_play = hand(vec!["9S", "9H", "9D", "9C", "4C"]);
    assert_eq!(last_play.may_be_followed_by(&hand(vec!["JC", "JD", "JH", "JS", "5H"])), Ok(()));
    let lower_kicker = hand(vec!["9S", "9H", "9D", "9C", "3D"]);
    assert_eq!(
        lower_kicker.may_be_followed_by(&hand(vec!["8C", "8D", "8H", "8S", "2S"])),
        Err(PlayError::NotHigher(HandKind::FourOfAKindPlusOne))
    );
}

#[test]
fn five_card_kinds_follow_only_their_own_kind() {
    let straight = hand(vec!["3D", "4C", "5H", "6S", "7D"]);
    let flush = hand(vec!["3H", "8H", "9H", "JH", "KH"]);
    assert_eq!(straight.may_be_followed_by(&flush), Err(PlayError::DifferentFiveCardHands));
    let higher_straight = hand(vec!["4D", "5C", "6H", "7S", "8D"]);
    assert_eq!(straight.may_be_followed_by(&higher_straight), Ok(()));
    assert_eq!(
        higher_straight.may_be_followed_by(&straight),
        Err(PlayError::NotHigher(HandKind::Straight))
    );
    let higher_flush = hand(vec!["4S", "8S", "9S", "JS", "KS"]);
    assert_eq!(flush.may_be_followed_by(&higher_flush), Ok(()));
    let full_house = hand(vec!["6C", "6D", "6H", "7C", "7D"]);
    let higher_full_house = hand(vec!["8C", "8D", "8H", "2C", "2D"]);
    assert_eq!(full_house.may_be_followed_by(&higher_full_house), Ok(()));
    assert_eq!(
        higher_full_house.may_be_followed_by(&full_house),
        Err(PlayError::NotHigher(HandKind::FullHouse))
    );
    let straight_flush = hand(vec!["3C", "4C", "5C", "6C", "7C"]);
    let higher_straight_flush = hand(vec!["4S", "5S", "6S", "7S", "8S"]);
    assert_eq!(straight_flush.may_be_followed_by(&higher_straight_flush), Ok(()));
    assert_eq!(
        higher_straight_flush.may_be_followed_by(&straight_flush),
        Err(PlayError::NotHigher(HandKind::StraightFlush))
    );
}

#[test]
fn following_is_strict_in_both_directions() {
    let plays = vec![
        hand(vec!["7D"]),
        hand(vec!["7S"]),
        hand(vec!["3D", "3H"]),
        hand(vec!["4C", "4D"]),
        hand(vec!["3D", "4C", "5H", "6S", "7D"]),
        hand(vec!["4D", "5C", "6H", "7S", "8D"]),
        hand(vec!["9S", "9H", "9D", "9C", "4C"]),
        hand(vec!["JC", "JD", "JH", "JS", "5H"]),
    ];
    for a in plays.iter() {
        assert!(a.may_be_followed_by(a).is_err());
        for b in plays.iter() {
            if a.may_be_followed_by(b).is_ok() {
                assert!(b.may_be_followed_by(a).is_err());
            }
        }
    }
}

#[test]
fn size_mismatch_and_shape_errors() {
    let single = hand(vec!["5D"]);
    assert_eq!(single.may_be_followed_by(&hand(vec!["6D", "6C"])), Err(PlayError::SizeMismatch));
    let pair = hand(vec!["5D", "5C"]);
    assert_eq!(pair.may_be_followed_by(&hand(vec!["6D", "7C"])), Err(PlayError::MixedRanks));
    let flush = hand(vec!["3H", "8H", "9H", "JH", "KH"]);
    assert_eq!(
        flush.may_be_followed_by(&hand(vec!["3D", "8H", "9H", "JH", "KH"])),
        Err(PlayError::NoFiveCardHand)
    );
}

#[test]
fn valid_hand_shapes() {
    assert_eq!(Cards::from_vec(Vec::new()).is_valid_hand(), Err(PlayError::Empty));
    assert_eq!(hand(vec!["3D", "3C", "3H", "3S"]).is_valid_hand(), Err(PlayError::WrongSize));
    assert_eq!(hand(vec!["3D", "3C", "3H", "3S", "4D", "4C"]).is_valid_hand(), Err(PlayError::WrongSize));
    assert_eq!(hand(vec!["3D", "4D"]).is_valid_hand(), Err(PlayError::MixedRanks));
    assert_eq!(hand(vec!["3D", "4D", "6C", "9S", "KH"]).is_valid_hand(), Err(PlayError::NoFiveCardHand));
    assert_eq!(hand(vec!["KD"]).is_valid_hand(), Ok(()));
    assert_eq!(hand(vec!["KD", "KS", "KH"]).is_valid_hand(), Ok(()));
    assert_eq!(hand(vec!["KD", "KS", "KH", "2D", "2C"]).is_valid_hand(), Ok(()));
}

#[test]
fn a_four_card_play_is_never_legal() {
    let quads = vec![
        hand(vec!["3D", "3C", "3H", "3S"]),
        hand(vec!["3D", "4C", "5H", "6S"]),
        hand(vec!["2S", "2H", "AS", "AH"]),
    ];
    for play in quads.iter() {
        assert_eq!(play.is_valid_hand(), Err(PlayError::WrongSize));
    }
}

#[test]
fn five_card_kinds_are_exclusive() {
    let hands = vec![
        hand(vec!["3C", "4C", "5C", "6C", "7C"]),
        hand(vec!["3D", "4C", "5H", "6S", "7D"]),
        hand(vec!["3H", "8H", "9H", "JH", "KH"]),
        hand(vec!["6C", "6D", "6H", "7C", "7D"]),
        hand(vec!["9S", "9H", "9D", "9C", "4C"]),
    ];
    for h in hands.iter() {
        let straight = h.is_a_straight() && !h.is_a_straight_flush();
        let flush = h.is_a_flush() && !h.is_a_straight_flush();
        let kinds = [
            h.is_a_straight_flush(),
            straight,
            flush,
            h.is_a_full_house(),
            h.is_four_of_a_kind_plus_one(),
        ];
        assert_eq!(kinds.iter().filter(|k| **k).count(), 1);
    }
    assert!(hands[0].is_a_straight() && hands[0].is_a_flush());
}

#[test]
fn largest_group_rank() {
    assert_eq!(hand(vec!["9S", "4C", "9H", "9D", "9C"]).rank_of_largest_group(), Some(Rank::Nine));
    assert_eq!(hand(vec!["KS", "4C", "KH", "4D"]).rank_of_largest_group(), Some(Rank::Four));
    assert_eq!(hand(vec!["2S", "AC"]).rank_of_largest_group(), Some(Rank::Ace));
    assert_eq!(Cards::from_vec(Vec::new()).rank_of_largest_group(), None);
}

#[test]
fn straight_flush_does_not_compare_with_plain_straight_or_flush() {
    let straight_flush = hand(vec!["3D", "4D", "5D", "6D", "7D"]);
    let higher_straight = hand(vec!["4C", "5C", "6C", "7C", "8H"]);
    assert_eq!(
        straight_flush.may_be_followed_by(&higher_straight),
        Err(PlayError::DifferentFiveCardHands)
    );
    assert_eq!(
        higher_straight.may_be_followed_by(&straight_flush),
        Err(PlayError::DifferentFiveCardHands)
    );
    let higher_flush = hand(vec!["3S", "8S", "9S", "JS", "KS"]);
    assert_eq!(
        straight_flush.may_be_followed_by(&higher_flush),
        Err(PlayError::DifferentFiveCardHands)
    );
    assert_eq!(
        higher_flush.may_be_followed_by(&straight_flush),
        Err(PlayError::DifferentFiveCardHands)
    );
    assert_eq!(straight_flush.five_card_kind(), Some(HandKind::StraightFlush));
    assert_eq!(higher_straight.five_card_kind(), Some(HandKind::Straight));
    assert_eq!(higher_flush.five_card_kind(), Some(HandKind::Flush));
    assert_eq!(hand(vec!["3D", "4D"]).five_card_kind(), None);
}
