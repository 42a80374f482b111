use card_games::card::Card;
use card_games::deck::{shuffled_deck, standard_deck, Deck};

#[test]
fn test_shuffled_deck() {
    let deck = shuffled_deck();
    assert_eq!(deck.len(), 52);
}

#[test]
fn test_cho_dai_di_draw_starting_hands() {
    let mut deck = Deck::new();
    let hands = deck.draw_starting_hands();

    for hand in hands {
        assert_eq!(hand.len(), 13);
    }
}

#[test]
fn dealing_partitions_the_deck() {
    let mut deck = Deck::new();
    let hands = deck.draw_starting_hands();
    assert!(deck.is_empty());
    let mut seen: Vec<Card> = Vec::new();
    for hand in hands.iter() {
        assert_eq!(hand.len(), 13);
        for card in hand.iter() {
            assert!(!seen.contains(card));
            seen.push(*card);
        }
    }
    for card in standard_deck() {
        assert!(seen.contains(&card));
    }
}

#[test]
fn dealing_takes_from_the_end_in_turn() {
    let cards = standard_deck();
    let mut deck = Deck::from_cards(cards.clone());
    let hands = deck.draw_starting_hands();
    assert_eq!(*hands[0].get(0), cards[51]);
    assert_eq!(*hands[1].get(0), cards[50]);
    assert_eq!(*hands[3].get(0), cards[48]);
    assert_eq!(*hands[0].get(1), cards[47]);
    assert_eq!(*hands[3].get(12), cards[0]);
}

#[test]
fn dealing_leaves_the_remainder() {
    let cards: Vec<Card> = standard_deck().into_iter().take(10).collect();
    let mut deck = Deck::from_cards(cards);
    let hands = deck.draw_starting_hands();
    assert_eq!(deck.len(), 2);
    for hand in hands.iter() {
        assert_eq!(hand.len(), 2);
    }
}

#[test]
fn shuffling_reorders_the_cards() {
    let standard = standard_deck();
    let mut differs = false;
    for _ in 0..3 {
        let deck = shuffled_deck();
        for card in standard.iter() {
            assert!(deck.contains(card));
        }
        if deck != standard {
            differs = true;
        }
    }
    assert!(differs);
}
