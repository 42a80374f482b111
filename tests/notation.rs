use card_games::card::Card;
use card_games::collections::Cards;
use card_games::deck::standard_deck;
use card_games::error::ParseError;
use card_games::rank::Rank;
use card_games::suit::Suit;

#[test]
fn formatting_and_reading_back_a_card() {
    for card in standard_deck() {
        let text = card.to_string();
        assert_eq!(Card::parse(&text).unwrap(), card);
    }
}

#[test]
fn card_text_forms() {
    assert_eq!(Card::new(Rank::Ten, Suit::Hearts).to_string(), "10\u{2665}");
    assert_eq!(Card::new(Rank::Queen, Suit::Spades).to_string(), "Q\u{2660}");
    assert_eq!(Card::parse("10h").unwrap(), Card::new(Rank::Ten, Suit::Hearts));
    assert_eq!(Card::parse("AceSpades").unwrap(), Card::new(Rank::Ace, Suit::Spades));
    assert_eq!(Card::parse("jackdiamonds").unwrap(), Card::new(Rank::Jack, Suit::Diamonds));
    assert_eq!(Card::parse("2\u{2663}").unwrap(), Card::new(Rank::Two, Suit::Clubs));
    assert_eq!(Card::parse("13c").unwrap(), Card::new(Rank::King, Suit::Clubs));
    assert_eq!(Card::parse("1S").unwrap(), Card::new(Rank::Ace, Suit::Spades));
    assert_eq!(Card::parse("DeuceHearts").unwrap(), Card::new(Rank::Two, Suit::Hearts));
}

#[test]
fn rank_and_suit_tokens() {
    assert_eq!(Rank::parse("deuce").unwrap(), Rank::Two);
    assert_eq!(Rank::parse("KING").unwrap(), Rank::King);
    assert_eq!(Rank::parse("11").unwrap(), Rank::Jack);
    assert_eq!(Suit::parse("\u{2661}").unwrap(), Suit::Hearts);
    assert_eq!(Suit::parse("Clubs").unwrap(), Suit::Clubs);
    assert_eq!(Rank::Ten.to_string(), "10");
    assert_eq!(Suit::Diamonds.to_string(), "\u{2666}");
    match Rank::parse("14") {
        Err(ParseError::NotARank(t)) => assert_eq!(t, "14"),
        other => panic!("unexpected {other:?}"),
    }
    match Suit::parse("x") {
        Err(ParseError::NotASuit(t)) => assert_eq!(t, "x"),
        other => panic!("unexpected {other:?}"),
    }
}

#[test]
fn bad_card_tokens() {
    for text in ["", "3", "3X", "ZD", "10", "3 D", "3DD"] {
        match Card::parse(text) {
            Err(ParseError::NotACard(t)) => assert_eq!(t, text),
            other => panic!("unexpected {other:?}"),
        }
    }
}

#[test]
fn reading_a_hand() {
    let cards = Cards::parse("  3d 4H,  5s,, \t10c").unwrap();
    assert_eq!(cards, Cards::try_from(vec!["3D", "4H", "5S", "10C"]).unwrap());
    assert_eq!(Cards::parse("").unwrap().len(), 0);
    match Cards::parse("3D 4X 5Q") {
        Err(ParseError::NotACard(t)) => assert_eq!(t, "4X"),
        other => panic!("unexpected {other:?}"),
    }
    match Cards::try_from(vec!["3D", "zz"]) {
        Err(ParseError::NotACard(t)) => assert_eq!(t, "zz"),
        other => panic!("unexpected {other:?}"),
    }
}

#[test]
fn showing_a_hand_and_errors() {
    let cards = Cards::try_from(vec!["3D", "10H", "AS"]).unwrap();
    assert_eq!(cards.to_string(), "3\u{2666}, 10\u{2665}, A\u{2660}");
    assert_eq!(Cards::from_vec(Vec::new()).to_string(), "");
    assert_eq!(ParseError::NotACard("4X".to_string()).message(), "`4X` is not a valid card");
    assert_eq!(ParseError::NotARank("Z".to_string()).message(), "`Z` is not a rank");
    assert_eq!(ParseError::NotASuit("Y".to_string()).message(), "`Y` is not a suit");
}

#[test]
fn whitespace_around_a_card() {
    assert_eq!(Card::parse("  3D\t").unwrap(), Card::three_of_diamonds());
    match Card::parse(" 3X ") {
        Err(ParseError::NotACard(t)) => assert_eq!(t, "3X"),
        other => panic!("unexpected {other:?}"),
    }
}
