use card_games::card::Card;
use card_games::cho_dai_di::{
    final_scores, hand_size_to_score, new_4p_game, ChoDaiDi, TurnAction, TurnOutcome,
};
use card_games::collections::Cards;
use card_games::deck::{standard_deck, Deck};
use card_games::error::{HandKind, PlayError};

fn hand(words: Vec<&str>) -> Cards {
    Cards::try_from(words).unwrap()
}

fn card(text: &str) -> Card {
    Card::parse(text).unwrap()
}

/// Dealt from the deck in precedence order: player 0 holds the spades, player 1 the
/// hearts, player 2 the clubs and player 3 the diamonds.
fn suited_game() -> ChoDaiDi {
    ChoDaiDi::from_deck(Deck::from_cards(standard_deck())).unwrap()
}

#[test]
fn opening_play_needs_the_three_of_diamonds() {
    let game = new_4p_game();
    assert_eq!(game.is_valid_play(&hand(vec!["3D"])), Ok(()));
    assert_eq!(game.is_valid_play(&hand(vec!["4D"])), Err(PlayError::MissingThreeOfDiamonds));
    assert!(game.get_current_players_hand().contains(&Card::three_of_diamonds()));
    assert!(game.last_play().is_none());
    assert_eq!(game.pass_counter(), 0);
    assert_eq!(game.number_of_players(), 4);
}

#[test]
fn four_cards_are_never_a_play() {
    let game = suited_game();
    assert_eq!(game.is_valid_play(&hand(vec!["3D", "4D", "5D", "6D"])), Err(PlayError::WrongSize));
    assert_eq!(game.is_valid_play(&hand(vec!["3D", "3C", "3H", "3S"])), Err(PlayError::WrongSize));
}

#[test]
fn dealing_from_a_known_deck() {
    let game = suited_game();
    assert_eq!(game.whose_turn(), 3);
    let hands = game.hands();
    assert_eq!(hands.len(), 4);
    for h in hands.iter() {
        assert_eq!(h.len(), 13);
    }
    assert!(hands[0].contains(&Card::two_of_spades()));
    assert!(hands[3].contains(&Card::three_of_diamonds()));
    assert!(game.deck().is_empty());
    assert!(!game.is_game_ended());
    assert_eq!(game.highest_card_still_in_play(), Some(&Card::two_of_spades()));
    assert_eq!(game.scores(), [0, 0, 0, 0]);
}

#[test]
fn a_deck_without_the_three_of_diamonds_deals_no_game() {
    let cards: Vec<Card> = standard_deck().into_iter().skip(4).collect();
    assert!(ChoDaiDi::from_deck(Deck::from_cards(cards)).is_none());
}

#[test]
fn turns_rounds_and_passes() {
    let mut game = suited_game();
    assert_eq!(
        game.take_turn(TurnAction::PlayCards(hand(vec!["3D"]))),
        Ok(TurnOutcome::Played { ended_round: false })
    );
    assert_eq!(game.whose_turn(), 0);
    assert_eq!(game.last_play(), Some(hand(vec!["3D"])));
    assert_eq!(game.hands()[3].len(), 12);

    assert_eq!(
        game.take_turn(TurnAction::PlayCards(hand(vec!["3D"]))),
        Err(PlayError::NotInHand)
    );
    assert_eq!(game.whose_turn(), 0);
    assert_eq!(
        game.take_turn(TurnAction::PlayCards(hand(vec!["4S", "4S"]))),
        Err(PlayError::NotInHand)
    );
    assert_eq!(
        game.take_turn(TurnAction::PlayCards(hand(vec!["4S", "5S"]))),
        Err(PlayError::SizeMismatch)
    );
    assert_eq!(
        game.take_turn(TurnAction::PlayCards(hand(vec!["4S"]))),
        Ok(TurnOutcome::Played { ended_round: false })
    );
    assert_eq!(game.whose_turn(), 1);
    assert_eq!(
        game.take_turn(TurnAction::PlayCards(hand(vec!["3H"]))),
        Err(PlayError::NotHigher(HandKind::Single))
    );
    assert_eq!(game.hands()[1].len(), 13);

    assert_eq!(game.take_turn(TurnAction::Pass), Ok(TurnOutcome::Passed { new_round: false }));
    assert_eq!(game.pass_counter(), 1);
    assert_eq!(game.take_turn(TurnAction::Pass), Ok(TurnOutcome::Passed { new_round: false }));
    assert_eq!(game.take_turn(TurnAction::Pass), Ok(TurnOutcome::Passed { new_round: true }));
    assert_eq!(game.pass_counter(), 0);
    assert!(game.last_play().is_none());
    assert_eq!(game.whose_turn(), 0);

    assert_eq!(
        game.take_turn(TurnAction::PlayCards(hand(vec!["2S"]))),
        Ok(TurnOutcome::Played { ended_round: true })
    );
    assert_eq!(game.whose_turn(), 0);
    assert!(game.last_play().is_none());
    assert_eq!(game.highest_card_still_in_play(), Some(&card("2H")));
}

#[test]
fn session_primitives() {
    let mut game = suited_game();
    assert_eq!(game.play_cards(hand(vec!["4D"])), Err(PlayError::MissingThreeOfDiamonds));
    assert_eq!(game.play_cards(hand(vec!["3D", "4D"])), Err(PlayError::MixedRanks));
    assert_eq!(game.play_cards(hand(vec!["3D"])), Ok(()));
    assert_eq!(game.hands()[3].len(), 12);
    game.pass();
    game.pass();
    game.pass();
    game.pass();
    assert!(game.is_round_ended());
    game.reset_pass_counter();
    assert!(!game.is_round_ended());
    game.unset_last_play();
    assert!(game.last_play().is_none());
    game.increment_turn_counter();
    assert_eq!(game.whose_turn(), 0);
    assert!(game.current_players_hand_includes(&hand(vec!["2S", "3S"])));
    assert!(!game.current_players_hand_includes(&hand(vec!["2S", "3H"])));
    assert_eq!(game.is_valid_play(&hand(vec!["4S"])), Ok(()));
}

#[test]
fn possible_plays_on_the_first_turn() {
    // Player 0 is dealt the 3D, 3C and 5H; the others get the rest.
    let deck: Vec<Card> = vec![
        "6D", "6C", "6H", "5H", "7D", "7C", "7H", "3C", "8D", "8C", "8H", "3D",
    ]
    .into_iter()
    .map(card)
    .collect();
    let game = ChoDaiDi::from_deck(Deck::from_cards(deck)).unwrap();
    assert_eq!(game.whose_turn(), 0);
    let mine = game.get_current_players_hand();
    assert_eq!(mine, hand(vec!["3D", "3C", "5H"]));
    let plays = game.possible_plays(&mine);
    assert_eq!(plays.len(), 3);
    assert!(plays.contains(&hand(vec!["3D"])));
    assert!(plays.contains(&hand(vec!["3D", "3C"])));
    assert!(plays.contains(&hand(vec!["3C", "3D"])));
}

#[test]
fn possible_plays_within_a_round() {
    let mut game = suited_game();
    game.play_cards(hand(vec!["3D"])).unwrap();
    game.increment_turn_counter();
    let spades = game.get_current_players_hand();
    let plays = game.possible_plays(&spades);
    assert_eq!(plays.len(), 13);
    let hearts = hand(vec!["3H", "4H"]);
    let plays = game.possible_plays(&hearts);
    assert_eq!(plays.len(), 2);
}

#[test]
fn scores_at_the_end_of_a_game() {
    assert_eq!(hand_size_to_score(0), 0);
    assert_eq!(hand_size_to_score(7), -7);
    assert_eq!(hand_size_to_score(10), -10);
    assert_eq!(hand_size_to_score(11), -22);
    assert_eq!(hand_size_to_score(12), -24);
    assert_eq!(hand_size_to_score(13), -39);
    assert_eq!(hand_size_to_score(2), -2);
    assert_eq!(final_scores(&vec![0, 7, 13, 2]), vec![48, -7, -39, -2]);
    assert_eq!(final_scores(&vec![5, 0, 11, 12]), vec![-5, 51, -22, -24]);
}

#[test]
fn the_game_ends_when_a_hand_is_empty() {
    let deck: Vec<Card> = vec!["6D", "6C", "6H", "3D"].into_iter().map(card).collect();
    let mut game = ChoDaiDi::from_deck(Deck::from_cards(deck)).unwrap();
    assert!(!game.is_game_ended());
    assert_eq!(
        game.take_turn(TurnAction::PlayCards(hand(vec!["3D"]))),
        Ok(TurnOutcome::Played { ended_round: false })
    );
    assert!(game.is_game_ended());
}

#[test]
fn play_error_messages() {
    assert_eq!(
        PlayError::MissingThreeOfDiamonds.message(),
        "the first play must contain the three of diamonds"
    );
    assert_eq!(
        PlayError::NotHigher(HandKind::Pair).message(),
        "the played pair must be higher than the previous pair"
    );
    assert_eq!(
        PlayError::DifferentFiveCardHands.message(),
        "five-card plays of different kinds cannot be compared"
    );
}
