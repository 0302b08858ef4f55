use card_deck::{Card, Deck, Suit};

const FRESH_DECK_TEXT: &str = "A♥️ 2♥️ 3♥️ 4♥️ 5♥️ 6♥️ 7♥️ 8♥️ 9♥️ 10♥️ J♥️ Q♥️ K♥️ \
A♠️ 2♠️ 3♠️ 4♠️ 5♠️ 6♠️ 7♠️ 8♠️ 9♠️ 10♠️ J♠️ Q♠️ K♠️ \
A♦️ 2♦️ 3♦️ 4♦️ 5♦️ 6♦️ 7♦️ 8♦️ 9♦️ 10♦️ J♦️ Q♦️ K♦️ \
A♣️ 2♣️ 3♣️ 4♣️ 5♣️ 6♣️ 7♣️ 8♣️ 9♣️ 10♣️ J♣️ Q♣️ K♣️ ";

fn count(cards: &[Card], c: Card) -> usize {
    cards.iter().filter(|x| **x == c).count()
}

fn every_card_once(cards: &[Card]) -> bool {
    let suits = [Suit::Heart, Suit::Spade, Suit::Diamond, Suit::Club];
    cards.len() == 52
        && suits
            .iter()
            .all(|s| (1..=13).all(|v| count(cards, Card { suit: *s, value: v }) == 1))
}

#[test]
fn new_deck_test() {
    let deck = Deck::new();
    assert_eq!(52, deck.0.len());
    let first_card = Card {
        suit: Suit::Heart,
        value: 1,
    };
    let last_card = Card {
        suit: Suit::Club,
        value: 13,
    };
    assert!(first_card == deck.0[0]);
    assert!(last_card == deck.0[deck.0.len() - 1]);
}

#[test]
fn shuffle_test() {
    let ordered_deck = Deck::new();
    let mut unordered_deck = Deck::new();
    unordered_deck.shuffle(100);
    assert!(ordered_deck != unordered_deck);
}

#[test]
fn fresh_deck_holds_every_card_once() {
    let deck = Deck::new();
    assert!(every_card_once(&deck.0));
}

#[test]
fn fresh_deck_is_in_canonical_order() {
    let deck = Deck::new();
    let suits = [Suit::Heart, Suit::Spade, Suit::Diamond, Suit::Club];
    for (i, card) in deck.0.iter().enumerate() {
        assert_eq!(card.suit, suits[i / 13]);
        assert_eq!(card.value, (i % 13 + 1) as i32);
    }
}

#[test]
fn fresh_deck_renders_in_canonical_order() {
    assert_eq!(Deck::new().render(), FRESH_DECK_TEXT);
}

#[test]
fn fresh_deck_text_has_52_tokens() {
    let text = Deck::new().render();
    assert_eq!(text.split_whitespace().count(), 52);
    assert!(text.starts_with("A♥️ 2♥️ 3♥️ "));
    assert!(text.ends_with("Q♣️ K♣️ "));
}

#[test]
fn build_suit_gives_ace_to_king() {
    let cards = Deck::build_suit(Suit::Diamond);
    assert_eq!(cards.len(), 13);
    for (i, card) in cards.iter().enumerate() {
        assert_eq!(*card, Card { suit: Suit::Diamond, value: i as i32 + 1 });
    }
}

#[test]
fn suit_glyphs() {
    assert_eq!(Suit::Heart.render(), "\u{2665}\u{fe0f}");
    assert_eq!(Suit::Spade.render(), "\u{2660}\u{fe0f}");
    assert_eq!(Suit::Diamond.render(), "\u{2666}\u{fe0f}");
    assert_eq!(Suit::Club.render(), "\u{2663}\u{fe0f}");
}

#[test]
fn rank_labels() {
    let expected = ["A", "2", "3", "4", "5", "6", "7", "8", "9", "10", "J", "Q", "K"];
    for (i, label) in expected.iter().enumerate() {
        let card = Card { suit: Suit::Heart, value: i as i32 + 1 };
        assert_eq!(card.rank(), *label);
    }
}

#[test]
fn card_text_has_no_separator() {
    assert_eq!(Card { suit: Suit::Heart, value: 1 }.render(), "A♥️");
    assert_eq!(Card { suit: Suit::Spade, value: 10 }.render(), "10♠️");
    assert_eq!(Card { suit: Suit::Diamond, value: 7 }.render(), "7♦️");
    assert_eq!(Card { suit: Suit::Club, value: 11 }.render(), "J♣️");
    assert_eq!(Card { suit: Suit::Club, value: 12 }.render(), "Q♣️");
    assert_eq!(Card { suit: Suit::Club, value: 13 }.render(), "K♣️");
}

#[test]
fn shuffle_keeps_every_card_once() {
    for n in [1u32, 5, 100, 1000] {
        let mut deck = Deck::new();
        deck.shuffle(n);
        assert!(every_card_once(&deck.0));
    }
}

#[test]
fn shuffle_zero_times_keeps_the_order() {
    let mut deck = Deck::new();
    deck.shuffle(0);
    assert!(deck == Deck::new());
    assert_eq!(deck.render(), FRESH_DECK_TEXT);
}

#[test]
fn shuffle_of_an_empty_deck_keeps_it_empty() {
    let mut deck = Deck(Vec::new());
    deck.shuffle(10);
    assert_eq!(deck.0.len(), 0);
}

#[test]
fn apply_swaps_exchanges_in_order() {
    let mut deck = Deck::new();
    deck.apply_swaps(&vec![(0, 51), (1, 1), (0, 2)]);
    assert_eq!(deck.0[0], Card { suit: Suit::Heart, value: 3 });
    assert_eq!(deck.0[2], Card { suit: Suit::Club, value: 13 });
    assert_eq!(deck.0[51], Card { suit: Suit::Heart, value: 1 });
    assert_eq!(deck.0[1], Card { suit: Suit::Heart, value: 2 });
    assert!(every_card_once(&deck.0));
}

#[test]
fn swap_cards_exchanges_two_positions() {
    let mut deck = Deck::new();
    deck.swap_cards(3, 13);
    assert_eq!(deck.0[3], Card { suit: Suit::Spade, value: 1 });
    assert_eq!(deck.0[13], Card { suit: Suit::Heart, value: 4 });
}

#[test]
fn deck_equality_is_reflexive_and_symmetric() {
    let a = Deck::new();
    let b = Deck::new();
    assert!(a == a);
    assert!(a == b && b == a);
}

#[test]
fn decks_differing_at_one_position_are_unequal() {
    let a = Deck::new();
    let mut b = Deck::new();
    b.swap_cards(10, 11);
    assert!(a != b);
    assert!(b != a);
}

#[test]
fn decks_of_different_lengths_are_unequal() {
    let a = Deck::new();
    let mut short = Deck::new();
    short.0.pop();
    assert!(a != short);
    assert!(short != a);
    assert!(Deck(Vec::new()) != a);
}
