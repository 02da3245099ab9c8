use solitaire::Card;
use solitaire::Stack;
use solitaire::StackType;
use solitaire::Suit;
use solitaire::create_deck;
use solitaire::card::match_card_path_texture;

fn card(value: i16, suit: Suit) -> Card {
    Card { value, suit, known: false }
}

#[test]
fn suit_colors() {
    assert!(Suit::DIAMOND.to_color_as_bool());
    assert!(Suit::HEART.to_color_as_bool());
    assert!(!Suit::CLUB.to_color_as_bool());
    assert!(!Suit::SPADE.to_color_as_bool());
}

#[test]
fn card_equality_ignores_visibility() {
    let up = Card { value: 5, suit: Suit::CLUB, known: true };
    let down = Card { value: 5, suit: Suit::CLUB, known: false };
    assert!(up == down);
    assert!(up != card(6, Suit::CLUB));
    assert!(up != card(5, Suit::SPADE));
}

#[test]
fn stackable_needs_opposite_color_and_next_value() {
    let seven_hearts = card(7, Suit::HEART);
    let six_spades = card(6, Suit::SPADE);
    let six_diamonds = card(6, Suit::DIAMOND);
    let five_clubs = card(5, Suit::CLUB);
    assert!(Card::is_stackable(seven_hearts, six_spades));
    assert!(!Card::is_stackable(seven_hearts, six_diamonds));
    assert!(!Card::is_stackable(seven_hearts, five_clubs));
    assert!(!Card::is_stackable(six_spades, seven_hearts));
}

#[test]
fn card_text_forms() {
    assert_eq!(Card { value: 1, suit: Suit::HEART, known: false }.to_string(), "Heart,1,false");
    assert_eq!(Card { value: 11, suit: Suit::SPADE, known: true }.to_string(), "Spade,J,true");
    assert_eq!(Card { value: 12, suit: Suit::DIAMOND, known: true }.to_string(), "Diamond,Q,true");
    assert_eq!(Card { value: 13, suit: Suit::CLUB, known: false }.to_string(), "Club,K,false");
    assert_eq!(Card { value: 10, suit: Suit::CLUB, known: false }.to_string(), "Club,10,false");
}

#[test]
fn card_texture_paths() {
    assert_eq!(
        match_card_path_texture(&card(1, Suit::DIAMOND)),
        "cards/svg_playing_cards/fronts/png_96_dpi/diamonds_ace.png\0"
    );
    assert_eq!(
        match_card_path_texture(&card(12, Suit::HEART)),
        "cards/svg_playing_cards/fronts/png_96_dpi/hearts_queen.png\0"
    );
    assert_eq!(
        match_card_path_texture(&card(7, Suit::SPADE)),
        "cards/svg_playing_cards/fronts/png_96_dpi/spades_7.png\0"
    );
    assert_eq!(
        match_card_path_texture(&card(13, Suit::CLUB)),
        "cards/svg_playing_cards/fronts/png_96_dpi/clubs_king.png\0"
    );
}

#[test]
fn stack_push_pop_peek() {
    let mut s = Stack::new();
    assert!(s.is_empty());
    assert_eq!(s.length(), 0);
    assert!(s.pop().is_none());
    assert!(s.peek().is_none());
    s.push(card(3, Suit::CLUB));
    s.push(card(9, Suit::HEART));
    assert_eq!(s.length(), 2);
    assert!(!s.is_empty());
    assert_eq!(*s.peek().unwrap(), card(9, Suit::HEART));
    assert_eq!(s.pop().unwrap(), card(9, Suit::HEART));
    assert_eq!(s.pop().unwrap(), card(3, Suit::CLUB));
    assert!(s.pop().is_none());
}

#[test]
fn stack_set_revert_as_vec() {
    let mut s = Stack::new();
    s.set(vec![card(1, Suit::CLUB), card(2, Suit::HEART), card(3, Suit::SPADE)]);
    assert_eq!(s.as_vec(), vec![card(1, Suit::CLUB), card(2, Suit::HEART), card(3, Suit::SPADE)]);
    s.revert();
    assert_eq!(s.as_vec(), vec![card(3, Suit::SPADE), card(2, Suit::HEART), card(1, Suit::CLUB)]);
}

#[test]
fn stack_map_applies_to_every_card() {
    let mut s = Stack::new();
    s.set(vec![card(4, Suit::CLUB), card(8, Suit::HEART)]);
    let t = s.map(|c: Card| Card { value: c.value, suit: c.suit, known: true });
    let out = t.as_vec();
    assert_eq!(out.len(), 2);
    assert!(out[0].known && out[1].known);
    assert_eq!(out[0], card(4, Suit::CLUB));
    assert_eq!(out[1], card(8, Suit::HEART));
}

#[test]
fn stack_shuffle_keeps_the_same_cards() {
    let mut s = create_deck();
    s.shuffle();
    let cards = s.as_vec();
    assert_eq!(cards.len(), 52);
    for suit in [Suit::CLUB, Suit::DIAMOND, Suit::SPADE, Suit::HEART] {
        for v in 1..14 {
            let c = card(v, suit);
            assert_eq!(cards.iter().filter(|x| **x == c).count(), 1);
        }
    }
    for c in cards {
        assert!(!c.known);
    }
}

#[test]
fn fresh_deck_is_ordered_and_face_down() {
    let deck = create_deck();
    let cards = deck.as_vec();
    assert_eq!(cards.len(), 52);
    let suits = [Suit::CLUB, Suit::DIAMOND, Suit::SPADE, Suit::HEART];
    for (i, c) in cards.iter().enumerate() {
        assert_eq!(c.value, (i % 13) as i16 + 1);
        assert!(*c == card((i % 13) as i16 + 1, suits[i / 13]));
        assert!(!c.known);
    }
}

#[test]
fn foundation_rules() {
    let empty = Stack::new();
    assert!(empty.is_mov_allowed(card(1, Suit::HEART), StackType::FONDATION));
    assert!(!empty.is_mov_allowed(card(2, Suit::HEART), StackType::FONDATION));
    assert!(!empty.is_mov_allowed(card(13, Suit::HEART), StackType::FONDATION));
    let mut five_up = Stack::new();
    five_up.set(vec![card(5, Suit::SPADE)]);
    assert!(five_up.is_mov_allowed(card(6, Suit::SPADE), StackType::FONDATION));
    assert!(!five_up.is_mov_allowed(card(6, Suit::CLUB), StackType::FONDATION));
    assert!(!five_up.is_mov_allowed(card(7, Suit::SPADE), StackType::FONDATION));
    assert!(!five_up.is_mov_allowed(card(4, Suit::SPADE), StackType::FONDATION));
}

#[test]
fn tableau_rules() {
    let empty = Stack::new();
    assert!(empty.is_mov_allowed(card(13, Suit::HEART), StackType::PILES));
    assert!(!empty.is_mov_allowed(card(12, Suit::HEART), StackType::PILES));
    assert!(!empty.is_mov_allowed(card(1, Suit::HEART), StackType::PILES));
    let mut nine_red = Stack::new();
    nine_red.set(vec![card(9, Suit::DIAMOND)]);
    assert!(nine_red.is_mov_allowed(card(8, Suit::SPADE), StackType::PILES));
    assert!(nine_red.is_mov_allowed(card(8, Suit::CLUB), StackType::PILES));
    assert!(!nine_red.is_mov_allowed(card(8, Suit::HEART), StackType::PILES));
    assert!(!nine_red.is_mov_allowed(card(10, Suit::SPADE), StackType::PILES));
}

#[test]
fn deck_and_waste_accept_nothing() {
    let empty = Stack::new();
    assert!(!empty.is_mov_allowed(card(1, Suit::HEART), StackType::DECK));
    assert!(!empty.is_mov_allowed(card(13, Suit::SPADE), StackType::PLAYING));
    assert!(!empty.is_mov_allowed(card(7, Suit::CLUB), StackType::NONE));
}
