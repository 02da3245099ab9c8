use vstd::prelude::*;
use vstd::string::StringExecFns;

verus! {

/// The four suits of a standard deck of playing cards.
#[allow(non_camel_case_types)]
#[derive(Clone, Copy, PartialEq, Eq, Structural, Hash, Debug)]
pub enum Suit {
    CLUB,
    DIAMOND,
    SPADE,
    HEART,
}

/// A suit counts as red exactly when it is diamonds or hearts.
pub open spec fn spec_suit_is_red(s: Suit) -> bool {
    s == Suit::DIAMOND || s == Suit::HEART
}

impl Suit {
    /// Red suits map to `true`, black suits to `false`.
    pub fn to_color_as_bool(self) -> (r: bool)
        ensures
            r == spec_suit_is_red(self),
    {
        self == Suit::DIAMOND || self == Suit::HEART
    }
}

/// One playing card: a value from 1 (ace) through 13 (king), a suit, and
/// whether the card lies face up (`known`).
#[derive(Clone, Copy, Hash, Debug)]
pub struct Card {
    pub value: i16,
    pub suit: Suit,
    pub known: bool,
}

/// Card identity for `==`: value and suit only; visibility is no part of it,
/// so a face-down card equals its face-up twin.
pub open spec fn spec_card_eq(a: Card, b: Card) -> bool {
    a.value == b.value && a.suit == b.suit
}

impl PartialEq for Card {
    fn eq(&self, other: &Self) -> bool {
        self.value == other.value && self.suit == other.suit
    }
}

impl Eq for Card {}

impl vstd::std_specs::cmp::PartialEqSpecImpl for Card {
    open spec fn obeys_eq_spec() -> bool {
        true
    }

    open spec fn eq_spec(&self, other: &Self) -> bool {
        spec_card_eq(*self, *other)
    }
}

/// The suit's name as it appears in a card's text form.
pub open spec fn spec_suit_name(s: Suit) -> Seq<char> {
    match s {
        Suit::HEART => "Heart"@,
        Suit::SPADE => "Spade"@,
        Suit::CLUB => "Club"@,
        Suit::DIAMOND => "Diamond"@,
    }
}

/// The value's short text form: J, Q, K for the face cards, the decimal
/// digits otherwise.
pub open spec fn spec_value_short(v: int) -> Seq<char> {
    if v == 11 {
        "J"@
    } else if v == 12 {
        "Q"@
    } else if v == 13 {
        "K"@
    } else if v == 1 {
        "1"@
    } else if v == 2 {
        "2"@
    } else if v == 3 {
        "3"@
    } else if v == 4 {
        "4"@
    } else if v == 5 {
        "5"@
    } else if v == 6 {
        "6"@
    } else if v == 7 {
        "7"@
    } else if v == 8 {
        "8"@
    } else if v == 9 {
        "9"@
    } else {
        "10"@
    }
}

/// A boolean the way its text form spells it.
pub open spec fn spec_bool_text(b: bool) -> Seq<char> {
    if b {
        "true"@
    } else {
        "false"@
    }
}

/// The value's short text form as a string slice.
fn value_short_str(v: i16) -> (r: &'static str)
    requires
        1 <= v <= 13,
    ensures
        r@ == spec_value_short(v as int),
{
    match v {
        11 => "J",
        12 => "Q",
        13 => "K",
        1 => "1",
        2 => "2",
        3 => "3",
        4 => "4",
        5 => "5",
        6 => "6",
        7 => "7",
        8 => "8",
        9 => "9",
        _ => "10",
    }
}

/// The suit's part of a card's artwork file name.
pub open spec fn spec_suit_file_part(s: Suit) -> Seq<char> {
    match s {
        Suit::HEART => "hearts_"@,
        Suit::SPADE => "spades_"@,
        Suit::CLUB => "clubs_"@,
        Suit::DIAMOND => "diamonds_"@,
    }
}

/// The value's part of a card's artwork file name: the face cards and the ace
/// are spelled out, the rest keep their digits.
pub open spec fn spec_value_file_part(v: int) -> Seq<char> {
    if v == 11 {
        "jack"@
    } else if v == 12 {
        "queen"@
    } else if v == 13 {
        "king"@
    } else if v == 1 {
        "ace"@
    } else {
        spec_value_short(v)
    }
}

/// The file path of a card's face artwork, NUL-terminated for the loader.
pub fn match_card_path_texture(card: &Card) -> (path: String)
    requires
        1 <= card.value <= 13,
    ensures
        path@ == "cards/svg_playing_cards/fronts/png_96_dpi/"@ + spec_suit_file_part(card.suit)
            + spec_value_file_part(card.value as int) + ".png\0"@,
{
    let mut path = String::from_str("cards/svg_playing_cards/fronts/png_96_dpi/");
    match card.suit {
        Suit::HEART => path.append("hearts_"),
        Suit::SPADE => path.append("spades_"),
        Suit::CLUB => path.append("clubs_"),
        Suit::DIAMOND => path.append("diamonds_"),
    }
    if card.value == 11 {
        path.append("jack");
    } else if card.value == 12 {
        path.append("queen");
    } else if card.value == 13 {
        path.append("king");
    } else if card.value == 1 {
        path.append("ace");
    } else {
        path.append(value_short_str(card.value));
    }
    path.append(".png\0");
    path
}

/// `card_high` may carry `card_low` in a tableau run: one greater in value
/// and of the opposite color.
pub open spec fn spec_is_stackable(card_high: Card, card_low: Card) -> bool {
    card_high.value == card_low.value + 1 && spec_suit_is_red(card_high.suit) != spec_suit_is_red(
        card_low.suit,
    )
}

impl Card {
    /// The card as text: suit name, short value, and visibility,
    /// comma-separated.
    pub fn to_string(&self) -> (r: String)
        requires
            1 <= self.value <= 13,
        ensures
            r@ == spec_suit_name(self.suit) + ","@ + spec_value_short(self.value as int) + ","@
                + spec_bool_text(self.known),
    {
        let mut s = match self.suit {
            Suit::HEART => String::from_str("Heart"),
            Suit::SPADE => String::from_str("Spade"),
            Suit::CLUB => String::from_str("Club"),
            Suit::DIAMOND => String::from_str("Diamond"),
        };
        s.append(",");
        s.append(value_short_str(self.value));
        s.append(",");
        if self.known {
            s.append("true");
        } else {
            s.append("false");
        }
        s
    }

    pub fn is_stackable(card_high: Self, card_low: Self) -> (r: bool)
        ensures
            r == spec_is_stackable(card_high, card_low),
    {
        card_high.value as i32 == card_low.value as i32 + 1 && card_high.suit.to_color_as_bool()
            != card_low.suit.to_color_as_bool()
    }
}

} // verus!
