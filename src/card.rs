use vstd::prelude::*;
use vstd::string::StringExecFns;

verus! {

/// The four suits of a playing deck.
#[derive(Clone, Copy, Debug, PartialEq, Eq, Structural)]
pub enum Suit {
    Heart,
    Diamond,
    Spade,
    Club,
}

/// A playing card: a suit and a value, 1 (ace) to 13 (king).
#[derive(Clone, Copy, Debug, PartialEq, Eq, Structural)]
pub struct Card {
    pub suit: Suit,
    pub value: i32,
}

/// The glyph of a suit: the suit symbol followed by the emoji presentation selector.
pub open spec fn suit_glyph(s: Suit) -> Seq<char> {
    match s {
        Suit::Heart => seq!['\u{2665}', '\u{fe0f}'],
        Suit::Spade => seq!['\u{2660}', '\u{fe0f}'],
        Suit::Diamond => seq!['\u{2666}', '\u{fe0f}'],
        Suit::Club => seq!['\u{2663}', '\u{fe0f}'],
    }
}

/// The decimal digit character for `d < 10`.
pub open spec fn digit_char(d: nat) -> char {
    if d == 0 {
        '0'
    } else if d == 1 {
        '1'
    } else if d == 2 {
        '2'
    } else if d == 3 {
        '3'
    } else if d == 4 {
        '4'
    } else if d == 5 {
        '5'
    } else if d == 6 {
        '6'
    } else if d == 7 {
        '7'
    } else if d == 8 {
        '8'
    } else {
        '9'
    }
}

/// The decimal numeral of a natural number, without leading zeros.
pub open spec fn decimal(n: nat) -> Seq<char>
    decreases n,
{
    if n < 10 {
        seq![digit_char(n)]
    } else {
        decimal(n / 10).push(digit_char(n % 10))
    }
}

/// The rank label of a card value: A, J, Q and K for 1, 11, 12 and 13, the numeral otherwise.
pub open spec fn rank_text(value: int) -> Seq<char> {
    if value == 1 {
        seq!['A']
    } else if value == 11 {
        seq!['J']
    } else if value == 12 {
        seq!['Q']
    } else if value == 13 {
        seq!['K']
    } else {
        decimal(value as nat)
    }
}

/// The text of a card: its rank label immediately followed by its suit glyph.
pub open spec fn card_text(c: Card) -> Seq<char> {
    rank_text(c.value as int) + suit_glyph(c.suit)
}

impl Suit {
    /// The glyph of this suit.
    pub fn render(&self) -> (r: String)
        ensures
            r@ == suit_glyph(*self),
    {
        let r = match self {
            Suit::Heart => String::from_str("\u{2665}\u{fe0f}"),
            Suit::Spade => String::from_str("\u{2660}\u{fe0f}"),
            Suit::Club => String::from_str("\u{2663}\u{fe0f}"),
            Suit::Diamond => String::from_str("\u{2666}\u{fe0f}"),
        };
        proof {
            reveal_strlit("\u{2665}\u{fe0f}");
            reveal_strlit("\u{2660}\u{fe0f}");
            reveal_strlit("\u{2663}\u{fe0f}");
            reveal_strlit("\u{2666}\u{fe0f}");
            assert(r@ =~= suit_glyph(*self));
        }
        r
    }
}

impl Card {
    /// A card holds a value from 1 to 13.
    pub open spec fn wf(&self) -> bool {
        1 <= self.value <= 13
    }

    /// The rank label of this card's value.
    pub fn rank(&self) -> (r: String)
        requires
            self.wf(),
        ensures
            r@ == rank_text(self.value as int),
    {
        let s: &str = match self.value {
            1 => "A",
            2 => "2",
            3 => "3",
            4 => "4",
            5 => "5",
            6 => "6",
            7 => "7",
            8 => "8",
            9 => "9",
            10 => "10",
            11 => "J",
            12 => "Q",
            _ => "K",
        };
        proof {
            reveal_strlit("A");
            reveal_strlit("2");
            reveal_strlit("3");
            reveal_strlit("4");
            reveal_strlit("5");
            reveal_strlit("6");
            reveal_strlit("7");
            reveal_strlit("8");
            reveal_strlit("9");
            reveal_strlit("10");
            reveal_strlit("J");
            reveal_strlit("Q");
            reveal_strlit("K");
            assert(decimal(10) =~= seq!['1', '0']) by {
                assert(10nat / 10 == 1 && 10nat % 10 == 0);
                assert(decimal(1) == seq!['1']);
            }
            assert(s@ =~= rank_text(self.value as int));
        }
        String::from_str(s)
    }

    /// The text of this card: rank label then suit glyph, with no separator.
    pub fn render(&self) -> (r: String)
        requires
            self.wf(),
        ensures
            r@ == card_text(*self),
    {
        let mut r = self.rank();
        let glyph = self.suit.render();
        r.append(glyph.as_str());
        r
    }
}

} // verus!
