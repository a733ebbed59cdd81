//! Cards: a rank in [2, 14] (11-13 are the face cards, 14 the ace), one of
//! four suits, and a colour that the suit determines.

use vstd::prelude::*;

verus! {

#[derive(Clone, Copy, PartialEq, Eq, Structural, Debug)]
pub enum Suit {
    Spade,
    Club,
    Heart,
    Diamond,
}

/// The colour a suit determines: `true` is black, `false` is red.
pub open spec fn suit_color(s: Suit) -> bool {
    match s {
        Suit::Spade => true,
        Suit::Club => true,
        Suit::Heart => false,
        Suit::Diamond => false,
    }
}

#[derive(Clone, Copy, PartialEq, Eq, Structural, Debug)]
pub struct Card {
    pub number: i32,
    pub suit: Suit,
    pub color: bool,
}

/// A card's rank lies in [2, 14].
pub open spec fn rank_wf(c: Card) -> bool {
    2 <= c.number <= 14
}

/// A well-formed card has a rank in [2, 14] and the colour its suit determines.
pub open spec fn card_wf(c: Card) -> bool {
    rank_wf(c) && c.color == suit_color(c.suit)
}

pub open spec fn is_ace(c: Card) -> bool {
    c.number == 14
}

/// The fixed contribution of one card to a hand total: ranks 2-9 count as
/// themselves, the face cards 10-13 count as 10, and an ace contributes
/// nothing here (its 1-or-11 value enters through the ace base rows).
pub open spec fn fixed_value(c: Card) -> int {
    if c.number == 14 {
        0
    } else if 10 <= c.number <= 13 {
        10
    } else {
        c.number as int
    }
}

impl Card {
    pub fn new(num: i32, sui: Suit, col: bool) -> (c: Card)
        ensures
            c.number == num,
            c.suit == sui,
            c.color == col,
    {
        Card { number: num, suit: sui, color: col }
    }
}

} // verus!
