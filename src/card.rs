use crate::chance::random_in;
use vstd::prelude::*;

verus! {

/// One of the four suit colors.
#[derive(Debug, Clone, Copy, PartialEq, Eq, Structural)]
pub enum CardColor {
    Red,
    Green,
    Blue,
    Yellow,
}

/// The color with the given position in the order Red, Green, Blue, Yellow.
pub open spec fn color_at(k: int) -> Option<CardColor> {
    if k == 0 {
        Some(CardColor::Red)
    } else if k == 1 {
        Some(CardColor::Green)
    } else if k == 2 {
        Some(CardColor::Blue)
    } else if k == 3 {
        Some(CardColor::Yellow)
    } else {
        None
    }
}

impl CardColor {
    /// The color at position `k` of Red, Green, Blue, Yellow, if `k < 4`.
    pub fn from_index(k: u8) -> (r: Option<CardColor>)
        ensures
            r == color_at(k as int),
    {
        match k {
            0 => Some(CardColor::Red),
            1 => Some(CardColor::Green),
            2 => Some(CardColor::Blue),
            3 => Some(CardColor::Yellow),
            _ => None,
        }
    }

    /// One of the four colors, each equally likely.
    pub fn random() -> (r: CardColor)
        ensures
            exists|k: int| 0 <= k < 4 && color_at(k) == Some(r),
    {
        let k = random_in(0, 3);
        match CardColor::from_index(k) {
            Some(c) => c,
            None => CardColor::Red,
        }
    }
}

/// A playing card. Colored cards carry their color; the wild cards and the
/// face-down card carry none.
#[derive(Debug, Clone, Copy, PartialEq, Eq, Structural)]
pub enum Card {
    /// A numbered card, ranked 1 to 9.
    Numeric(u8, CardColor),
    /// Lets its player go on playing cards of the same color.
    Taki(CardColor),
    Plus(CardColor),
    /// Reverses the direction of play.
    ChangeDir(CardColor),
    /// Skips the next player.
    Stop(CardColor),
    /// Makes the next player draw two.
    Kah2(CardColor),
    ChangeColor,
    SuperTaki,
    King,
    /// The back of a card, shown for the undealt pile.
    CardsBack,
}

} // verus!
