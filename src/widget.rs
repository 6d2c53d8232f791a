use crate::card::{Card, CardColor};
use crate::chance::random_in;
use crate::disp::{asset_name, AssetNotFoundError, CardSet};
use crate::text::{lines_of, split_lines, views_of};
use vstd::prelude::*;

verus! {

/// The number of colors in a rotating palette, one for each line of a card.
pub const PALETTE_SIZE: usize = 6;

/// The lowest channel value of the bright palette.
pub const BRIGHT_FLOOR: u8 = 127;

/// The art of the back of a card, which no catalog supplies.
pub const FACE_DOWN_ART: &'static str = "+-----+\n|/////|\n|TAKI!|\n|/////|\n|/////|\n+-----+\n";

/// A color given by its red, green and blue channels.
#[derive(Debug, Clone, Copy, PartialEq, Eq, Structural)]
pub struct Rgb {
    pub r: u8,
    pub g: u8,
    pub b: u8,
}

/// A color of the terminal's palette, or one given by its channels.
#[derive(Debug, Clone, Copy, PartialEq, Eq, Structural)]
pub enum Shade {
    Red,
    Green,
    Blue,
    Yellow,
    Gray,
    Exact(Rgb),
}

/// A shade applied to the characters of a line, or to the cells behind them.
#[derive(Debug, Clone, Copy, PartialEq, Eq, Structural)]
pub enum Tint {
    Ink(Shade),
    Fill(Shade),
}

/// How the lines of a card are colored.
#[derive(Debug, Clone)]
pub enum CardStyle {
    /// Every line in one tint.
    NormalStyle(Tint),
    /// Line `i` in color `i` of the palette.
    Rainbow(Vec<Rgb>),
    /// As `Rainbow`, in bold.
    BoldRainbow(Vec<Rgb>),
}

/// The terminal shade of a suit color.
pub open spec fn shade_of(c: CardColor) -> Shade {
    match c {
        CardColor::Red => Shade::Red,
        CardColor::Green => Shade::Green,
        CardColor::Blue => Shade::Blue,
        CardColor::Yellow => Shade::Yellow,
    }
}

/// The fixed accent color of the King.
pub open spec fn king_accent() -> Rgb {
    Rgb { r: 255, g: 127, b: 0 }
}

/// A palette of one color per line, each channel at least `lo`.
pub open spec fn palette_from(v: Seq<Rgb>, lo: u8) -> bool {
    &&& v.len() == PALETTE_SIZE
    &&& forall|i: int| 0 <= i < v.len() ==> lo <= (#[trigger] v[i]).r && lo <= v[i].g && lo <= v[i].b
}

/// The styles a card may be drawn in: one fixed style for each card, except
/// for the two wild cards whose palettes are drawn afresh each time.
pub open spec fn style_fits(card: Card, style: CardStyle) -> bool {
    match card {
        Card::Numeric(_, c) => style == CardStyle::NormalStyle(Tint::Ink(shade_of(c))),
        Card::Taki(c) => style == CardStyle::NormalStyle(Tint::Ink(shade_of(c))),
        Card::Plus(c) => style == CardStyle::NormalStyle(Tint::Ink(shade_of(c))),
        Card::ChangeDir(c) => style == CardStyle::NormalStyle(Tint::Ink(shade_of(c))),
        Card::Stop(c) => style == CardStyle::NormalStyle(Tint::Ink(shade_of(c))),
        Card::Kah2(c) => style == CardStyle::NormalStyle(Tint::Ink(shade_of(c))),
        Card::King => style == CardStyle::NormalStyle(Tint::Ink(Shade::Exact(king_accent()))),
        Card::ChangeColor => match style {
            CardStyle::Rainbow(v) => palette_from(v@, 0),
            _ => false,
        },
        Card::SuperTaki => match style {
            CardStyle::BoldRainbow(v) => palette_from(v@, BRIGHT_FLOOR),
            _ => false,
        },
        Card::CardsBack => style == CardStyle::NormalStyle(Tint::Fill(Shade::Gray)),
    }
}

/// A palette of random colors whose channels lie between `lo` and 255.
fn random_palette(lo: u8) -> (r: Vec<Rgb>)
    ensures
        palette_from(r@, lo),
{
    let mut colors: Vec<Rgb> = Vec::new();
    let mut i: usize = 0;
    while i < PALETTE_SIZE
        invariant
            i <= PALETTE_SIZE,
            colors@.len() == i,
            forall|j: int| 0 <= j < i ==> lo <= (#[trigger] colors@[j]).r && lo <= colors@[j].g && lo <= colors@[j].b,
        decreases PALETTE_SIZE - i,
    {
        let r = random_in(lo, 255);
        let g = random_in(lo, 255);
        let b = random_in(lo, 255);
        colors.push(Rgb { r, g, b });
        i = i + 1;
    }
    colors
}

/// The terminal shade of a suit color.
pub fn shade_for(c: CardColor) -> (r: Shade)
    ensures
        r == shade_of(c),
{
    match c {
        CardColor::Red => Shade::Red,
        CardColor::Green => Shade::Green,
        CardColor::Blue => Shade::Blue,
        CardColor::Yellow => Shade::Yellow,
    }
}

/// The style to draw `card` in; the wild cards get new random palettes on
/// every call.
pub fn style_for(card: &Card) -> (r: CardStyle)
    ensures
        style_fits(*card, r),
{
    match *card {
        Card::Numeric(_, c) => CardStyle::NormalStyle(Tint::Ink(shade_for(c))),
        Card::Taki(c) => CardStyle::NormalStyle(Tint::Ink(shade_for(c))),
        Card::Plus(c) => CardStyle::NormalStyle(Tint::Ink(shade_for(c))),
        Card::ChangeDir(c) => CardStyle::NormalStyle(Tint::Ink(shade_for(c))),
        Card::Stop(c) => CardStyle::NormalStyle(Tint::Ink(shade_for(c))),
        Card::Kah2(c) => CardStyle::NormalStyle(Tint::Ink(shade_for(c))),
        Card::King => CardStyle::NormalStyle(Tint::Ink(Shade::Exact(Rgb { r: 255, g: 127, b: 0 }))),
        Card::ChangeColor => CardStyle::Rainbow(random_palette(0)),
        Card::SuperTaki => CardStyle::BoldRainbow(random_palette(BRIGHT_FLOOR)),
        Card::CardsBack => CardStyle::NormalStyle(Tint::Fill(Shade::Gray)),
    }
}

/// A card made ready to draw: its lines of art and how to color them.
#[derive(Debug, Clone)]
pub struct CardWidget {
    pub card: Vec<String>,
    pub style: CardStyle,
}

impl CardWidget {
    /// Resolves `card` against the catalog. The art of the back of a card is
    /// built in; every other card's art must be in the catalog under its
    /// asset name.
    pub fn new(card_set: &CardSet, card: &Card) -> (r: Result<CardWidget, AssetNotFoundError>)
        requires
            card_set.wf(),
        ensures
            *card == Card::CardsBack ==> r is Ok && views_of(r->Ok_0.card@) == lines_of(
                FACE_DOWN_ART@,
            ),
            *card != Card::CardsBack ==> (r is Ok <==> (asset_name(*card) is Some
                && card_set@.contains_key(asset_name(*card)->Some_0))),
            *card != Card::CardsBack && r is Ok ==> views_of(r->Ok_0.card@) == lines_of(
                card_set@[asset_name(*card)->Some_0],
            ),
            r is Ok ==> style_fits(*card, r->Ok_0.style),
    {
        let style = style_for(card);
        if *card == Card::CardsBack {
            return Ok(CardWidget { card: split_lines(FACE_DOWN_ART), style });
        }
        match card_set.get_card_by_instance(card) {
            Ok(art) => Ok(CardWidget { card: split_lines(art.as_str()), style }),
            Err(e) => Err(e),
        }
    }
}

} // verus!
