use taki::disp::{AssetNotFoundError, CardSet, CardSetLoader};
use taki::{Card, CardColor, CardStyle, CardWidget, Rgb, Shade, Tint, BRIGHT_FLOOR, PALETTE_SIZE};

const NAMES: [&str; 17] = [
    "Card1", "Card2", "Card3", "Card4", "Card5", "Card6", "Card7", "Card8", "Card9", "Stop",
    "ChangeDir", "Plus", "Take2", "Taki", "ChangeCol", "King", "SuperTaki",
];

fn catalog_without(missing: &str) -> CardSet {
    let mut text = String::new();
    for name in NAMES {
        if name != missing {
            text += &format!("[{name}]\n{name} top\n{name} bottom\n");
        }
    }
    CardSetLoader::load_from_text(&text)
}

fn all_cards() -> Vec<Card> {
    let mut cards = Vec::new();
    for c in [CardColor::Red, CardColor::Green, CardColor::Blue, CardColor::Yellow] {
        for n in 1..=9u8 {
            cards.push(Card::Numeric(n, c));
        }
        cards.push(Card::Taki(c));
        cards.push(Card::Plus(c));
        cards.push(Card::ChangeDir(c));
        cards.push(Card::Stop(c));
        cards.push(Card::Kah2(c));
    }
    cards.push(Card::ChangeColor);
    cards.push(Card::SuperTaki);
    cards.push(Card::King);
    cards
}

fn rainbow(w: &CardWidget) -> Vec<Rgb> {
    match &w.style {
        CardStyle::Rainbow(v) => v.clone(),
        other => panic!("expected a rotating style, got {other:?}"),
    }
}

#[test]
fn every_card_resolves_against_a_full_catalog() {
    let set = catalog_without("");
    for card in all_cards() {
        let w = CardWidget::new(&set, &card).unwrap();
        assert_eq!(w.card.len(), 2);
        assert!(w.card[0].ends_with(" top"));
        assert!(w.card[1].ends_with(" bottom"));
    }
}

#[test]
fn missing_king_fails_to_resolve() {
    let set = catalog_without("King");
    assert!(matches!(CardWidget::new(&set, &Card::King), Err(AssetNotFoundError)));
    assert!(CardWidget::new(&set, &Card::SuperTaki).is_ok());
}

#[test]
fn every_card_needs_its_own_asset() {
    for name in NAMES {
        let set = catalog_without(name);
        for card in all_cards() {
            let r = CardWidget::new(&set, &card);
            let needs = taki::disp::asset_name_of(&card) == Some(name);
            assert_eq!(r.is_err(), needs, "{card:?} without {name}");
        }
    }
}

#[test]
fn numbers_out_of_range_do_not_resolve() {
    let set = catalog_without("");
    assert!(matches!(
        CardWidget::new(&set, &Card::Numeric(0, CardColor::Red)),
        Err(AssetNotFoundError)
    ));
    assert!(matches!(
        CardWidget::new(&set, &Card::Numeric(12, CardColor::Red)),
        Err(AssetNotFoundError)
    ));
}

#[test]
fn resolved_lines_follow_the_art() {
    let set = CardSetLoader::load_from_text("[Card7]\n+---+\n| 7 |\n+---+\n");
    let w = CardWidget::new(&set, &Card::Numeric(7, CardColor::Green)).unwrap();
    assert_eq!(w.card, vec!["+---+".to_string(), "| 7 |".to_string(), "+---+".to_string()]);
}

#[test]
fn face_down_card_needs_no_catalog() {
    let set = CardSetLoader::load_from_text("");
    let w = CardWidget::new(&set, &Card::CardsBack).unwrap();
    assert_eq!(w.card.len(), 6);
    assert_eq!(w.card[0], "+-----+");
    assert!(matches!(w.style, CardStyle::NormalStyle(Tint::Fill(Shade::Gray))));
}

#[test]
fn colored_cards_are_drawn_in_their_color() {
    let set = catalog_without("");
    let pairs = [
        (Card::Numeric(2, CardColor::Red), Shade::Red),
        (Card::Stop(CardColor::Green), Shade::Green),
        (Card::Kah2(CardColor::Blue), Shade::Blue),
        (Card::Taki(CardColor::Yellow), Shade::Yellow),
        (Card::Plus(CardColor::Red), Shade::Red),
        (Card::ChangeDir(CardColor::Blue), Shade::Blue),
    ];
    for (card, shade) in pairs {
        let w = CardWidget::new(&set, &card).unwrap();
        assert!(matches!(w.style, CardStyle::NormalStyle(Tint::Ink(s)) if s == shade));
    }
}

#[test]
fn king_has_a_fixed_accent() {
    let set = catalog_without("");
    let w = CardWidget::new(&set, &Card::King).unwrap();
    let accent = Shade::Exact(Rgb { r: 255, g: 127, b: 0 });
    assert!(matches!(w.style, CardStyle::NormalStyle(Tint::Ink(s)) if s == accent));
}

#[test]
fn change_color_is_redrawn_on_each_resolve() {
    let set = catalog_without("");
    let a = CardWidget::new(&set, &Card::ChangeColor).unwrap();
    let b = CardWidget::new(&set, &Card::ChangeColor).unwrap();
    let (pa, pb) = (rainbow(&a), rainbow(&b));
    assert_eq!(pa.len(), PALETTE_SIZE);
    assert_eq!(pb.len(), PALETTE_SIZE);
    assert_ne!(pa, pb);
}

#[test]
fn super_taki_uses_a_bright_bold_palette() {
    let set = catalog_without("");
    let mut all_at_floor = true;
    for _ in 0..20 {
        let w = CardWidget::new(&set, &Card::SuperTaki).unwrap();
        match &w.style {
            CardStyle::BoldRainbow(v) => {
                assert_eq!(v.len(), PALETTE_SIZE);
                for c in v {
                    assert!(c.r >= BRIGHT_FLOOR && c.g >= BRIGHT_FLOOR && c.b >= BRIGHT_FLOOR);
                    if c.r != BRIGHT_FLOOR || c.g != BRIGHT_FLOOR || c.b != BRIGHT_FLOOR {
                        all_at_floor = false;
                    }
                }
            }
            other => panic!("expected a bold rotating style, got {other:?}"),
        }
    }
    assert!(!all_at_floor);
}
