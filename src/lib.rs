pub mod disp;
mod card;
mod chance;
mod deck;
mod stack;
mod text;
mod widget;

pub use card::{color_at, Card, CardColor};
pub use deck::{
    _init_card_bank, color_block, colored_cards, copies, lemma_standard_deck_size, numeric_run,
    standard_deck, Player,
};
pub use stack::{
    after_pops, lemma_drain_len, lemma_pops_reverse_pushes, lemma_push_times_pops, popped, pushed_all,
    EmptyDeckError, Stack,
};
pub use text::{lines_of, segments, split_lines, strip_cr, views_of};
pub use widget::{
    king_accent, palette_from, shade_for, shade_of, style_fits, style_for, CardStyle, CardWidget,
    Rgb, Shade, Tint, BRIGHT_FLOOR, FACE_DOWN_ART, PALETTE_SIZE,
};
