use crate::card::{color_at, Card, CardColor};
use crate::chance::random_in;
use crate::stack::Stack;
use vstd::prelude::*;

verus! {

/// `n` copies of `card`.
pub open spec fn copies(card: Card, n: nat) -> Seq<Card> {
    Seq::new(n, |_i: int| card)
}

/// The numbered cards 1 to 9 of color `c`, in rank order.
pub open spec fn numeric_run(c: CardColor) -> Seq<Card> {
    Seq::new(9, |i: int| Card::Numeric((i + 1) as u8, c))
}

/// The cards of one color: two of each number, and two of each action card.
pub open spec fn color_block(c: CardColor) -> Seq<Card> {
    numeric_run(c) + numeric_run(c) + copies(Card::Stop(c), 2) + copies(Card::ChangeDir(c), 2)
        + copies(Card::Plus(c), 2) + copies(Card::Taki(c), 2) + copies(Card::Kah2(c), 2)
}

/// The cards of the first `k` colors of Red, Green, Blue, Yellow.
pub open spec fn colored_cards(k: nat) -> Seq<Card>
    decreases k,
{
    if k == 0 {
        Seq::empty()
    } else {
        colored_cards((k - 1) as nat) + color_block(color_at(k - 1)->Some_0)
    }
}

/// The full deck in the order it is laid down, before any shuffle: the four
/// colors, then two of each wild card.
pub open spec fn standard_deck() -> Seq<Card> {
    colored_cards(4) + copies(Card::ChangeColor, 2) + copies(Card::SuperTaki, 2) + copies(
        Card::King,
        2,
    )
}

/// A standard deck holds 118 cards: 28 in each of the four colors and six
/// wild cards.
pub proof fn lemma_standard_deck_size()
    ensures
        standard_deck().len() == 118,
{
    reveal_with_fuel(colored_cards, 5);
    assert(color_block(CardColor::Red).len() == 28);
    assert(color_block(CardColor::Green).len() == 28);
    assert(color_block(CardColor::Blue).len() == 28);
    assert(color_block(CardColor::Yellow).len() == 28);
    assert(colored_cards(4).len() == 112);
}

/// Lays the cards of color `c` on top of `card_bank`.
fn push_color_block(card_bank: &mut Stack<Card>, c: CardColor)
    ensures
        final(card_bank)@ == old(card_bank)@ + color_block(c),
{
    let ghost base = card_bank@;
    let mut round: usize = 0;
    while round < 2
        invariant
            round <= 2,
            round == 0 ==> card_bank@ == base,
            round == 1 ==> card_bank@ == base + numeric_run(c),
            round == 2 ==> card_bank@ == base + numeric_run(c) + numeric_run(c),
        decreases 2 - round,
    {
        let ghost start = card_bank@;
        let mut n: u8 = 1;
        while n <= 9
            invariant
                1 <= n <= 10,
                card_bank@ == start + numeric_run(c).take(n - 1),
            decreases 10 - n,
        {
            card_bank.push(Card::Numeric(n, c));
            proof {
                assert(numeric_run(c).take(n as int) =~= numeric_run(c).take(n - 1).push(
                    Card::Numeric(n, c),
                ));
            }
            n = n + 1;
        }
        proof {
            assert(numeric_run(c).take(9) =~= numeric_run(c));
        }
        round = round + 1;
    }
    card_bank.push_times(Card::Stop(c), 2);
    card_bank.push_times(Card::ChangeDir(c), 2);
    card_bank.push_times(Card::Plus(c), 2);
    card_bank.push_times(Card::Taki(c), 2);
    card_bank.push_times(Card::Kah2(c), 2);
    proof {
        assert(card_bank@ =~= base + color_block(c));
    }
}

/// Lays a full standard deck on top of `card_bank`, then shuffles the whole
/// stack `shiters` times.
pub fn _init_card_bank(card_bank: &mut Stack<Card>, shiters: usize)
    ensures
        final(card_bank)@.len() == old(card_bank)@.len() + standard_deck().len(),
        final(card_bank)@.to_multiset() == old(card_bank)@.to_multiset().add(
            standard_deck().to_multiset(),
        ),
        shiters == 0 ==> final(card_bank)@ == old(card_bank)@ + standard_deck(),
{
    let ghost base = card_bank@;
    let mut x: u8 = 0;
    while x < 4
        invariant
            x <= 4,
            card_bank@ == base + colored_cards(x as nat),
        decreases 4 - x,
    {
        let c = match CardColor::from_index(x) {
            Some(c) => c,
            None => CardColor::Red,
        };
        push_color_block(card_bank, c);
        proof {
            assert(colored_cards((x + 1) as nat) == colored_cards(x as nat) + color_block(c));
            assert(card_bank@ =~= base + colored_cards((x + 1) as nat));
        }
        x = x + 1;
    }
    card_bank.push_times(Card::ChangeColor, 2);
    card_bank.push_times(Card::SuperTaki, 2);
    card_bank.push_times(Card::King, 2);
    proof {
        assert(card_bank@ =~= base + standard_deck());
        vstd::seq_lib::lemma_multiset_commutative(base, standard_deck());
    }
    card_bank.shuffle(shiters);
}

/// A player: a number to tell players apart, the cards in hand, and the count
/// of those cards as shown on screen.
#[derive(Debug)]
pub struct Player {
    pub id: u8,
    pub cards: Stack<Card>,
    pub cards_count: usize,
}

impl Player {
    /// A player with an empty hand and a random number from 0 to 99.
    pub fn new() -> (r: Player)
        ensures
            r.id <= 99,
            r.cards@ == Seq::<Card>::empty(),
            r.cards_count == 0,
    {
        Player { id: random_in(0, 99), cards: Stack::new(), cards_count: 0 }
    }
}

} // verus!
