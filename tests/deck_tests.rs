use taki::{_init_card_bank, Card, CardColor, EmptyDeckError, Player, Stack};

#[test]
fn pops_return_pushes_in_reverse_order() {
    let mut s: Stack<u32> = Stack::new();
    for v in [3u32, 1, 4, 1, 5, 9] {
        s.push(v);
    }
    let mut out = Vec::new();
    for _ in 0..6 {
        out.push(s.pop().unwrap());
    }
    assert_eq!(out, vec![9, 5, 1, 4, 1, 3]);
    assert_eq!(s.len(), 0);
}

#[test]
fn pop_of_empty_stack_is_an_error_and_keeps_the_count() {
    let mut s: Stack<u32> = Stack::new();
    assert_eq!(s.pop(), Err(EmptyDeckError));
    assert_eq!(s.len(), 0);
    s.push(7);
    assert_eq!(s.pop(), Ok(7));
    assert_eq!(s.pop(), Err(EmptyDeckError));
    assert_eq!(s.len(), 0);
}

#[test]
fn push_times_adds_that_many_copies() {
    let mut s: Stack<u32> = Stack::new();
    s.push(1);
    s.push(2);
    s.push_times(8, 4);
    assert_eq!(s.len(), 6);
    for _ in 0..4 {
        assert_eq!(s.pop(), Ok(8));
    }
    assert_eq!(s.pop(), Ok(2));
    assert_eq!(s.len(), 1);
}

#[test]
fn push_times_zero_changes_nothing() {
    let mut s: Stack<u32> = Stack::new();
    s.push(5);
    s.push_times(9, 0);
    assert_eq!(s.len(), 1);
    assert_eq!(s.into_vec(), vec![5]);
}

#[test]
fn len_equals_number_of_items_drained() {
    let mut s: Stack<u32> = Stack::new();
    for v in 0..37u32 {
        s.push(v);
    }
    s.push_times(100, 5);
    let before = s.len();
    let mut drained = 0usize;
    while s.pop().is_ok() {
        drained += 1;
    }
    assert_eq!(before, 42);
    assert_eq!(drained, before);
    assert_eq!(s.len(), 0);
}

#[test]
fn shuffle_keeps_the_same_items() {
    let mut s: Stack<u32> = Stack::new();
    for v in 0..50u32 {
        s.push(v % 7);
    }
    s.shuffle(3);
    assert_eq!(s.len(), 50);
    let mut got = s.into_vec();
    got.sort();
    let mut want: Vec<u32> = (0..50u32).map(|v| v % 7).collect();
    want.sort();
    assert_eq!(got, want);
}

#[test]
fn shuffle_reorders_a_long_stack() {
    let mut s: Stack<u32> = Stack::new();
    for v in 0..200u32 {
        s.push(v);
    }
    s.shuffle(1);
    let got = s.into_vec();
    let in_order: Vec<u32> = (0..200u32).collect();
    assert_ne!(got, in_order);
}

#[test]
fn shuffle_zero_rounds_keeps_the_order() {
    let mut s: Stack<u32> = Stack::new();
    for v in 0..10u32 {
        s.push(v);
    }
    s.shuffle(0);
    assert_eq!(s.into_vec(), (0..10u32).collect::<Vec<u32>>());
}

fn count(cards: &[Card], c: Card) -> usize {
    cards.iter().filter(|x| **x == c).count()
}

#[test]
fn standard_deck_has_118_cards_before_and_after_shuffle() {
    let mut unshuffled: Stack<Card> = Stack::new();
    _init_card_bank(&mut unshuffled, 0);
    assert_eq!(unshuffled.len(), 118);

    let mut shuffled: Stack<Card> = Stack::new();
    _init_card_bank(&mut shuffled, 5);
    assert_eq!(shuffled.len(), 118);

    let a = unshuffled.into_vec();
    let b = shuffled.into_vec();
    assert_eq!(a.len(), b.len());
    for c in a.iter() {
        assert_eq!(count(&a, *c), count(&b, *c));
    }
}

#[test]
fn standard_deck_holds_two_of_each_card() {
    let mut bank: Stack<Card> = Stack::new();
    _init_card_bank(&mut bank, 2);
    let cards = bank.into_vec();
    for color in [CardColor::Red, CardColor::Green, CardColor::Blue, CardColor::Yellow] {
        for n in 1..=9u8 {
            assert_eq!(count(&cards, Card::Numeric(n, color)), 2);
        }
        assert_eq!(count(&cards, Card::Stop(color)), 2);
        assert_eq!(count(&cards, Card::ChangeDir(color)), 2);
        assert_eq!(count(&cards, Card::Plus(color)), 2);
        assert_eq!(count(&cards, Card::Taki(color)), 2);
        assert_eq!(count(&cards, Card::Kah2(color)), 2);
    }
    assert_eq!(count(&cards, Card::ChangeColor), 2);
    assert_eq!(count(&cards, Card::SuperTaki), 2);
    assert_eq!(count(&cards, Card::King), 2);
    assert_eq!(count(&cards, Card::CardsBack), 0);
}

#[test]
fn unshuffled_deck_is_laid_in_order() {
    let mut bank: Stack<Card> = Stack::new();
    bank.push(Card::CardsBack);
    _init_card_bank(&mut bank, 0);
    assert_eq!(bank.len(), 119);
    let cards = bank.into_vec();
    assert_eq!(cards[0], Card::CardsBack);
    assert_eq!(cards[1], Card::Numeric(1, CardColor::Red));
    assert_eq!(cards[10], Card::Numeric(1, CardColor::Red));
    assert_eq!(cards[19], Card::Stop(CardColor::Red));
    assert_eq!(cards[29], Card::Numeric(1, CardColor::Green));
    assert_eq!(cards[118], Card::King);
}

#[test]
fn new_player_has_an_empty_hand() {
    for _ in 0..50 {
        let p = Player::new();
        assert!(p.id <= 99);
        assert_eq!(p.cards.len(), 0);
        assert_eq!(p.cards_count, 0);
    }
}

#[test]
fn dealing_moves_cards_from_bank_to_hand() {
    let mut bank: Stack<Card> = Stack::new();
    _init_card_bank(&mut bank, 1);
    let mut p = Player::new();
    for _ in 0..8 {
        p.cards.push(bank.pop().unwrap());
        p.cards_count += 1;
    }
    assert_eq!(bank.len(), 110);
    assert_eq!(p.cards.len(), 8);
    assert_eq!(p.cards_count, p.cards.len());
}

#[test]
fn colors_by_index() {
    assert_eq!(CardColor::from_index(0), Some(CardColor::Red));
    assert_eq!(CardColor::from_index(1), Some(CardColor::Green));
    assert_eq!(CardColor::from_index(2), Some(CardColor::Blue));
    assert_eq!(CardColor::from_index(3), Some(CardColor::Yellow));
    assert_eq!(CardColor::from_index(4), None);
}

#[test]
fn random_color_reaches_every_color() {
    let mut seen = [false; 4];
    for _ in 0..400 {
        match CardColor::random() {
            CardColor::Red => seen[0] = true,
            CardColor::Green => seen[1] = true,
            CardColor::Blue => seen[2] = true,
            CardColor::Yellow => seen[3] = true,
        }
    }
    assert_eq!(seen, [true; 4]);
}

#[test]
fn pop_many_returns_items_top_first() {
    let mut s: Stack<u32> = Stack::new();
    for v in 1..=5u32 {
        s.push(v);
    }
    assert_eq!(s.pop_many(3), vec![5, 4, 3]);
    assert_eq!(s.len(), 2);
    assert_eq!(s.pop_many(10), vec![2, 1]);
    assert_eq!(s.len(), 0);
    assert_eq!(s.pop_many(4), Vec::<u32>::new());
}

#[test]
fn pop_many_after_push_times_returns_the_copies() {
    let mut s: Stack<u32> = Stack::new();
    s.push(1);
    s.push_times(6, 3);
    assert_eq!(s.pop_many(3), vec![6, 6, 6]);
    assert_eq!(s.into_vec(), vec![1]);
}

#[test]
fn stacks_compare_by_contents() {
    let mut a: Stack<u32> = Stack::new();
    let mut b: Stack<u32> = Stack::new();
    a.push(1);
    b.push(1);
    assert_eq!(a, b);
    b.push(2);
    assert_ne!(a, b);
}
