use holdem::{Card, Deck, Rank, Suit};

fn position(c: &Card) -> usize {
    let s = match c.suit {
        Suit::Clubs => 0,
        Suit::Diamonds => 1,
        Suit::Hearts => 2,
        Suit::Spades => 3,
    };
    let r = match c.rank {
        Rank::Ace => 0,
        other => other.value() as usize - 1,
    };
    13 * s + r
}

fn sorted_positions(cards: &[Card]) -> Vec<usize> {
    let mut v: Vec<usize> = cards.iter().map(position).collect();
    v.sort();
    v
}

#[test]
fn new_deck_has_52_cards() {
    let d = Deck::new();
    assert_eq!(d.len(), 52);
    assert!(!d.is_empty());
    assert_eq!(d.cards().len(), 52);
}

#[test]
fn new_deck_is_in_fixed_order() {
    let d = Deck::new();
    let cards = d.cards();
    assert_eq!(cards[0], Card::new(&Rank::Ace, &Suit::Clubs));
    assert_eq!(cards[1], Card::new(&Rank::Two, &Suit::Clubs));
    assert_eq!(cards[12], Card::new(&Rank::King, &Suit::Clubs));
    assert_eq!(cards[13], Card::new(&Rank::Ace, &Suit::Diamonds));
    assert_eq!(cards[26], Card::new(&Rank::Ace, &Suit::Hearts));
    assert_eq!(cards[39], Card::new(&Rank::Ace, &Suit::Spades));
    assert_eq!(cards[51], Card::new(&Rank::King, &Suit::Spades));
    for (i, c) in cards.iter().enumerate() {
        assert_eq!(position(c), i);
    }
}

#[test]
fn new_deck_holds_every_card_once() {
    let d = Deck::new();
    assert_eq!(sorted_positions(d.cards()), (0..52).collect::<Vec<usize>>());
}

#[test]
fn get_suits_and_ranks_in_deck_order() {
    assert_eq!(Deck::get_suits(), vec![Suit::Clubs, Suit::Diamonds, Suit::Hearts, Suit::Spades]);
    let ranks = Deck::get_ranks();
    assert_eq!(ranks.len(), 13);
    assert_eq!(ranks[0], Rank::Ace);
    assert_eq!(ranks[1], Rank::Two);
    assert_eq!(ranks[12], Rank::King);
}

#[test]
fn shuffle_keeps_the_same_cards() {
    for _ in 0..50 {
        let mut d = Deck::new();
        d.shuffle();
        assert_eq!(d.len(), 52);
        assert_eq!(sorted_positions(d.cards()), (0..52).collect::<Vec<usize>>());
    }
}

#[test]
fn shuffle_changes_the_order() {
    let fresh: Vec<Card> = Deck::new().cards().clone();
    let mut changed = 0;
    for _ in 0..20 {
        let mut d = Deck::new();
        d.shuffle();
        if *d.cards() != fresh {
            changed += 1;
        }
    }
    assert!(changed >= 19);
}

#[test]
fn shuffle_of_partly_dealt_deck_keeps_what_is_left() {
    let mut d = Deck::new();
    let dealt = d.deal(10).unwrap();
    let before = sorted_positions(d.cards());
    d.shuffle();
    assert_eq!(d.len(), 42);
    assert_eq!(sorted_positions(d.cards()), before);
    for c in &dealt {
        assert!(!d.cards().contains(c));
    }
}

#[test]
fn shuffle_of_small_decks() {
    let mut d = Deck::new();
    d.deal(52).unwrap();
    d.shuffle();
    assert_eq!(d.len(), 0);
    let mut d = Deck::new();
    d.deal(51).unwrap();
    d.shuffle();
    assert_eq!(*d.cards(), vec![Card::new(&Rank::Ace, &Suit::Clubs)]);
}

#[test]
fn deal_takes_the_last_cards_in_order() {
    let mut d = Deck::new();
    let hand = d.deal(3).unwrap();
    assert_eq!(
        hand,
        vec![
            Card::new(&Rank::Jack, &Suit::Spades),
            Card::new(&Rank::Queen, &Suit::Spades),
            Card::new(&Rank::King, &Suit::Spades),
        ]
    );
    assert_eq!(d.len(), 49);
    assert_eq!(d.cards()[48], Card::new(&Rank::Ten, &Suit::Spades));
    assert_eq!(d.cards()[0], Card::new(&Rank::Ace, &Suit::Clubs));
}

#[test]
fn deal_zero_gives_no_card_and_changes_nothing() {
    let mut d = Deck::new();
    d.shuffle();
    let before = d.cards().clone();
    assert_eq!(d.deal(0), Some(Vec::new()));
    assert_eq!(*d.cards(), before);
}

#[test]
fn deal_all_empties_the_deck() {
    let mut d = Deck::new();
    let all = d.deal(52).unwrap();
    assert_eq!(all.len(), 52);
    assert!(d.is_empty());
    assert_eq!(d.len(), 0);
    assert_eq!(d.deal(1), None);
    assert_eq!(d.deal(0), Some(Vec::new()));
}

#[test]
fn deal_too_many_fails_and_leaves_the_pool() {
    let mut d = Deck::new();
    d.shuffle();
    let before = d.cards().clone();
    assert_eq!(d.deal(53), None);
    assert_eq!(*d.cards(), before);
    d.deal(50).unwrap();
    let before = d.cards().clone();
    assert_eq!(before.len(), 2);
    assert_eq!(d.deal(3), None);
    assert_eq!(*d.cards(), before);
    assert_eq!(d.deal(3), None);
    assert_eq!(*d.cards(), before);
    assert_eq!(d.deal(usize::MAX), None);
    assert_eq!(*d.cards(), before);
}

#[test]
fn deals_are_disjoint_from_each_other_and_the_pool() {
    let requests = [2usize, 2, 2, 2, 1, 3, 1, 1, 1, 1, 5, 0, 7, 24];
    assert_eq!(requests.iter().sum::<usize>(), 52);
    let mut d = Deck::new();
    d.shuffle();
    let mut groups: Vec<Vec<Card>> = Vec::new();
    for n in requests {
        let g = d.deal(n).unwrap();
        assert_eq!(g.len(), n);
        for c in &g {
            assert!(!d.cards().contains(c));
            for earlier in &groups {
                assert!(!earlier.contains(c));
            }
        }
        groups.push(g);
        for earlier in &groups {
            for c in earlier {
                assert!(!d.cards().contains(c));
            }
        }
    }
    assert!(d.is_empty());
    let all: Vec<Card> = groups.into_iter().flatten().collect();
    assert_eq!(sorted_positions(&all), (0..52).collect::<Vec<usize>>());
}

#[test]
fn check_current_deck_gives_the_cards_left() {
    let mut d = Deck::new();
    d.deal(49).unwrap();
    assert_eq!(
        d.check_current_deck(),
        vec![
            Card::new(&Rank::Ace, &Suit::Clubs),
            Card::new(&Rank::Two, &Suit::Clubs),
            Card::new(&Rank::Three, &Suit::Clubs),
        ]
    );
}

#[test]
fn swap_exchanges_two_cards_and_nothing_else() {
    let mut d = Deck::new();
    let before = d.cards().clone();
    d.swap(0, 51);
    assert_eq!(d.cards()[0], before[51]);
    assert_eq!(d.cards()[51], before[0]);
    assert_eq!(d.cards()[1..51].to_vec(), before[1..51].to_vec());
    d.swap(51, 0);
    assert_eq!(*d.cards(), before);
    d.swap(7, 7);
    assert_eq!(*d.cards(), before);
    d.swap(3, 4);
    assert_eq!(d.cards()[3], Card::new(&Rank::Five, &Suit::Clubs));
    assert_eq!(d.cards()[4], Card::new(&Rank::Four, &Suit::Clubs));
    assert_eq!(sorted_positions(d.cards()), (0..52).collect::<Vec<usize>>());
}
