use holdem::{hand_to_display_tokens, Card, Deck, Hand, HandError, Rank, Suit};

fn card(text: &str) -> Card {
    let mut chars = text.chars();
    let rank = match chars.next().unwrap() {
        '2' => Rank::Two,
        '3' => Rank::Three,
        '4' => Rank::Four,
        '5' => Rank::Five,
        '6' => Rank::Six,
        '7' => Rank::Seven,
        '8' => Rank::Eight,
        '9' => Rank::Nine,
        'T' => Rank::Ten,
        'J' => Rank::Jack,
        'Q' => Rank::Queen,
        'K' => Rank::King,
        'A' => Rank::Ace,
        other => panic!("no rank {}", other),
    };
    let suit = match chars.next().unwrap() {
        'h' => Suit::Hearts,
        'd' => Suit::Diamonds,
        'c' => Suit::Clubs,
        's' => Suit::Spades,
        other => panic!("no suit {}", other),
    };
    Card::new(&rank, &suit)
}

fn cards(text: &str) -> Vec<Card> {
    text.split_whitespace().map(card).collect()
}

#[test]
fn hand_of_eight_cards_is_refused() {
    let mut d = Deck::new();
    let eight = d.deal(8).unwrap();
    match Hand::new(eight) {
        Err(e) => assert_eq!(e, HandError::InvalidSize(8)),
        Ok(_) => panic!("eight cards made a hand"),
    }
}

#[test]
fn hand_of_many_cards_reports_their_number() {
    let mut d = Deck::new();
    let all = d.deal(52).unwrap();
    match Hand::new(all) {
        Err(e) => assert_eq!(e, HandError::InvalidSize(52)),
        Ok(_) => panic!("52 cards made a hand"),
    }
}

#[test]
fn hands_of_zero_to_seven_cards_are_made() {
    for n in 0..=7usize {
        let mut d = Deck::new();
        d.shuffle();
        let given = d.deal(n).unwrap();
        let h = Hand::new(given.clone()).unwrap();
        assert_eq!(h.len(), n);
        assert_eq!(*h.cards(), given);
    }
}

#[test]
fn hand_keeps_the_order_given() {
    let h = Hand::new(cards("Kd 2c Ah")).unwrap();
    assert_eq!(*h.cards(), vec![card("Kd"), card("2c"), card("Ah")]);
}

#[test]
fn hand_clone_has_the_same_cards() {
    let h = Hand::new(cards("Kd 2c Ah 9s")).unwrap();
    let copy = h.clone();
    assert_eq!(copy.cards(), h.cards());
}

#[test]
fn hand_to_string_joins_cards_with_spaces() {
    assert_eq!(Hand::new(cards("Ah Kd")).unwrap().to_string(), "Ah Kd");
    assert_eq!(Hand::new(cards("Tc")).unwrap().to_string(), "Tc");
    assert_eq!(Hand::new(Vec::new()).unwrap().to_string(), "");
    assert_eq!(
        Hand::new(cards("2s 3h 4d 5c 6s 7h 8d")).unwrap().to_string(),
        "2s 3h 4d 5c 6s 7h 8d"
    );
}

#[test]
fn paired_hand_looks_at_the_first_two_cards() {
    assert!(Hand::new(cards("Ah Ad")).unwrap()._paired_hand());
    assert!(Hand::new(cards("7c 7s Kd")).unwrap()._paired_hand());
    assert!(!Hand::new(cards("Ah Kd")).unwrap()._paired_hand());
    assert!(!Hand::new(cards("Ah Kd Ad")).unwrap()._paired_hand());
    assert!(!Hand::new(cards("Ah")).unwrap()._paired_hand());
    assert!(!Hand::new(Vec::new()).unwrap()._paired_hand());
}

#[test]
fn display_tokens_are_rank_and_suit_in_order() {
    let h = Hand::new(cards("Qh 3s Tc")).unwrap();
    assert_eq!(
        hand_to_display_tokens(&h),
        vec![(Rank::Queen, Suit::Hearts), (Rank::Three, Suit::Spades), (Rank::Ten, Suit::Clubs)]
    );
    assert!(hand_to_display_tokens(&Hand::new(Vec::new()).unwrap()).is_empty());
}
