use holdem::{
    setup_players, simulation_builder, track_simulation_pairs, Card, Hand,
    MonteCarloPairDistribution, Rank, Suit,
};

fn two(a: Rank, b: Rank) -> Hand {
    Hand::new(vec![Card::new(&a, &Suit::Hearts), Card::new(&b, &Suit::Spades)]).unwrap()
}

fn counts(d: &MonteCarloPairDistribution) -> Vec<usize> {
    vec![
        d.deuces, d.threes, d.fours, d.fives, d.sixes, d.sevens, d.eights, d.nines, d.tens,
        d.jacks, d.queens, d.kings, d.aces,
    ]
}

#[test]
fn default_distribution_is_all_zero() {
    let d = MonteCarloPairDistribution::default();
    assert_eq!(d.total_hands, 0);
    assert_eq!(counts(&d), vec![0; 13]);
}

#[test]
fn each_pair_counts_for_its_rank() {
    let ranks = [
        Rank::Two,
        Rank::Three,
        Rank::Four,
        Rank::Five,
        Rank::Six,
        Rank::Seven,
        Rank::Eight,
        Rank::Nine,
        Rank::Ten,
        Rank::Jack,
        Rank::Queen,
        Rank::King,
        Rank::Ace,
    ];
    for (i, r) in ranks.iter().enumerate() {
        let mut d = MonteCarloPairDistribution::default();
        d.total_hands = 9;
        d = track_simulation_pairs(d, two(*r, *r));
        let mut expected = vec![0; 13];
        expected[i] = 1;
        assert_eq!(counts(&d), expected);
        assert_eq!(d.total_hands, 9);
        d = track_simulation_pairs(d, two(*r, *r));
        expected[i] = 2;
        assert_eq!(counts(&d), expected);
    }
}

#[test]
fn hands_that_are_no_pair_count_nothing() {
    let mut d = MonteCarloPairDistribution::default();
    d.aces = 4;
    d = track_simulation_pairs(d, two(Rank::Ace, Rank::King));
    d = track_simulation_pairs(d, two(Rank::Two, Rank::Three));
    let third = Hand::new(vec![
        Card::new(&Rank::Two, &Suit::Hearts),
        Card::new(&Rank::Three, &Suit::Clubs),
        Card::new(&Rank::Three, &Suit::Spades),
    ])
    .unwrap();
    d = track_simulation_pairs(d, third);
    let mut expected = vec![0; 13];
    expected[12] = 4;
    assert_eq!(counts(&d), expected);
}

#[test]
fn simulation_deals_every_hand() {
    for n in [0u32, 1, 25, 26, 27, 1000] {
        let d = simulation_builder(n);
        assert_eq!(d.total_hands, n);
        assert!(counts(&d).iter().sum::<usize>() <= n as usize);
    }
}

#[test]
fn simulation_finds_about_one_pair_in_seventeen_hands() {
    let d = simulation_builder(50_000);
    let pairs: usize = counts(&d).iter().sum();
    assert!(pairs > 2_000, "{} pairs", pairs);
    assert!(pairs < 4_000, "{} pairs", pairs);
    assert!(counts(&d).iter().all(|c| *c > 50));
}

#[test]
fn trial_game_has_phil_and_numbered_players() {
    let vp = setup_players(Some(3));
    let names: Vec<&str> = vp.iter().map(|p| p.name.as_str()).collect();
    assert_eq!(names, vec!["phil", "test_player0", "test_player1", "test_player2"]);
    for p in &vp {
        assert_eq!(p.chips, 0);
        assert!(p.hand.is_none());
        assert!(!p.is_turn);
    }
}

#[test]
fn trial_game_defaults_to_eight_players() {
    let vp = setup_players(None);
    assert_eq!(vp.len(), 8);
    assert_eq!(vp[0].name, "phil");
    assert_eq!(vp[7].name, "test_player6");
    assert_eq!(setup_players(Some(0)).len(), 1);
}

#[test]
fn numbered_players_are_numbered_in_decimal() {
    let vp = setup_players(Some(255));
    assert_eq!(vp.len(), 256);
    for i in 0..255usize {
        assert_eq!(vp[i + 1].name, format!("test_player{}", i));
    }
    assert_eq!(vp[10].name, "test_player9");
    assert_eq!(vp[11].name, "test_player10");
    assert_eq!(vp[101].name, "test_player100");
    assert_eq!(vp[255].name, "test_player254");
}
