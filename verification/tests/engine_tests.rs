use holdem::{
    create_table, deal_next_community_card, run_to_flop, Card, EngineError, Game, GameMaster,
    HandEvaluator, Hand, Phase, Player, PlayerDecisions,
};

fn seats(n: usize, chips: i32) -> Vec<Player> {
    (0..n)
        .map(|i| {
            let mut p = Player::new(format!("seat{}", i));
            p.chips = chips;
            p
        })
        .collect()
}

fn live_cards(gm: &GameMaster) -> Vec<Card> {
    let mut all: Vec<Card> = gm.gamestate.deck.cards().clone();
    all.extend(gm.gamestate.table_cards.iter().copied());
    for p in &gm.gamestate.players {
        if let Some(h) = &p.hand {
            all.extend(h.cards().iter().copied());
        }
    }
    all
}

fn assert_no_card_twice(cards: &[Card]) {
    for i in 0..cards.len() {
        for j in i + 1..cards.len() {
            assert_ne!(cards[i], cards[j]);
        }
    }
}

fn chips(players: &[Player]) -> Vec<i32> {
    players.iter().map(|p| p.chips).collect()
}

#[test]
fn new_controller_has_the_default_setup() {
    let gm = GameMaster::new(Game::new(), seats(3, 0));
    assert_eq!(gm.small_blind, Some(10));
    assert_eq!(gm.big_blind, Some(20));
    assert_eq!(gm.bb_position, 1);
    assert_eq!(gm.turn_index, 2);
    assert_eq!(gm.active_player_count, 3);
    assert_eq!(gm.players.len(), 3);
    assert!(gm.player_log.is_empty());
    assert!(gm.skipped_seats.is_empty());
    assert_eq!(gm.phase, Phase::Created);
    assert!(gm.gamestate.players.is_empty());
}

#[test]
fn create_table_seats_players_in_order_at_a_new_table() {
    let gm = create_table(seats(5, 100));
    let names: Vec<&str> = gm.players.iter().map(|p| p.name.as_str()).collect();
    assert_eq!(names, vec!["seat0", "seat1", "seat2", "seat3", "seat4"]);
    assert_eq!(gm.active_player_count, 5);
    assert_eq!(gm.gamestate.deck.len(), 52);
    assert!(gm.gamestate.players.is_empty());
    assert!(gm.gamestate.table_cards.is_empty());
    assert_eq!(gm.phase, Phase::Created);
    assert_no_card_twice(&live_cards(&gm));
}

#[test]
fn blinds_come_off_the_two_seats() {
    let mut gm = create_table(seats(4, 1000));
    assert!(gm.blinds_payable());
    assert_eq!(gm.initial_blinds(), Ok(()));
    assert_eq!(gm.players[1].chips, 980);
    assert_eq!(gm.players[0].chips, 990);
    assert_eq!(chips(&gm.players), vec![990, 980, 1000, 1000]);
    assert_eq!(gm.phase, Phase::BlindsPosted);
}

#[test]
fn small_blind_seat_wraps_round_the_table() {
    let mut gm = create_table(seats(4, 1000));
    gm.bb_position = 0;
    assert_eq!(gm.small_blind_seat(), Some(3));
    assert_eq!(gm.initial_blinds(), Ok(()));
    assert_eq!(chips(&gm.players), vec![980, 1000, 1000, 990]);
}

#[test]
fn blinds_with_custom_amounts_and_seat() {
    let mut gm = create_table(seats(6, 500));
    gm.small_blind = Some(25);
    gm.big_blind = Some(50);
    gm.bb_position = 4;
    assert_eq!(gm.small_blind_seat(), Some(3));
    assert_eq!(gm.initial_blinds(), Ok(()));
    assert_eq!(chips(&gm.players), vec![500, 500, 500, 475, 450, 500]);
}

#[test]
fn big_blind_seat_beyond_the_table_pays_nothing() {
    let mut gm = create_table(seats(3, 100));
    gm.bb_position = 7;
    assert_eq!(gm.small_blind_seat(), Some(0));
    assert_eq!(gm.initial_blinds(), Ok(()));
    assert_eq!(chips(&gm.players), vec![90, 100, 100]);
}

#[test]
fn one_player_pays_both_blinds() {
    let mut gm = create_table(seats(1, 100));
    gm.bb_position = 0;
    assert_eq!(gm.small_blind_seat(), Some(0));
    assert_eq!(gm.initial_blinds(), Ok(()));
    assert_eq!(chips(&gm.players), vec![70]);
}

#[test]
fn blinds_at_an_empty_table_change_nothing() {
    let mut gm = create_table(Vec::new());
    assert_eq!(gm.small_blind_seat(), None);
    assert!(gm.blinds_payable());
    assert_eq!(gm.initial_blinds(), Ok(()));
    assert!(gm.players.is_empty());
    assert_eq!(gm.phase, Phase::BlindsPosted);
}

#[test]
fn stacks_may_go_below_zero() {
    let mut gm = create_table(seats(2, 5));
    assert_eq!(gm.initial_blinds(), Ok(()));
    assert_eq!(chips(&gm.players), vec![-5, -15]);
}

#[test]
fn missing_blind_amount_fails_and_changes_nothing() {
    let mut gm = create_table(seats(4, 1000));
    gm.small_blind = None;
    assert_eq!(gm.initial_blinds(), Err(EngineError::MissingBlindConfiguration));
    assert_eq!(chips(&gm.players), vec![1000, 1000, 1000, 1000]);
    assert_eq!(gm.phase, Phase::Created);
    assert_eq!(run_to_flop(&mut gm), Err(EngineError::MissingBlindConfiguration));
    assert_eq!(chips(&gm.players), vec![1000, 1000, 1000, 1000]);
    assert_eq!(gm.gamestate.deck.len(), 52);
    let mut gm = create_table(seats(4, 1000));
    gm.big_blind = None;
    assert_eq!(gm.initial_blinds(), Err(EngineError::MissingBlindConfiguration));
    assert_eq!(chips(&gm.players), vec![1000, 1000, 1000, 1000]);
}

#[test]
fn blinds_payable_sees_the_end_of_the_number_range() {
    let mut gm = create_table(seats(3, 0));
    gm.players[1].chips = i32::MIN + 19;
    assert!(!gm.blinds_payable());
    gm.players[1].chips = i32::MIN + 20;
    assert!(gm.blinds_payable());
    gm.players[0].chips = i32::MIN + 9;
    assert!(!gm.blinds_payable());
    gm.players[0].chips = i32::MAX;
    gm.small_blind = Some(-1);
    assert!(!gm.blinds_payable());
    gm.small_blind = None;
    assert!(gm.blinds_payable());
}

#[test]
fn blinds_cannot_be_posted_twice() {
    let mut gm = create_table(seats(4, 1000));
    assert_eq!(gm.initial_blinds(), Ok(()));
    assert_eq!(gm.initial_blinds(), Err(EngineError::InvalidPhaseTransition));
    assert_eq!(chips(&gm.players), vec![990, 980, 1000, 1000]);
}

#[test]
fn hole_cards_go_seat_by_seat_from_the_end_of_the_deck() {
    let mut gm = create_table(seats(3, 1000));
    let deck: Vec<Card> = gm.gamestate.deck.cards().clone();
    gm.initial_blinds().unwrap();
    assert_eq!(gm.initial_deal(), Ok(()));
    assert_eq!(gm.phase, Phase::HoleCardsDealt);
    for i in 0..3 {
        let expected = deck[52 - 2 * (i + 1)..52 - 2 * i].to_vec();
        assert_eq!(*gm.players[i].hand.as_ref().unwrap().cards(), expected);
        assert_eq!(*gm.gamestate.players[i].hand.as_ref().unwrap().cards(), expected);
        assert_eq!(gm.gamestate.players[i].name, format!("seat{}", i));
    }
    assert_eq!(*gm.gamestate.deck.cards(), deck[..46].to_vec());
    assert_eq!(chips(&gm.gamestate.players), vec![990, 980, 1000]);
    assert!(gm.skipped_seats.is_empty());
    assert_no_card_twice(&live_cards(&gm));
}

#[test]
fn hole_cards_need_the_blinds_first() {
    let mut gm = create_table(seats(3, 1000));
    assert_eq!(gm.initial_deal(), Err(EngineError::InvalidPhaseTransition));
    assert_eq!(gm.gamestate.deck.len(), 52);
    assert!(gm.players.iter().all(|p| p.hand.is_none()));
    assert!(gm.gamestate.players.is_empty());
}

#[test]
fn players_beyond_the_deck_are_skipped_and_noted() {
    let mut gm = create_table(seats(30, 1000));
    gm.initial_blinds().unwrap();
    assert_eq!(gm.initial_deal(), Ok(()));
    assert_eq!(gm.skipped_seats, vec![26, 27, 28, 29]);
    assert_eq!(gm.gamestate.players.len(), 26);
    assert_eq!(gm.players.len(), 30);
    assert!(gm.gamestate.deck.is_empty());
    for i in 0..30 {
        assert_eq!(gm.players[i].hand.is_some(), i < 26);
    }
    assert_no_card_twice(&live_cards(&gm));
    assert_eq!(live_cards(&gm).len(), 52);
    assert_eq!(gm.deal_flop(), Err(EngineError::DeckExhausted));
    assert!(gm.gamestate.table_cards.is_empty());
    assert_eq!(gm.phase, Phase::HoleCardsDealt);
}

#[test]
fn odd_card_left_in_the_deck_is_not_dealt() {
    let mut gm = create_table(seats(3, 1000));
    gm.gamestate.deck.deal(49).unwrap();
    gm.initial_blinds().unwrap();
    assert_eq!(gm.initial_deal(), Ok(()));
    assert_eq!(gm.skipped_seats, vec![1, 2]);
    assert_eq!(gm.gamestate.players.len(), 1);
    assert_eq!(gm.gamestate.deck.len(), 1);
    assert_eq!(gm.gamestate.players[0].hand.as_ref().unwrap().len(), 2);
}

#[test]
fn start_turn_marks_the_seat_after_the_big_blind() {
    let mut gm = create_table(seats(4, 1000));
    gm.initial_blinds().unwrap();
    gm.initial_deal().unwrap();
    assert_eq!(gm.start_turn(), Ok(()));
    assert_eq!(gm.turn_index, gm.bb_position + 1);
    let flags: Vec<bool> = gm.players.iter().map(|p| p.is_turn).collect();
    assert_eq!(flags, vec![false, false, true, false]);
    let flags: Vec<bool> = gm.gamestate.players.iter().map(|p| p.is_turn).collect();
    assert_eq!(flags, vec![false, false, true, false]);
    assert_eq!(gm.phase, Phase::HoleCardsDealt);
}

#[test]
fn start_turn_at_a_seat_beyond_the_table_marks_nobody() {
    let mut gm = create_table(seats(2, 1000));
    gm.initial_blinds().unwrap();
    gm.initial_deal().unwrap();
    assert_eq!(gm.start_turn(), Ok(()));
    assert!(gm.players.iter().all(|p| !p.is_turn));
}

#[test]
fn start_turn_refuses_a_wrong_seat() {
    let mut gm = create_table(seats(4, 1000));
    gm.initial_blinds().unwrap();
    gm.initial_deal().unwrap();
    gm.turn_index = 3;
    assert_eq!(gm.start_turn(), Err(EngineError::TurnOrderViolation));
    assert!(gm.players.iter().all(|p| !p.is_turn));
    gm.turn_index = 2;
    gm.bb_position = usize::MAX;
    assert_eq!(gm.start_turn(), Err(EngineError::TurnOrderViolation));
    let mut gm = create_table(seats(4, 1000));
    assert_eq!(gm.start_turn(), Err(EngineError::InvalidPhaseTransition));
    gm.turn_index = 0;
    assert_eq!(run_to_flop(&mut gm), Err(EngineError::TurnOrderViolation));
    assert_eq!(chips(&gm.players), vec![1000, 1000, 1000, 1000]);
    assert_eq!(gm.phase, Phase::Created);
}

#[test]
fn flop_burns_one_card_and_deals_three() {
    let mut gm = create_table(seats(2, 1000));
    let deck: Vec<Card> = gm.gamestate.deck.cards().clone();
    gm.initial_blinds().unwrap();
    gm.initial_deal().unwrap();
    assert_eq!(gm.deal_flop(), Ok(()));
    assert_eq!(gm.gamestate.table_cards, deck[44..47].to_vec());
    assert_eq!(*gm.gamestate.deck.cards(), deck[..44].to_vec());
    assert!(!live_cards(&gm).contains(&deck[47]));
    assert_eq!(gm.phase, Phase::FlopDealt);
    for p in &gm.gamestate.players {
        let hole = p.hand.as_ref().unwrap().cards().clone();
        let mut merged = hole.clone();
        merged.extend(deck[44..47].iter().copied());
        assert_eq!(*p.board_hand.as_ref().unwrap().cards(), merged);
        assert_eq!(p.rank, Some(HandEvaluator::evaluate(&Hand::new(merged).unwrap())));
    }
    assert!(gm.players.iter().all(|p| p.board_hand.is_none()));
}

#[test]
fn flop_needs_hole_cards_first() {
    let mut gm = create_table(seats(2, 1000));
    assert_eq!(gm.deal_flop(), Err(EngineError::InvalidPhaseTransition));
    gm.initial_blinds().unwrap();
    assert_eq!(gm.deal_flop(), Err(EngineError::InvalidPhaseTransition));
    assert_eq!(gm.gamestate.deck.len(), 52);
    assert!(gm.gamestate.table_cards.is_empty());
}

#[test]
fn run_to_flop_with_four_players() {
    let mut gm = create_table(seats(4, 1000));
    assert!(gm.blinds_payable());
    assert_eq!(run_to_flop(&mut gm), Ok(()));
    assert_eq!(gm.phase, Phase::FlopDealt);
    assert_eq!(gm.players.len(), 4);
    assert_eq!(gm.gamestate.players.len(), 4);
    for p in &gm.players {
        assert_eq!(p.hand.as_ref().unwrap().len(), 2);
        assert_eq!(p.board_hand.as_ref().unwrap().len(), 5);
        assert!(p.rank.is_some());
    }
    assert_eq!(gm.gamestate.table_cards.len(), 3);
    assert_eq!(gm.gamestate.deck.len(), 40);
    let live = live_cards(&gm);
    assert_eq!(live.len(), 51);
    assert_no_card_twice(&live);
    assert_eq!(chips(&gm.players), vec![990, 980, 1000, 1000]);
    assert_eq!(gm.turn_index, gm.bb_position + 1);
    let flags: Vec<bool> = gm.players.iter().map(|p| p.is_turn).collect();
    assert_eq!(flags, vec![false, false, true, false]);
    assert!(gm.skipped_seats.is_empty());
    for (a, b) in gm.players.iter().zip(gm.gamestate.players.iter()) {
        assert_eq!(a.name, b.name);
        assert_eq!(a.chips, b.chips);
        assert_eq!(a.hand.as_ref().unwrap().cards(), b.hand.as_ref().unwrap().cards());
        assert_eq!(a.rank, b.rank);
    }

    assert_eq!(deal_next_community_card(&mut gm), Ok(()));
    assert_eq!(gm.gamestate.table_cards.len(), 4);
    assert_eq!(gm.phase, Phase::TurnDealt);
    assert_eq!(deal_next_community_card(&mut gm), Ok(()));
    assert_eq!(gm.gamestate.table_cards.len(), 5);
    assert_eq!(gm.phase, Phase::RiverDealt);
    assert_eq!(gm.gamestate.deck.len(), 36);
    assert_no_card_twice(&live_cards(&gm));
    let board = gm.gamestate.table_cards.clone();
    assert_eq!(deal_next_community_card(&mut gm), Err(EngineError::InvalidPhaseTransition));
    assert_eq!(gm.gamestate.table_cards, board);
    assert_eq!(gm.gamestate.deck.len(), 36);
    assert_eq!(gm.phase, Phase::RiverDealt);
    for p in &gm.players {
        assert_eq!(p.hand.as_ref().unwrap().len(), 2);
        assert_eq!(p.board_hand.as_ref().unwrap().len(), 7);
        let merged = p.board_hand.as_ref().unwrap();
        assert_eq!(merged.cards()[2..].to_vec(), board);
        assert_eq!(p.rank, Some(HandEvaluator::evaluate(merged)));
    }
}

#[test]
fn init_is_run_to_flop() {
    let mut gm = GameMaster::new(Game::new(), seats(3, 200));
    assert_eq!(gm.init(), Ok(()));
    assert_eq!(gm.phase, Phase::FlopDealt);
    assert_eq!(gm.gamestate.table_cards.len(), 3);
    assert_eq!(gm.gamestate.deck.len(), 42);
    assert_eq!(gm.init(), Err(EngineError::InvalidPhaseTransition));
    assert_eq!(gm.gamestate.deck.len(), 42);
}

#[test]
fn turn_and_river_keep_the_board_and_add_one_card() {
    let mut gm = create_table(seats(2, 1000));
    run_to_flop(&mut gm).unwrap();
    let deck: Vec<Card> = gm.gamestate.deck.cards().clone();
    let flop = gm.gamestate.table_cards.clone();
    assert_eq!(gm.deal_turn_or_river(), Ok(()));
    let n = deck.len();
    assert_eq!(gm.gamestate.table_cards[..3].to_vec(), flop);
    assert_eq!(gm.gamestate.table_cards[3], deck[n - 2]);
    assert_eq!(*gm.gamestate.deck.cards(), deck[..n - 2].to_vec());
    assert_eq!(gm.deal_turn_or_river(), Ok(()));
    assert_eq!(gm.gamestate.table_cards[..3].to_vec(), flop);
    assert_eq!(gm.gamestate.table_cards[3], deck[n - 2]);
    assert_eq!(gm.gamestate.table_cards[4], deck[n - 4]);
    assert_eq!(*gm.gamestate.deck.cards(), deck[..n - 4].to_vec());
    assert_eq!(gm.deal_turn_or_river(), Err(EngineError::InvalidPhaseTransition));
}

#[test]
fn board_card_before_the_flop_is_out_of_order() {
    let mut gm = create_table(seats(2, 1000));
    assert_eq!(deal_next_community_card(&mut gm), Err(EngineError::InvalidPhaseTransition));
    gm.initial_blinds().unwrap();
    assert_eq!(gm.deal_turn_or_river(), Err(EngineError::InvalidPhaseTransition));
    gm.initial_deal().unwrap();
    assert_eq!(gm.deal_turn_or_river(), Err(EngineError::InvalidPhaseTransition));
    assert!(gm.gamestate.table_cards.is_empty());
    assert_eq!(gm.gamestate.deck.len(), 48);
}

#[test]
fn too_many_players_for_the_flop_exhaust_the_deck() {
    let mut gm = create_table(seats(25, 1000));
    assert_eq!(run_to_flop(&mut gm), Err(EngineError::DeckExhausted));
    assert_eq!(gm.phase, Phase::Created);
    assert_eq!(gm.gamestate.deck.len(), 52);
    assert!(gm.players.iter().all(|p| p.chips == 1000 && p.hand.is_none()));
    let mut gm = create_table(seats(40, 1000));
    assert_eq!(run_to_flop(&mut gm), Err(EngineError::DeckExhausted));
    assert_eq!(gm.gamestate.deck.len(), 52);
}

#[test]
fn twenty_four_players_use_up_the_deck_at_the_flop() {
    let mut gm = create_table(seats(24, 1000));
    assert_eq!(run_to_flop(&mut gm), Ok(()));
    assert!(gm.gamestate.deck.is_empty());
    assert_eq!(gm.gamestate.players.len(), 24);
    assert_no_card_twice(&live_cards(&gm));
    assert_eq!(deal_next_community_card(&mut gm), Err(EngineError::DeckExhausted));
    assert_eq!(gm.gamestate.table_cards.len(), 3);
    assert_eq!(gm.phase, Phase::FlopDealt);
}

#[test]
fn update_game_status_copies_the_table_roster() {
    let mut gm = create_table(seats(2, 1000));
    gm.initial_blinds().unwrap();
    gm.initial_deal().unwrap();
    gm.deal_flop().unwrap();
    assert!(gm.players.iter().all(|p| p.rank.is_none()));
    gm.update_game_status();
    assert_eq!(gm.players.len(), 2);
    for (a, b) in gm.players.iter().zip(gm.gamestate.players.iter()) {
        assert_eq!(a.name, b.name);
        assert_eq!(a.rank, b.rank);
        assert!(a.rank.is_some());
        assert_eq!(
            a.board_hand.as_ref().unwrap().cards(),
            b.board_hand.as_ref().unwrap().cards()
        );
    }
}

#[test]
fn equity_hands_are_those_of_the_first_two_seats() {
    let mut gm = create_table(seats(3, 1000));
    assert!(gm.equity_hands().is_none());
    run_to_flop(&mut gm).unwrap();
    let (first, second, board) = gm.equity_hands().unwrap();
    assert_eq!(first.cards(), gm.players[0].hand.as_ref().unwrap().cards());
    assert_eq!(second.cards(), gm.players[1].hand.as_ref().unwrap().cards());
    assert_eq!(*board.cards(), gm.gamestate.table_cards);
    let mut alone = create_table(seats(1, 1000));
    run_to_flop(&mut alone).unwrap();
    assert!(alone.equity_hands().is_none());
}

#[test]
fn equity_hands_are_withheld_where_a_card_repeats() {
    let mut gm = create_table(seats(2, 1000));
    run_to_flop(&mut gm).unwrap();
    assert!(gm.equity_hands().is_some());
    let own = gm.players[1].hand.clone();
    gm.players[1].hand = gm.players[0].hand.clone();
    assert!(gm.equity_hands().is_none());
    gm.players[1].hand = own;
    assert!(gm.equity_hands().is_some());
    let first = gm.players[0].hand.as_ref().unwrap().cards()[0];
    gm.gamestate.table_cards.push(first);
    assert!(gm.equity_hands().is_none());
    gm.gamestate.table_cards.pop();
    gm.deal_turn_or_river().unwrap();
    gm.deal_turn_or_river().unwrap();
    assert_eq!(gm.equity_hands().unwrap().2.len(), 5);
    let spare = gm.gamestate.deck.cards()[0];
    gm.gamestate.table_cards.push(spare);
    assert!(gm.equity_hands().is_none());
    gm.gamestate.table_cards.pop();
    gm.players[0].hand = None;
    assert!(gm.equity_hands().is_none());
}

#[test]
fn decision_event_changes_nothing() {
    let mut gm = create_table(seats(2, 1000));
    run_to_flop(&mut gm).unwrap();
    let deck = gm.gamestate.deck.cards().clone();
    gm.decision_event();
    assert_eq!(*gm.gamestate.deck.cards(), deck);
    assert_eq!(gm.phase, Phase::FlopDealt);
    assert!(gm.player_log.is_empty());
}

#[test]
fn all_decisions_are_listed() {
    assert_eq!(
        PlayerDecisions::_get_all_options(),
        vec![
            PlayerDecisions::Call,
            PlayerDecisions::Bet,
            PlayerDecisions::Check,
            PlayerDecisions::Raise,
            PlayerDecisions::Shove,
            PlayerDecisions::Fold,
        ]
    );
}

#[test]
fn players_of_an_earlier_hand_get_new_cards() {
    let mut first = create_table(seats(3, 1000));
    run_to_flop(&mut first).unwrap();
    let again: Vec<Player> = first.players.iter().map(|p| p.clone()).collect();
    let mut second = create_table(again);
    assert_eq!(second.gamestate.deck.len(), 52);
    assert_eq!(run_to_flop(&mut second), Ok(()));
    assert_eq!(chips(&second.players), vec![980, 960, 1000]);
    assert_no_card_twice(&live_cards(&second));
    for p in &second.players {
        assert_eq!(p.hand.as_ref().unwrap().len(), 2);
        assert_eq!(p.board_hand.as_ref().unwrap().len(), 5);
    }
}

fn holder(name: &str, cards: Vec<Card>) -> Player {
    let mut p = Player::new(name.to_string());
    p.add_hand(Hand::new(cards).unwrap());
    p
}

#[test]
fn flop_fails_where_a_hand_has_no_room_for_it() {
    let mut g = Game::new();
    let five = g.deck.deal(5).unwrap();
    g.add_player(holder("full", five.clone())).unwrap();
    let mut gm = GameMaster::new(g, seats(2, 1000));
    assert_eq!(run_to_flop(&mut gm), Err(EngineError::HandSize(8)));
    assert_eq!(gm.phase, Phase::Created);
    assert_eq!(gm.gamestate.deck.len(), 47);
    assert_eq!(chips(&gm.players), vec![1000, 1000]);
    gm.initial_blinds().unwrap();
    gm.initial_deal().unwrap();
    assert_eq!(gm.deal_flop(), Err(EngineError::HandSize(8)));
    assert_eq!(gm.gamestate.deck.len(), 43);
    assert!(gm.gamestate.table_cards.is_empty());
    assert_eq!(gm.phase, Phase::HoleCardsDealt);
    assert_eq!(*gm.gamestate.players[0].hand.as_ref().unwrap().cards(), five);
    assert!(gm.gamestate.players[0].board_hand.is_none());
}

#[test]
fn board_card_fails_where_a_hand_has_no_room_for_it() {
    let mut g = Game::new();
    let four = g.deck.deal(4).unwrap();
    g.add_player(holder("four", four)).unwrap();
    let mut gm = GameMaster::new(g, seats(2, 1000));
    assert_eq!(run_to_flop(&mut gm), Ok(()));
    assert_eq!(gm.gamestate.players[0].board_hand.as_ref().unwrap().len(), 7);
    let board = gm.gamestate.table_cards.clone();
    let left = gm.gamestate.deck.len();
    assert_eq!(deal_next_community_card(&mut gm), Err(EngineError::HandSize(8)));
    assert_eq!(gm.gamestate.table_cards, board);
    assert_eq!(gm.gamestate.deck.len(), left);
    assert_eq!(gm.phase, Phase::FlopDealt);
}

#[test]
fn players_without_cards_sit_through_the_flop() {
    let mut g = Game::new();
    g.add_player(Player::new("idle".to_string())).unwrap();
    let mut gm = GameMaster::new(g, seats(2, 1000));
    assert_eq!(run_to_flop(&mut gm), Ok(()));
    assert_eq!(gm.gamestate.players.len(), 3);
    assert!(gm.gamestate.players[0].hand.is_none());
    assert!(gm.gamestate.players[0].board_hand.is_none());
    assert!(gm.gamestate.players[0].rank.is_none());
    assert_eq!(gm.players.len(), 3);
    assert_eq!(gm.players[0].name, "idle");
    assert_eq!(gm.showdown().unwrap().iter().filter(|s| **s == 0).count(), 0);
}
