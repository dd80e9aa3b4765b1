use poker_rs::agents::{Action, AgentKind, AgentTable, HumanAgent, PlayerAgent};
use poker_rs::cards::{parse_cards, Card, Rank, Suit};
use poker_rs::deck::Deck;
use poker_rs::evaluator::{evaluate_five, evaluate_seven, Category};
use poker_rs::game::{distribute_pots, ActionError, Game, HandHistoryVerb, PlayerStatus, Street};
use poker_rs::hand::{Board, HoleCards};

fn c(s: &str) -> Card {
    s.parse().unwrap()
}

fn five(s: &str) -> [Card; 5] {
    let v = parse_cards(s).unwrap();
    [v[0], v[1], v[2], v[3], v[4]]
}

fn chips(g: &Game) -> u64 {
    g.players.iter().map(|p| p.stack).sum::<u64>() + g.pot
}

fn check_invariants(g: &Game) {
    if g.street != Street::Showdown {
        let contributed: u64 = g.players.iter().map(|p| p.contributed).sum();
        assert_eq!(g.pot, contributed);
        for p in &g.players {
            if p.status == PlayerStatus::Active {
                assert!(p.bet <= g.current_bet || p.bet <= g.small_blind);
            }
            if p.status == PlayerStatus::AllIn {
                assert_eq!(p.stack, 0);
            }
        }
        let expected = match g.street {
            Street::Preflop => 0,
            Street::Flop => 3,
            Street::Turn => 4,
            _ => 5,
        };
        assert_eq!(g.board.len(), expected);
    } else {
        assert_eq!(g.pot, 0);
    }
    for p in &g.players {
        assert!(p.bet <= p.contributed);
    }
}

#[test]
fn chips_are_conserved_through_a_hand() {
    let mut g = Game::new(4, 200, 5, 10);
    g.new_hand_with_seed(11);
    let total = chips(&g);
    check_invariants(&g);
    g.action_raise_to(30).unwrap();
    check_invariants(&g);
    assert_eq!(chips(&g), total);
    g.action_check_call().unwrap();
    g.action_fold().unwrap();
    check_invariants(&g);
    assert_eq!(chips(&g), total);
    while g.street != Street::Showdown {
        g.action_check_call().unwrap();
        check_invariants(&g);
    }
    assert_eq!(g.pot, 0);
    assert_eq!(chips(&g), 800);
}

#[test]
fn board_grows_street_by_street() {
    let mut g = Game::new(3, 100, 5, 10);
    g.new_hand_with_seed(3);
    let mut sizes = vec![g.board.len()];
    while g.street != Street::Showdown {
        g.action_check_call().unwrap();
        sizes.push(g.board.len());
    }
    for w in sizes.windows(2) {
        assert!(w[0] <= w[1]);
    }
    assert_eq!(*sizes.last().unwrap(), 5);
}

#[test]
fn short_all_in_raise_does_not_reopen_action() {
    let mut g = Game::new(2, 1000, 5, 10);
    g.players[0].stack = 35;
    g.new_hand_with_seed(5);
    assert_eq!(g.dealer, 1);
    assert_eq!(g.current, 1);
    g.action_raise_to(30).unwrap();
    assert_eq!(g.min_raise, 20);
    assert_eq!(g.round_starter, 1);
    assert_eq!(g.current, 0);
    g.action_raise_to(35).unwrap();
    assert_eq!(g.players[0].status, PlayerStatus::AllIn);
    assert_eq!(g.current_bet, 35);
    assert_eq!(g.min_raise, 20);
    assert_eq!(g.round_starter, 1);
    assert_eq!(g.street, Street::Preflop);
    assert_eq!(g.current, 1);
    g.action_check_call().unwrap();
    assert_eq!(g.players[1].bet, 0);
    assert_ne!(g.street, Street::Preflop);
}

#[test]
fn forced_showdown_when_everyone_is_all_in_on_the_river() {
    let mut g = Game::new(2, 100, 5, 10);
    g.new_hand_with_seed(9);
    while g.street != Street::River {
        g.action_check_call().unwrap();
    }
    let cur = g.current;
    let max = g.players[cur].bet + g.players[cur].stack;
    g.action_bet(max).unwrap();
    g.action_check_call().unwrap();
    assert_eq!(g.street, Street::Showdown);
    assert_eq!(g.board.len(), 5);
    assert_eq!(g.pot, 0);
    assert_eq!(g.players.iter().map(|p| p.stack).sum::<u64>(), 200);
}

#[test]
fn dealer_and_action_skip_busted_seat() {
    let mut g = Game::new(3, 100, 5, 10);
    g.players[1].stack = 0;
    for seed in 0..4u64 {
        g.new_hand_with_seed(seed);
        assert_eq!(g.players[1].status, PlayerStatus::Folded);
        assert!(g.players[1].hole.is_none());
        assert_ne!(g.dealer, 1);
        assert_ne!(g.current, 1);
        g.action_fold().unwrap();
        g.players[1].stack = 0;
    }
}

#[test]
fn action_errors_leave_state_unchanged() {
    let mut g = Game::new(3, 100, 5, 10);
    g.new_hand_with_seed(1);
    let hist = g.history_len();
    assert_eq!(g.action_bet(20), Err(ActionError::BetNotAllowed));
    assert_eq!(g.action_bet_min(), Err(ActionError::BetNotAllowed));
    assert_eq!(g.action_raise_to(500), Err(ActionError::AmountTooLarge { max: 100, got: 500 }));
    assert_eq!(g.action_raise_to(15), Err(ActionError::AmountTooSmall { min: 20, got: 15 }));
    assert_eq!(g.history_len(), hist);
    while g.street == Street::Preflop {
        g.action_check_call().unwrap();
    }
    assert_eq!(g.action_raise_min(), Err(ActionError::RaiseNotAllowed));
    assert_eq!(g.action_raise_to(30), Err(ActionError::RaiseNotAllowed));
    assert_eq!(g.action_bet(5), Err(ActionError::AmountTooSmall { min: 10, got: 5 }));
    let cur = g.current;
    let too_much = g.players[cur].stack + 1;
    assert_eq!(g.action_bet(too_much), Err(ActionError::AmountTooLarge { max: too_much - 1, got: too_much }));
    g.street = Street::Showdown;
    g.pot = 0;
    assert_eq!(g.action_fold(), Err(ActionError::Showdown));
    g.street = Street::Flop;
    g.pot = g.players.iter().map(|p| p.contributed).sum();
    g.players[cur].status = PlayerStatus::Folded;
    assert_eq!(g.action_check_call(), Err(ActionError::PlayerNotActive));
}

#[test]
fn all_in_for_less_is_an_allowed_raise() {
    let mut g = Game::new(3, 100, 5, 10);
    g.players[1].stack = 15;
    g.new_hand_with_seed(2);
    assert_eq!(g.current, 1);
    g.action_raise_to(15).unwrap();
    assert_eq!(g.players[1].status, PlayerStatus::AllIn);
    assert_eq!(g.current_bet, 15);
    assert_eq!(g.min_raise, 10);
}

#[test]
fn target_too_low_when_already_bet_more() {
    let mut g = Game::new(2, 100, 5, 10);
    g.new_hand_with_seed(4);
    g.action_raise_to(40).unwrap();
    g.players[g.current].bet = 60;
    g.players[g.current].contributed = 60;
    g.pot = g.players.iter().map(|p| p.contributed).sum();
    g.current_bet = 60;
    assert_eq!(g.action_raise_min(), Ok(()));
    let mut h = Game::new(2, 100, 5, 10);
    h.new_hand_with_seed(4);
    h.current_bet = 8;
    h.min_raise = 1;
    h.players[h.current].bet = 9;
    h.players[h.current].contributed = 9;
    h.pot = h.players.iter().map(|p| p.contributed).sum();
    assert_eq!(h.action_raise_to(9), Err(ActionError::TargetTooLow { current: 9, target: 9 }));
}

#[test]
fn history_records_win_and_split() {
    let mut g = Game::new(2, 100, 5, 10);
    g.new_hand_with_seed(8);
    g.action_fold().unwrap();
    let last = g.history_recent(1);
    assert_eq!(last[0].verb, HandHistoryVerb::Win);
    assert_eq!(last[0].amount, Some(15));
    assert_eq!(g.players[last[0].seat].last_action.as_deref(), Some("Win 15"));
    assert_eq!(HandHistoryVerb::RaiseTo.label(), "Raise to");
    assert_eq!(HandHistoryVerb::SmallBlind.label(), "SB");
}

#[test]
fn pot_breakdown_splits_levels() {
    let mut g = Game::new(3, 1000, 5, 10);
    g.players[0].contributed = 100;
    g.players[1].contributed = 50;
    g.players[2].contributed = 200;
    let b = g.pot_breakdown();
    assert_eq!(b.main, 150);
    assert_eq!(b.sides, vec![100, 100]);
    g.players[0].contributed = 0;
    g.players[1].contributed = 0;
    g.players[2].contributed = 0;
    let b = g.pot_breakdown();
    assert_eq!(b.main, 0);
    assert!(b.sides.is_empty());
}

#[test]
fn distribute_pots_odd_chip_goes_clockwise() {
    let c = vec![1, 1, 2];
    let v = vec![Some(7), Some(7), Some(3)];
    let (w, split) = distribute_pots(&c, &v, 1);
    assert_eq!(w, vec![1, 2, 1]);
    assert_eq!(split, vec![true, true, false]);
    let (w, _) = distribute_pots(&c, &v, 0);
    assert_eq!(w, vec![2, 1, 1]);
    let (w, _) = distribute_pots(&vec![10, 10], &vec![None, None], 0);
    assert_eq!(w, vec![0, 0]);
}

#[test]
fn queries_report_table_state() {
    let mut g = Game::new(3, 100, 5, 10);
    g.new_hand_with_seed(6);
    assert_eq!(g.num_players(), 3);
    assert_eq!(g.pot(), 15);
    assert_eq!(g.current_bet(), 10);
    assert_eq!(g.min_raise(), 10);
    assert_eq!(g.street(), Street::Preflop);
    assert_eq!(g.dealer(), 1);
    assert_eq!(g.current(), 1);
    assert_eq!(g.to_call(1), 10);
    assert_eq!(g.to_call(2), 5);
    assert_eq!(g.stack(2), 95);
    assert_eq!(g.bet(0), 10);
    assert!(g.hole_cards(0).is_some());
    assert!(g.hole_cards(9).is_none());
    assert_eq!(g.board().len(), 0);
    assert_eq!(g.players[0].name, "P1");
    assert_eq!(g.players[2].name, "P3");
    assert_eq!(g.players[0].last_action.as_deref(), Some("BB 10"));
}

#[test]
fn seeded_shuffle_changes_order_and_keeps_cards() {
    let mut d = Deck::standard();
    let before: Vec<Card> = d.cards().to_vec();
    d.shuffle_seeded(42);
    let after: Vec<Card> = d.cards().to_vec();
    assert_ne!(before, after);
    let mut a = after.clone();
    a.sort();
    let mut b = before.clone();
    b.sort();
    assert_eq!(a, b);
    assert_eq!(before[0], Card::new(Rank::Two, Suit::Clubs));
    assert_eq!(before[51], Card::new(Rank::Ace, Suit::Spades));
    let mut e = Deck::standard();
    let drawn = e.draw_n(60);
    assert_eq!(drawn.len(), 52);
    assert!(e.is_empty());
    assert!(e.draw().is_none());
}

#[test]
fn hand_values_are_totally_ordered_and_transitive() {
    let a = evaluate_five(&five("As Ah Kd Kc 2s"));
    let b = evaluate_five(&five("Qs Qh Jd Jc As"));
    let c2 = evaluate_five(&five("9s 9h 8d 8c Ks"));
    assert!(a > b && b > c2 && a > c2);
    let d = evaluate_five(&five("Ad Ac Ks Kh 2d"));
    assert!(a >= d && d >= a);
    assert_eq!(a.value(), d.value());
}

#[test]
fn seven_card_best_beats_every_five_subset() {
    let xs = parse_cards("As Ks Qs Js 2d 3c Ts").unwrap();
    let seven = [xs[0], xs[1], xs[2], xs[3], xs[4], xs[5], xs[6]];
    let best = evaluate_seven(&seven);
    assert_eq!(best.category, Category::StraightFlush);
    for i in 0..7 {
        for j in i + 1..7 {
            let rest: Vec<Card> = (0..7).filter(|&k| k != i && k != j).map(|k| seven[k]).collect();
            let e = evaluate_five(&[rest[0], rest[1], rest[2], rest[3], rest[4]]);
            assert!(best >= e);
        }
    }
}

#[test]
fn straights_order_by_top_card_and_wheel_is_lowest() {
    let wheel = evaluate_five(&five("As 2d 3c 4h 5s"));
    let six = evaluate_five(&five("2d 3c 4h 5s 6d"));
    let broadway = evaluate_five(&five("Ts Jd Qc Kh As"));
    assert_eq!(wheel.category, Category::Straight);
    assert!(six > wheel);
    assert!(broadway > six);
    assert_eq!(wheel.value().raw() >> 48, 4);
}

#[test]
fn flushes_order_by_rank_vector() {
    let a = evaluate_five(&five("Ah Kh 9h 5h 2h"));
    let b = evaluate_five(&five("Ad Qd Jd 9d 8d"));
    let c2 = evaluate_five(&five("As Ks 9s 5s 3s"));
    assert_eq!(a.category, Category::Flush);
    assert!(a > b);
    assert!(c2 > a);
}

#[test]
fn packed_value_layout() {
    let e = evaluate_five(&five("Ks Kh Kd 2c 2s"));
    let raw = e.value().raw();
    assert_eq!(raw >> 48, 6);
    assert_eq!((raw >> 42) & 63, 13);
    assert_eq!((raw >> 36) & 63, 2);
    assert_eq!((raw >> 30) & 63, 2);
    assert_eq!(raw & ((1 << 18) - 1), 0);
    assert_eq!(e.best_five[0], c("Ks"));
    assert_eq!(e.best_five[4], c("2c"));
}

#[test]
fn parse_errors_name_the_bad_text() {
    assert!(matches!("Xs".parse::<Card>(), Err(poker_rs::cards::CardParseError::Rank(_))));
    assert!(matches!("Ax".parse::<Card>(), Err(poker_rs::cards::CardParseError::Suit(_))));
    assert!(matches!("A".parse::<Card>(), Err(poker_rs::cards::CardParseError::Invalid(_))));
    assert_eq!(" 10 ".parse::<Rank>().unwrap(), Rank::Ten);
    assert_eq!("SPADES".parse::<Suit>().unwrap(), Suit::Spades);
    assert_eq!(c(" th ").to_string(), "Th");
    assert!(parse_cards("As,,Kd  ").unwrap().len() == 2);
    assert!(parse_cards("As Zz").is_err());
    assert!(parse_cards("").unwrap().is_empty());
    assert!(matches!("As".parse::<HoleCards>(), Err(poker_rs::hand::HandError::HoleCount(1))));
    assert!(matches!("As As".parse::<HoleCards>(), Err(poker_rs::hand::HandError::DuplicateHoleCards)));
    assert!(matches!("As Q".parse::<Board>(), Err(poker_rs::hand::HandError::CardParse(_))));
}

#[test]
fn human_agent_plays_queued_action_on_its_turn() {
    let mut g = Game::new(2, 100, 5, 10);
    g.new_hand_with_seed(12);
    let mut table: AgentTable<HumanAgent> = AgentTable::for_seats(2);
    table.set_agent(0, Some(HumanAgent::new()));
    table.set_agent(1, Some(HumanAgent::new()));
    assert!(table.any_agents());
    assert!(!table.any_bots());
    assert_eq!(table.agent_kind(1), Some(AgentKind::Human));
    assert!(table.has_agent(0));
    assert!(!table.has_agent(5));
    assert_eq!(table.on_turn(&mut g, 0), Ok(false));
    assert!(table.receive(1, Action::CheckCall));
    assert!(!table.receive(1, Action::Fold));
    assert_eq!(table.on_turn(&mut g, 0), Ok(true));
    assert_eq!(g.current, 0);
    table.ensure_len(4);
    assert!(!table.has_agent(3));
    table.clear();
    assert!(!table.any_agents());
    let mut h = HumanAgent::new();
    assert_eq!(h.kind(), AgentKind::Human);
    assert!(h.receive(Action::Fold));
}
