use poker_game::game::{Action, BettingType, ConfigError, GameInfo};
use poker_game::state::{GameState, TransitionError};

fn no_limit(stacks: Vec<u32>, blinds: Vec<u32>, rounds: u8, first: Vec<u8>) -> GameInfo {
    let n = stacks.len() as u8;
    GameInfo::new(
        stacks,
        blinds,
        vec![2; rounds as usize],
        BettingType::NoLimit,
        n,
        rounds,
        vec![3; rounds as usize],
        first,
        4,
        13,
        2,
        vec![0; rounds as usize],
    )
    .unwrap()
}

fn apply(s: &GameState, info: &GameInfo, a: Action) -> GameState {
    s.apply_action_no_cards(info, a).unwrap()
}

#[test]
fn heads_up_no_limit_calls_to_showdown() {
    let info = no_limit(vec![100, 100], vec![1, 2], 4, vec![0, 1, 1, 1]);
    let s = GameState::new(&info, 7);
    assert_eq!(s.player_spent(0), 1);
    assert_eq!(s.player_spent(1), 2);
    assert_eq!(s.current_player(), Ok(0));
    let s = apply(&s, &info, Action::Call);
    assert_eq!(s.player_spent(0), 2);
    assert_eq!(s.player_spent(1), 2);
    // the big blind still has the option to act before the round closes
    assert_eq!(s.current_round(), 0);
    assert_eq!(s.current_player(), Ok(1));
    let s = apply(&s, &info, Action::Call);
    assert_eq!(s.current_round(), 1);
    let s = apply(&s, &info, Action::Call);
    let s = apply(&s, &info, Action::Call);
    assert_eq!(s.current_round(), 2);
    let s = apply(&s, &info, Action::Call);
    let s = apply(&s, &info, Action::Call);
    assert_eq!(s.current_round(), 3);
    let s = apply(&s, &info, Action::Call);
    let s = apply(&s, &info, Action::Call);
    assert!(s.is_finished());
    assert_eq!(s.pot_total(&info), 4);
    let ranks = vec![5, 9];
    assert_eq!(s.get_payout(&info, &ranks, 1), 2);
    assert_eq!(s.get_payout(&info, &ranks, 0), -2);
    assert_eq!(s.current_player(), Err(TransitionError::Finished));
}

#[test]
fn three_players_fold_after_raise() {
    let info = no_limit(vec![100, 100, 100], vec![1, 2, 0], 2, vec![2, 0]);
    let s = GameState::new(&info, 1);
    assert_eq!(s.current_player(), Ok(2));
    let s = apply(&s, &info, Action::Raise(10));
    let s = apply(&s, &info, Action::Fold);
    assert!(s.has_folded(0));
    let s = apply(&s, &info, Action::Call);
    assert_eq!(s.current_round(), 1);
    assert_eq!(s.player_spent(1), 10);
    let s = apply(&s, &info, Action::Call);
    let s = apply(&s, &info, Action::Call);
    assert!(s.is_finished());
    let ranks = vec![50, 3, 4];
    assert_eq!(s.get_payout(&info, &ranks, 0), -1);
    assert_eq!(s.get_payout(&info, &ranks, 2), 11);
    assert_eq!(s.get_payout(&info, &ranks, 1), -10);
}

#[test]
fn side_pot_winner_takes_only_its_layer() {
    let info = no_limit(vec![5, 100, 100], vec![0, 0, 0], 1, vec![0]);
    let s = GameState::new(&info, 3);
    let s = apply(&s, &info, Action::Raise(5));
    let s = apply(&s, &info, Action::Raise(20));
    let s = apply(&s, &info, Action::Call);
    assert!(s.is_finished());
    assert_eq!(s.player_spent(0), 5);
    assert_eq!(s.player_spent(1), 20);
    assert_eq!(s.player_spent(2), 20);
    let ranks = vec![9, 6, 2];
    assert_eq!(s.get_payout(&info, &ranks, 0), 10);
    assert_eq!(s.get_payout(&info, &ranks, 1), 10);
    assert_eq!(s.get_payout(&info, &ranks, 2), -20);
    let total: i64 = (0..3).map(|p| s.get_payout(&info, &ranks, p)).sum();
    assert_eq!(total, 0);
}

#[test]
fn split_layer_truncates_remainder() {
    let info = no_limit(vec![100, 100, 100], vec![1, 2, 0], 1, vec![2]);
    let s = GameState::new(&info, 3);
    let s = apply(&s, &info, Action::Raise(5));
    let s = apply(&s, &info, Action::Call);
    let s = apply(&s, &info, Action::Call);
    assert!(s.is_finished());
    // two equal winners split a layer of 5 among three contesters
    let ranks = vec![4, 4, 1];
    assert_eq!(s.get_payout(&info, &ranks, 0), 2);
    assert_eq!(s.get_payout(&info, &ranks, 1), 2);
    assert_eq!(s.get_payout(&info, &ranks, 2), -5);
}

#[test]
fn uncontested_payouts_sum_to_zero() {
    let info = no_limit(vec![100, 100, 100], vec![1, 2, 0], 2, vec![2, 0]);
    let s = GameState::new(&info, 1);
    let s = apply(&s, &info, Action::Raise(6));
    let s = apply(&s, &info, Action::Fold);
    let s = apply(&s, &info, Action::Fold);
    assert!(s.is_finished());
    let ranks = vec![0, 0, 0];
    let total: i64 = (0..3).map(|p| s.get_payout(&info, &ranks, p)).sum();
    assert_eq!(total, 0);
    assert_eq!(s.get_payout(&info, &ranks, 2), 3);
}

#[test]
fn transition_is_deterministic_and_leaves_state_alone() {
    let info = no_limit(vec![100, 100], vec![1, 2], 4, vec![0, 1, 1, 1]);
    let s = GameState::new(&info, 7);
    let before = s;
    let a = s.apply_action_no_cards(&info, Action::Raise(6)).unwrap();
    let b = s.apply_action_no_cards(&info, Action::Raise(6)).unwrap();
    assert_eq!(a, b);
    assert_eq!(s, before);
    assert_eq!(a.player_spent(0), 6);
}

#[test]
fn all_in_player_cannot_fold() {
    let info = no_limit(vec![100, 100], vec![1, 2], 4, vec![0, 1, 1, 1]);
    let mut s = GameState::new(&info, 7);
    s.spent[0] = 100;
    assert!(!s.is_valid_action(&info, Action::Fold));
    assert_eq!(
        s.apply_action_no_cards(&info, Action::Fold),
        Err(TransitionError::InvalidAction)
    );
}

#[test]
fn legality_matches_transition() {
    let info = no_limit(vec![100, 100], vec![1, 2], 4, vec![0, 1, 1, 1]);
    let s = GameState::new(&info, 7);
    assert_eq!(s.raise_range(&info), (4, 100));
    for x in [0u32, 3, 4, 50, 100, 101] {
        let a = Action::Raise(x);
        assert_eq!(s.is_valid_action(&info, a), s.apply_action_no_cards(&info, a).is_ok());
    }
    assert_eq!(
        s.apply_action_no_cards(&info, Action::Raise(3)),
        Err(TransitionError::InvalidAction)
    );
}

#[test]
fn finished_state_refuses_actions() {
    let info = no_limit(vec![100, 100], vec![1, 2], 4, vec![0, 1, 1, 1]);
    let s = GameState::new(&info, 7);
    let s = apply(&s, &info, Action::Fold);
    assert!(s.is_finished());
    assert!(!s.is_valid_action(&info, Action::Call));
    assert_eq!(s.apply_action_no_cards(&info, Action::Call), Err(TransitionError::Finished));
    assert_eq!(s.get_payout(&info, &vec![0, 0], 0), -1);
    assert_eq!(s.get_payout(&info, &vec![0, 0], 1), 1);
}

#[test]
fn full_action_log_is_reported() {
    let info = GameInfo::new(
        vec![10000, 10000],
        vec![1, 2],
        vec![2],
        BettingType::Limit,
        2,
        1,
        vec![100],
        vec![0],
        4,
        13,
        1,
        vec![0],
    )
    .unwrap();
    let mut s = GameState::new(&info, 1);
    for _ in 0..32 {
        s = apply(&s, &info, Action::Raise(2));
    }
    assert_eq!(s.num_raises(), 32);
    assert_eq!(s.player_spent(1), 66);
    assert_eq!(s.apply_action_no_cards(&info, Action::Call), Err(TransitionError::ActionLogFull));
}

#[test]
fn limit_raise_adds_fixed_size_capped_at_stack() {
    let info = GameInfo::new(
        vec![5, 100],
        vec![1, 2],
        vec![4],
        BettingType::Limit,
        2,
        1,
        vec![3],
        vec![0],
        4,
        13,
        1,
        vec![0],
    )
    .unwrap();
    let s = GameState::new(&info, 1);
    assert!(!s.is_valid_action(&info, Action::Raise(3)));
    let s = apply(&s, &info, Action::Raise(4));
    assert_eq!(s.player_spent(0), 5);
    assert_eq!(s.max_spent, 5);
}

#[test]
fn round_advance_resets_minimum_raise() {
    let info = no_limit(vec![100, 100], vec![1, 2], 4, vec![0, 1, 1, 1]);
    let s = GameState::new(&info, 7);
    assert_eq!(s.min_no_limit_raise_to, 4);
    let s = apply(&s, &info, Action::Raise(10));
    assert_eq!(s.min_no_limit_raise_to, 18);
    let s = apply(&s, &info, Action::Call);
    assert_eq!(s.current_round(), 1);
    assert_eq!(s.min_no_limit_raise_to, 12);
    assert_eq!(s.current_player(), Ok(1));
    assert_eq!(s.num_called(&info), 0);
    assert_eq!(s.num_active_players(&info), 2);
}

#[test]
fn all_in_call_skips_to_showdown() {
    let info = no_limit(vec![100, 40], vec![1, 2], 4, vec![0, 1, 1, 1]);
    let s = GameState::new(&info, 7);
    let s = apply(&s, &info, Action::Raise(100));
    let s = apply(&s, &info, Action::Call);
    assert!(s.is_finished());
    assert_eq!(s.current_round(), 3);
    assert_eq!(s.player_spent(1), 40);
    let ranks = vec![1, 2];
    assert_eq!(s.get_payout(&info, &ranks, 1), 40);
    assert_eq!(s.get_payout(&info, &ranks, 0), -40);
}

#[test]
fn config_errors() {
    let bad = |stacks: Vec<u32>, blinds: Vec<u32>, n: u8, rounds: u8, first: Vec<u8>| {
        GameInfo::new(
            stacks,
            blinds,
            vec![2; 2],
            BettingType::NoLimit,
            n,
            rounds,
            vec![3; 2],
            first,
            4,
            13,
            2,
            vec![0, 3],
        )
        .err()
    };
    assert_eq!(bad(vec![1], vec![0], 1, 2, vec![0, 0]), Some(ConfigError::PlayerCount));
    assert_eq!(bad(vec![1, 1], vec![0, 0], 2, 0, vec![0, 0]), Some(ConfigError::RoundCount));
    assert_eq!(bad(vec![1, 1, 1], vec![0, 0], 2, 2, vec![0, 0]), Some(ConfigError::PerPlayerLength));
    assert_eq!(bad(vec![1, 1], vec![0, 0], 2, 2, vec![0]), Some(ConfigError::PerRoundLength));
    assert_eq!(bad(vec![1, 1], vec![0, 0], 2, 2, vec![0, 2]), Some(ConfigError::FirstPlayerOutOfRange));
    assert_eq!(bad(vec![1, 1], vec![0, 2], 2, 2, vec![0, 1]), Some(ConfigError::BlindAboveStack));
    assert_eq!(bad(vec![1, 1], vec![0, 1], 2, 2, vec![0, 1]), None);
}

#[test]
fn board_cards_accumulate() {
    let info = GameInfo::new(
        vec![10, 10],
        vec![1, 2],
        vec![2, 2, 4, 4],
        BettingType::Limit,
        2,
        4,
        vec![3, 4, 4, 4],
        vec![1, 0, 0, 0],
        4,
        13,
        2,
        vec![0, 3, 1, 1],
    )
    .unwrap();
    assert_eq!(info.total_board_cards(0), 0);
    assert_eq!(info.total_board_cards(1), 3);
    assert_eq!(info.total_board_cards(3), 5);
    assert_eq!(info.num_board_cards(2), 1);
    assert_eq!(info.num_players(), 2);
    assert_eq!(info.num_suits(), 4);
    assert_eq!(info.num_ranks(), 13);
    assert_eq!(info.num_hole_cards(), 2);
    let s = GameState::new(&info, 9);
    assert_eq!(s.min_no_limit_raise_to, 0);
    assert_eq!(s.num_folded(&info), 0);
    assert_eq!(s.player_stack(1), 10);
}
