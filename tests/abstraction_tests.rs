use poker_game::action_abstraction::{basic_actions, RaiseRoundConfig};
use poker_game::card_abstraction::{Card, CardAbstraction, LosslessBuckets, NoBuckets, RoundBuckets};
use poker_game::game::{Action, BettingType, GameInfo};
use poker_game::state::GameState;

fn holdem_like() -> GameInfo {
    GameInfo::new(
        vec![100, 100],
        vec![1, 2],
        vec![2, 2, 4, 4],
        BettingType::NoLimit,
        2,
        4,
        vec![3, 4, 4, 4],
        vec![0, 1, 1, 1],
        4,
        13,
        2,
        vec![0, 3, 1, 1],
    )
    .unwrap()
}

#[test]
fn no_buckets_encodes_hole_cards() {
    let info = holdem_like();
    let nb = NoBuckets::new(&info, 0);
    assert_eq!(nb.num_board_cards, 0);
    let hole = vec![Card { rank: 12, suit: 3 }, Card { rank: 0, suit: 1 }];
    assert_eq!(nb.get_bucket(&vec![], &hole), 51 * 52 + 1);
}

#[test]
fn no_buckets_appends_board_cards() {
    let info = holdem_like();
    let nb = NoBuckets::new(&info, 1);
    assert_eq!(nb.num_board_cards, 3);
    let hole = vec![Card { rank: 0, suit: 0 }, Card { rank: 0, suit: 1 }];
    let board = vec![Card { rank: 1, suit: 0 }, Card { rank: 0, suit: 2 }, Card { rank: 0, suit: 3 }];
    assert_eq!(nb.get_bucket(&board, &hole), ((1 * 52 + 4) * 52 + 2) * 52 + 3);
}

#[test]
fn card_abstraction_dispatches_by_round() {
    let info = holdem_like();
    let ca = CardAbstraction::new(vec![
        RoundBuckets::NoBuckets(NoBuckets::new(&info, 0)),
        RoundBuckets::Lossless(LosslessBuckets::new(&info, 1)),
    ]);
    let hole = vec![Card { rank: 2, suit: 1 }, Card { rank: 3, suit: 0 }];
    let board = vec![Card { rank: 1, suit: 0 }, Card { rank: 5, suit: 2 }, Card { rank: 7, suit: 3 }];
    assert_eq!(ca.get_bucket(0, &board, &hole), 9 * 52 + 12);
    assert_eq!(ca.get_bucket(1, &board, &hole), 0);
}

#[test]
fn raise_round_config_limits() {
    assert!(!RaiseRoundConfig::NotAllowed.allows(0));
    assert!(RaiseRoundConfig::Always.allows(9));
    assert!(RaiseRoundConfig::Before(2).allows(1));
    assert!(!RaiseRoundConfig::Before(2).allows(2));
}

#[test]
fn basic_actions_list_fold_and_call() {
    let info = holdem_like();
    let s = GameState::new(&info, 1);
    assert_eq!(basic_actions(&info, &s), vec![Action::Fold, Action::Call]);
    let mut all_in = s;
    all_in.spent[0] = 100;
    assert_eq!(basic_actions(&info, &all_in), vec![Action::Call]);
}
