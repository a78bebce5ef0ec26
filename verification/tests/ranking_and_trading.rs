use tradeogre_bot::order_key::OrderKey;
use tradeogre_bot::similarity::{prediction_tail, rank_by_similarity, successor_id};
use tradeogre_bot::trading::{
    action_label, decide_trade, initial_state, ExitReason, MarketSignals, TradeAction, TraderState,
};

fn keys(v: &[i64]) -> Vec<OrderKey> {
    v.iter().map(|x| OrderKey::Ordered(*x)).collect()
}

#[test]
fn rank_by_similarity_best_first_stable() {
    let ks = keys(&[5, 9, 9, 1]);
    assert_eq!(rank_by_similarity(&ks, 2), vec![1, 2]);
    assert_eq!(rank_by_similarity(&ks, 1), vec![1]);
    assert_eq!(rank_by_similarity(&ks, 10), vec![1, 2, 0, 3]);
    assert_eq!(rank_by_similarity(&ks, 0), Vec::<usize>::new());
    assert_eq!(rank_by_similarity(&keys(&[]), 3), Vec::<usize>::new());
    assert_eq!(rank_by_similarity(&vec![OrderKey::Unordered], 1), vec![0]);
    assert_eq!(rank_by_similarity(&keys(&[-3, -1, -2, -1]), 3), vec![1, 3, 2]);
}

#[test]
fn rank_matches_stable_sort() {
    let ks = keys(&[3, 7, 3, 3, 9, 7, 0, -2, 9]);
    let mut expected: Vec<usize> = (0..ks.len()).collect();
    let value = |i: usize| match ks[i] {
        OrderKey::Ordered(v) => v,
        OrderKey::Unordered => 0,
    };
    expected.sort_by(|a, b| value(*b).cmp(&value(*a)));
    for k in 0..=ks.len() + 1 {
        let mut e = expected.clone();
        e.truncate(k);
        assert_eq!(rank_by_similarity(&ks, k), e);
    }
}

#[test]
fn ranking_prefix_law() {
    let ks = keys(&[4, 8, 8, 2, 6]);
    let all = rank_by_similarity(&ks, 5);
    for k in 0..=5 {
        assert_eq!(rank_by_similarity(&ks, k)[..], all[..k]);
    }
}

#[test]
fn successor_id_steps_forward() {
    assert_eq!(successor_id("3", 7), Some("10".to_string()));
    assert_eq!(successor_id("-5", 2), Some("-3".to_string()));
    assert_eq!(successor_id("abc", 1), None);
    assert_eq!(successor_id("", 1), None);
    assert_eq!(successor_id("2147483647", 1), None);
    assert_eq!(successor_id("-2147483648", -1), None);
    assert_eq!(successor_id("2147483640", 7), Some("2147483647".to_string()));
}

#[test]
fn successor_of_window_name_law() {
    for i in [0i32, 1, 25, 999] {
        for off in [0i32, 1, 7] {
            assert_eq!(successor_id(&i.to_string(), off), Some((i + off).to_string()));
        }
    }
}

#[test]
fn prediction_tail_takes_last_entries() {
    assert_eq!(prediction_tail(&vec![1u8, 0, 1, 1], 2), vec![1, 1]);
    assert_eq!(prediction_tail(&vec![1u8, 0, 1, 1], 0), Vec::<u8>::new());
    assert_eq!(prediction_tail(&vec![1u8, 0, 1, 1], 4), vec![1, 0, 1, 1]);
    assert_eq!(prediction_tail(&vec![0.0f64, 1.0], 1), vec![1.0]);
}

fn quiet() -> MarketSignals {
    MarketSignals {
        more_ones: false,
        slope_above_threshold: false,
        above_purchase: false,
        bull_exit: false,
        bear_exit: false,
        accuracy_below_threshold: false,
        accuracy_above_threshold: true,
        full_accuracy_above_threshold: true,
    }
}

#[test]
fn action_labels() {
    assert_eq!(action_label(TradeAction::Buy), "buy");
    assert_eq!(action_label(TradeAction::Sell), "sell");
    assert_eq!(action_label(TradeAction::Hold), "hold");
}

#[test]
fn first_buy_is_carried_out() {
    let state = initial_state();
    let s = MarketSignals { more_ones: true, slope_above_threshold: true, ..quiet() };
    let (next, d) = decide_trade(&state, &s);
    assert_eq!(d.proposed, TradeAction::Buy);
    assert_eq!(d.exit, ExitReason::NoExit);
    assert!(d.executes);
    assert!(d.opens_position);
    assert_eq!(d.action, TradeAction::Buy);
    assert_eq!(d.recorded, TradeAction::Buy);
    assert_eq!(next, TraderState { last_action: Some(TradeAction::Buy), trades_count: 2 });
}

#[test]
fn sell_above_purchase_price() {
    let state = TraderState { last_action: Some(TradeAction::Buy), trades_count: 2 };
    let s = MarketSignals { above_purchase: true, ..quiet() };
    let (next, d) = decide_trade(&state, &s);
    assert_eq!(d.action, TradeAction::Sell);
    assert!(d.executes);
    assert!(!d.opens_position);
    assert_eq!(next, TraderState { last_action: Some(TradeAction::Sell), trades_count: 3 });
}

#[test]
fn low_similarity_holds() {
    let state = initial_state();
    let s = MarketSignals {
        more_ones: true,
        slope_above_threshold: true,
        accuracy_above_threshold: false,
        ..quiet()
    };
    let (next, d) = decide_trade(&state, &s);
    assert_eq!(d.proposed, TradeAction::Buy);
    assert!(!d.executes);
    assert_eq!(d.recorded, TradeAction::Hold);
    assert_eq!(next, state);
}

#[test]
fn bull_and_bear_exits() {
    let state = TraderState { last_action: Some(TradeAction::Buy), trades_count: 4 };
    let bull = MarketSignals {
        more_ones: true,
        slope_above_threshold: true,
        bull_exit: true,
        accuracy_below_threshold: true,
        accuracy_above_threshold: false,
        ..quiet()
    };
    let (next, d) = decide_trade(&state, &bull);
    assert_eq!(d.proposed, TradeAction::Buy);
    assert_eq!(d.exit, ExitReason::Bull);
    assert_eq!(d.action, TradeAction::Sell);
    assert!(d.executes);
    assert!(!d.opens_position);
    assert_eq!(next, TraderState { last_action: Some(TradeAction::Sell), trades_count: 5 });

    let bear = MarketSignals { bear_exit: true, ..MarketSignals { bull_exit: false, ..bull } };
    let (_, d) = decide_trade(&state, &bear);
    assert_eq!(d.exit, ExitReason::Bear);
    assert_eq!(d.recorded, TradeAction::Sell);

    // No exit without a previous buy.
    let (_, d) = decide_trade(&initial_state(), &bull);
    assert_eq!(d.exit, ExitReason::NoExit);
    // An exit needs a threshold below full similarity.
    let strict = MarketSignals { full_accuracy_above_threshold: false, ..bull };
    let (n, d) = decide_trade(&state, &strict);
    assert!(!d.executes);
    assert_eq!(n, state);
}

#[test]
fn buy_needs_both_indicators_law() {
    let state = initial_state();
    for (more, slope) in [(false, false), (true, false), (false, true)] {
        let s = MarketSignals { more_ones: more, slope_above_threshold: slope, ..quiet() };
        let (_, d) = decide_trade(&state, &s);
        assert_ne!(d.action, TradeAction::Buy);
    }
}

#[test]
fn no_repeated_trade_law() {
    let s = MarketSignals { more_ones: true, slope_above_threshold: true, ..quiet() };
    let (state, d1) = decide_trade(&initial_state(), &s);
    assert!(d1.executes);
    let (again, d2) = decide_trade(&state, &s);
    assert!(!d2.executes);
    assert_eq!(d2.recorded, TradeAction::Hold);
    assert_eq!(again, state);
}

#[test]
fn quiet_tick_and_counter_laws() {
    let state = TraderState { last_action: Some(TradeAction::Hold), trades_count: 9 };
    let (next, d) = decide_trade(&state, &quiet());
    assert!(!d.executes);
    assert_eq!(next, state);
    let s = MarketSignals { above_purchase: true, ..quiet() };
    let (next, _) = decide_trade(&state, &s);
    assert!(next.trades_count >= 9 && next.trades_count <= 11);
}

#[test]
fn exit_only_after_buy_law() {
    for last in [None, Some(TradeAction::Sell), Some(TradeAction::Hold)] {
        let state = TraderState { last_action: last, trades_count: 0 };
        let s = MarketSignals {
            bull_exit: true,
            bear_exit: true,
            accuracy_below_threshold: true,
            ..quiet()
        };
        let (_, d) = decide_trade(&state, &s);
        assert_eq!(d.exit, ExitReason::NoExit);
    }
}

#[test]
fn decision_ignores_counter_law() {
    let s = MarketSignals { above_purchase: true, ..quiet() };
    let a = TraderState { last_action: Some(TradeAction::Buy), trades_count: 0 };
    let b = TraderState { last_action: Some(TradeAction::Buy), trades_count: 1000 };
    assert_eq!(decide_trade(&a, &s).1, decide_trade(&b, &s).1);
    // At the top of the counter, a tick that trades nothing is still decided.
    let top = TraderState { last_action: Some(TradeAction::Hold), trades_count: i32::MAX };
    let (next, d) = decide_trade(&top, &quiet());
    assert!(!d.executes);
    assert_eq!(next, top);
}
