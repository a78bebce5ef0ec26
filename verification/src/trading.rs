use vstd::prelude::*;

verus! {

/// What the bot does on a tick.
#[derive(Clone, Copy, Debug, PartialEq, Eq, Structural)]
pub enum TradeAction {
    Buy,
    Sell,
    Hold,
}

/// Why a held position is closed early.
#[derive(Clone, Copy, Debug, PartialEq, Eq, Structural)]
pub enum ExitReason {
    NoExit,
    /// The price rose 15% over the purchase price.
    Bull,
    /// The price fell 15% under the purchase price.
    Bear,
}

/// The comparisons that one new price tick yields (each one a comparison of
/// readings that the caller makes).
#[derive(Clone, Copy, Debug)]
pub struct MarketSignals {
    /// The predicted movements hold at least as many rises as falls.
    pub more_ones: bool,
    /// The recent slope of prices is above the slope threshold.
    pub slope_above_threshold: bool,
    /// The price is above the last purchase price.
    pub above_purchase: bool,
    /// The price is above 1.15 times the last purchase price.
    pub bull_exit: bool,
    /// The price is below 0.85 times the last purchase price.
    pub bear_exit: bool,
    /// The similarity of the prediction is below the threshold.
    pub accuracy_below_threshold: bool,
    /// The similarity of the prediction is above the threshold.
    pub accuracy_above_threshold: bool,
    /// A similarity of 1.0 is above the threshold.
    pub full_accuracy_above_threshold: bool,
}

/// What the bot remembers between ticks.
#[derive(Clone, Copy, Debug, PartialEq, Eq, Structural)]
pub struct TraderState {
    /// The last action that was carried out, if any.
    pub last_action: Option<TradeAction>,
    /// The trade counter shown in the logs.
    pub trades_count: i32,
}

/// The outcome of one tick.
#[derive(Clone, Copy, Debug, PartialEq, Eq, Structural)]
pub struct TradeDecision {
    /// The action the indicators propose, before any exit.
    pub proposed: TradeAction,
    /// Whether a held position is closed early, and why.
    pub exit: ExitReason,
    /// Whether the decided action is carried out now.
    pub executes: bool,
    /// Whether a carried-out action books a purchase (else it clears the
    /// purchase price).
    pub opens_position: bool,
    /// The action decided on this tick, after any exit.
    pub action: TradeAction,
    /// The action written to the action log: the decided action when it is
    /// carried out, else hold.
    pub recorded: TradeAction,
}

/// The action the indicators propose: buy on a predicted rise with a rising
/// slope, else sell when the price is above the purchase price, else hold.
pub open spec fn proposed_action(s: MarketSignals) -> TradeAction {
    if s.more_ones && s.slope_above_threshold {
        TradeAction::Buy
    } else if s.above_purchase {
        TradeAction::Sell
    } else {
        TradeAction::Hold
    }
}

/// An early exit happens after a buy, when the prediction is not trusted and
/// the price moved 15% away from the purchase price.
pub open spec fn exit_reason(state: TraderState, s: MarketSignals) -> ExitReason {
    if s.bull_exit && s.accuracy_below_threshold && state.last_action == Some(TradeAction::Buy) {
        ExitReason::Bull
    } else if s.bear_exit && s.accuracy_below_threshold && state.last_action == Some(
        TradeAction::Buy,
    ) {
        ExitReason::Bear
    } else {
        ExitReason::NoExit
    }
}

/// The action decided on: sell on an exit, else the proposed one.
pub open spec fn decided_action(state: TraderState, s: MarketSignals) -> TradeAction {
    if exit_reason(state, s) != ExitReason::NoExit {
        TradeAction::Sell
    } else {
        proposed_action(s)
    }
}

/// Whether the decision is trusted: an exit counts as full similarity.
pub open spec fn confident(state: TraderState, s: MarketSignals) -> bool {
    if exit_reason(state, s) != ExitReason::NoExit {
        s.full_accuracy_above_threshold
    } else {
        s.accuracy_above_threshold
    }
}

/// An action is carried out when it differs from the last one carried out
/// and the decision is trusted.
pub open spec fn executes(state: TraderState, s: MarketSignals) -> bool {
    state.last_action != Some(decided_action(state, s)) && confident(state, s)
}

/// Whether a carried-out action books a purchase: the prediction rose and no
/// exit happened.
pub open spec fn opens_position(state: TraderState, s: MarketSignals) -> bool {
    s.more_ones && exit_reason(state, s) == ExitReason::NoExit
}

/// The decision of a tick does not depend on the trade counter.
pub proof fn law_decision_ignores_counter(state: TraderState, s: MarketSignals, count: i32)
    ensures
        decision(TraderState { trades_count: count, ..state }, s) == decision(state, s),
{
}

/// The decision of one tick.
pub open spec fn decision(state: TraderState, s: MarketSignals) -> TradeDecision {
    TradeDecision {
        proposed: proposed_action(s),
        exit: exit_reason(state, s),
        executes: executes(state, s),
        opens_position: opens_position(state, s),
        action: decided_action(state, s),
        recorded: if executes(state, s) {
            decided_action(state, s)
        } else {
            TradeAction::Hold
        },
    }
}

/// The state after one tick: a carried-out action becomes the last action
/// and counts as two trades when it books a purchase, else as one.
pub open spec fn next_state(state: TraderState, s: MarketSignals) -> TraderState {
    if executes(state, s) {
        TraderState {
            last_action: Some(decided_action(state, s)),
            trades_count: (state.trades_count + if opens_position(state, s) {
                2int
            } else {
                1int
            }) as i32,
        }
    } else {
        state
    }
}

/// The state before the first tick: nothing carried out, no trades.
pub fn initial_state() -> (r: TraderState)
    ensures
        r.last_action is None,
        r.trades_count == 0,
{
    TraderState { last_action: None, trades_count: 0 }
}

/// The name an action carries in the logs: "buy", "sell" or "hold".
pub open spec fn action_name(a: TradeAction) -> Seq<char> {
    match a {
        TradeAction::Buy => seq!['b', 'u', 'y'],
        TradeAction::Sell => seq!['s', 'e', 'l', 'l'],
        TradeAction::Hold => seq!['h', 'o', 'l', 'd'],
    }
}

/// The name of an action, as the action log writes it.
pub fn action_label(a: TradeAction) -> (r: String)
    ensures
        r@ == action_name(a),
{
    match a {
        TradeAction::Buy => {
            proof { reveal_strlit("buy"); }
            String::from_str("buy")
        },
        TradeAction::Sell => {
            proof { reveal_strlit("sell"); }
            String::from_str("sell")
        },
        TradeAction::Hold => {
            proof { reveal_strlit("hold"); }
            String::from_str("hold")
        },
    }
}

fn same_action(a: Option<TradeAction>, b: TradeAction) -> (r: bool)
    ensures
        r == (a == Some(b)),
{
    match (a, b) {
        (Some(TradeAction::Buy), TradeAction::Buy) => true,
        (Some(TradeAction::Sell), TradeAction::Sell) => true,
        (Some(TradeAction::Hold), TradeAction::Hold) => true,
        _ => false,
    }
}

/// Decides one tick of trading from the signals of a new price.
pub fn decide_trade(state: &TraderState, s: &MarketSignals) -> (r: (TraderState, TradeDecision))
    requires
        executes(*state, *s) ==> state.trades_count + (if opens_position(*state, *s) {
            2int
        } else {
            1int
        }) <= i32::MAX,
    ensures
        r.0 == next_state(*state, *s),
        r.1 == decision(*state, *s),
{
    let proposed = if s.more_ones && s.slope_above_threshold {
        TradeAction::Buy
    } else if s.above_purchase {
        TradeAction::Sell
    } else {
        TradeAction::Hold
    };
    let after_buy = same_action(state.last_action, TradeAction::Buy);
    let exit = if s.bull_exit && s.accuracy_below_threshold && after_buy {
        ExitReason::Bull
    } else if s.bear_exit && s.accuracy_below_threshold && after_buy {
        ExitReason::Bear
    } else {
        ExitReason::NoExit
    };
    let exiting = match exit {
        ExitReason::NoExit => false,
        _ => true,
    };
    let action = if exiting {
        TradeAction::Sell
    } else {
        proposed
    };
    let buy_sell = s.more_ones && !exiting;
    let trusted = if exiting {
        s.full_accuracy_above_threshold
    } else {
        s.accuracy_above_threshold
    };
    let carried_out = !same_action(state.last_action, action) && trusted;
    let next = if carried_out {
        TraderState {
            last_action: Some(action),
            trades_count: state.trades_count + if buy_sell {
                2
            } else {
                1
            },
        }
    } else {
        *state
    };
    let decision = TradeDecision {
        proposed,
        exit,
        executes: carried_out,
        opens_position: buy_sell,
        action,
        recorded: if carried_out {
            action
        } else {
            TradeAction::Hold
        },
    };
    (next, decision)
}

/// The bot only decides to buy when both indicators agree: the prediction
/// rises and the slope is above its threshold.
pub proof fn law_buy_needs_both_indicators(state: TraderState, s: MarketSignals)
    ensures
        decided_action(state, s) == TradeAction::Buy ==> s.more_ones && s.slope_above_threshold,
{
}

/// An early exit only closes a position that was bought, and it sells.
pub proof fn law_exit_only_after_buy(state: TraderState, s: MarketSignals)
    ensures
        exit_reason(state, s) != ExitReason::NoExit ==> state.last_action == Some(TradeAction::Buy)
            && decided_action(state, s) == TradeAction::Sell && !opens_position(state, s),
{
}

/// A tick without a trade logs hold and leaves the state as it was.
pub proof fn law_quiet_tick(state: TraderState, s: MarketSignals)
    ensures
        !executes(state, s) ==> next_state(state, s) == state && decision(state, s).recorded
            == TradeAction::Hold,
{
}

/// Two trades in a row are never the same action: a trade is only made when
/// it differs from the last trade made.
pub proof fn law_no_repeated_trade(state: TraderState, first: MarketSignals, second: MarketSignals)
    ensures
        executes(state, first) && executes(next_state(state, first), second) ==> decided_action(
            state,
            first,
        ) != decided_action(next_state(state, first), second),
{
}

/// The trade counter never goes down, and goes up by at most two a tick.
pub proof fn law_trades_count_grows(state: TraderState, s: MarketSignals)
    requires
        state.trades_count <= i32::MAX - 2,
    ensures
        state.trades_count <= next_state(state, s).trades_count <= state.trades_count + 2,
{
}

/// A buy signal (a predicted rise with the slope above its threshold) always
/// proposes to buy, whatever the price against the purchase price; selling
/// is proposed only without a buy signal and with the price above the
/// purchase price; otherwise the proposal is to hold.
pub proof fn law_buy_signal_proposes_buy(state: TraderState, s: MarketSignals)
    ensures
        s.more_ones && s.slope_above_threshold ==> decision(state, s).proposed == TradeAction::Buy,
        decision(state, s).proposed == TradeAction::Sell <==> !(s.more_ones
            && s.slope_above_threshold) && s.above_purchase,
        decision(state, s).proposed == TradeAction::Hold <==> !(s.more_ones
            && s.slope_above_threshold) && !s.above_purchase,
{
}

/// A trusted prediction is never overridden: when the similarity is not below
/// the threshold there is no early exit and the decided action is the
/// proposed one.
pub proof fn law_trusted_prediction_has_no_exit(state: TraderState, s: MarketSignals)
    ensures
        !s.accuracy_below_threshold ==> decision(state, s).exit == ExitReason::NoExit
            && decision(state, s).action == decision(state, s).proposed,
{
}

/// When an early exit happens: a bull exit exactly when, after a buy, the
/// prediction is not trusted and the price rose 15%; a bear exit exactly when,
/// after a buy, the prediction is not trusted, the price fell 15% and no bull
/// exit applies. Without an exit the decided action is the proposed one; an
/// exit sells and books no purchase.
pub proof fn law_exit_conditions(state: TraderState, s: MarketSignals)
    ensures
        decision(state, s).exit == ExitReason::Bull <==> state.last_action == Some(TradeAction::Buy)
            && s.accuracy_below_threshold && s.bull_exit,
        decision(state, s).exit == ExitReason::Bear <==> state.last_action == Some(TradeAction::Buy)
            && s.accuracy_below_threshold && s.bear_exit && !s.bull_exit,
        decision(state, s).exit == ExitReason::NoExit ==> decision(state, s).action == decision(
            state,
            s,
        ).proposed,
        decision(state, s).exit != ExitReason::NoExit ==> decision(state, s).action
            == TradeAction::Sell && !decision(state, s).opens_position,
{
}

/// A decided action is carried out exactly when it differs from the last
/// action carried out and the decision is trusted (after an exit: when full
/// similarity clears the threshold; else when the prediction's similarity
/// clears it). A carried-out action books a purchase exactly when the
/// prediction rose and no exit happened.
pub proof fn law_when_a_trade_is_made(state: TraderState, s: MarketSignals)
    ensures
        decision(state, s).executes <==> state.last_action != Some(decision(state, s).action) && (
        if decision(state, s).exit == ExitReason::NoExit {
            s.accuracy_above_threshold
        } else {
            s.full_accuracy_above_threshold
        }),
        decision(state, s).opens_position <==> s.more_ones && decision(state, s).exit
            == ExitReason::NoExit,
        decision(state, s).recorded == if decision(state, s).executes {
            decision(state, s).action
        } else {
            TradeAction::Hold
        },
{
}

/// The state after a tick: a trade makes its action the last one and adds
/// two to the counter when it books a purchase, one otherwise; without a
/// trade nothing changes.
pub proof fn law_state_after_tick(state: TraderState, s: MarketSignals)
    requires
        state.trades_count <= i32::MAX - 2,
    ensures
        decision(state, s).executes ==> next_state(state, s).last_action == Some(
            decision(state, s).action,
        ) && next_state(state, s).trades_count == state.trades_count + if decision(
            state,
            s,
        ).opens_position {
            2int
        } else {
            1int
        },
        !decision(state, s).executes ==> next_state(state, s) == state,
{
}

/// After a sell, a buy signal with a trusted prediction buys again: selling
/// never blocks a later buy.
pub proof fn law_buy_after_sell(state: TraderState, s: MarketSignals)
    ensures
        state.last_action == Some(TradeAction::Sell) && s.more_ones && s.slope_above_threshold
            && s.accuracy_above_threshold ==> decision(state, s).action == TradeAction::Buy
            && decision(state, s).executes && decision(state, s).opens_position,
{
}

} // verus!
