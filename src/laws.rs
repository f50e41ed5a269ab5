use vstd::prelude::*;
use crate::game::{Action, GameInfo, MAX_NUM_ACTIONS, MAX_PLAYERS};
use crate::state::GameState;

verus! {

/// The transition is a function: from one state and one action, every state
/// that the transition relation admits is the same state.
pub proof fn lemma_transition_deterministic(
    s: GameState,
    info: GameInfo,
    a: Action,
    t1: GameState,
    t2: GameState,
)
    requires
        s.wf(&info),
        s.steps_to(&info, a, t1),
        s.steps_to(&info, a, t2),
    ensures
        t1 == t2,
{
    let r = s.round as int;
    assert(t1.spent =~= t2.spent);
    assert(t1.players_folded =~= t2.players_folded);
    assert(t1.num_actions =~= t2.num_actions);
    assert(t1.action[r] =~= t2.action[r]);
    assert(t1.acting_player[r] =~= t2.acting_player[r]);
    assert(t1.sum_round_spent[r] =~= t2.sum_round_spent[r]);
    assert(t1.action =~= t2.action);
    assert(t1.acting_player =~= t2.acting_player);
    assert(t1.sum_round_spent =~= t2.sum_round_spent);
    t1.lemma_counts_same(&t2, r, info.n());
    t1.lemma_counts_same(&t2, r, s.num_actions[r] + 1);
    t1.lemma_seek_same(&t2, info.n(), (s.active_player + 1) % info.n(), 0);
    if r + 1 < info.rounds() {
        t1.lemma_seek_same(&t2, info.n(), info.first_player@[r + 1] as int, 0);
    }
}

/// A player who is all-in cannot fold: the fold is illegal and the
/// transition refuses it.
pub proof fn lemma_all_in_cannot_fold(s: GameState, info: GameInfo)
    requires
        s.wf(&info),
        s.spent[s.active_player as int] == s.stack_player[s.active_player as int],
    ensures
        !s.valid_action(&info, Action::Fold),
        !s.outcome_ok(&info, Action::Fold),
{
}

/// A transition succeeds exactly when the action is legal, the hand is not
/// over and the round's log has room.
pub proof fn lemma_legality_closure(s: GameState, info: GameInfo, a: Action)
    requires
        s.wf(&info),
        !s.finished,
        s.num_actions[s.round as int] < MAX_NUM_ACTIONS,
    ensures
        s.outcome_ok(&info, a) <==> s.valid_action(&info, a),
{
}

/// When the action leaves at least two players in the hand and every player
/// who can still act has matched the bet, the round index grows by exactly one
/// (and play goes on), or the hand is finished when no later round remains or
/// fewer than two players can still act.
pub proof fn lemma_round_advance(s: GameState, info: GameInfo, a: Action, t: GameState)
    requires
        s.wf(&info),
        s.outcome_ok(&info, a),
        s.steps_to(&info, a, t),
        t.folded_upto(info.n()) + 1 < info.n(),
        t.called_in(s.round as int, s.num_actions[s.round as int] + 1) >= t.active_upto(info.n()),
    ensures
        s.round + 1 < info.num_rounds && t.active_upto(info.n()) > 1 ==> t.round == s.round + 1
            && !t.finished,
        !(s.round + 1 < info.num_rounds && t.active_upto(info.n()) > 1) ==> t.finished,
{
}

/// Sum of the payouts of seats `0..k`.
pub open spec fn payout_sum(s: GameState, info: GameInfo, ranks: Seq<u32>, k: int) -> int
    decreases k,
{
    if k <= 0 {
        0
    } else {
        payout_sum(s, info, ranks, k - 1) + s.payout(&info, ranks, k - 1)
    }
}

proof fn lemma_payout_sum_uncontested(s: GameState, info: GameInfo, ranks: Seq<u32>, k: int)
    requires
        s.wf(&info),
        s.folded_upto(info.n()) + 1 == info.n(),
        0 <= k <= info.n(),
    ensures
        payout_sum(s, info, ranks, k) == (k - s.folded_upto(k)) * s.spent_upto(info.n())
            - s.spent_upto(k),
    decreases k,
{
    if k > 0 {
        lemma_payout_sum_uncontested(s, info, ranks, k - 1);
        let t = s.spent_upto(info.n());
        let m = k - 1 - s.folded_upto(k - 1);
        assert((m + 1) * t == m * t + t) by (nonlinear_arith);
        assert(payout_sum(s, info, ranks, k) == payout_sum(s, info, ranks, k - 1) + s.payout(&info, ranks, k - 1));
        assert(payout_sum(s, info, ranks, k - 1) == m * t - s.spent_upto(k - 1));
        assert(s.spent_upto(k) == s.spent_upto(k - 1) + s.spent[k - 1]);
        if s.players_folded[k - 1] {
            assert(s.folded_upto(k) == s.folded_upto(k - 1) + 1);
            assert(s.payout(&info, ranks, k - 1) == -(s.spent[k - 1] as int));
            assert(k - s.folded_upto(k) == m);
            assert((k - s.folded_upto(k)) * t == m * t);
        } else {
            assert(s.folded_upto(k) == s.folded_upto(k - 1));
            assert(s.payout(&info, ranks, k - 1) == t - s.spent[k - 1]);
            assert(k - s.folded_upto(k) == m + 1);
            assert((k - s.folded_upto(k)) * t == (m + 1) * t);
        }
    } else {
        assert(k - s.folded_upto(k) == 0);
        assert(0 * s.spent_upto(info.n()) == 0);
    }
}

/// Chips are conserved when the hand ends with a single player left: the
/// payouts of all players sum to zero.
pub proof fn lemma_uncontested_conservation(s: GameState, info: GameInfo, ranks: Seq<u32>)
    requires
        s.wf(&info),
        s.folded_upto(info.n()) + 1 == info.n(),
    ensures
        payout_sum(s, info, ranks, info.n()) == 0,
{
    lemma_payout_sum_uncontested(s, info, ranks, info.n());
    let f = s.folded_upto(info.n());
    let t = s.spent_upto(info.n());
    assert((info.n() - f) * t == t) by (nonlinear_arith)
        requires
            info.n() - f == 1,
    ;
}

/// Every pot layer above `floor` has a winner and splits evenly among its winners.
pub open spec fn layers_exact(s: GameState, n: int, ranks: Seq<u32>, floor: int) -> bool
    decreases u32::MAX as int + 1 - floor,
{
    let top = s.layer_top(floor, n);
    if floor < 0 || top <= floor || top > u32::MAX {
        true
    } else {
        let size = top - floor;
        let k = s.contest_count(floor, n);
        let best = s.best_rank(ranks, floor, n);
        let w = s.winner_count(ranks, floor, best, n);
        &&& w >= 1
        &&& (size * (k - w)) % w == 0
        &&& layers_exact(s, n, ranks, top)
    }
}

/// Player `p`'s result over the pot layers above `floor`.
pub open spec fn result_above(s: GameState, n: int, ranks: Seq<u32>, p: int, floor: int) -> int {
    if s.players_folded[p] {
        if s.spent[p] > floor {
            floor - s.spent[p]
        } else {
            0
        }
    } else {
        s.layered_payout(n, ranks, p, floor)
    }
}

/// Sum over seats `0..j` of their results above `floor`.
pub open spec fn results_above(s: GameState, n: int, ranks: Seq<u32>, floor: int, j: int) -> int
    decreases j,
{
    if j <= 0 {
        0
    } else {
        results_above(s, n, ranks, floor, j - 1) + result_above(s, n, ranks, j - 1, floor)
    }
}

/// Player `p`'s gain in the single layer from `floor` to `top`.
pub open spec fn layer_gain(s: GameState, n: int, ranks: Seq<u32>, p: int, floor: int) -> int {
    let top = s.layer_top(floor, n);
    let size = top - floor;
    let k = s.contest_count(floor, n);
    let best = s.best_rank(ranks, floor, n);
    let w = s.winner_count(ranks, floor, best, n);
    if !s.contests(floor, p) {
        0
    } else if !s.players_folded[p] && ranks[p] as int == best {
        size * (k - w) / w
    } else {
        -size
    }
}

pub open spec fn layer_gains(s: GameState, n: int, ranks: Seq<u32>, floor: int, j: int) -> int
    decreases j,
{
    if j <= 0 {
        0
    } else {
        layer_gains(s, n, ranks, floor, j - 1) + layer_gain(s, n, ranks, j - 1, floor)
    }
}

proof fn lemma_layer_gains(s: GameState, n: int, ranks: Seq<u32>, floor: int, j: int)
    requires
        0 <= j,
    ensures
        layer_gains(s, n, ranks, floor, j) == s.winner_count(
            ranks,
            floor,
            s.best_rank(ranks, floor, n),
            j,
        ) * ((s.layer_top(floor, n) - floor) * (s.contest_count(floor, n) - s.winner_count(
            ranks,
            floor,
            s.best_rank(ranks, floor, n),
            n,
        )) / s.winner_count(ranks, floor, s.best_rank(ranks, floor, n), n)) - (s.contest_count(
            floor,
            j,
        ) - s.winner_count(ranks, floor, s.best_rank(ranks, floor, n), j)) * (s.layer_top(
            floor,
            n,
        ) - floor),
    decreases j,
{
    let best = s.best_rank(ranks, floor, n);
    let size = s.layer_top(floor, n) - floor;
    let share = size * (s.contest_count(floor, n) - s.winner_count(ranks, floor, best, n))
        / s.winner_count(ranks, floor, best, n);
    let w1 = s.winner_count(ranks, floor, best, j);
    let c1 = s.contest_count(floor, j);
    if j > 0 {
        lemma_layer_gains(s, n, ranks, floor, j - 1);
        let w0 = s.winner_count(ranks, floor, best, j - 1);
        let c0 = s.contest_count(floor, j - 1);
        let p = j - 1;
        let g = layer_gain(s, n, ranks, p, floor);
        assert(layer_gains(s, n, ranks, floor, j - 1) == w0 * share - (c0 - w0) * size);
        if !s.contests(floor, p) {
            assert(w1 == w0 && c1 == c0 && g == 0);
        } else if !s.players_folded[p] && ranks[p] as int == best {
            assert(w1 == w0 + 1 && c1 == c0 + 1 && g == share);
            assert(w1 * share - (c1 - w1) * size == w0 * share - (c0 - w0) * size + share)
                by (nonlinear_arith)
                requires
                    w1 == w0 + 1,
                    c1 == c0 + 1,
            ;
        } else {
            assert(w1 == w0 && c1 == c0 + 1 && g == -size);
            assert(w1 * share - (c1 - w1) * size == w0 * share - (c0 - w0) * size - size)
                by (nonlinear_arith)
                requires
                    w1 == w0,
                    c1 == c0 + 1,
            ;
        }
    } else {
        assert(w1 * share - (c1 - w1) * size == 0) by (nonlinear_arith)
            requires
                w1 == 0,
                c1 == 0,
        ;
    }
}

proof fn lemma_results_split(s: GameState, n: int, ranks: Seq<u32>, floor: int, j: int)
    requires
        0 <= floor <= u32::MAX,
        0 <= j <= n,
        n <= MAX_PLAYERS,
        s.layer_top(floor, n) <= u32::MAX,
    ensures
        results_above(s, n, ranks, floor, j) == layer_gains(s, n, ranks, floor, j) + results_above(
            s,
            n,
            ranks,
            s.layer_top(floor, n),
            j,
        ),
    decreases j,
{
    if j > 0 {
        lemma_results_split(s, n, ranks, floor, j - 1);
        let p = j - 1;
        let top = s.layer_top(floor, n);
        if s.contests(floor, p) {
            s.lemma_layer_top_pub(floor, n, p);
        } else {
            s.lemma_layer_top_above_pub(floor, n);
            if !s.players_folded[p] {
                assert(s.layered_payout(n, ranks, p, floor) == 0);
                assert(s.layered_payout(n, ranks, p, top) == 0);
            }
        }
    }
}

proof fn lemma_results_empty(s: GameState, n: int, ranks: Seq<u32>, floor: int, j: int)
    requires
        0 <= j <= n,
        forall|p: int| 0 <= p < n ==> !#[trigger] s.contests(floor, p),
    ensures
        results_above(s, n, ranks, floor, j) == 0,
    decreases j,
{
    if j > 0 {
        lemma_results_empty(s, n, ranks, floor, j - 1);
        let p = j - 1;
        assert(!s.contests(floor, p));
        if !s.players_folded[p] {
            assert(s.layered_payout(n, ranks, p, floor) == 0);
        }
    }
}

proof fn lemma_results_zero(s: GameState, n: int, ranks: Seq<u32>, floor: int)
    requires
        0 <= floor <= u32::MAX,
        2 <= n <= MAX_PLAYERS,
        ranks.len() == n,
        layers_exact(s, n, ranks, floor),
    ensures
        results_above(s, n, ranks, floor, n) == 0,
    decreases u32::MAX as int + 1 - floor,
{
    let top = s.layer_top(floor, n);
    s.lemma_layer_top_above_pub(floor, n);
    if top > u32::MAX {
        assert forall|p: int| 0 <= p < n implies !#[trigger] s.contests(floor, p) by {
            if s.contests(floor, p) {
                s.lemma_layer_top_pub(floor, n, p);
            }
        }
        lemma_results_empty(s, n, ranks, floor, n);
    } else {
        lemma_results_split(s, n, ranks, floor, n);
        lemma_layer_gains(s, n, ranks, floor, n);
        lemma_results_zero(s, n, ranks, top);
        let best = s.best_rank(ranks, floor, n);
        let w = s.winner_count(ranks, floor, best, n);
        let k = s.contest_count(floor, n);
        let size = top - floor;
        let share = size * (k - w) / w;
        assert(w * share == size * (k - w)) by (nonlinear_arith)
            requires
                w >= 1,
                (size * (k - w)) % w == 0,
                share == size * (k - w) / w,
        ;
        assert((k - w) * size == size * (k - w)) by (nonlinear_arith);
    }
}

proof fn lemma_payout_sum_layers(s: GameState, info: GameInfo, ranks: Seq<u32>, j: int)
    requires
        s.wf(&info),
        s.folded_upto(info.n()) + 1 != info.n(),
        0 <= j <= info.n(),
    ensures
        payout_sum(s, info, ranks, j) == results_above(s, info.n(), ranks, 0, j),
    decreases j,
{
    if j > 0 {
        lemma_payout_sum_layers(s, info, ranks, j - 1);
    }
}

/// Chips are conserved at a showdown whose pot layers each split evenly among
/// their winners: the payouts of all players sum to zero.
pub proof fn lemma_showdown_conservation(s: GameState, info: GameInfo, ranks: Seq<u32>)
    requires
        s.wf(&info),
        ranks.len() == info.n(),
        s.folded_upto(info.n()) + 1 != info.n(),
        layers_exact(s, info.n(), ranks, 0),
    ensures
        payout_sum(s, info, ranks, info.n()) == 0,
{
    lemma_payout_sum_layers(s, info, ranks, info.n());
    lemma_results_zero(s, info.n(), ranks, 0);
}

} // verus!
