use vstd::prelude::*;
use crate::game::{Action, BettingType, GameInfo, PlayerId, MAX_NUM_ACTIONS, MAX_PLAYERS, MAX_ROUNDS};

verus! {

/// Why a proposed action was not applied.
#[derive(Clone, Copy, Debug, PartialEq, Eq, Structural)]
pub enum TransitionError {
    /// The hand is already over.
    Finished,
    /// The current round's action log is full.
    ActionLogFull,
    /// The action is not legal in this state.
    InvalidAction,
}

/// The state of one poker hand: a plain value, copied on every transition.
#[derive(Clone, Copy, Debug, PartialEq, Eq)]
pub struct GameState {
    pub hand_id: u32,
    /// Largest commitment so far: the amount a call matches
    pub max_spent: u32,
    /// Smallest legal raise-to amount under no-limit betting
    pub min_no_limit_raise_to: u32,
    /// Total amount put into the pot by each player
    pub spent: [u32; MAX_PLAYERS],
    /// Stack of each player: the all-in ceiling
    pub stack_player: [u32; MAX_PLAYERS],
    /// sum_round_spent[r][p] is the commitment of player p recorded in round r
    pub sum_round_spent: [[u32; MAX_PLAYERS]; MAX_ROUNDS],
    /// action[r][i] is the ith action of round r
    pub action: [[Action; MAX_NUM_ACTIONS]; MAX_ROUNDS],
    /// acting_player[r][i] is the player who made the ith action of round r
    pub acting_player: [[PlayerId; MAX_NUM_ACTIONS]; MAX_ROUNDS],
    /// Player whose turn it is
    pub active_player: PlayerId,
    /// num_actions[r] is the number of actions made in round r
    pub num_actions: [u8; MAX_ROUNDS],
    pub round: u8,
    pub finished: bool,
    /// Which players have folded
    pub players_folded: [bool; MAX_PLAYERS],
}

impl GameState {
    /// Neither folded nor all-in: the player can still act.
    pub open spec fn eligible(&self, p: int) -> bool {
        !self.players_folded[p] && self.spent[p] < self.stack_player[p]
    }

    /// Number of eligible players among seats `0..k`.
    pub open spec fn active_upto(&self, k: int) -> int
        decreases k,
    {
        if k <= 0 {
            0
        } else {
            self.active_upto(k - 1) + if self.eligible(k - 1) { 1int } else { 0 }
        }
    }

    /// Number of folded players among seats `0..k`.
    pub open spec fn folded_upto(&self, k: int) -> int
        decreases k,
    {
        if k <= 0 {
            0
        } else {
            self.folded_upto(k - 1) + if self.players_folded[k - 1] { 1int } else { 0 }
        }
    }

    /// Sum of the commitments of seats `0..k`.
    pub open spec fn spent_upto(&self, k: int) -> int
        decreases k,
    {
        if k <= 0 {
            0
        } else {
            self.spent_upto(k - 1) + self.spent[k - 1] as int
        }
    }

    /// Number of raises among the first `k` actions of round `r`.
    pub open spec fn raises_in(&self, r: int, k: int) -> int
        decreases k,
    {
        if k <= 0 {
            0
        } else {
            self.raises_in(r, k - 1) + if self.action[r][k - 1] is Raise { 1int } else { 0 }
        }
    }

    /// Players counted as having called in round `r`, scanning its actions
    /// `k-1, k-2, ...` back to the last raise: each call or raise by a player who
    /// is not all-in counts one, and the scan stops after the raise.
    pub open spec fn called_in(&self, r: int, k: int) -> int
        decreases k,
    {
        if k <= 0 {
            0
        } else {
            let p = self.acting_player[r][k - 1] as int;
            let c = if self.spent[p] < self.stack_player[p] { 1int } else { 0 };
            match self.action[r][k - 1] {
                Action::Raise(_) => c,
                Action::Call => c + self.called_in(r, k - 1),
                Action::Fold => self.called_in(r, k - 1),
            }
        }
    }

    /// The first eligible seat among `start + k, start + k + 1, ...` (cyclically,
    /// up to `n` seats from `start`); `start` when there is none.
    pub open spec fn seek_from(&self, n: int, start: int, k: int) -> int
        decreases n - k,
    {
        if k >= n {
            start
        } else if self.eligible((start + k) % n) {
            (start + k) % n
        } else {
            self.seek_from(n, start, k + 1)
        }
    }

    /// Raises made so far in the current round.
    pub open spec fn raises(&self) -> int {
        self.raises_in(self.round as int, self.num_actions[self.round as int] as int)
    }

    /// The invariant every reachable state keeps under ruleset `info`.
    pub open spec fn wf(&self, info: &GameInfo) -> bool {
        &&& info.wf()
        &&& self.round < info.num_rounds
        &&& self.active_player < info.num_players
        &&& forall|r: int| 0 <= r < MAX_ROUNDS ==> self.num_actions[r] <= MAX_NUM_ACTIONS
        &&& forall|r: int, i: int|
            0 <= r < MAX_ROUNDS && 0 <= i < self.num_actions[r] ==> self.acting_player[r][i]
                < info.num_players
        &&& forall|p: int| 0 <= p < info.n() ==> self.spent[p] <= self.stack_player[p]
        &&& info.betting_type == BettingType::NoLimit ==> self.max_spent
            <= self.min_no_limit_raise_to
    }

    /// The no-limit raise range `(min, max)`; `(0, 0)` when no raise is possible.
    pub open spec fn raise_range_spec(&self, info: &GameInfo) -> (int, int) {
        let r = self.round as int;
        if self.finished || self.raises() >= info.max_raises@[r] || self.num_actions[r]
            + info.n() > MAX_NUM_ACTIONS || self.active_upto(info.n()) <= 1
            || info.betting_type == BettingType::Limit {
            (0, 0)
        } else {
            let st = self.stack_player[self.active_player as int] as int;
            if st < self.min_no_limit_raise_to {
                if self.max_spent >= st {
                    (0, 0)
                } else {
                    (st, st)
                }
            } else {
                (self.min_no_limit_raise_to as int, st)
            }
        }
    }

    /// Whether `a` is legal for the active player.
    pub open spec fn valid_action(&self, info: &GameInfo, a: Action) -> bool {
        let p = self.active_player as int;
        let r = self.round as int;
        !self.finished && match a {
            Action::Fold => self.spent[p] != self.stack_player[p],
            Action::Call => true,
            Action::Raise(x) => self.raises() < info.max_raises@[r] && match info.betting_type {
                BettingType::Limit => x == info.raise_sizes@[r],
                BettingType::NoLimit => {
                    let (lo, hi) = self.raise_range_spec(info);
                    0 < lo && lo <= x && x <= hi
                },
            },
        }
    }

    /// The largest blind, but at least 1, over seats `0..k`.
    pub open spec fn blind_floor(info: &GameInfo, k: int) -> int
        decreases k,
    {
        if k <= 0 {
            1
        } else {
            let b = info.blinds@[k - 1] as int;
            let m = Self::blind_floor(info, k - 1);
            if b > m {
                b
            } else {
                m
            }
        }
    }


    /// The acting player's commitment after `a`.
    pub open spec fn spent_after(&self, info: &GameInfo, a: Action) -> int {
        let p = self.active_player as int;
        match a {
            Action::Fold => self.spent[p] as int,
            Action::Call => if self.max_spent > self.stack_player[p] {
                self.stack_player[p] as int
            } else {
                self.max_spent as int
            },
            Action::Raise(_) => self.max_after(info, a),
        }
    }

    /// The call target after `a`: a no-limit raise sets it to the raise-to
    /// amount, a limit raise adds the round's raise size, capped at the raiser's stack.
    pub open spec fn max_after(&self, info: &GameInfo, a: Action) -> int {
        let p = self.active_player as int;
        match a {
            Action::Raise(x) => match info.betting_type {
                BettingType::NoLimit => x as int,
                BettingType::Limit => {
                    let m = self.max_spent + info.raise_sizes@[self.round as int];
                    if m > self.stack_player[p] {
                        self.stack_player[p] as int
                    } else {
                        m
                    }
                },
            },
            _ => self.max_spent as int,
        }
    }

    /// The no-limit minimum raise-to after `a`: a raise to `x` lifts it to
    /// `2x - max_spent` (saturating at `u32::MAX`) when that is larger.
    pub open spec fn min_raise_after(&self, info: &GameInfo, a: Action) -> int {
        match a {
            Action::Raise(x) => if info.betting_type == BettingType::NoLimit {
                let c = Self::saturate(2 * x - self.max_spent);
                if c > self.min_no_limit_raise_to {
                    c
                } else {
                    self.min_no_limit_raise_to as int
                }
            } else {
                self.min_no_limit_raise_to as int
            },
            _ => self.min_no_limit_raise_to as int,
        }
    }

    pub open spec fn saturate(v: int) -> int {
        if v > u32::MAX {
            u32::MAX as int
        } else {
            v
        }
    }

    /// `t` is the state reached from this one when the active player takes the
    /// legal action `a`: the action is logged, its chips are moved, the turn
    /// passes on, and the hand ends or the round closes as the rules say.
    pub open spec fn steps_to(&self, info: &GameInfo, a: Action, t: GameState) -> bool {
        let p = self.active_player as int;
        let r = self.round as int;
        let k = self.num_actions[r] as int;
        let n = info.n();
        let v = self.spent_after(info, a);
        let done = t.folded_upto(n) + 1 >= n;
        let closes = !done && t.called_in(r, k + 1) >= t.active_upto(n);
        let showdown = closes && t.active_upto(n) <= 1;
        let next_round = closes && !showdown && r + 1 < info.rounds();
        &&& t.hand_id == self.hand_id
        &&& t.stack_player == self.stack_player
        &&& t.spent@ == self.spent@.update(p, v as u32)
        &&& t.players_folded@ == if a is Fold {
            self.players_folded@.update(p, true)
        } else {
            self.players_folded@
        }
        &&& forall|j: int| 0 <= j < MAX_ROUNDS && j != r ==> t.sum_round_spent[j] == self.sum_round_spent[j]
        &&& t.sum_round_spent[r]@ == if a is Fold {
            self.sum_round_spent[r]@
        } else {
            self.sum_round_spent[r]@.update(p, v as u32)
        }
        &&& forall|j: int| 0 <= j < MAX_ROUNDS && j != r ==> t.action[j] == self.action[j]
        &&& forall|j: int| 0 <= j < MAX_ROUNDS && j != r ==> t.acting_player[j] == self.acting_player[j]
        &&& t.action[r]@ == self.action[r]@.update(k, a)
        &&& t.acting_player[r]@ == self.acting_player[r]@.update(k, p as u8)
        &&& t.num_actions@ == self.num_actions@.update(r, (k + 1) as u8)
        &&& t.max_spent == self.max_after(info, a)
        &&& t.finished == (done || (closes && !next_round))
        &&& t.round == if showdown {
            info.rounds() - 1
        } else if next_round {
            r + 1
        } else {
            r
        }
        &&& t.min_no_limit_raise_to == if next_round {
            Self::saturate(Self::blind_floor(info, n) + self.max_after(info, a))
        } else {
            self.min_raise_after(info, a)
        }
        &&& t.active_player == if next_round {
            t.seek_from(n, info.first_player@[r + 1] as int, 0)
        } else {
            t.seek_from(n, (p + 1) % n, 0)
        }
    }

    /// What the transition function returns for `a` in this state.
    pub open spec fn outcome_ok(&self, info: &GameInfo, a: Action) -> bool {
        !self.finished && self.num_actions[self.round as int] < MAX_NUM_ACTIONS && self.valid_action(info, a)
    }

    /// The counts read only folds, commitments, stacks and the log.
    pub proof fn lemma_counts_same(&self, other: &GameState, r: int, k: int)
        requires
            self.players_folded == other.players_folded,
            self.spent == other.spent,
            self.stack_player == other.stack_player,
            self.action == other.action,
            self.acting_player == other.acting_player,
        ensures
            self.active_upto(k) == other.active_upto(k),
            self.folded_upto(k) == other.folded_upto(k),
            self.called_in(r, k) == other.called_in(r, k),
            self.spent_upto(k) == other.spent_upto(k),
        decreases k,
    {
        if k > 0 {
            self.lemma_counts_same(other, r, k - 1);
        }
    }

    pub proof fn lemma_active_bound(&self, k: int)
        requires
            0 <= k,
        ensures
            0 <= self.active_upto(k) <= k,
        decreases k,
    {
        if k > 0 {
            self.lemma_active_bound(k - 1);
        }
    }

    pub proof fn lemma_folded_bound(&self, k: int)
        requires
            0 <= k,
        ensures
            0 <= self.folded_upto(k) <= k,
        decreases k,
    {
        if k > 0 {
            self.lemma_folded_bound(k - 1);
        }
    }

    pub proof fn lemma_raises_bound(&self, r: int, k: int)
        requires
            0 <= k,
        ensures
            0 <= self.raises_in(r, k) <= k,
        decreases k,
    {
        if k > 0 {
            self.lemma_raises_bound(r, k - 1);
        }
    }

    pub proof fn lemma_spent_bound(&self, k: int)
        requires
            0 <= k <= MAX_PLAYERS,
        ensures
            0 <= self.spent_upto(k) <= k * (u32::MAX as int),
        decreases k,
    {
        if k > 0 {
            self.lemma_spent_bound(k - 1);
        }
    }

    /// The seat search reads only folds, commitments and stacks.
    pub proof fn lemma_seek_same(&self, other: &GameState, n: int, start: int, k: int)
        requires
            self.players_folded == other.players_folded,
            self.spent == other.spent,
            self.stack_player == other.stack_player,
        ensures
            self.seek_from(n, start, k) == other.seek_from(n, start, k),
        decreases n - k,
    {
        if k < n {
            self.lemma_seek_same(other, n, start, k + 1);
        }
    }

    proof fn lemma_seek_range(&self, n: int, start: int, k: int)
        requires
            0 < n,
            0 <= start < n,
            0 <= k,
        ensures
            0 <= self.seek_from(n, start, k) < n,
        decreases n - k,
    {
        if k < n && !self.eligible((start + k) % n) {
            self.lemma_seek_range(n, start, k + 1);
        }
    }

    /// Sets up a hand: blinds posted, stacks set, round 0, and the first
    /// eligible seat from the configured first player to act.
    pub fn new(game_info: &GameInfo, hand_id: u32) -> (s: GameState)
        requires
            game_info.wf(),
        ensures
            s.wf(game_info),
            s.hand_id == hand_id,
            s.round == 0,
            !s.finished,
            forall|p: int|
                0 <= p < game_info.n() ==> s.spent[p] == game_info.blinds@[p] && s.stack_player[p]
                    == game_info.starting_stacks@[p] && !s.players_folded[p]
                    && s.sum_round_spent[0][p] == game_info.blinds@[p],
            forall|r: int| 0 <= r < MAX_ROUNDS ==> s.num_actions[r] == 0,
            s.max_spent == game_info.max_blind(game_info.n()),
            game_info.betting_type == BettingType::Limit ==> s.min_no_limit_raise_to == 0,
            game_info.betting_type == BettingType::NoLimit ==> s.min_no_limit_raise_to == if s.max_spent
                > 0 {
                if 2 * s.max_spent > u32::MAX {
                    u32::MAX as int
                } else {
                    2 * s.max_spent
                }
            } else {
                1
            },
            s.active_player == s.seek_from(game_info.n(), game_info.first_player@[0] as int, 0),
    {
        let n: u8 = game_info.num_players;
        let mut spent: [u32; MAX_PLAYERS] = [0u32; MAX_PLAYERS];
        let mut stack_player: [u32; MAX_PLAYERS] = [0u32; MAX_PLAYERS];
        let mut round0: [u32; MAX_PLAYERS] = [0u32; MAX_PLAYERS];
        let mut players_folded: [bool; MAX_PLAYERS] = [true; MAX_PLAYERS];
        let mut max_spent: u32 = 0;
        let mut i: u8 = 0;
        while i < n
            invariant
                game_info.wf(),
                n == game_info.num_players,
                i <= n,
                max_spent == game_info.max_blind(i as int),
                forall|p: int|
                    0 <= p < i ==> spent[p] == game_info.blinds@[p] && stack_player[p]
                        == game_info.starting_stacks@[p] && !players_folded[p] && round0[p]
                        == game_info.blinds@[p],
            decreases n - i,
        {
            let b = game_info.blinds[i as usize];
            spent[i as usize] = b;
            round0[i as usize] = b;
            stack_player[i as usize] = game_info.starting_stacks[i as usize];
            players_folded[i as usize] = false;
            if b > max_spent {
                max_spent = b;
            }
            i = i + 1;
        }
        let min_no_limit_raise_to: u32 = match game_info.betting_type {
            BettingType::NoLimit => if max_spent > 0 {
                if max_spent > u32::MAX / 2 {
                    u32::MAX
                } else {
                    max_spent * 2
                }
            } else {
                1
            },
            BettingType::Limit => 0,
        };
        let mut sum_round_spent: [[u32; MAX_PLAYERS]; MAX_ROUNDS] = [[0u32; MAX_PLAYERS]; MAX_ROUNDS];
        sum_round_spent[0] = round0;
        let mut s = GameState {
            hand_id,
            max_spent,
            min_no_limit_raise_to,
            spent,
            stack_player,
            sum_round_spent,
            action: [[Action::Call; MAX_NUM_ACTIONS]; MAX_ROUNDS],
            acting_player: [[0u8; MAX_NUM_ACTIONS]; MAX_ROUNDS],
            active_player: 0,
            num_actions: [0u8; MAX_ROUNDS],
            round: 0,
            finished: false,
            players_folded,
        };
        let first = s.seek_eligible(n, game_info.first_player[0]);
        let ghost before = s;
        s.active_player = first;
        proof {
            before.lemma_seek_same(&s, n as int, game_info.first_player@[0] as int, 0);
        }
        s
    }

    /// The first eligible seat cyclically from `start`, or `start` if none is.
    fn seek_eligible(&self, n: u8, start: u8) -> (r: u8)
        requires
            2 <= n <= MAX_PLAYERS,
            start < n,
        ensures
            r == self.seek_from(n as int, start as int, 0),
            r < n,
    {
        proof {
            self.lemma_seek_range(n as int, start as int, 0);
        }
        let mut k: u8 = 0;
        while k < n
            invariant
                2 <= n <= MAX_PLAYERS,
                start < n,
                k <= n,
                self.seek_from(n as int, start as int, 0) == self.seek_from(
                    n as int,
                    start as int,
                    k as int,
                ),
            decreases n - k,
        {
            let q: u8 = ((start as u16 + k as u16) % (n as u16)) as u8;
            if !self.players_folded[q as usize] && self.spent[q as usize] < self.stack_player[q as usize] {
                return q;
            }
            k = k + 1;
        }
        start
    }

    /// Sum of all players' commitments.
    pub fn pot_total(&self, game_info: &GameInfo) -> (r: u32)
        requires
            game_info.wf(),
            self.spent_upto(game_info.n()) <= u32::MAX,
        ensures
            r == self.spent_upto(game_info.n()),
    {
        let mut total: u32 = 0;
        let mut i: u8 = 0;
        while i < game_info.num_players
            invariant
                game_info.wf(),
                i <= game_info.num_players,
                total == self.spent_upto(i as int),
                self.spent_upto(game_info.n()) <= u32::MAX,
            decreases game_info.num_players - i,
        {
            proof {
                self.lemma_spent_monotone(i + 1, game_info.n());
            }
            total = total + self.spent[i as usize];
            i = i + 1;
        }
        total
    }

    proof fn lemma_spent_monotone(&self, a: int, b: int)
        requires
            0 <= a <= b,
        ensures
            self.spent_upto(a) <= self.spent_upto(b),
        decreases b - a,
    {
        if a < b {
            self.lemma_spent_monotone(a, b - 1);
        }
    }

    pub fn player_stack(&self, player: PlayerId) -> (r: u32)
        requires
            player < MAX_PLAYERS,
        ensures
            r == self.stack_player[player as int],
    {
        self.stack_player[player as usize]
    }

    pub fn player_spent(&self, player: PlayerId) -> (r: u32)
        requires
            player < MAX_PLAYERS,
        ensures
            r == self.spent[player as int],
    {
        self.spent[player as usize]
    }

    pub fn current_round(&self) -> (r: u8)
        ensures
            r == self.round,
    {
        self.round
    }

    /// The player to act; an error once the hand is finished.
    pub fn current_player(&self) -> (r: Result<PlayerId, TransitionError>)
        ensures
            self.finished ==> r == Err::<PlayerId, TransitionError>(TransitionError::Finished),
            !self.finished ==> r == Ok::<PlayerId, TransitionError>(self.active_player),
    {
        if self.finished {
            return Err(TransitionError::Finished);
        }
        Ok(self.active_player)
    }

    /// Number of players who can still act: neither folded nor all-in.
    pub fn num_active_players(&self, game_info: &GameInfo) -> (r: u8)
        requires
            game_info.wf(),
        ensures
            r == self.active_upto(game_info.n()),
    {
        let mut count: u8 = 0;
        let mut i: u8 = 0;
        while i < game_info.num_players
            invariant
                game_info.wf(),
                i <= game_info.num_players,
                count == self.active_upto(i as int),
            decreases game_info.num_players - i,
        {
            proof {
                self.lemma_active_bound(i as int);
            }
            if !self.players_folded[i as usize] && self.spent[i as usize] < self.stack_player[i as usize] {
                count = count + 1;
            }
            i = i + 1;
        }
        count
    }

    /// Number of players who have called in the current round since its last
    /// raise (the raiser included), not counting players now all-in.
    pub fn num_called(&self, game_info: &GameInfo) -> (r: u8)
        requires
            self.wf(game_info),
        ensures
            r == self.called_in(self.round as int, self.num_actions[self.round as int] as int),
    {
        let rd = self.round as usize;
        let mut count: u8 = 0;
        let mut i: u8 = self.num_actions[rd];
        let ghost total = self.called_in(rd as int, i as int);
        while i > 0
            invariant
                self.wf(game_info),
                rd == self.round,
                i <= self.num_actions[rd as int],
                count + self.called_in(rd as int, i as int) == total,
                total == self.called_in(rd as int, self.num_actions[rd as int] as int),
                0 <= count <= self.num_actions[rd as int] - i,
            decreases i,
        {
            let j = i - 1;
            let player = self.acting_player[rd][j as usize];
            let c: u8 = if self.spent[player as usize] < self.stack_player[player as usize] {
                1
            } else {
                0
            };
            assert(self.acting_player[rd as int][j as int] < game_info.num_players);
            match self.action[rd][j as usize] {
                Action::Raise(_) => {
                    assert(self.called_in(rd as int, i as int) == c);
                    return count + c;
                },
                Action::Call => {
                    count = count + c;
                },
                Action::Fold => {},
            }
            i = j;
        }
        count
    }

    /// Number of players who have folded.
    pub fn num_folded(&self, game_info: &GameInfo) -> (r: u8)
        requires
            game_info.wf(),
        ensures
            r == self.folded_upto(game_info.n()),
    {
        let mut count: u8 = 0;
        let mut i: u8 = 0;
        while i < game_info.num_players
            invariant
                game_info.wf(),
                i <= game_info.num_players,
                count == self.folded_upto(i as int),
            decreases game_info.num_players - i,
        {
            proof {
                self.lemma_folded_bound(i as int);
            }
            if self.players_folded[i as usize] {
                count = count + 1;
            }
            i = i + 1;
        }
        count
    }

    pub fn is_finished(&self) -> (r: bool)
        ensures
            r == self.finished,
    {
        self.finished
    }

    pub fn has_folded(&self, player: PlayerId) -> (r: bool)
        requires
            player < MAX_PLAYERS,
        ensures
            r == self.players_folded[player as int],
    {
        self.players_folded[player as usize]
    }

    /// Number of raises made in the current round.
    pub fn num_raises(&self) -> (r: u8)
        requires
            self.round < MAX_ROUNDS,
            self.num_actions[self.round as int] <= MAX_NUM_ACTIONS,
        ensures
            r == self.raises(),
    {
        let rd = self.round as usize;
        let mut count: u8 = 0;
        let mut i: u8 = 0;
        while i < self.num_actions[rd]
            invariant
                rd == self.round,
                rd < MAX_ROUNDS,
                i <= self.num_actions[rd as int] <= MAX_NUM_ACTIONS,
                count == self.raises_in(rd as int, i as int),
            decreases self.num_actions[rd as int] - i,
        {
            proof {
                self.lemma_raises_bound(rd as int, i as int);
            }
            if let Action::Raise(_) = self.action[rd][i as usize] {
                count = count + 1;
            }
            i = i + 1;
        }
        count
    }

    /// The range `(min, max)` of legal no-limit raise-to amounts for the active
    /// player, `(0, 0)` when no raise is possible.
    pub fn raise_range(&self, game_info: &GameInfo) -> (r: (u32, u32))
        requires
            self.wf(game_info),
        ensures
            (r.0 as int, r.1 as int) == self.raise_range_spec(game_info),
    {
        if self.finished {
            return (0, 0);
        }
        let rd = self.round as usize;
        if self.num_raises() >= game_info.max_raises[rd] {
            return (0, 0);
        }
        if self.num_actions[rd] as usize + game_info.num_players as usize > MAX_NUM_ACTIONS {
            return (0, 0);
        }
        if self.num_active_players(game_info) <= 1 {
            return (0, 0);
        }
        match game_info.betting_type {
            BettingType::Limit => (0, 0),
            BettingType::NoLimit => {
                let st = self.stack_player[self.active_player as usize];
                if st < self.min_no_limit_raise_to {
                    if self.max_spent >= st {
                        (0, 0)
                    } else {
                        (st, st)
                    }
                } else {
                    (self.min_no_limit_raise_to, st)
                }
            },
        }
    }

    /// Whether `action` is legal for the active player.
    pub fn is_valid_action(&self, game_info: &GameInfo, action: Action) -> (r: bool)
        requires
            self.wf(game_info),
        ensures
            r == self.valid_action(game_info, action),
    {
        if self.finished {
            return false;
        }
        let p = self.active_player as usize;
        match action {
            Action::Fold => self.spent[p] != self.stack_player[p],
            Action::Call => true,
            Action::Raise(x) => {
                if self.num_raises() >= game_info.max_raises[self.round as usize] {
                    return false;
                }
                match game_info.betting_type {
                    BettingType::Limit => x == game_info.raise_sizes[self.round as usize],
                    BettingType::NoLimit => {
                        let (lo, hi) = self.raise_range(game_info);
                        0 < lo && lo <= x && x <= hi
                    },
                }
            },
        }
    }

    fn blind_floor_of(game_info: &GameInfo) -> (r: u32)
        requires
            game_info.wf(),
        ensures
            r == Self::blind_floor(game_info, game_info.n()),
    {
        let mut m: u32 = 1;
        let mut i: u8 = 0;
        while i < game_info.num_players
            invariant
                game_info.wf(),
                i <= game_info.num_players,
                m == Self::blind_floor(game_info, i as int),
            decreases game_info.num_players - i,
        {
            if game_info.blinds[i as usize] > m {
                m = game_info.blinds[i as usize];
            }
            i = i + 1;
        }
        m
    }

    /// Applies `action` for the active player and returns the next state; this
    /// state is left as it is. Fails on a finished hand, on a full action log
    /// for the round, and on an illegal action, in that order.
    pub fn apply_action_no_cards(&self, game_info: &GameInfo, action: Action) -> (r: Result<
        GameState,
        TransitionError,
    >)
        requires
            self.wf(game_info),
        ensures
            self.finished ==> r == Err::<GameState, TransitionError>(TransitionError::Finished),
            !self.finished && self.num_actions[self.round as int] >= MAX_NUM_ACTIONS ==> r == Err::<
                GameState,
                TransitionError,
            >(TransitionError::ActionLogFull),
            !self.finished && self.num_actions[self.round as int] < MAX_NUM_ACTIONS
                && !self.valid_action(game_info, action) ==> r == Err::<GameState, TransitionError>(
                TransitionError::InvalidAction,
            ),
            r is Ok <==> self.outcome_ok(game_info, action),
            r is Ok ==> self.steps_to(game_info, action, r->Ok_0) && r->Ok_0.wf(game_info),
    {
        if self.finished {
            return Err(TransitionError::Finished);
        }
        let rd = self.round as usize;
        let k: u8 = self.num_actions[rd];
        if k as usize >= MAX_NUM_ACTIONS {
            return Err(TransitionError::ActionLogFull);
        }
        if !self.is_valid_action(game_info, action) {
            return Err(TransitionError::InvalidAction);
        }
        let n: u8 = game_info.num_players;
        let p: u8 = self.active_player;
        let mut t: GameState = *self;
        let mut arow = t.action[rd];
        arow[k as usize] = action;
        t.action[rd] = arow;
        let mut prow = t.acting_player[rd];
        prow[k as usize] = p;
        t.acting_player[rd] = prow;
        t.num_actions[rd] = k + 1;
        match action {
            Action::Fold => {
                t.players_folded[p as usize] = true;
            },
            Action::Call => {
                let v = if t.max_spent > t.stack_player[p as usize] {
                    t.stack_player[p as usize]
                } else {
                    t.max_spent
                };
                t.spent[p as usize] = v;
                let mut srow = t.sum_round_spent[rd];
                srow[p as usize] = v;
                t.sum_round_spent[rd] = srow;
            },
            Action::Raise(x) => {
                match game_info.betting_type {
                    BettingType::NoLimit => {
                        assert(x >= self.max_spent);
                        let twice: u64 = 2 * (x as u64) - self.max_spent as u64;
                        let c: u32 = if twice > u32::MAX as u64 {
                            u32::MAX
                        } else {
                            twice as u32
                        };
                        if c > t.min_no_limit_raise_to {
                            t.min_no_limit_raise_to = c;
                        }
                        t.max_spent = x;
                    },
                    BettingType::Limit => {
                        let m: u64 = t.max_spent as u64 + game_info.raise_sizes[rd] as u64;
                        if m > t.stack_player[p as usize] as u64 {
                            t.max_spent = t.stack_player[p as usize];
                        } else {
                            t.max_spent = m as u32;
                        }
                    },
                }
                let v = t.max_spent;
                t.spent[p as usize] = v;
                let mut srow = t.sum_round_spent[rd];
                srow[p as usize] = v;
                t.sum_round_spent[rd] = srow;
            },
        }
        assert(t.wf(game_info));
        let folded = t.num_folded(game_info);
        let active = t.num_active_players(game_info);
        let called = t.num_called(game_info);
        let nxt = t.seek_eligible(n, ((p as u16 + 1) % n as u16) as u8);
        let ghost mid = t;
        t.active_player = nxt;
        if folded as u16 + 1 >= n as u16 {
            t.finished = true;
        } else if called >= active {
            if active > 1 {
                if self.round + 1 < game_info.num_rounds {
                    t.round = self.round + 1;
                    let floor = Self::blind_floor_of(game_info);
                    let lifted: u64 = floor as u64 + t.max_spent as u64;
                    t.min_no_limit_raise_to = if lifted > u32::MAX as u64 {
                        u32::MAX
                    } else {
                        lifted as u32
                    };
                    let first = t.seek_eligible(n, game_info.first_player[t.round as usize]);
                    let ghost before = t;
                    t.active_player = first;
                    proof {
                        before.lemma_seek_same(&t, n as int, game_info.first_player@[t.round as int] as int, 0);
                    }
                } else {
                    t.finished = true;
                }
            } else {
                t.finished = true;
                t.round = game_info.num_rounds - 1;
            }
        }
        proof {
            mid.lemma_counts_same(&t, rd as int, n as int);
            mid.lemma_counts_same(&t, rd as int, k + 1);
            mid.lemma_seek_same(&t, n as int, ((p + 1) % n as int), 0);
            assert(t.spent@ =~= self.spent@.update(p as int, self.spent_after(game_info, action) as u32));
            assert(t.players_folded@ =~= if action is Fold {
                self.players_folded@.update(p as int, true)
            } else {
                self.players_folded@
            });
            assert(t.sum_round_spent[rd as int]@ =~= if action is Fold {
                self.sum_round_spent[rd as int]@
            } else {
                self.sum_round_spent[rd as int]@.update(p as int, self.spent_after(game_info, action) as u32)
            });
            assert(t.action[rd as int]@ =~= self.action[rd as int]@.update(k as int, action));
            assert(t.acting_player[rd as int]@ =~= self.acting_player[rd as int]@.update(k as int, p));
            assert(t.num_actions@ =~= self.num_actions@.update(rd as int, (k + 1) as u8));
        }
        Ok(t)
    }
}

} // verus!
