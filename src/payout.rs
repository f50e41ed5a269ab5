use vstd::prelude::*;
use crate::game::{GameInfo, PlayerId, MAX_PLAYERS};
use crate::state::GameState;

verus! {

impl GameState {
    /// Seat `i` still contests the pot above `floor`: it committed more than that.
    pub open spec fn contests(&self, floor: int, i: int) -> bool {
        self.spent[i] > floor
    }

    /// Smallest commitment above `floor` among seats `0..k`
    /// (`u32::MAX + 1` when there is none): the top of the next pot layer.
    pub open spec fn layer_top(&self, floor: int, k: int) -> int
        decreases k,
    {
        if k <= 0 {
            u32::MAX as int + 1
        } else {
            let m = self.layer_top(floor, k - 1);
            let v = self.spent[k - 1] as int;
            if v > floor && v < m {
                v
            } else {
                m
            }
        }
    }

    /// Number of seats among `0..k` that contest the layer above `floor`.
    pub open spec fn contest_count(&self, floor: int, k: int) -> int
        decreases k,
    {
        if k <= 0 {
            0
        } else {
            self.contest_count(floor, k - 1) + if self.contests(floor, k - 1) { 1int } else { 0 }
        }
    }

    /// Best rank class among the seats `0..k` that contest above `floor` and
    /// have not folded; -1 when there is none.
    pub open spec fn best_rank(&self, ranks: Seq<u32>, floor: int, k: int) -> int
        decreases k,
    {
        if k <= 0 {
            -1
        } else {
            let b = self.best_rank(ranks, floor, k - 1);
            if self.contests(floor, k - 1) && !self.players_folded[k - 1] && ranks[k - 1] > b {
                ranks[k - 1] as int
            } else {
                b
            }
        }
    }

    /// Number of seats among `0..k` that contest above `floor`, have not folded
    /// and hold rank class `best`.
    pub open spec fn winner_count(&self, ranks: Seq<u32>, floor: int, best: int, k: int) -> int
        decreases k,
    {
        if k <= 0 {
            0
        } else {
            self.winner_count(ranks, floor, best, k - 1) + if self.contests(floor, k - 1)
                && !self.players_folded[k - 1] && ranks[k - 1] == best {
                1int
            } else {
                0
            }
        }
    }

    /// Net result for seat `q` from the pot layers above `floor`. Each layer
    /// reaches from `floor` to the smallest commitment above it and is contested
    /// by every seat that committed more than `floor`; the non-folded contesters
    /// with the best rank class split it, each winning
    /// `size * (contesters - winners) / winners` (truncated), and every other
    /// contester loses `size`.
    pub open spec fn layered_payout(&self, n: int, ranks: Seq<u32>, q: int, floor: int) -> int
        decreases self.spent[q] - floor,
    {
        let top = self.layer_top(floor, n);
        if self.spent[q] <= floor || top <= floor || top > self.spent[q] {
            0
        } else {
            let size = top - floor;
            let k = self.contest_count(floor, n);
            let best = self.best_rank(ranks, floor, n);
            let w = self.winner_count(ranks, floor, best, n);
            let gain = if ranks[q] as int == best {
                size * (k - w) / w
            } else {
                -size
            };
            gain + self.layered_payout(n, ranks, q, top)
        }
    }

    /// Net chip result of player `q` in a finished hand (or of a folded player
    /// at any time), given each player's rank class, higher being stronger.
    pub open spec fn payout(&self, info: &GameInfo, ranks: Seq<u32>, q: int) -> int {
        let n = info.n();
        if self.players_folded[q] {
            -(self.spent[q] as int)
        } else if self.folded_upto(n) + 1 == n {
            self.spent_upto(n) - self.spent[q] as int
        } else {
            self.layered_payout(n, ranks, q, 0)
        }
    }

    proof fn lemma_layer_top(&self, floor: int, k: int, q: int)
        requires
            0 <= q < k,
            self.spent[q] > floor,
        ensures
            floor < self.layer_top(floor, k) <= self.spent[q],
        decreases k,
    {
        self.lemma_layer_top_above(floor, k);
        if q < k - 1 {
            self.lemma_layer_top(floor, k - 1, q);
        }
    }

    proof fn lemma_layer_top_above(&self, floor: int, k: int)
        requires
            floor <= u32::MAX,
        ensures
            floor < self.layer_top(floor, k),
        decreases k,
    {
        if k > 0 {
            self.lemma_layer_top_above(floor, k - 1);
        }
    }

    pub proof fn lemma_layer_top_pub(&self, floor: int, k: int, q: int)
        requires
            0 <= q < k,
            self.spent[q] > floor,
        ensures
            floor < self.layer_top(floor, k) <= self.spent[q],
    {
        self.lemma_layer_top(floor, k, q);
    }

    pub proof fn lemma_layer_top_above_pub(&self, floor: int, k: int)
        requires
            floor <= u32::MAX,
        ensures
            floor < self.layer_top(floor, k),
    {
        self.lemma_layer_top_above(floor, k);
    }

    proof fn lemma_best_rank(&self, ranks: Seq<u32>, floor: int, k: int, q: int)
        requires
            0 <= q < k,
            self.contests(floor, q),
            !self.players_folded[q],
        ensures
            self.best_rank(ranks, floor, k) >= ranks[q],
        decreases k,
    {
        self.lemma_best_rank_grows(ranks, floor, k);
        if q < k - 1 {
            self.lemma_best_rank(ranks, floor, k - 1, q);
        }
    }

    proof fn lemma_best_rank_grows(&self, ranks: Seq<u32>, floor: int, k: int)
        requires
            k > 0,
        ensures
            self.best_rank(ranks, floor, k) >= self.best_rank(ranks, floor, k - 1),
    {
    }

    proof fn lemma_winners(&self, ranks: Seq<u32>, floor: int, k: int)
        requires
            0 <= k,
            self.best_rank(ranks, floor, k) >= 0,
        ensures
            1 <= self.winner_count(ranks, floor, self.best_rank(ranks, floor, k), k),
        decreases k,
    {
        let b = self.best_rank(ranks, floor, k);
        self.lemma_winners_bound(ranks, floor, b, k - 1);
        if !(self.contests(floor, k - 1) && !self.players_folded[k - 1] && ranks[k - 1] == b) {
            self.lemma_winners(ranks, floor, k - 1);
        }
    }

    proof fn lemma_winners_bound(&self, ranks: Seq<u32>, floor: int, best: int, k: int)
        ensures
            0 <= self.winner_count(ranks, floor, best, k) <= self.contest_count(floor, k),
            self.contest_count(floor, k) <= if k < 0 {
                0
            } else {
                k
            },
        decreases k,
    {
        if k > 0 {
            self.lemma_winners_bound(ranks, floor, best, k - 1);
        }
    }

    proof fn lemma_share_bound(size: int, k: int, w: int)
        requires
            0 <= size,
            1 <= w <= k <= MAX_PLAYERS,
        ensures
            0 <= size * (k - w) / w <= 21 * size,
            0 <= size * (k - w) <= 21 * size,
    {
        assert(0 <= size * (k - w)) by (nonlinear_arith)
            requires
                0 <= size,
                w <= k,
        ;
        assert(size * (k - w) <= 21 * size) by (nonlinear_arith)
            requires
                0 <= size,
                1 <= w <= k <= 22,
        ;
        assert(size * (k - w) / w <= size * (k - w)) by (nonlinear_arith)
            requires
                0 <= size * (k - w),
                1 <= w,
        ;
    }

    /// Net chip result of `player`, positive when they won chips: minus their
    /// commitment when they folded; everything the others committed when they
    /// are the only one left; otherwise their result over the side-pot layers.
    /// `ranks[p]` is player `p`'s rank class, higher being stronger.
    pub fn get_payout(&self, game_info: &GameInfo, ranks: &Vec<u32>, player: PlayerId) -> (r: i64)
        requires
            self.wf(game_info),
            ranks@.len() == game_info.n(),
            player < game_info.num_players,
            self.finished || self.players_folded[player as int],
        ensures
            r == self.payout(game_info, ranks@, player as int),
    {
        let n: u8 = game_info.num_players;
        let q = player as usize;
        if self.players_folded[q] {
            return -(self.spent[q] as i64);
        }
        if self.num_folded(game_info) as u16 + 1 == n as u16 {
            proof {
                self.lemma_spent_bound(n as int);
            }
            let mut value: i64 = 0;
            let mut i: u8 = 0;
            while i < n
                invariant
                    n == game_info.num_players,
                    game_info.wf(),
                    q < n,
                    i <= n,
                    value == self.spent_upto(i as int) - if q < i {
                        self.spent[q as int] as int
                    } else {
                        0
                    },
                    0 <= self.spent_upto(i as int) <= i * (u32::MAX as int),
                decreases n - i,
            {
                proof {
                    self.lemma_spent_bound(i + 1);
                }
                if i as usize != q {
                    value = value + self.spent[i as usize] as i64;
                }
                i = i + 1;
            }
            return value;
        }
        let ghost total = self.layered_payout(n as int, ranks@, q as int, 0);
        let mut value: i64 = 0;
        let mut floor: u32 = 0;
        while floor < self.spent[q]
            invariant
                n == game_info.num_players,
                game_info.wf(),
                ranks@.len() == n,
                q < n,
                !self.players_folded[q as int],
                floor <= self.spent[q as int],
                -(floor as int) <= value <= 21 * floor,
                value + self.layered_payout(n as int, ranks@, q as int, floor as int) == total,
            decreases self.spent[q as int] - floor,
        {
            let mut top: u64 = u32::MAX as u64 + 1;
            let mut k: u8 = 0;
            let mut best: i64 = -1;
            let mut i: u8 = 0;
            while i < n
                invariant
                    n == game_info.num_players,
                    game_info.wf(),
                    ranks@.len() == n,
                    i <= n,
                    top == self.layer_top(floor as int, i as int),
                    k == self.contest_count(floor as int, i as int),
                    best == self.best_rank(ranks@, floor as int, i as int),
                    -1 <= best <= u32::MAX,
                decreases n - i,
            {
                proof {
                    self.lemma_winners_bound(ranks@, floor as int, 0, i as int);
                }
                let v = self.spent[i as usize];
                if v > floor {
                    if (v as u64) < top {
                        top = v as u64;
                    }
                    k = k + 1;
                    if !self.players_folded[i as usize] && ranks[i as usize] as i64 > best {
                        best = ranks[i as usize] as i64;
                    }
                }
                i = i + 1;
            }
            let mut w: u8 = 0;
            let mut j: u8 = 0;
            while j < n
                invariant
                    n == game_info.num_players,
                    game_info.wf(),
                    ranks@.len() == n,
                    j <= n,
                    w == self.winner_count(ranks@, floor as int, best as int, j as int),
                decreases n - j,
            {
                proof {
                    self.lemma_winners_bound(ranks@, floor as int, best as int, j as int);
                }
                if self.spent[j as usize] > floor && !self.players_folded[j as usize]
                    && ranks[j as usize] as i64 == best {
                    w = w + 1;
                }
                j = j + 1;
            }
            proof {
                self.lemma_layer_top(floor as int, n as int, q as int);
                self.lemma_best_rank(ranks@, floor as int, n as int, q as int);
                self.lemma_winners(ranks@, floor as int, n as int);
                self.lemma_winners_bound(ranks@, floor as int, best as int, n as int);
                Self::lemma_share_bound(top - floor, k as int, w as int);
            }
            let size: u64 = top - floor as u64;
            if ranks[q] as i64 == best {
                let share: u64 = size * ((k - w) as u64) / (w as u64);
                value = value + share as i64;
            } else {
                value = value - size as i64;
            }
            floor = top as u32;
        }
        value
    }
}

} // verus!
