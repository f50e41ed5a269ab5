use vstd::prelude::*;

verus! {

pub const MAX_PLAYERS: usize = 22;
pub const MAX_ROUNDS: usize = 4;
pub const MAX_NUM_ACTIONS: usize = 32;
pub const MAX_BOARD_CARDS: usize = 7;
pub const MAX_HOLE_CARDS: usize = 5;

pub type PlayerId = u8;

/// Betting types of a poker game.
#[derive(Clone, Copy, Debug, PartialEq, Eq, Structural)]
pub enum BettingType {
    Limit,
    NoLimit,
}

/// A betting action; a raise carries the new total commitment ("raise-to").
#[derive(Clone, Copy, Debug, PartialEq, Eq, Structural)]
pub enum Action {
    Fold,
    Call,
    Raise(u32),
}

/// Why a ruleset was rejected.
#[derive(Clone, Copy, Debug, PartialEq, Eq, Structural)]
pub enum ConfigError {
    PlayerCount,
    RoundCount,
    PerPlayerLength,
    PerRoundLength,
    FirstPlayerOutOfRange,
    BlindAboveStack,
}

/// The immutable ruleset of a poker game.
#[derive(Clone, Debug)]
pub struct GameInfo {
    /// Starting stack for each player
    pub starting_stacks: Vec<u32>,
    /// Blinds per player
    pub blinds: Vec<u32>,
    /// Size of fixed raises per round for limit games
    pub raise_sizes: Vec<u32>,
    pub betting_type: BettingType,
    pub num_players: PlayerId,
    pub num_rounds: u8,
    /// Max amount of raises per round
    pub max_raises: Vec<u8>,
    /// First player to act in each round
    pub first_player: Vec<PlayerId>,
    pub num_suits: u8,
    pub num_ranks: u8,
    pub num_hole_cards: u8,
    /// Board cards added each round
    pub num_board_cards: Vec<u8>,
}

impl GameInfo {
    pub open spec fn n(&self) -> int {
        self.num_players as int
    }

    pub open spec fn rounds(&self) -> int {
        self.num_rounds as int
    }

    /// Well-formedness of a ruleset: array lengths agree with the counts and the
    /// counts fit the fixed capacities of a state.
    pub open spec fn wf(&self) -> bool {
        &&& 2 <= self.n() <= MAX_PLAYERS
        &&& 1 <= self.rounds() <= MAX_ROUNDS
        &&& self.starting_stacks@.len() == self.n()
        &&& self.blinds@.len() == self.n()
        &&& self.raise_sizes@.len() == self.rounds()
        &&& self.max_raises@.len() == self.rounds()
        &&& self.first_player@.len() == self.rounds()
        &&& self.num_board_cards@.len() == self.rounds()
        &&& forall|r: int| 0 <= r < self.rounds() ==> self.first_player@[r] < self.num_players
        &&& forall|p: int| 0 <= p < self.n() ==> self.blinds@[p] <= self.starting_stacks@[p]
    }

    /// Builds a ruleset, rejecting any whose arrays disagree with its counts.
    pub fn new(
        starting_stacks: Vec<u32>,
        blinds: Vec<u32>,
        raise_sizes: Vec<u32>,
        betting_type: BettingType,
        num_players: PlayerId,
        num_rounds: u8,
        max_raises: Vec<u8>,
        first_player: Vec<PlayerId>,
        num_suits: u8,
        num_ranks: u8,
        num_hole_cards: u8,
        num_board_cards: Vec<u8>,
    ) -> (r: Result<GameInfo, ConfigError>)
        ensures
            r is Ok <==> (GameInfo {
                starting_stacks,
                blinds,
                raise_sizes,
                betting_type,
                num_players,
                num_rounds,
                max_raises,
                first_player,
                num_suits,
                num_ranks,
                num_hole_cards,
                num_board_cards,
            }).wf(),
            r is Ok ==> r->Ok_0 == (GameInfo {
                starting_stacks,
                blinds,
                raise_sizes,
                betting_type,
                num_players,
                num_rounds,
                max_raises,
                first_player,
                num_suits,
                num_ranks,
                num_hole_cards,
                num_board_cards,
            }),
    {
        if num_players < 2 || num_players as usize > MAX_PLAYERS {
            return Err(ConfigError::PlayerCount);
        }
        if num_rounds < 1 || num_rounds as usize > MAX_ROUNDS {
            return Err(ConfigError::RoundCount);
        }
        if starting_stacks.len() != num_players as usize || blinds.len() != num_players as usize {
            return Err(ConfigError::PerPlayerLength);
        }
        if raise_sizes.len() != num_rounds as usize || max_raises.len() != num_rounds as usize
            || first_player.len() != num_rounds as usize || num_board_cards.len()
            != num_rounds as usize {
            return Err(ConfigError::PerRoundLength);
        }
        let mut r: usize = 0;
        while r < num_rounds as usize
            invariant
                first_player@.len() == num_rounds,
                r <= num_rounds,
                forall|j: int| 0 <= j < r ==> first_player@[j] < num_players,
            decreases num_rounds - r,
        {
            if first_player[r] >= num_players {
                return Err(ConfigError::FirstPlayerOutOfRange);
            }
            r = r + 1;
        }
        let mut p: usize = 0;
        while p < num_players as usize
            invariant
                blinds@.len() == num_players,
                starting_stacks@.len() == num_players,
                p <= num_players,
                forall|j: int| 0 <= j < p ==> blinds@[j] <= starting_stacks@[j],
            decreases num_players - p,
        {
            if blinds[p] > starting_stacks[p] {
                return Err(ConfigError::BlindAboveStack);
            }
            p = p + 1;
        }
        Ok(
            GameInfo {
                starting_stacks,
                blinds,
                raise_sizes,
                betting_type,
                num_players,
                num_rounds,
                max_raises,
                first_player,
                num_suits,
                num_ranks,
                num_hole_cards,
                num_board_cards,
            },
        )
    }

    pub fn num_suits(&self) -> (r: u8)
        ensures
            r == self.num_suits,
    {
        self.num_suits
    }

    pub fn num_ranks(&self) -> (r: u8)
        ensures
            r == self.num_ranks,
    {
        self.num_ranks
    }

    pub fn num_hole_cards(&self) -> (r: u8)
        ensures
            r == self.num_hole_cards,
    {
        self.num_hole_cards
    }

    pub fn num_players(&self) -> (r: PlayerId)
        ensures
            r == self.num_players,
    {
        self.num_players
    }

    pub fn num_rounds(&self) -> (r: u8)
        ensures
            r == self.num_rounds,
    {
        self.num_rounds
    }

    pub fn num_board_cards(&self, round: u8) -> (r: u8)
        requires
            self.wf(),
            round < self.num_rounds,
        ensures
            r == self.num_board_cards@[round as int],
    {
        self.num_board_cards[round as usize]
    }

    /// The largest blind over seats `0..k` (0 when there is none).
    pub open spec fn max_blind(&self, k: int) -> int
        decreases k,
    {
        if k <= 0 {
            0
        } else {
            let b = self.blinds@[k - 1] as int;
            let m = self.max_blind(k - 1);
            if b > m {
                b
            } else {
                m
            }
        }
    }

    /// Board cards revealed in rounds `0..=round`.
    pub open spec fn board_cards_upto(&self, k: int) -> int
        decreases k,
    {
        if k <= 0 {
            0
        } else {
            self.board_cards_upto(k - 1) + self.num_board_cards@[k - 1] as int
        }
    }

    /// Total board cards visible in `round`: the sum of `num_board_cards[0..=round]`.
    pub fn total_board_cards(&self, round: u8) -> (r: u8)
        requires
            self.wf(),
            round < self.num_rounds,
            self.board_cards_upto(round + 1) <= u8::MAX,
        ensures
            r == self.board_cards_upto(round + 1),
    {
        let mut total: u8 = 0;
        let mut i: u8 = 0;
        while i <= round
            invariant
                self.wf(),
                round < self.num_rounds,
                i <= round + 1,
                total == self.board_cards_upto(i as int),
                self.board_cards_upto(round + 1) <= u8::MAX,
            decreases round + 1 - i,
        {
            proof {
                self.lemma_board_cards_monotone(i + 1, round + 1);
            }
            total = total + self.num_board_cards[i as usize];
            i = i + 1;
        }
        total
    }

    proof fn lemma_board_cards_monotone(&self, a: int, b: int)
        requires
            0 <= a <= b,
        ensures
            self.board_cards_upto(a) <= self.board_cards_upto(b),
        decreases b - a,
    {
        if a < b {
            self.lemma_board_cards_monotone(a, b - 1);
        }
    }
}

} // verus!
