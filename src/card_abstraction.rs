use vstd::prelude::*;
use crate::game::GameInfo;

verus! {

pub type BucketId = u32;

/// A card as the abstraction reads it: rank index and suit index.
#[derive(Clone, Copy, Debug, PartialEq, Eq, Structural)]
pub struct Card {
    pub rank: u8,
    pub suit: u8,
}

/// Digits of a mixed-radix number: the first `k` of `codes`, most significant first.
pub open spec fn mixed_radix(codes: Seq<int>, base: int, k: int) -> int
    decreases k,
{
    if k <= 0 {
        0
    } else {
        mixed_radix(codes, base, k - 1) * base + codes[k - 1]
    }
}

/// The code of one card: `rank * suits + suit`.
pub open spec fn card_code(c: Card, suits: int) -> int {
    c.rank * suits + c.suit
}

/// Codes of the first `h` hole cards followed by the first `b` board cards.
pub open spec fn hand_codes(hole: Seq<Card>, board: Seq<Card>, h: int, b: int, suits: int) -> Seq<int> {
    hole.take(h).map_values(|c: Card| card_code(c, suits)) + board.take(b).map_values(
        |c: Card| card_code(c, suits),
    )
}

proof fn lemma_radix_monotone(codes: Seq<int>, base: int, k: int, m: int)
    requires
        0 <= k <= m <= codes.len(),
        1 <= base,
        forall|i: int| 0 <= i < codes.len() ==> 0 <= codes[i],
    ensures
        0 <= mixed_radix(codes, base, k) <= mixed_radix(codes, base, m),
    decreases m,
{
    if m > 0 {
        if k < m {
            lemma_radix_monotone(codes, base, k, m - 1);
        } else {
            lemma_radix_monotone(codes, base, k - 1, m - 1);
        }
        let p = mixed_radix(codes, base, m - 1);
        assert(p <= p * base) by (nonlinear_arith)
            requires
                0 <= p,
                1 <= base,
        ;
    }
}

/// The identity abstraction: each distinct deal of hole and board cards is
/// its own bucket.
#[derive(Clone, Copy, Debug, PartialEq, Eq, Structural)]
pub struct NoBuckets {
    pub num_suits: u8,
    pub num_ranks: u8,
    pub num_board_cards: u8,
    pub num_hole_cards: u8,
}

impl NoBuckets {
    pub fn new(game_info: &GameInfo, round: u8) -> (r: NoBuckets)
        requires
            game_info.wf(),
            round < game_info.num_rounds,
            game_info.board_cards_upto(round + 1) <= u8::MAX,
        ensures
            r.num_suits == game_info.num_suits,
            r.num_ranks == game_info.num_ranks,
            r.num_board_cards == game_info.board_cards_upto(round + 1),
            r.num_hole_cards == game_info.num_hole_cards,
    {
        NoBuckets {
            num_suits: game_info.num_suits(),
            num_ranks: game_info.num_ranks(),
            num_board_cards: game_info.total_board_cards(round),
            num_hole_cards: game_info.num_hole_cards(),
        }
    }

    /// The cards this abstraction reads are valid for its deck.
    pub open spec fn reads_valid(&self, board_cards: Seq<Card>, hole_cards: Seq<Card>) -> bool {
        &&& hole_cards.len() >= self.num_hole_cards
        &&& board_cards.len() >= self.num_board_cards
        &&& forall|i: int|
            0 <= i < self.num_hole_cards ==> hole_cards[i].rank < self.num_ranks
                && hole_cards[i].suit < self.num_suits
        &&& forall|i: int|
            0 <= i < self.num_board_cards ==> board_cards[i].rank < self.num_ranks
                && board_cards[i].suit < self.num_suits
    }

    /// The bucket of a deal: the hole cards, then the board cards, read as the
    /// digits of a number in base `suits * ranks`.
    pub open spec fn bucket_of(&self, board_cards: Seq<Card>, hole_cards: Seq<Card>) -> int {
        let h = self.num_hole_cards as int;
        let b = self.num_board_cards as int;
        mixed_radix(
            hand_codes(hole_cards, board_cards, h, b, self.num_suits as int),
            self.num_suits * self.num_ranks,
            h + b,
        )
    }

    pub fn get_bucket(&self, board_cards: &Vec<Card>, hole_cards: &Vec<Card>) -> (r: BucketId)
        requires
            self.reads_valid(board_cards@, hole_cards@),
            self.bucket_of(board_cards@, hole_cards@) <= u32::MAX,
        ensures
            r == self.bucket_of(board_cards@, hole_cards@),
    {
        let ghost h = self.num_hole_cards as int;
        let ghost b = self.num_board_cards as int;
        let ghost suits = self.num_suits as int;
        let ghost codes = hand_codes(hole_cards@, board_cards@, h, b, suits);
        proof {
            let (su, ra) = (self.num_suits as int, self.num_ranks as int);
            assert(su * ra <= 255 * 255) by (nonlinear_arith)
                requires
                    0 <= su <= 255,
                    0 <= ra <= 255,
            ;
        }
        let base: u32 = self.num_suits as u32 * self.num_ranks as u32;
        proof {
            let hs = hole_cards@.take(h).map_values(|c: Card| card_code(c, suits));
            let bs = board_cards@.take(b).map_values(|c: Card| card_code(c, suits));
            assert(codes == hs + bs);
            assert(codes.len() == h + b);
            assert forall|i: int| 0 <= i < codes.len() implies 0 <= #[trigger] codes[i] < base by {
                let c = if i < h {
                    hole_cards@[i]
                } else {
                    board_cards@[i - h]
                };
                if i < h {
                    assert(codes[i] == hs[i]);
                } else {
                    assert(codes[i] == bs[i - h]);
                }
                assert(codes[i] == card_code(c, suits));
                let (cr, cs, nr) = (c.rank as int, c.suit as int, self.num_ranks as int);
                assert(0 <= cr * suits + cs < suits * nr) by (nonlinear_arith)
                    requires
                        0 <= cr < nr,
                        0 <= cs < suits,
                ;
            }
        }
        let mut bucket: u32 = 0;
        let mut i: u8 = 0;
        while i < self.num_hole_cards
            invariant
                self.reads_valid(board_cards@, hole_cards@),
                self.bucket_of(board_cards@, hole_cards@) <= u32::MAX,
                h == self.num_hole_cards,
                b == self.num_board_cards,
                suits == self.num_suits,
                codes == hand_codes(hole_cards@, board_cards@, h, b, suits),
                codes.len() == h + b,
                base == self.num_suits * self.num_ranks,
                forall|j: int| 0 <= j < codes.len() ==> 0 <= #[trigger] codes[j] < base,
                i <= h,
                bucket == mixed_radix(codes, base as int, i as int),
            decreases h - i,
        {
            proof {
                lemma_radix_monotone(codes, base as int, i + 1, h + b);
                let p = mixed_radix(codes, base as int, i as int);
                assert(p * base <= p * base + codes[i as int]);
            }
            let c = hole_cards[i as usize];
            assert(codes[i as int] == card_code(c, suits));
            bucket = bucket * base + (c.rank as u32 * self.num_suits as u32 + c.suit as u32);
            i = i + 1;
        }
        let mut j: u8 = 0;
        while j < self.num_board_cards
            invariant
                self.reads_valid(board_cards@, hole_cards@),
                self.bucket_of(board_cards@, hole_cards@) <= u32::MAX,
                h == self.num_hole_cards,
                b == self.num_board_cards,
                suits == self.num_suits,
                codes == hand_codes(hole_cards@, board_cards@, h, b, suits),
                codes.len() == h + b,
                base == self.num_suits * self.num_ranks,
                forall|k: int| 0 <= k < codes.len() ==> 0 <= #[trigger] codes[k] < base,
                j <= b,
                bucket == mixed_radix(codes, base as int, h + j),
            decreases b - j,
        {
            proof {
                lemma_radix_monotone(codes, base as int, h + j + 1, h + b);
                let p = mixed_radix(codes, base as int, h + j);
                assert(p * base <= p * base + codes[h + j]);
            }
            let c = board_cards[j as usize];
            assert(codes[h + j] == card_code(c, suits));
            bucket = bucket * base + (c.rank as u32 * self.num_suits as u32 + c.suit as u32);
            j = j + 1;
        }
        bucket
    }
}

/// The suit-isomorphic abstraction; every deal currently falls in bucket 0.
#[derive(Clone, Copy, Debug, PartialEq, Eq, Structural)]
pub struct LosslessBuckets {
    pub num_suits: u8,
    pub num_ranks: u8,
    pub num_board_cards: u8,
    pub num_hole_cards: u8,
}

impl LosslessBuckets {
    pub fn new(game_info: &GameInfo, round: u8) -> (r: LosslessBuckets)
        requires
            game_info.wf(),
            round < game_info.num_rounds,
            game_info.board_cards_upto(round + 1) <= u8::MAX,
        ensures
            r.num_suits == game_info.num_suits,
            r.num_ranks == game_info.num_ranks,
            r.num_board_cards == game_info.board_cards_upto(round + 1),
            r.num_hole_cards == game_info.num_hole_cards,
    {
        LosslessBuckets {
            num_suits: game_info.num_suits(),
            num_ranks: game_info.num_ranks(),
            num_board_cards: game_info.total_board_cards(round),
            num_hole_cards: game_info.num_hole_cards(),
        }
    }

    pub fn get_bucket(&self, board_cards: &Vec<Card>, hole_cards: &Vec<Card>) -> (r: BucketId)
        ensures
            r == 0,
    {
        0
    }
}

/// The bucketing strategy of one round.
#[derive(Clone, Copy, Debug, PartialEq, Eq, Structural)]
pub enum RoundBuckets {
    NoBuckets(NoBuckets),
    Lossless(LosslessBuckets),
}

impl RoundBuckets {
    pub open spec fn reads_valid(&self, board_cards: Seq<Card>, hole_cards: Seq<Card>) -> bool {
        match self {
            RoundBuckets::NoBuckets(nb) => nb.reads_valid(board_cards, hole_cards)
                && nb.bucket_of(board_cards, hole_cards) <= u32::MAX,
            RoundBuckets::Lossless(_) => true,
        }
    }

    pub open spec fn bucket_of(&self, board_cards: Seq<Card>, hole_cards: Seq<Card>) -> int {
        match self {
            RoundBuckets::NoBuckets(nb) => nb.bucket_of(board_cards, hole_cards),
            RoundBuckets::Lossless(_) => 0,
        }
    }

    pub fn get_bucket(&self, board_cards: &Vec<Card>, hole_cards: &Vec<Card>) -> (r: BucketId)
        requires
            self.reads_valid(board_cards@, hole_cards@),
        ensures
            r == self.bucket_of(board_cards@, hole_cards@),
    {
        match self {
            RoundBuckets::NoBuckets(nb) => nb.get_bucket(board_cards, hole_cards),
            RoundBuckets::Lossless(lb) => lb.get_bucket(board_cards, hole_cards),
        }
    }
}

/// A bucketing strategy for each betting round.
pub struct CardAbstraction {
    pub round_infosets: Vec<RoundBuckets>,
}

impl CardAbstraction {
    pub fn new(round_infosets: Vec<RoundBuckets>) -> (r: CardAbstraction)
        ensures
            r.round_infosets@ == round_infosets@,
    {
        CardAbstraction { round_infosets }
    }

    /// The bucket of a deal under the strategy of `round`.
    pub fn get_bucket(&self, round: u8, board_cards: &Vec<Card>, hole_cards: &Vec<Card>) -> (r:
        BucketId)
        requires
            round < self.round_infosets@.len(),
            self.round_infosets@[round as int].reads_valid(board_cards@, hole_cards@),
        ensures
            r == self.round_infosets@[round as int].bucket_of(board_cards@, hole_cards@),
    {
        self.round_infosets[round as usize].get_bucket(board_cards, hole_cards)
    }
}

} // verus!
