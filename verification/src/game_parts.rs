//! The single-trial game: a cherry counter driven by a seven-outcome die,
//! played until the counter is empty.

use vstd::prelude::*;
use vstd::pervasive::VecAdditionalExecFns;
use rand::Rng;
use crate::histogram::{Histogram, hist_wf, hist_total, hist_count, hist_weighted,
    lemma_hist_bounds};
use crate::utility::{calcuate_winner, seq_sum, lemma_seq_sum_update, lemma_seq_sum_bounds};

verus! {

/// The thread-local random generator of the rand crate, opaque here; it is
/// only created and handed to the sampling call below.
#[verifier::external_type_specification]
#[verifier::external_body]
pub struct ExThreadRng(rand::rngs::ThreadRng);

/// Hard ceiling on the roll counter of a single trial. A trial terminates
/// almost surely after a few dozen rolls; the ceiling only serves to bound
/// the counter so that it provably never overflows, and to bound the sums
/// that the aggregation stage takes over many trials.
pub const ROLL_CAP: i64 = 0x7fff_ffff;

/// The seven equally likely outcomes of one roll.
#[derive(Debug, Clone, Copy, PartialEq, Eq, Structural)]
pub enum RollOption {
    OneCherry,
    TwoCherry,
    ThreeCherry,
    FourCherry,
    Bird,
    Dog,
    OopsNoCherries,
}

/// The cherry counter after applying one roll to `c`: the four cherry
/// outcomes remove 1..4 cherries, the bird and the dog add 2, and the spill
/// resets the counter to 10; anything above 10 is clamped down to 10.
pub open spec fn roll_effect(c: int, roll: RollOption) -> int {
    let moved = match roll {
        RollOption::OneCherry => c - 1,
        RollOption::TwoCherry => c - 2,
        RollOption::ThreeCherry => c - 3,
        RollOption::FourCherry => c - 4,
        RollOption::Bird => c + 2,
        RollOption::Dog => c + 2,
        RollOption::OopsNoCherries => 10,
    };
    if moved > 10 {
        10
    } else {
        moved
    }
}

/// The outcome that die face `i` (0..7) stands for.
pub open spec fn index_roll(i: int) -> RollOption {
    if i == 0 {
        RollOption::OopsNoCherries
    } else if i == 1 {
        RollOption::OneCherry
    } else if i == 2 {
        RollOption::TwoCherry
    } else if i == 3 {
        RollOption::ThreeCherry
    } else if i == 4 {
        RollOption::FourCherry
    } else if i == 5 {
        RollOption::Bird
    } else {
        RollOption::Dog
    }
}

/// Applies one roll to a live counter (`1 <= cherries <= 10`).
pub fn cherries_after_roll(cherries: i64, roll: RollOption) -> (r: i64)
    requires
        1 <= cherries <= 10,
    ensures
        r == roll_effect(cherries as int, roll),
        -3 <= r <= 10,
{
    let moved = match roll {
        RollOption::OneCherry => cherries - 1,
        RollOption::TwoCherry => cherries - 2,
        RollOption::ThreeCherry => cherries - 3,
        RollOption::FourCherry => cherries - 4,
        RollOption::Bird => cherries + 2,
        RollOption::Dog => cherries + 2,
        RollOption::OopsNoCherries => 10,
    };
    if moved > 10 {
        10
    } else {
        moved
    }
}

/// Decodes a die face (0..7) into its outcome.
pub fn roll_option_from_index(idx: u8) -> (r: RollOption)
    requires
        idx < 7,
    ensures
        r == index_roll(idx as int),
{
    match idx {
        0 => RollOption::OopsNoCherries,
        1 => RollOption::OneCherry,
        2 => RollOption::TwoCherry,
        3 => RollOption::ThreeCherry,
        4 => RollOption::FourCherry,
        5 => RollOption::Bird,
        _ => RollOption::Dog,
    }
}

/// Relies on rand::thread_rng: a handle to the lazily-initialized
/// thread-local generator. Nothing is promised of it.
#[verifier::external_body]
fn fresh_rng() -> rand::rngs::ThreadRng {
    rand::thread_rng()
}

/// Relies on rand::Rng::gen_range: a value uniformly sampled from the given
/// range; the range 0..7 is non-empty, so the call does not panic and the
/// result is below 7.
#[verifier::external_body]
fn sample_roll_index(rng: &mut rand::rngs::ThreadRng) -> (r: u8)
    ensures
        r < 7,
{
    rng.gen_range(0..7u8)
}

/// One player's trial: a roll counter and the cherry counter.
#[derive(Debug, Clone, Copy)]
pub struct Game {
    count: i64,
    cherries: i64,
}

impl Game {
    /// The number of rolls taken so far.
    pub closed spec fn spec_rolls(self) -> int {
        self.count as int
    }

    /// The cherries left on the tree.
    pub closed spec fn spec_cherries(self) -> int {
        self.cherries as int
    }

    /// Ranges that every reachable game state stays in: the counter never
    /// exceeds the cap, and the cherry count sits between -3 (a spill past
    /// zero) and the full tree of 10.
    pub open spec fn wf(self) -> bool {
        &&& 0 <= self.spec_rolls() <= ROLL_CAP
        &&& -3 <= self.spec_cherries() <= 10
    }

    /// A fresh game: no rolls yet, a full tree of 10 cherries.
    pub fn new() -> (g: Self)
        ensures
            g.spec_rolls() == 0,
            g.spec_cherries() == 10,
            g.wf(),
    {
        Self { count: 0, cherries: 10 }
    }

    /// Plays a fresh game to the end and returns the number of rolls taken:
    /// rolls are sampled and applied until the cherry counter is exhausted
    /// (or, in principle only, until the roll counter hits its cap).
    pub fn game(&mut self) -> (r: i64)
        requires
            old(self).spec_rolls() == 0,
            old(self).spec_cherries() == 10,
        ensures
            r == final(self).spec_rolls(),
            1 <= r <= ROLL_CAP,
            final(self).wf(),
            r < ROLL_CAP ==> final(self).spec_cherries() <= 0,
    {
        let mut rng = fresh_rng();
        while self.cherries > 0 && self.count < ROLL_CAP
            invariant
                self.wf(),
                self.count == 0 ==> self.cherries == 10,
            decreases ROLL_CAP - self.count,
        {
            self.count = self.count + 1;
            let idx = sample_roll_index(&mut rng);
            let roll = roll_option_from_index(idx);
            self.cherries = cherries_after_roll(self.cherries, roll);
        }
        self.count
    }
}

/// One worker's accumulated results: extrema and total of all individual
/// roll counts, the local histogram, the per-player win tally (indexed by
/// player), and the winning (minimum) roll count of every round.
pub struct ThreadedGame {
    pub high_count: i64,
    pub low_count: i64,
    pub total_count: i64,
    pub hash_counts: Histogram,
    pub player_winners: Vec<i64>,
    pub min_rolls_to_win: Vec<i64>,
}

impl Default for ThreadedGame {
    /// An empty accumulator: the extrema start at the identities of max and
    /// min, everything else is empty or zero.
    fn default() -> (r: Self)
        ensures
            r.high_count == 0,
            r.low_count == i64::MAX,
            r.total_count == 0,
            r.hash_counts@ =~= Seq::<(i64, i64)>::empty(),
            r.player_winners@ =~= Seq::<i64>::empty(),
            r.min_rolls_to_win@ =~= Seq::<i64>::empty(),
    {
        ThreadedGame {
            high_count: 0,
            low_count: i64::MAX,
            total_count: 0,
            hash_counts: Histogram::new(),
            player_winners: Vec::new(),
            min_rolls_to_win: Vec::new(),
        }
    }
}

/// Runs `num` rounds of `player_count` independent trials each and folds
/// every result into one partial aggregate: the histogram receives every
/// player's roll count (so its total is `num * player_count` and its
/// key-weighted total is the running `total_count`), the extrema bound
/// every recorded key, the winner of each round (fewest rolls, lowest
/// player index on a tie) is tallied, and each round's minimum roll count
/// is appended in round order.
#[verifier::loop_isolation(false)]
pub fn threaded_games(num: usize, player_count: usize) -> (r: ThreadedGame)
    requires
        1 <= player_count <= isize::MAX,
        (num as int) * (player_count as int) <= i64::MAX,
        (num as int) * (player_count as int) * (ROLL_CAP as int) <= i64::MAX,
    ensures
        hist_wf(r.hash_counts@),
        hist_total(r.hash_counts@) == (num as int) * (player_count as int),
        r.total_count == hist_weighted(r.hash_counts@),
        0 <= r.total_count,
        forall|i: int|
            0 <= i < r.hash_counts@.len() ==> 1 <= #[trigger] r.hash_counts@[i].0 <= ROLL_CAP
                && r.low_count <= r.hash_counts@[i].0 <= r.high_count,
        r.player_winners@.len() == player_count,
        forall|p: int| 0 <= p < player_count ==> #[trigger] r.player_winners@[p] >= 0,
        seq_sum(r.player_winners@) == num,
        r.min_rolls_to_win@.len() == num,
        forall|i: int|
            0 <= i < num ==> 1 <= #[trigger] r.min_rolls_to_win@[i] <= ROLL_CAP
                && r.low_count <= r.min_rolls_to_win@[i] <= r.high_count,
        num == 0 ==> r.high_count == 0 && r.low_count == i64::MAX,
        num >= 1 ==> 1 <= r.low_count <= r.high_count && r.high_count <= ROLL_CAP,
        num >= 1 ==> hist_count(r.hash_counts@, r.high_count) >= 1 && hist_count(
            r.hash_counts@,
            r.low_count,
        ) >= 1,
{
    let mut tg = ThreadedGame::default();
    let mut winners: Vec<i64> = Vec::new();
    let mut p0: usize = 0;
    while p0 < player_count
        invariant
            p0 <= player_count,
            winners@.len() == p0,
            forall|q: int| 0 <= q < p0 ==> #[trigger] winners@[q] == 0,
            seq_sum(winners@) == 0,
        decreases player_count - p0,
    {
        let ghost prev = winners@;
        winners.push(0);
        proof {
            assert(winners@.drop_last() =~= prev);
        }
        p0 = p0 + 1;
    }
    tg.player_winners = winners;
    let mut round: usize = 0;
    while round < num
        invariant
            round <= num,
            hist_wf(tg.hash_counts@),
            hist_total(tg.hash_counts@) == (round as int) * (player_count as int),
            tg.total_count == hist_weighted(tg.hash_counts@),
            hist_total(tg.hash_counts@) <= hist_weighted(tg.hash_counts@),
            hist_weighted(tg.hash_counts@) <= hist_total(tg.hash_counts@) * (ROLL_CAP as int),
            forall|i: int|
                0 <= i < tg.hash_counts@.len() ==> 1 <= #[trigger] tg.hash_counts@[i].0
                    <= ROLL_CAP && tg.low_count <= tg.hash_counts@[i].0 <= tg.high_count,
            tg.player_winners@.len() == player_count,
            forall|p: int| 0 <= p < player_count ==> #[trigger] tg.player_winners@[p] >= 0,
            seq_sum(tg.player_winners@) == round,
            tg.min_rolls_to_win@.len() == round,
            forall|i: int|
                0 <= i < round ==> 1 <= #[trigger] tg.min_rolls_to_win@[i] <= ROLL_CAP
                    && tg.low_count <= tg.min_rolls_to_win@[i] <= tg.high_count,
            round == 0 ==> tg.high_count == 0 && tg.low_count == i64::MAX,
            round >= 1 ==> 1 <= tg.low_count <= tg.high_count && tg.high_count <= ROLL_CAP,
            round >= 1 ==> hist_count(tg.hash_counts@, tg.high_count) >= 1 && hist_count(
                tg.hash_counts@,
                tg.low_count,
            ) >= 1,
        decreases num - round,
    {
        let mut player_vec: Vec<i64> = Vec::new();
        let mut p: usize = 0;
        while p < player_count
            invariant
                p <= player_count,
                player_vec@.len() == p,
                forall|q: int| 0 <= q < p ==> 1 <= #[trigger] player_vec@[q] <= ROLL_CAP,
            decreases player_count - p,
        {
            let mut g = Game::new();
            let rolls = g.game();
            player_vec.push(rolls);
            p = p + 1;
        }
        let mut p2: usize = 0;
        while p2 < player_count
            invariant
                p2 <= player_count,
                hist_wf(tg.hash_counts@),
                hist_total(tg.hash_counts@) == (round as int) * (player_count as int) + p2,
                tg.total_count == hist_weighted(tg.hash_counts@),
                hist_total(tg.hash_counts@) <= hist_weighted(tg.hash_counts@),
                hist_weighted(tg.hash_counts@) <= hist_total(tg.hash_counts@) * (
                ROLL_CAP as int),
                forall|i: int|
                    0 <= i < tg.hash_counts@.len() ==> 1 <= #[trigger] tg.hash_counts@[i].0
                        <= ROLL_CAP && tg.low_count <= tg.hash_counts@[i].0 <= tg.high_count,
                tg.player_winners@.len() == player_count,
                forall|q: int| 0 <= q < player_count ==> #[trigger] tg.player_winners@[q] >= 0,
                seq_sum(tg.player_winners@) == round,
                tg.min_rolls_to_win@.len() == round,
                forall|i: int|
                    0 <= i < round ==> 1 <= #[trigger] tg.min_rolls_to_win@[i] <= ROLL_CAP
                        && tg.low_count <= tg.min_rolls_to_win@[i] <= tg.high_count,
                forall|q: int|
                    0 <= q < p2 ==> tg.low_count <= #[trigger] player_vec@[q]
                        <= tg.high_count,
                round == 0 && p2 == 0 ==> tg.high_count == 0 && tg.low_count == i64::MAX,
                round >= 1 || p2 >= 1 ==> 1 <= tg.low_count <= tg.high_count && tg.high_count
                    <= ROLL_CAP,
                round >= 1 || p2 >= 1 ==> hist_count(tg.hash_counts@, tg.high_count) >= 1
                    && hist_count(tg.hash_counts@, tg.low_count) >= 1,
            decreases player_count - p2,
        {
            let player = player_vec[p2];
            let ghost t0 = hist_total(tg.hash_counts@);
            proof {
                assert((round as int) * (player_count as int) + player_count <= (num as int)
                    * (player_count as int)) by (nonlinear_arith)
                    requires
                        round < num,
                        p2 < player_count,
                        0 <= round,
                        0 <= p2,
                ;
                lemma_hist_bounds(tg.hash_counts@);
            }
            tg.hash_counts.record(player, 1);
            proof {
                assert(hist_weighted(tg.hash_counts@) <= hist_total(tg.hash_counts@) * (
                ROLL_CAP as int)) by (nonlinear_arith)
                    requires
                        hist_weighted(tg.hash_counts@) <= (t0 * (ROLL_CAP as int)) + player,
                        hist_total(tg.hash_counts@) == t0 + 1,
                        player <= ROLL_CAP,
                        0 <= t0,
                ;
                assert(hist_total(tg.hash_counts@) * (ROLL_CAP as int) <= (num as int) * (
                player_count as int) * (ROLL_CAP as int)) by (nonlinear_arith)
                    requires
                        hist_total(tg.hash_counts@) <= (num as int) * (player_count as int),
                        0 < ROLL_CAP,
                        0 <= hist_total(tg.hash_counts@),
                ;
            }
            tg.total_count = tg.total_count + player;
            if player > tg.high_count {
                tg.high_count = player;
            }
            if player < tg.low_count {
                tg.low_count = player;
            }
            p2 = p2 + 1;
        }
        proof {
            assert((round as int) * (player_count as int) + player_count == ((round + 1) as int)
                * (player_count as int)) by (nonlinear_arith);
        }
        let w = calcuate_winner(player_vec.as_slice()).unwrap();
        let wi = w as usize;
        let min_val = player_vec[wi];
        let ghost prev_mins = tg.min_rolls_to_win@;
        tg.min_rolls_to_win.push(min_val);
        proof {
            assert(tg.min_rolls_to_win@.drop_last() =~= prev_mins);
        }
        proof {
            lemma_seq_sum_bounds(tg.player_winners@);
            assert((num as int) <= (num as int) * (player_count as int)) by (nonlinear_arith)
                requires
                    1 <= player_count,
                    0 <= num,
            ;
        }
        let cur = tg.player_winners[wi];
        proof {
            lemma_seq_sum_update(tg.player_winners@, wi as int, (cur + 1) as i64);
        }
        tg.player_winners.set(wi, cur + 1);
        round = round + 1;
    }
    tg
}

} // verus!
