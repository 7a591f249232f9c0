//! Winner determination, work partitioning, and the statistics computed over
//! merged histograms.

use vstd::prelude::*;
use crate::histogram::{Histogram, hist_wf, hist_total, hist_count, hist_weighted, hist_above,
    hist_median, lemma_hist_concat, lemma_hist_bounds, lemma_single_entry,
    lemma_hist_canonical};
use crate::game_parts::ThreadedGame;
use vstd::arithmetic::div_mod::lemma_fundamental_div_mod;
use vstd::arithmetic::mul::lemma_mul_inequality;

verus! {

/// The sum of a sequence of tallies.
pub open spec fn seq_sum(s: Seq<i64>) -> int
    decreases s.len(),
{
    if s.len() == 0 {
        0
    } else {
        seq_sum(s.drop_last()) + s.last()
    }
}

/// The sum of a sequence of trial counts.
pub open spec fn seq_usum(s: Seq<usize>) -> int
    decreases s.len(),
{
    if s.len() == 0 {
        0
    } else {
        seq_usum(s.drop_last()) + s.last()
    }
}

/// Replacing one element changes the sum by the difference.
pub proof fn lemma_seq_sum_update(s: Seq<i64>, i: int, v: i64)
    requires
        0 <= i < s.len(),
    ensures
        seq_sum(s.update(i, v)) == seq_sum(s) - s[i] + v,
    decreases s.len(),
{
    let su = s.update(i, v);
    if i == s.len() - 1 {
        assert(su.drop_last() =~= s.drop_last());
    } else {
        assert(su.drop_last() =~= s.drop_last().update(i, v));
        lemma_seq_sum_update(s.drop_last(), i, v);
    }
}

/// With non-negative elements the sum is non-negative and bounds each element.
pub proof fn lemma_seq_sum_bounds(s: Seq<i64>)
    requires
        forall|i: int| 0 <= i < s.len() ==> #[trigger] s[i] >= 0,
    ensures
        seq_sum(s) >= 0,
        forall|i: int| 0 <= i < s.len() ==> #[trigger] s[i] <= seq_sum(s),
    decreases s.len(),
{
    if s.len() > 0 {
        lemma_seq_sum_bounds(s.drop_last());
        assert forall|i: int| 0 <= i < s.len() implies #[trigger] s[i] <= seq_sum(s) by {
            if i < s.len() - 1 {
                assert(s.drop_last()[i] == s[i]);
            }
        }
    }
}

/// The first index at which a sequence attains its minimum.
pub open spec fn is_first_min_index(s: Seq<i64>, w: int) -> bool {
    &&& 0 <= w < s.len()
    &&& forall|j: int| 0 <= j < s.len() ==> #[trigger] s[j] >= s[w]
    &&& forall|j: int| 0 <= j < w ==> #[trigger] s[j] > s[w]
}

/// The round's winner: the player with the fewest rolls, ties broken to the
/// lowest player index. Defined for every non-empty round.
pub fn calcuate_winner(player_vec: &[i64]) -> (r: Option<isize>)
    requires
        1 <= player_vec@.len() <= isize::MAX,
    ensures
        r is Some,
        is_first_min_index(player_vec@, r.unwrap() as int),
{
    let n = player_vec.len();
    let mut min_value: i64 = player_vec[0];
    let mut i: usize = 1;
    while i < n
        invariant
            1 <= i <= n,
            n == player_vec@.len(),
            exists|j: int| 0 <= j < i && player_vec@[j] == min_value,
            forall|j: int| 0 <= j < i ==> #[trigger] player_vec@[j] >= min_value,
        decreases n - i,
    {
        if player_vec[i] < min_value {
            min_value = player_vec[i];
        }
        i = i + 1;
    }
    let mut k: usize = 0;
    while k < n
        invariant
            0 <= k <= n,
            n == player_vec@.len(),
            n <= isize::MAX,
            exists|j: int| 0 <= j < n && player_vec@[j] == min_value,
            forall|j: int| 0 <= j < n ==> #[trigger] player_vec@[j] >= min_value,
            forall|j: int| 0 <= j < k ==> #[trigger] player_vec@[j] > min_value,
        decreases n - k,
    {
        if player_vec[k] == min_value {
            return Some(k as isize);
        }
        k = k + 1;
    }
    proof {
        assert(false);
    }
    None
}

/// The number of recorded results at or above `threshold`.
pub fn games_above_threshold(threshold: i64, hist: &Histogram) -> (r: i64)
    requires
        forall|i: int| 0 <= i < hist@.len() ==> #[trigger] hist@[i].1 >= 0,
        hist_total(hist@) <= i64::MAX,
    ensures
        r == hist_above(hist@, threshold),
{
    let ghost h = hist@;
    let mut count: i64 = 0;
    let n = hist.entries.len();
    let mut i: usize = 0;
    while i < n
        invariant
            0 <= i <= n,
            n == h.len(),
            h == hist@,
            forall|j: int| 0 <= j < h.len() ==> #[trigger] h[j].1 >= 0,
            hist_total(h) <= i64::MAX,
            count == hist_above(h.take(i as int), threshold),
            count >= 0,
        decreases n - i,
    {
        let ghost ii = i as int;
        proof {
            assert(h.take(ii + 1) =~= h.take(ii) + seq![h[ii]]);
            lemma_hist_concat(h.take(ii), seq![h[ii]]);
            lemma_single_entry(h[ii]);
            assert(h =~= h.take(ii + 1) + h.skip(ii + 1));
            lemma_hist_concat(h.take(ii + 1), h.skip(ii + 1));
            lemma_hist_bounds(h.take(ii + 1));
            lemma_hist_bounds(h.skip(ii + 1));
            assert(hist_above(h.take(ii + 1), threshold) <= hist_total(h));
        }
        let entry = hist.entries[i];
        if entry.0 >= threshold {
            count = count + entry.1;
        }
        i = i + 1;
    }
    proof {
        assert(h.take(n as int) =~= h);
    }
    count
}

/// The weighted median of a histogram over `num_games` recorded results:
/// the first key, in ascending key order, whose cumulative count exceeds
/// half the games (integer division); 0 when no key reaches it.
pub fn median_calc(num_games: &i64, hist: &Histogram) -> (r: i64)
    requires
        *num_games >= 0,
        forall|i: int| 0 <= i < hist@.len() ==> #[trigger] hist@[i].1 >= 0,
        hist_total(hist@) <= i64::MAX,
    ensures
        r == hist_median(hist@, *num_games as int / 2),
{
    let ghost h = hist@;
    let half = *num_games / 2;
    let mut c: i64 = 0;
    let n = hist.entries.len();
    let mut i: usize = 0;
    proof {
        assert(h.skip(0) =~= h);
    }
    while i < n
        invariant
            0 <= i <= n,
            n == h.len(),
            h == hist@,
            forall|j: int| 0 <= j < h.len() ==> #[trigger] h[j].1 >= 0,
            hist_total(h) <= i64::MAX,
            c == hist_total(h.take(i as int)),
            c >= 0,
            half == *num_games as int / 2,
            hist_median(h, half as int) == hist_median(h.skip(i as int), half - c),
        decreases n - i,
    {
        let ghost ii = i as int;
        proof {
            assert(h.take(ii + 1) =~= h.take(ii) + seq![h[ii]]);
            lemma_hist_concat(h.take(ii), seq![h[ii]]);
            lemma_single_entry(h[ii]);
            assert(h =~= h.take(ii + 1) + h.skip(ii + 1));
            lemma_hist_concat(h.take(ii + 1), h.skip(ii + 1));
            lemma_hist_bounds(h.skip(ii + 1));
            assert(hist_total(h.take(ii + 1)) <= hist_total(h));
        }
        let entry = hist.entries[i];
        c = c + entry.1;
        if c > half {
            proof {
                assert(h.skip(ii)[0] == h[ii]);
                assert(hist_median(h.skip(ii), half - (c - entry.1)) == entry.0);
            }
            return entry.0;
        }
        proof {
            assert(h.skip(ii).drop_first() =~= h.skip(ii + 1));
            assert(hist_median(h.skip(ii), half - (c - entry.1)) == hist_median(
                h.skip(ii + 1),
                half - c,
            ));
        }
        i = i + 1;
    }
    proof {
        assert(h.skip(n as int) =~= Seq::<(i64, i64)>::empty());
    }
    0
}

/// Splits `total_trials` trials across `worker_count` workers: every worker
/// gets the base share `total_trials / worker_count`, and worker 0 also gets
/// the remainder, so that the shares add up to exactly `total_trials`.
pub fn partition(total_trials: usize, worker_count: usize) -> (r: Vec<usize>)
    requires
        worker_count >= 1,
    ensures
        r@.len() == worker_count,
        r@[0] == total_trials / worker_count + total_trials % worker_count,
        forall|i: int|
            1 <= i < worker_count ==> #[trigger] r@[i] == total_trials / worker_count,
        seq_usum(r@) == total_trials,
        total_trials % worker_count != 0 ==> r@[0] != total_trials / worker_count,
{
    let base = total_trials / worker_count;
    let remainder = total_trials % worker_count;
    proof {
        lemma_fundamental_div_mod(total_trials as int, worker_count as int);
        lemma_mul_inequality(1, worker_count as int, base as int);
    }
    let mut r: Vec<usize> = Vec::new();
    r.push(base + remainder);
    proof {
        assert(r@.drop_last() =~= Seq::<usize>::empty());
        assert(seq_usum(r@) == seq_usum(r@.drop_last()) + r@.last());
        assert((1 - 1) * (base as int) == 0) by (nonlinear_arith);
    }
    let mut i: usize = 1;
    while i < worker_count
        invariant
            1 <= i <= worker_count,
            r@.len() == i,
            r@[0] == base + remainder,
            forall|j: int| 1 <= j < i ==> #[trigger] r@[j] == base,
            seq_usum(r@) == base + remainder + (i - 1) * base,
        decreases worker_count - i,
    {
        let ghost prev = r@;
        r.push(base);
        proof {
            assert(r@.drop_last() =~= prev);
            assert((i as int) * base == (i - 1) * base + base) by (nonlinear_arith);
        }
        i = i + 1;
    }
    proof {
        assert((worker_count - 1) * base + base == (worker_count as int) * base)
            by (nonlinear_arith);
        lemma_fundamental_div_mod(total_trials as int, worker_count as int);
        assert((worker_count as int) * base == (worker_count as int) * (total_trials as int
            / worker_count as int));
    }
    r
}

/// The merged global statistics record. The two averages the report shows
/// are kept as exact integer numerators here: the mean of all roll counts is
/// `total_count` over the number of recorded results, and the average
/// rolls-to-finish per round is `min_rolls_sum` over `game_num`; the
/// reporting layer performs the divisions.
pub struct GameStats {
    pub game_num: usize,
    pub player_count: usize,
    pub high_count: i64,
    pub low_count: i64,
    pub total_count: i64,
    pub total_winners: Vec<i64>,
    pub min_rolls_sum: i64,
    pub median: i64,
    pub mode: (i64, i64),
}

impl Default for GameStats {
    /// An all-zero record with no winner tallies.
    fn default() -> (r: Self)
        ensures
            r.game_num == 0,
            r.player_count == 0,
            r.high_count == 0,
            r.low_count == 0,
            r.total_count == 0,
            r.total_winners@ =~= Seq::<i64>::empty(),
            r.min_rolls_sum == 0,
            r.median == 0,
            r.mode == (0i64, 0i64),
    {
        GameStats {
            game_num: 0,
            player_count: 0,
            high_count: 0,
            low_count: 0,
            total_count: 0,
            total_winners: Vec::new(),
            min_rolls_sum: 0,
            median: 0,
            mode: (0, 0),
        }
    }
}

/// `m` is an entry of the histogram with the largest count; among equally
/// large counts it is the one with the smallest key.
pub open spec fn is_mode(s: Seq<(i64, i64)>, m: (i64, i64)) -> bool {
    &&& exists|i: int| 0 <= i < s.len() && #[trigger] s[i] == m
    &&& forall|i: int| 0 <= i < s.len() ==> #[trigger] s[i].1 <= m.1
    &&& forall|i: int| 0 <= i < s.len() && #[trigger] s[i].1 == m.1 ==> s[i].0 >= m.0
}

/// Fills the order statistics of a merged, non-empty histogram into the
/// record: the mode (largest count, smallest key on a tie) and the weighted
/// median over `game_played` recorded results. Every other field is left as
/// it was.
pub fn calculate_statistics(hist: &Histogram, game_played: &i64, game_stats: &mut GameStats)
    requires
        hist_wf(hist@),
        hist@.len() >= 1,
        *game_played >= 0,
        hist_total(hist@) <= i64::MAX,
    ensures
        is_mode(hist@, final(game_stats).mode),
        final(game_stats).median == hist_median(hist@, *game_played as int / 2),
        final(game_stats).game_num == old(game_stats).game_num,
        final(game_stats).player_count == old(game_stats).player_count,
        final(game_stats).high_count == old(game_stats).high_count,
        final(game_stats).low_count == old(game_stats).low_count,
        final(game_stats).total_count == old(game_stats).total_count,
        final(game_stats).total_winners == old(game_stats).total_winners,
        final(game_stats).min_rolls_sum == old(game_stats).min_rolls_sum,
{
    let ghost h = hist@;
    let n = hist.entries.len();
    let mut best: (i64, i64) = hist.entries[0];
    let ghost mut bi: int = 0;
    let mut i: usize = 1;
    while i < n
        invariant
            1 <= i <= n,
            n == h.len(),
            h == hist@,
            hist_wf(h),
            0 <= bi < i,
            h[bi] == best,
            forall|j: int| 0 <= j < i ==> #[trigger] h[j].1 <= best.1,
            forall|j: int| 0 <= j < i && #[trigger] h[j].1 == best.1 ==> h[j].0 >= best.0,
        decreases n - i,
    {
        let entry = hist.entries[i];
        if entry.1 > best.1 {
            best = entry;
            proof {
                bi = i as int;
            }
        } else {
            proof {
                if entry.1 == best.1 {
                    assert(h[bi].0 < h[i as int].0);
                }
            }
        }
        i = i + 1;
    }
    game_stats.mode = best;
    game_stats.median = median_calc(game_played, hist);
}

/// The sum of the partials' `total_count` fields.
pub open spec fn tg_totals(s: Seq<ThreadedGame>) -> int
    decreases s.len(),
{
    if s.len() == 0 {
        0
    } else {
        tg_totals(s.drop_last()) + s.last().total_count
    }
}

/// The sum over the partials of player `p`'s win tally.
pub open spec fn tg_col(s: Seq<ThreadedGame>, p: int) -> int
    decreases s.len(),
{
    if s.len() == 0 {
        0
    } else {
        tg_col(s.drop_last(), p) + s.last().player_winners@[p]
    }
}

/// The sum over the partials of all per-round minimum roll counts.
pub open spec fn tg_mins(s: Seq<ThreadedGame>) -> int
    decreases s.len(),
{
    if s.len() == 0 {
        0
    } else {
        tg_mins(s.drop_last()) + seq_sum(s.last().min_rolls_to_win@)
    }
}

/// The largest `high_count` among the partials, at least 0.
pub open spec fn tg_high(s: Seq<ThreadedGame>) -> int
    decreases s.len(),
{
    if s.len() == 0 {
        0
    } else if s.last().high_count > tg_high(s.drop_last()) {
        s.last().high_count as int
    } else {
        tg_high(s.drop_last())
    }
}

/// The smallest `low_count` among the partials, at most `i64::MAX`.
pub open spec fn tg_low(s: Seq<ThreadedGame>) -> int
    decreases s.len(),
{
    if s.len() == 0 {
        i64::MAX as int
    } else if s.last().low_count < tg_low(s.drop_last()) {
        s.last().low_count as int
    } else {
        tg_low(s.drop_last())
    }
}

/// The sum of the partials' histogram totals.
pub open spec fn tg_hist_total(s: Seq<ThreadedGame>) -> int
    decreases s.len(),
{
    if s.len() == 0 {
        0
    } else {
        tg_hist_total(s.drop_last()) + hist_total(s.last().hash_counts@)
    }
}

/// The sum of the partials' histogram counts for key `k`.
pub open spec fn tg_hist_count(s: Seq<ThreadedGame>, k: i64) -> int
    decreases s.len(),
{
    if s.len() == 0 {
        0
    } else {
        tg_hist_count(s.drop_last(), k) + hist_count(s.last().hash_counts@, k)
    }
}

/// The sum of the partials' key-weighted histogram totals.
pub open spec fn tg_hist_weighted(s: Seq<ThreadedGame>) -> int
    decreases s.len(),
{
    if s.len() == 0 {
        0
    } else {
        tg_hist_weighted(s.drop_last()) + hist_weighted(s.last().hash_counts@)
    }
}

/// The summed partial aggregates split across a concatenation.
pub proof fn lemma_tg_concat(a: Seq<ThreadedGame>, b: Seq<ThreadedGame>)
    ensures
        tg_totals(a + b) == tg_totals(a) + tg_totals(b),
        tg_mins(a + b) == tg_mins(a) + tg_mins(b),
        tg_hist_total(a + b) == tg_hist_total(a) + tg_hist_total(b),
        tg_hist_weighted(a + b) == tg_hist_weighted(a) + tg_hist_weighted(b),
        forall|p: int| #[trigger] tg_col(a + b, p) == tg_col(a, p) + tg_col(b, p),
        forall|k: i64| #[trigger] tg_hist_count(a + b, k) == tg_hist_count(a, k)
            + tg_hist_count(b, k),
    decreases b.len(),
{
    if b.len() == 0 {
        assert(a + b =~= a);
    } else {
        assert((a + b).drop_last() =~= a + b.drop_last());
        lemma_tg_concat(a, b.drop_last());
        assert((a + b).last() == b.last());
        assert forall|p: int| #[trigger] tg_col(a + b, p) == tg_col(a, p) + tg_col(b, p) by {
            assert(tg_col(a + b, p) == tg_col((a + b).drop_last(), p) + (
            a + b).last().player_winners@[p]);
            assert(tg_col(b, p) == tg_col(b.drop_last(), p) + b.last().player_winners@[p]);
        }
        assert forall|k: i64| #[trigger] tg_hist_count(a + b, k) == tg_hist_count(a, k)
            + tg_hist_count(b, k) by {
            assert(tg_hist_count(a + b, k) == tg_hist_count((a + b).drop_last(), k) + hist_count(
                (a + b).last().hash_counts@,
                k,
            ));
            assert(tg_hist_count(b, k) == tg_hist_count(b.drop_last(), k) + hist_count(
                b.last().hash_counts@,
                k,
            ));
        }
    }
}

/// With non-negative fields in every partial, the summed aggregates are
/// non-negative.
pub proof fn lemma_tg_bounds(s: Seq<ThreadedGame>, player_count: int)
    requires
        forall|i: int| 0 <= i < s.len() ==> #[trigger] s[i].total_count >= 0,
        forall|i: int, j: int|
            0 <= i < s.len() && 0 <= j < s[i].min_rolls_to_win@.len()
                ==> #[trigger] s[i].min_rolls_to_win@[j] >= 0,
        forall|i: int, q: int|
            0 <= i < s.len() && 0 <= q < player_count
                ==> #[trigger] s[i].player_winners@[q] >= 0,
        forall|i: int| 0 <= i < s.len() ==> #[trigger] s[i].player_winners@.len()
            == player_count,
    ensures
        tg_totals(s) >= 0,
        tg_mins(s) >= 0,
        forall|q: int| 0 <= q < player_count ==> #[trigger] tg_col(s, q) >= 0,
    decreases s.len(),
{
    if s.len() > 0 {
        lemma_tg_bounds(s.drop_last(), player_count);
        lemma_seq_sum_bounds(s.last().min_rolls_to_win@);
        assert forall|q: int| 0 <= q < player_count implies #[trigger] tg_col(s, q) >= 0 by {
            assert(tg_col(s, q) == tg_col(s.drop_last(), q) + s.last().player_winners@[q]);
            assert(s.last().player_winners@[q] >= 0);
        }
    }
}

/// With a well-formed histogram in every partial, the summed histogram
/// counts are non-negative and each key's sum stays below the summed total.
pub proof fn lemma_tg_hist_bounds(s: Seq<ThreadedGame>)
    requires
        forall|i: int| 0 <= i < s.len() ==> hist_wf(#[trigger] s[i].hash_counts@),
    ensures
        tg_hist_total(s) >= 0,
        forall|k: i64| 0 <= #[trigger] tg_hist_count(s, k) <= tg_hist_total(s),
    decreases s.len(),
{
    if s.len() > 0 {
        lemma_tg_hist_bounds(s.drop_last());
        lemma_hist_bounds(s.last().hash_counts@);
        assert forall|k: i64| 0 <= #[trigger] tg_hist_count(s, k) <= tg_hist_total(s) by {
            assert(tg_hist_count(s, k) == tg_hist_count(s.drop_last(), k) + hist_count(
                s.last().hash_counts@,
                k,
            ));
        }
    }
}

/// A concatenation splits the sum.
pub proof fn lemma_seq_sum_concat(a: Seq<i64>, b: Seq<i64>)
    ensures
        seq_sum(a + b) == seq_sum(a) + seq_sum(b),
    decreases b.len(),
{
    if b.len() == 0 {
        assert(a + b =~= a);
    } else {
        assert((a + b).drop_last() =~= a + b.drop_last());
        lemma_seq_sum_concat(a, b.drop_last());
    }
}

/// The elementwise facts that the aggregation relies on, restricted to a
/// prefix and the matching suffix of the partial list.
pub proof fn lemma_tg_elem_facts(s: Seq<ThreadedGame>, player_count: int, i: int)
    requires
        0 <= i <= s.len(),
        forall|a: int| 0 <= a < s.len() ==> #[trigger] s[a].player_winners@.len()
            == player_count,
        forall|a: int, q: int|
            0 <= a < s.len() && 0 <= q < player_count ==> #[trigger] s[a].player_winners@[q]
                >= 0,
        forall|a: int| 0 <= a < s.len() ==> #[trigger] s[a].total_count >= 0,
        forall|a: int, j: int|
            0 <= a < s.len() && 0 <= j < s[a].min_rolls_to_win@.len()
                ==> #[trigger] s[a].min_rolls_to_win@[j] >= 0,
    ensures
        forall|a: int| 0 <= a < s.take(i).len() ==> #[trigger] s.take(i)[a].player_winners@.len()
            == player_count,
        forall|a: int, q: int|
            0 <= a < s.take(i).len() && 0 <= q < player_count ==> #[trigger] s.take(
                i,
            )[a].player_winners@[q] >= 0,
        forall|a: int| 0 <= a < s.take(i).len() ==> #[trigger] s.take(i)[a].total_count >= 0,
        forall|a: int, j: int|
            0 <= a < s.take(i).len() && 0 <= j < s.take(i)[a].min_rolls_to_win@.len()
                ==> #[trigger] s.take(i)[a].min_rolls_to_win@[j] >= 0,
        forall|a: int| 0 <= a < s.skip(i).len() ==> #[trigger] s.skip(i)[a].player_winners@.len()
            == player_count,
        forall|a: int, q: int|
            0 <= a < s.skip(i).len() && 0 <= q < player_count ==> #[trigger] s.skip(
                i,
            )[a].player_winners@[q] >= 0,
        forall|a: int| 0 <= a < s.skip(i).len() ==> #[trigger] s.skip(i)[a].total_count >= 0,
        forall|a: int, j: int|
            0 <= a < s.skip(i).len() && 0 <= j < s.skip(i)[a].min_rolls_to_win@.len()
                ==> #[trigger] s.skip(i)[a].min_rolls_to_win@[j] >= 0,
{
    assert forall|a: int| 0 <= a < s.take(i).len() implies #[trigger] s.take(
        i,
    )[a].player_winners@.len() == player_count by {
        assert(s.take(i)[a] == s[a]);
    }
    assert forall|a: int, q: int|
        0 <= a < s.take(i).len() && 0 <= q < player_count implies #[trigger] s.take(
        i,
    )[a].player_winners@[q] >= 0 by {
        assert(s.take(i)[a] == s[a]);
    }
    assert forall|a: int| 0 <= a < s.take(i).len() implies #[trigger] s.take(i)[a].total_count
        >= 0 by {
        assert(s.take(i)[a] == s[a]);
    }
    assert forall|a: int, j: int|
        0 <= a < s.take(i).len() && 0 <= j < s.take(i)[a].min_rolls_to_win@.len()
        implies #[trigger] s.take(i)[a].min_rolls_to_win@[j] >= 0 by {
        assert(s.take(i)[a] == s[a]);
    }
    assert forall|a: int| 0 <= a < s.skip(i).len() implies #[trigger] s.skip(
        i,
    )[a].player_winners@.len() == player_count by {
        assert(s.skip(i)[a] == s[a + i]);
    }
    assert forall|a: int, q: int|
        0 <= a < s.skip(i).len() && 0 <= q < player_count implies #[trigger] s.skip(
        i,
    )[a].player_winners@[q] >= 0 by {
        assert(s.skip(i)[a] == s[a + i]);
    }
    assert forall|a: int| 0 <= a < s.skip(i).len() implies #[trigger] s.skip(i)[a].total_count
        >= 0 by {
        assert(s.skip(i)[a] == s[a + i]);
    }
    assert forall|a: int, j: int|
        0 <= a < s.skip(i).len() && 0 <= j < s.skip(i)[a].min_rolls_to_win@.len()
        implies #[trigger] s.skip(i)[a].min_rolls_to_win@[j] >= 0 by {
        assert(s.skip(i)[a] == s[a + i]);
    }
}

/// Merges the partial aggregates into one record: the largest high count,
/// the smallest low count, the summed roll-count total, the elementwise sum
/// of the per-player win tallies (every partial must tally exactly
/// `player_count` players), and the summed per-round minimums. The order
/// statistics (median, mode) are left zeroed for `calculate_statistics`.
#[verifier::loop_isolation(false)]
pub fn high_low_total_counts(
    hash_list: &Vec<ThreadedGame>,
    player_count: usize,
    game_num: usize,
) -> (r: GameStats)
    requires
        forall|a: int| 0 <= a < hash_list@.len() ==> #[trigger] hash_list@[a].player_winners@.len()
            == player_count,
        forall|a: int, q: int|
            0 <= a < hash_list@.len() && 0 <= q < player_count
                ==> #[trigger] hash_list@[a].player_winners@[q] >= 0,
        forall|a: int| 0 <= a < hash_list@.len() ==> #[trigger] hash_list@[a].total_count >= 0,
        forall|a: int, j: int|
            0 <= a < hash_list@.len() && 0 <= j < hash_list@[a].min_rolls_to_win@.len()
                ==> #[trigger] hash_list@[a].min_rolls_to_win@[j] >= 0,
        tg_totals(hash_list@) <= i64::MAX,
        forall|q: int| 0 <= q < player_count ==> #[trigger] tg_col(hash_list@, q) <= i64::MAX,
        tg_mins(hash_list@) <= i64::MAX,
    ensures
        r.game_num == game_num,
        r.player_count == player_count,
        r.high_count == tg_high(hash_list@),
        r.low_count == tg_low(hash_list@),
        r.total_count == tg_totals(hash_list@),
        r.total_winners@.len() == player_count,
        forall|q: int| 0 <= q < player_count ==> #[trigger] r.total_winners@[q] == tg_col(
            hash_list@,
            q,
        ),
        r.min_rolls_sum == tg_mins(hash_list@),
        r.median == 0,
        r.mode == (0i64, 0i64),
{
    let ghost s = hash_list@;
    let mut high_count: i64 = 0;
    let mut low_count: i64 = i64::MAX;
    let mut total_count: i64 = 0;
    let mut min_rolls_sum: i64 = 0;
    let mut total_winners: Vec<i64> = Vec::new();
    let mut p0: usize = 0;
    while p0 < player_count
        invariant
            p0 <= player_count,
            total_winners@.len() == p0,
            forall|q: int| 0 <= q < p0 ==> #[trigger] total_winners@[q] == 0,
        decreases player_count - p0,
    {
        total_winners.push(0);
        p0 = p0 + 1;
    }
    let n = hash_list.len();
    let mut i: usize = 0;
    proof {
        assert(s.take(0) =~= Seq::<ThreadedGame>::empty());
    }
    while i < n
        invariant
            0 <= i <= n,
            high_count == tg_high(s.take(i as int)),
            low_count == tg_low(s.take(i as int)),
            total_count == tg_totals(s.take(i as int)),
            min_rolls_sum == tg_mins(s.take(i as int)),
            total_winners@.len() == player_count,
            forall|q: int| 0 <= q < player_count ==> #[trigger] total_winners@[q] == tg_col(
                s.take(i as int),
                q,
            ),
        decreases n - i,
    {
        let ghost ii = i as int;
        proof {
            assert(s.take(ii + 1).drop_last() =~= s.take(ii));
            assert(s.take(ii + 1).last() == s[ii]);
            assert(tg_totals(s.take(ii + 1)) == tg_totals(s.take(ii)) + s[ii].total_count);
            assert(tg_mins(s.take(ii + 1)) == tg_mins(s.take(ii)) + seq_sum(
                s[ii].min_rolls_to_win@,
            ));
            assert forall|q: int| 0 <= q < player_count implies #[trigger] tg_col(
                s.take(ii + 1),
                q,
            ) == tg_col(s.take(ii), q) + s[ii].player_winners@[q] by {
                assert(tg_col(s.take(ii + 1), q) == tg_col(s.take(ii + 1).drop_last(), q)
                    + s.take(ii + 1).last().player_winners@[q]);
            }
            assert(s =~= s.take(ii + 1) + s.skip(ii + 1));
            lemma_tg_concat(s.take(ii + 1), s.skip(ii + 1));
            lemma_tg_elem_facts(s, player_count as int, ii);
            lemma_tg_elem_facts(s, player_count as int, ii + 1);
            lemma_tg_bounds(s.take(ii), player_count as int);
            lemma_tg_bounds(s.take(ii + 1), player_count as int);
            lemma_tg_bounds(s.skip(ii + 1), player_count as int);
            lemma_seq_sum_bounds(s[ii].min_rolls_to_win@);
        }
        let part = &hash_list[i];
        if part.high_count > high_count {
            high_count = part.high_count;
        }
        if part.low_count < low_count {
            low_count = part.low_count;
        }
        total_count = total_count + part.total_count;
        let mut q: usize = 0;
        while q < player_count
            invariant
                0 <= q <= player_count,
                total_winners@.len() == player_count,
                forall|q2: int| 0 <= q2 < q ==> #[trigger] total_winners@[q2] == tg_col(
                    s.take(ii + 1),
                    q2,
                ),
                forall|q2: int| q <= q2 < player_count ==> #[trigger] total_winners@[q2]
                    == tg_col(s.take(ii), q2),
            decreases player_count - q,
        {
            let cur = total_winners[q];
            let add_part = part.player_winners[q];
            proof {
                let qi = q as int;
                assert(tg_col(s.take(ii + 1), qi) == tg_col(s.take(ii), qi)
                    + s[ii].player_winners@[qi]);
                assert(tg_col(s.take(ii + 1) + s.skip(ii + 1), qi) == tg_col(s.take(ii + 1), qi)
                    + tg_col(s.skip(ii + 1), qi));
                assert(tg_col(s, qi) <= i64::MAX);
                assert(tg_col(s.skip(ii + 1), qi) >= 0);
                assert(tg_col(s.take(ii), qi) >= 0);
                lemma_seq_sum_update(total_winners@, qi, (cur + add_part) as i64);
            }
            total_winners.set(q, cur + add_part);
            q = q + 1;
        }
        let mins = &part.min_rolls_to_win;
        let m = mins.len();
        let mut j: usize = 0;
        proof {
            assert(mins@.take(0) =~= Seq::<i64>::empty());
        }
        while j < m
            invariant
                0 <= j <= m,
                m == mins@.len(),
                min_rolls_sum == tg_mins(s.take(ii)) + seq_sum(mins@.take(j as int)),
            decreases m - j,
        {
            let ghost jj = j as int;
            proof {
                assert(mins@.take(jj + 1).drop_last() =~= mins@.take(jj));
                assert(mins@.take(jj + 1).last() == mins@[jj]);
                assert(mins@ =~= mins@.take(jj + 1) + mins@.skip(jj + 1));
                lemma_seq_sum_concat(mins@.take(jj + 1), mins@.skip(jj + 1));
                assert forall|a: int| 0 <= a < mins@.skip(jj + 1).len() implies #[trigger] mins@.skip(
                    jj + 1,
                )[a] >= 0 by {
                    assert(mins@.skip(jj + 1)[a] == mins@[a + jj + 1]);
                }
                lemma_seq_sum_bounds(mins@.skip(jj + 1));
                assert forall|a: int| 0 <= a < mins@.take(jj + 1).len() implies #[trigger] mins@.take(
                    jj + 1,
                )[a] >= 0 by {
                    assert(mins@.take(jj + 1)[a] == mins@[a]);
                }
                lemma_seq_sum_bounds(mins@.take(jj + 1));
            }
            min_rolls_sum = min_rolls_sum + mins[j];
            j = j + 1;
        }
        proof {
            assert(mins@.take(m as int) =~= mins@);
        }
        i = i + 1;
    }
    proof {
        assert(s.take(n as int) =~= s);
    }
    GameStats {
        game_num,
        player_count,
        high_count,
        low_count,
        total_count,
        total_winners,
        min_rolls_sum,
        median: 0,
        mode: (0, 0),
    }
}

/// Merges the per-worker histograms into one: every key's merged count is
/// the sum of that key's counts across all partials, so the merged total
/// (and the merged key-weighted total) is the sum of the partial totals and
/// every recorded result is represented exactly once.
#[verifier::loop_isolation(false)]
pub fn merge_histograms(hash_list: &Vec<ThreadedGame>) -> (r: Histogram)
    requires
        forall|a: int|
            0 <= a < hash_list@.len() ==> hist_wf(#[trigger] hash_list@[a].hash_counts@),
        tg_hist_total(hash_list@) <= i64::MAX,
    ensures
        hist_wf(r@),
        forall|k: i64| #[trigger] hist_count(r@, k) == tg_hist_count(hash_list@, k),
        hist_total(r@) == tg_hist_total(hash_list@),
        hist_weighted(r@) == tg_hist_weighted(hash_list@),
{
    let ghost s = hash_list@;
    let mut r = Histogram::new();
    let n = hash_list.len();
    let mut i: usize = 0;
    proof {
        assert(s.take(0) =~= Seq::<ThreadedGame>::empty());
        lemma_tg_hist_bounds(s);
    }
    while i < n
        invariant
            0 <= i <= n,
            hist_wf(r@),
            forall|k: i64| #[trigger] hist_count(r@, k) == tg_hist_count(s.take(i as int), k),
            hist_total(r@) == tg_hist_total(s.take(i as int)),
            hist_weighted(r@) == tg_hist_weighted(s.take(i as int)),
        decreases n - i,
    {
        let ghost ii = i as int;
        proof {
            assert(s.take(ii + 1).drop_last() =~= s.take(ii));
            assert(s.take(ii + 1).last() == s[ii]);
            assert(tg_hist_total(s.take(ii + 1)) == tg_hist_total(s.take(ii)) + hist_total(
                s[ii].hash_counts@,
            ));
            assert(tg_hist_weighted(s.take(ii + 1)) == tg_hist_weighted(s.take(ii))
                + hist_weighted(s[ii].hash_counts@));
            assert forall|k: i64| #[trigger] tg_hist_count(s.take(ii + 1), k) == tg_hist_count(
                s.take(ii),
                k,
            ) + hist_count(s[ii].hash_counts@, k) by {
                assert(tg_hist_count(s.take(ii + 1), k) == tg_hist_count(
                    s.take(ii + 1).drop_last(),
                    k,
                ) + hist_count(s.take(ii + 1).last().hash_counts@, k));
            }
            assert(s =~= s.take(ii + 1) + s.skip(ii + 1));
            lemma_tg_concat(s.take(ii + 1), s.skip(ii + 1));
            assert forall|a: int| 0 <= a < s.skip(ii + 1).len() implies hist_wf(
                #[trigger] s.skip(ii + 1)[a].hash_counts@,
            ) by {
                assert(s.skip(ii + 1)[a] == s[a + ii + 1]);
            }
            lemma_tg_hist_bounds(s.skip(ii + 1));
            assert forall|k: i64|
                hist_count(r@, k) + #[trigger] hist_count(s[ii].hash_counts@, k)
                    <= i64::MAX by {
                assert(tg_hist_count(s.take(ii + 1) + s.skip(ii + 1), k) == tg_hist_count(
                    s.take(ii + 1),
                    k,
                ) + tg_hist_count(s.skip(ii + 1), k));
                assert(tg_hist_count(s, k) <= tg_hist_total(s));
                assert(tg_hist_count(s.skip(ii + 1), k) >= 0);
            }
        }
        r.absorb(&hash_list[i].hash_counts);
        i = i + 1;
    }
    proof {
        assert(s.take(n as int) =~= s);
    }
    r
}

/// Merging a fixed list of partial aggregates is deterministic: any two
/// well-formed histograms whose per-key counts both equal the summed
/// per-key counts of that list are the identical histogram. The remaining
/// outputs of the aggregation (`high_low_total_counts` and
/// `calculate_statistics`) are pinned down by their contracts as functions
/// of the same list, so the whole merged record is reproduced exactly.
pub proof fn lemma_merge_deterministic(
    r1: Seq<(i64, i64)>,
    r2: Seq<(i64, i64)>,
    s: Seq<ThreadedGame>,
)
    requires
        hist_wf(r1),
        hist_wf(r2),
        forall|k: i64| #[trigger] hist_count(r1, k) == tg_hist_count(s, k),
        forall|k: i64| #[trigger] hist_count(r2, k) == tg_hist_count(s, k),
    ensures
        r1 == r2,
{
    lemma_hist_canonical(r1, r2);
}

} // verus!
