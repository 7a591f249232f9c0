use cherry_sim::game_parts::{threaded_games, ThreadedGame};
use cherry_sim::histogram::Histogram;
use cherry_sim::utility::{
    calcuate_winner, calculate_statistics, high_low_total_counts, merge_histograms, partition,
    GameStats,
};

fn hist(entries: &[(i64, i64)]) -> Histogram {
    let mut h = Histogram::new();
    for &(k, v) in entries {
        h.record(k, v);
    }
    h
}

#[test]
fn winner_is_first_minimum() {
    assert_eq!(calcuate_winner(&[5, 3, 3, 7]), Some(1));
    assert_eq!(calcuate_winner(&[2, 5]), Some(0));
    assert_eq!(calcuate_winner(&[4]), Some(0));
    assert_eq!(calcuate_winner(&[9, 9, 9]), Some(0));
}

#[test]
fn partition_conserves_total() {
    assert_eq!(partition(10, 3), vec![4, 3, 3]);
    assert_eq!(partition(7, 1), vec![7]);
    assert_eq!(partition(0, 4), vec![0, 0, 0, 0]);
    let shares = partition(100, 8);
    assert_eq!(shares.len(), 8);
    assert_eq!(shares[0], 16);
    for s in &shares[1..] {
        assert_eq!(*s, 12);
    }
    assert_eq!(shares.iter().sum::<usize>(), 100);
}

#[test]
fn median_of_small_histogram() {
    let h = hist(&[(3, 2), (5, 1), (7, 2)]);
    let mut stats = GameStats::default();
    calculate_statistics(&h, &5, &mut stats);
    assert_eq!(stats.median, 5);
}

#[test]
fn mode_of_small_histogram() {
    let h = hist(&[(4, 10), (6, 50), (9, 1)]);
    let mut stats = GameStats::default();
    calculate_statistics(&h, &61, &mut stats);
    assert_eq!(stats.mode, (6, 50));
}

#[test]
fn mode_tie_takes_smallest_key() {
    let h = hist(&[(2, 5), (8, 5), (9, 1)]);
    let mut stats = GameStats::default();
    calculate_statistics(&h, &11, &mut stats);
    assert_eq!(stats.mode, (2, 5));
}

fn partial(
    high: i64,
    low: i64,
    entries: &[(i64, i64)],
    winners: Vec<i64>,
    mins: Vec<i64>,
) -> ThreadedGame {
    let h = hist(entries);
    let total = entries.iter().map(|&(k, v)| k * v).sum();
    ThreadedGame {
        high_count: high,
        low_count: low,
        total_count: total,
        hash_counts: h,
        player_winners: winners,
        min_rolls_to_win: mins,
    }
}

#[test]
fn merge_conserves_histogram_totals() {
    let a = partial(9, 3, &[(3, 2), (9, 1)], vec![2, 1], vec![3, 3, 3]);
    let b = partial(7, 4, &[(4, 1), (7, 2)], vec![1, 2], vec![4, 4, 4]);
    let partials = vec![a, b];
    let merged = merge_histograms(&partials);
    assert_eq!(merged.entries, vec![(3, 2), (4, 1), (7, 2), (9, 1)]);
    let merged_total: i64 = merged.entries.iter().map(|&(_, v)| v).sum();
    let partial_totals: i64 = partials
        .iter()
        .map(|p| p.hash_counts.entries.iter().map(|&(_, v)| v).sum::<i64>())
        .sum();
    assert_eq!(merged_total, partial_totals);
    assert_eq!(merged_total, 6);
}

#[test]
fn merged_record_sums_partials() {
    let a = partial(9, 3, &[(3, 2), (9, 1)], vec![2, 1], vec![3, 3, 3]);
    let b = partial(7, 4, &[(4, 1), (7, 2)], vec![1, 2], vec![4, 4, 4]);
    let stats = high_low_total_counts(&vec![a, b], 2, 6);
    assert_eq!(stats.game_num, 6);
    assert_eq!(stats.player_count, 2);
    assert_eq!(stats.high_count, 9);
    assert_eq!(stats.low_count, 3);
    assert_eq!(stats.total_count, (3 * 2 + 9) + (4 + 7 * 2));
    assert_eq!(stats.total_winners, vec![3, 3]);
    assert_eq!(stats.min_rolls_sum, 9 + 12);
    assert_eq!(stats.median, 0);
    assert_eq!(stats.mode, (0, 0));
}

#[test]
fn merging_no_partials_gives_identities() {
    let partials: Vec<ThreadedGame> = vec![];
    let stats = high_low_total_counts(&partials, 3, 0);
    assert_eq!(stats.high_count, 0);
    assert_eq!(stats.low_count, i64::MAX);
    assert_eq!(stats.total_count, 0);
    assert_eq!(stats.total_winners, vec![0, 0, 0]);
    assert_eq!(stats.min_rolls_sum, 0);
    let merged = merge_histograms(&partials);
    assert!(merged.entries.is_empty());
}

#[test]
fn aggregation_of_fixed_partials_is_deterministic() {
    let a = partial(9, 3, &[(3, 2), (9, 1)], vec![2, 1], vec![3, 3, 3]);
    let b = partial(7, 4, &[(4, 1), (7, 2)], vec![1, 2], vec![4, 4, 4]);
    let partials = vec![a, b];
    let m1 = merge_histograms(&partials);
    let m2 = merge_histograms(&partials);
    assert_eq!(m1.entries, m2.entries);
    let s1 = high_low_total_counts(&partials, 2, 6);
    let s2 = high_low_total_counts(&partials, 2, 6);
    assert_eq!(s1.high_count, s2.high_count);
    assert_eq!(s1.low_count, s2.low_count);
    assert_eq!(s1.total_count, s2.total_count);
    assert_eq!(s1.total_winners, s2.total_winners);
    assert_eq!(s1.min_rolls_sum, s2.min_rolls_sum);
    let mut g1 = s1;
    let mut g2 = s2;
    calculate_statistics(&m1, &6, &mut g1);
    calculate_statistics(&m2, &6, &mut g2);
    assert_eq!(g1.median, g2.median);
    assert_eq!(g1.mode, g2.mode);
}

#[test]
fn worker_shard_accounts_for_every_trial() {
    let tg = threaded_games(100, 2);
    let recorded: i64 = tg.hash_counts.entries.iter().map(|&(_, v)| v).sum();
    assert_eq!(recorded, 200);
    let weighted: i64 = tg.hash_counts.entries.iter().map(|&(k, v)| k * v).sum();
    assert_eq!(tg.total_count, weighted);
    assert_eq!(tg.player_winners.len(), 2);
    assert_eq!(tg.player_winners.iter().sum::<i64>(), 100);
    assert_eq!(tg.min_rolls_to_win.len(), 100);
    assert!(tg.low_count <= tg.high_count);
    for &(k, _) in &tg.hash_counts.entries {
        assert!(tg.low_count <= k && k <= tg.high_count);
        assert!(k >= 1);
    }
    for &m in &tg.min_rolls_to_win {
        assert!((tg.low_count..=tg.high_count).contains(&m));
    }
}

#[test]
fn empty_shard_is_the_default_accumulator() {
    let tg = threaded_games(0, 3);
    assert_eq!(tg.high_count, 0);
    assert_eq!(tg.low_count, i64::MAX);
    assert_eq!(tg.total_count, 0);
    assert!(tg.hash_counts.entries.is_empty());
    assert_eq!(tg.player_winners, vec![0, 0, 0]);
    assert!(tg.min_rolls_to_win.is_empty());
}

#[test]
fn end_to_end_single_worker() {
    let shares = partition(1000, 1);
    assert_eq!(shares, vec![1000]);
    let tg = threaded_games(shares[0], 1);
    let partials = vec![tg];
    let stats = high_low_total_counts(&partials, 1, 1000);
    let merged = merge_histograms(&partials);
    let recorded: i64 = merged.entries.iter().map(|&(_, v)| v).sum();
    assert_eq!(recorded, 1000);
    let weighted: i64 = merged.entries.iter().map(|&(k, v)| k * v).sum();
    assert_eq!(stats.total_count, weighted);
    assert_eq!(stats.high_count, merged.entries.last().unwrap().0);
    assert_eq!(stats.low_count, merged.entries.first().unwrap().0);
    assert_eq!(stats.total_winners, vec![1000]);
    assert_eq!(stats.min_rolls_sum, stats.total_count);
    let mean = stats.total_count as f64 / 1000.0;
    assert!(mean >= 1.0);
    let mut stats = stats;
    calculate_statistics(&merged, &1000, &mut stats);
    let mut cumulative: i64 = 0;
    let mut expected_median: i64 = 0;
    for &(k, v) in &merged.entries {
        cumulative += v;
        if cumulative > 500 {
            expected_median = k;
            break;
        }
    }
    assert_eq!(stats.median, expected_median);
    let best = merged
        .entries
        .iter()
        .copied()
        .max_by_key(|&(k, v)| (v, -k))
        .unwrap();
    assert_eq!(stats.mode, best);
}

#[test]
fn default_stats_record_is_zeroed() {
    let stats = GameStats::default();
    assert_eq!(stats.game_num, 0);
    assert_eq!(stats.player_count, 0);
    assert_eq!(stats.high_count, 0);
    assert_eq!(stats.low_count, 0);
    assert_eq!(stats.total_count, 0);
    assert!(stats.total_winners.is_empty());
    assert_eq!(stats.min_rolls_sum, 0);
    assert_eq!(stats.median, 0);
    assert_eq!(stats.mode, (0, 0));
}

#[test]
fn default_shard_accumulator_starts_at_identities() {
    let tg = ThreadedGame::default();
    assert_eq!(tg.high_count, 0);
    assert_eq!(tg.low_count, i64::MAX);
    assert_eq!(tg.total_count, 0);
    assert!(tg.hash_counts.entries.is_empty());
    assert!(tg.player_winners.is_empty());
    assert!(tg.min_rolls_to_win.is_empty());
}
