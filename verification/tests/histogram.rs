use cherry_sim::histogram::Histogram;
use cherry_sim::utility::games_above_threshold;

#[test]
fn record_keeps_entries_sorted_and_merged() {
    let mut h = Histogram::new();
    h.record(5, 2);
    h.record(3, 1);
    h.record(5, 1);
    h.record(9, 4);
    assert_eq!(h.entries, vec![(3, 1), (5, 3), (9, 4)]);
}

#[test]
fn absorb_adds_counts_per_key() {
    let mut a = Histogram::new();
    a.record(3, 2);
    a.record(5, 1);
    let mut b = Histogram::new();
    b.record(5, 2);
    b.record(7, 4);
    a.absorb(&b);
    assert_eq!(a.entries, vec![(3, 2), (5, 3), (7, 4)]);
}

#[test]
fn absorb_empty_changes_nothing() {
    let mut a = Histogram::new();
    a.record(4, 2);
    let b = Histogram::new();
    a.absorb(&b);
    assert_eq!(a.entries, vec![(4, 2)]);
}

#[test]
fn threshold_counts_are_exact() {
    let mut h = Histogram::new();
    h.record(10, 3);
    h.record(20, 2);
    h.record(30, 5);
    assert_eq!(games_above_threshold(5, &h), 10);
    assert_eq!(games_above_threshold(20, &h), 7);
    assert_eq!(games_above_threshold(21, &h), 5);
    assert_eq!(games_above_threshold(31, &h), 0);
}

#[test]
fn count_total_sums_all_entries() {
    let mut h = Histogram::new();
    h.record(10, 3);
    h.record(20, 2);
    h.record(30, 5);
    assert_eq!(h.count_total(), 10);
    assert_eq!(Histogram::new().count_total(), 0);
}

#[test]
fn threshold_on_empty_histogram_is_zero() {
    let h = Histogram::new();
    assert_eq!(games_above_threshold(0, &h), 0);
}
