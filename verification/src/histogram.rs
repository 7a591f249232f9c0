//! A histogram from roll counts to occurrence counts, kept as a vector of
//! (key, count) entries sorted by strictly increasing key, one entry per
//! present key. The canonical sorted form makes the statistics that walk it
//! (median, mode, threshold counts) deterministic.

use vstd::prelude::*;
use vstd::pervasive::VecAdditionalExecFns;

verus! {

/// Entries are strictly sorted by key and every stored count is at least 1
/// (absent keys have no entry).
pub open spec fn hist_wf(s: Seq<(i64, i64)>) -> bool {
    &&& forall|i: int, j: int| 0 <= i < j < s.len() ==> #[trigger] s[i].0 < #[trigger] s[j].0
    &&& forall|i: int| 0 <= i < s.len() ==> #[trigger] s[i].1 >= 1
}

/// The sum of all occurrence counts.
pub open spec fn hist_total(s: Seq<(i64, i64)>) -> int
    decreases s.len(),
{
    if s.len() == 0 {
        0
    } else {
        s[0].1 + hist_total(s.drop_first())
    }
}

/// The occurrence count recorded for key `k` (0 when absent).
pub open spec fn hist_count(s: Seq<(i64, i64)>, k: i64) -> int
    decreases s.len(),
{
    if s.len() == 0 {
        0
    } else {
        (if s[0].0 == k {
            s[0].1
        } else {
            0
        }) + hist_count(s.drop_first(), k)
    }
}

/// The sum of key * count over all entries: the total of the underlying
/// observations.
pub open spec fn hist_weighted(s: Seq<(i64, i64)>) -> int
    decreases s.len(),
{
    if s.len() == 0 {
        0
    } else {
        s[0].0 * s[0].1 + hist_weighted(s.drop_first())
    }
}

/// The sum of the counts of all keys at or above threshold `t`.
pub open spec fn hist_above(s: Seq<(i64, i64)>, t: i64) -> int
    decreases s.len(),
{
    if s.len() == 0 {
        0
    } else {
        (if s[0].0 >= t {
            s[0].1
        } else {
            0
        }) + hist_above(s.drop_first(), t)
    }
}

/// The weighted median of a key-sorted histogram: walking the entries in
/// order, the first key whose cumulative count exceeds `rem`; 0 when the
/// entries run out first.
pub open spec fn hist_median(s: Seq<(i64, i64)>, rem: int) -> i64
    decreases s.len(),
{
    if s.len() == 0 {
        0
    } else if s[0].1 > rem {
        s[0].0
    } else {
        hist_median(s.drop_first(), rem - s[0].1)
    }
}

/// All four histogram sums split across a concatenation.
pub proof fn lemma_hist_concat(a: Seq<(i64, i64)>, b: Seq<(i64, i64)>)
    ensures
        hist_total(a + b) == hist_total(a) + hist_total(b),
        hist_weighted(a + b) == hist_weighted(a) + hist_weighted(b),
        forall|k: i64| #[trigger] hist_count(a + b, k) == hist_count(a, k) + hist_count(b, k),
        forall|t: i64| #[trigger] hist_above(a + b, t) == hist_above(a, t) + hist_above(b, t),
    decreases a.len(),
{
    if a.len() == 0 {
        assert(a + b =~= b);
    } else {
        assert((a + b).drop_first() =~= a.drop_first() + b);
        lemma_hist_concat(a.drop_first(), b);
        assert forall|k: i64| #[trigger] hist_count(a + b, k) == hist_count(a, k) + hist_count(
            b,
            k,
        ) by {
            assert(hist_count(a + b, k) == (if (a + b)[0].0 == k {
                (a + b)[0].1 as int
            } else {
                0
            }) + hist_count((a + b).drop_first(), k));
        }
        assert forall|t: i64| #[trigger] hist_above(a + b, t) == hist_above(a, t) + hist_above(
            b,
            t,
        ) by {
            assert(hist_above(a + b, t) == (if (a + b)[0].0 >= t {
                (a + b)[0].1 as int
            } else {
                0
            }) + hist_above((a + b).drop_first(), t));
        }
    }
}

/// When every stored count is non-negative, so is every histogram sum, and
/// the per-key and threshold sums never exceed the grand total.
pub proof fn lemma_hist_bounds(s: Seq<(i64, i64)>)
    requires
        forall|i: int| 0 <= i < s.len() ==> #[trigger] s[i].1 >= 0,
    ensures
        hist_total(s) >= 0,
        forall|k: i64| 0 <= #[trigger] hist_count(s, k) <= hist_total(s),
        forall|t: i64| 0 <= #[trigger] hist_above(s, t) <= hist_total(s),
    decreases s.len(),
{
    if s.len() > 0 {
        lemma_hist_bounds(s.drop_first());
        assert forall|k: i64| 0 <= #[trigger] hist_count(s, k) <= hist_total(s) by {
            assert(hist_count(s, k) == (if s[0].0 == k {
                s[0].1 as int
            } else {
                0
            }) + hist_count(s.drop_first(), k));
        }
        assert forall|t: i64| 0 <= #[trigger] hist_above(s, t) <= hist_total(s) by {
            assert(hist_above(s, t) == (if s[0].0 >= t {
                s[0].1 as int
            } else {
                0
            }) + hist_above(s.drop_first(), t));
        }
    }
}

/// A key without an entry has count 0.
pub proof fn lemma_hist_count_absent(s: Seq<(i64, i64)>, k: i64)
    requires
        forall|i: int| 0 <= i < s.len() ==> #[trigger] s[i].0 != k,
    ensures
        hist_count(s, k) == 0,
    decreases s.len(),
{
    if s.len() > 0 {
        lemma_hist_count_absent(s.drop_first(), k);
    }
}

/// In a well-formed histogram the count of the key at entry `i` is exactly
/// that entry's stored count.
pub proof fn lemma_hist_count_at(s: Seq<(i64, i64)>, i: int)
    requires
        hist_wf(s),
        0 <= i < s.len(),
    ensures
        hist_count(s, s[i].0) == s[i].1,
{
    let k = s[i].0;
    assert(s =~= s.take(i) + seq![s[i]] + s.skip(i + 1));
    lemma_hist_concat(s.take(i) + seq![s[i]], s.skip(i + 1));
    lemma_hist_concat(s.take(i), seq![s[i]]);
    assert forall|j: int| 0 <= j < s.take(i).len() implies #[trigger] s.take(i)[j].0 != k by {
        assert(s[j].0 < s[i].0);
    }
    assert forall|j: int| 0 <= j < s.skip(i + 1).len() implies #[trigger] s.skip(i + 1)[j].0
        != k by {
        assert(s[i].0 < s[i + 1 + j].0);
    }
    lemma_hist_count_absent(s.take(i), k);
    lemma_hist_count_absent(s.skip(i + 1), k);
    assert(hist_count(seq![s[i]], k) == s[i].1 + hist_count(seq![s[i]].drop_first(), k));
    assert(seq![s[i]].drop_first() =~= Seq::<(i64, i64)>::empty());
}

/// Canonical form is unique: two well-formed histograms that record the
/// same count for every key are the same entry sequence. In particular any
/// two merges of the same partial histograms, in whatever order the counts
/// were folded in, produce the identical result.
pub proof fn lemma_hist_canonical(a: Seq<(i64, i64)>, b: Seq<(i64, i64)>)
    requires
        hist_wf(a),
        hist_wf(b),
        forall|k: i64| #[trigger] hist_count(a, k) == hist_count(b, k),
    ensures
        a == b,
    decreases a.len(),
{
    if a.len() == 0 && b.len() == 0 {
        assert(a =~= b);
    } else if a.len() == 0 {
        lemma_hist_count_at(b, 0);
        assert(hist_count(a, b[0].0) == 0);
        assert(false);
    } else if b.len() == 0 {
        lemma_hist_count_at(a, 0);
        assert(hist_count(b, a[0].0) == 0);
        assert(false);
    } else {
        let ka = a[0].0;
        let kb = b[0].0;
        lemma_hist_count_at(a, 0);
        lemma_hist_count_at(b, 0);
        if ka < kb {
            assert forall|i: int| 0 <= i < b.len() implies #[trigger] b[i].0 != ka by {
                if i > 0 {
                    assert(b[0].0 < b[i].0);
                }
            }
            lemma_hist_count_absent(b, ka);
            assert(false);
        } else if kb < ka {
            assert forall|i: int| 0 <= i < a.len() implies #[trigger] a[i].0 != kb by {
                if i > 0 {
                    assert(a[0].0 < a[i].0);
                }
            }
            lemma_hist_count_absent(a, kb);
            assert(false);
        }
        assert(ka == kb);
        assert(a[0].1 == hist_count(a, ka) && b[0].1 == hist_count(b, ka));
        assert(a[0] == b[0]);
        let ta = a.drop_first();
        let tb = b.drop_first();
        assert forall|i: int, j: int| 0 <= i < j < ta.len() implies #[trigger] ta[i].0
            < #[trigger] ta[j].0 by {
            assert(a[i + 1].0 < a[j + 1].0);
        }
        assert forall|i: int| 0 <= i < ta.len() implies #[trigger] ta[i].1 >= 1 by {
            assert(a[i + 1].1 >= 1);
        }
        assert forall|i: int, j: int| 0 <= i < j < tb.len() implies #[trigger] tb[i].0
            < #[trigger] tb[j].0 by {
            assert(b[i + 1].0 < b[j + 1].0);
        }
        assert forall|i: int| 0 <= i < tb.len() implies #[trigger] tb[i].1 >= 1 by {
            assert(b[i + 1].1 >= 1);
        }
        assert forall|k: i64| #[trigger] hist_count(ta, k) == hist_count(tb, k) by {
            if k == ka {
                assert forall|i: int| 0 <= i < ta.len() implies #[trigger] ta[i].0 != k by {
                    assert(a[0].0 < a[i + 1].0);
                }
                assert forall|i: int| 0 <= i < tb.len() implies #[trigger] tb[i].0 != k by {
                    assert(b[0].0 < b[i + 1].0);
                }
                lemma_hist_count_absent(ta, k);
                lemma_hist_count_absent(tb, k);
            } else {
                assert(hist_count(a, k) == hist_count(ta, k));
                assert(hist_count(b, k) == hist_count(tb, k));
            }
        }
        lemma_hist_canonical(ta, tb);
        assert forall|i: int| 0 <= i < a.len() implies a[i] == b[i] by {
            if i > 0 {
                assert(ta[i - 1] == a[i]);
                assert(tb[i - 1] == b[i]);
            }
        }
        assert(a =~= b);
    }
}

/// A histogram in canonical form: key-sorted entries, one per present key.
#[derive(Debug)]
pub struct Histogram {
    pub entries: Vec<(i64, i64)>,
}

impl View for Histogram {
    type V = Seq<(i64, i64)>;

    open spec fn view(&self) -> Seq<(i64, i64)> {
        self.entries@
    }
}

impl Histogram {
    /// An empty histogram.
    pub fn new() -> (h: Self)
        ensures
            h@ =~= Seq::<(i64, i64)>::empty(),
            hist_wf(h@),
    {
        Self { entries: Vec::new() }
    }

    /// The number of recorded results: the sum of all entry counts.
    pub fn count_total(&self) -> (r: i64)
        requires
            forall|i: int| 0 <= i < self@.len() ==> #[trigger] self@[i].1 >= 0,
            hist_total(self@) <= i64::MAX,
        ensures
            r == hist_total(self@),
    {
        let ghost h = self@;
        let mut total: i64 = 0;
        let n = self.entries.len();
        let mut i: usize = 0;
        while i < n
            invariant
                0 <= i <= n,
                n == h.len(),
                h == self@,
                forall|j: int| 0 <= j < h.len() ==> #[trigger] h[j].1 >= 0,
                hist_total(h) <= i64::MAX,
                total == hist_total(h.take(i as int)),
                total >= 0,
            decreases n - i,
        {
            let ghost ii = i as int;
            proof {
                assert(h.take(ii + 1) =~= h.take(ii) + seq![h[ii]]);
                lemma_hist_concat(h.take(ii), seq![h[ii]]);
                lemma_single_entry(h[ii]);
                assert(h =~= h.take(ii + 1) + h.skip(ii + 1));
                lemma_hist_concat(h.take(ii + 1), h.skip(ii + 1));
                lemma_hist_bounds(h.take(ii + 1));
                lemma_hist_bounds(h.skip(ii + 1));
            }
            total = total + self.entries[i].1;
            i = i + 1;
        }
        proof {
            assert(h.take(n as int) =~= h);
        }
        total
    }

    /// Adds `amount` occurrences of `key`: the key's count grows by
    /// `amount`, every other key keeps its count, and the total (and the
    /// key-weighted total) grow accordingly. A key present afterwards was
    /// present before or is `key` itself.
    pub fn record(&mut self, key: i64, amount: i64)
        requires
            hist_wf(old(self)@),
            amount >= 1,
            hist_count(old(self)@, key) + amount <= i64::MAX,
        ensures
            hist_wf(final(self)@),
            hist_count(final(self)@, key) == hist_count(old(self)@, key) + amount,
            forall|k: i64| k != key ==> #[trigger] hist_count(final(self)@, k) == hist_count(
                old(self)@,
                k,
            ),
            hist_total(final(self)@) == hist_total(old(self)@) + amount,
            hist_weighted(final(self)@) == hist_weighted(old(self)@) + key * amount,
            forall|i: int|
                0 <= i < final(self)@.len() ==> #[trigger] final(self)@[i].0 == key || exists|j: int|
                    0 <= j < old(self)@.len() && old(self)@[j].0 == final(self)@[i].0,
    {
        let ghost s0 = self.entries@;
        let n = self.entries.len();
        let mut i: usize = 0;
        while i < n && self.entries[i].0 < key
            invariant
                0 <= i <= n,
                n == self.entries@.len(),
                self.entries@ == s0,
                forall|j: int| 0 <= j < i ==> #[trigger] s0[j].0 < key,
            decreases n - i,
        {
            i = i + 1;
        }
        if i < n && self.entries[i].0 == key {
            proof {
                lemma_hist_count_at(s0, i as int);
            }
            let cur = self.entries[i];
            self.entries.set(i, (key, cur.1 + amount));
            proof {
                let s1 = self.entries@;
                assert(s0 =~= s0.take(i as int) + seq![s0[i as int]] + s0.skip(i as int + 1));
                assert(s1 =~= s0.take(i as int) + seq![(key, (cur.1 + amount) as i64)] + s0.skip(
                    i as int + 1,
                ));
                lemma_hist_concat(s0.take(i as int) + seq![s0[i as int]], s0.skip(i as int + 1));
                lemma_hist_concat(s0.take(i as int), seq![s0[i as int]]);
                lemma_hist_concat(
                    s0.take(i as int) + seq![(key, (cur.1 + amount) as i64)],
                    s0.skip(i as int + 1),
                );
                lemma_hist_concat(s0.take(i as int), seq![(key, (cur.1 + amount) as i64)]);
                lemma_single_entry(s0[i as int]);
                lemma_single_entry((key, (cur.1 + amount) as i64));
                assert(key * (cur.1 + amount) == key * cur.1 + key * amount) by (nonlinear_arith);
            }
        } else {
            proof {
                assert forall|j: int| 0 <= j < s0.len() implies #[trigger] s0[j].0 != key by {
                    if j >= i {
                        assert(s0[i as int].0 <= s0[j].0);
                    }
                }
                lemma_hist_count_absent(s0, key);
            }
            self.entries.insert(i, (key, amount));
            proof {
                let s1 = self.entries@;
                assert(s0 =~= s0.take(i as int) + s0.skip(i as int));
                assert(s1 =~= s0.take(i as int) + seq![(key, amount)] + s0.skip(i as int));
                lemma_hist_concat(s0.take(i as int), s0.skip(i as int));
                lemma_hist_concat(s0.take(i as int) + seq![(key, amount)], s0.skip(i as int));
                lemma_hist_concat(s0.take(i as int), seq![(key, amount)]);
                lemma_single_entry((key, amount));
                assert forall|a: int, b: int| 0 <= a < b < s1.len() implies #[trigger] s1[a].0
                    < #[trigger] s1[b].0 by {
                    if a < i && b == i {
                        assert(s1[a] == s0[a]);
                    } else if a == i && b > i {
                        assert(s1[b] == s0[b - 1]);
                        assert(s0[i as int].0 <= s0[b - 1].0);
                    } else if a < i && b > i {
                        assert(s1[a] == s0[a] && s1[b] == s0[b - 1]);
                    } else if a > i && b > i {
                        assert(s1[a] == s0[a - 1] && s1[b] == s0[b - 1]);
                    }
                }
            }
        }
    }

    /// Merges another histogram into this one: each key's count afterwards
    /// is the sum of its two counts before, and the totals add.
    pub fn absorb(&mut self, other: &Histogram)
        requires
            hist_wf(old(self)@),
            hist_wf(other@),
            forall|k: i64|
                hist_count(old(self)@, k) + #[trigger] hist_count(other@, k) <= i64::MAX,
        ensures
            hist_wf(final(self)@),
            forall|k: i64| #[trigger] hist_count(final(self)@, k) == hist_count(old(self)@, k)
                + hist_count(other@, k),
            hist_total(final(self)@) == hist_total(old(self)@) + hist_total(other@),
            hist_weighted(final(self)@) == hist_weighted(old(self)@) + hist_weighted(other@),
    {
        let ghost a0 = old(self)@;
        let ghost b = other@;
        let n = other.entries.len();
        let mut j: usize = 0;
        while j < n
            invariant
                0 <= j <= n,
                n == b.len(),
                b == other@,
                hist_wf(b),
                hist_wf(self@),
                forall|k: i64| #[trigger] hist_count(self@, k) == hist_count(a0, k) + hist_count(
                    b.take(j as int),
                    k,
                ),
                hist_total(self@) == hist_total(a0) + hist_total(b.take(j as int)),
                hist_weighted(self@) == hist_weighted(a0) + hist_weighted(b.take(j as int)),
                forall|k: i64|
                    hist_count(a0, k) + #[trigger] hist_count(b, k) <= i64::MAX,
            decreases n - j,
        {
            let e = other.entries[j];
            proof {
                let ji = j as int;
                assert(b =~= b.take(ji) + seq![b[ji]] + b.skip(ji + 1));
                lemma_hist_concat(b.take(ji) + seq![b[ji]], b.skip(ji + 1));
                lemma_hist_concat(b.take(ji), seq![b[ji]]);
                lemma_single_entry(b[ji]);
                assert forall|i: int| 0 <= i < b.skip(ji + 1).len() implies #[trigger] b.skip(
                    ji + 1,
                )[i].1 >= 0 by {
                    assert(b[ji + 1 + i].1 >= 1);
                }
                lemma_hist_bounds(b.skip(ji + 1));
                assert(hist_count(b.take(ji), e.0) + e.1 <= hist_count(b, e.0));
            }
            self.record(e.0, e.1);
            proof {
                assert(b.take(j as int + 1) =~= b.take(j as int) + seq![b[j as int]]);
                lemma_hist_concat(b.take(j as int), seq![b[j as int]]);
                lemma_single_entry(b[j as int]);
            }
            j = j + 1;
        }
        proof {
            assert(b.take(n as int) =~= b);
        }
    }
}

/// The sums of a one-entry histogram.
pub proof fn lemma_single_entry(e: (i64, i64))
    ensures
        hist_total(seq![e]) == e.1,
        hist_weighted(seq![e]) == e.0 * e.1,
        forall|k: i64| #[trigger] hist_count(seq![e], k) == if e.0 == k {
            e.1 as int
        } else {
            0
        },
        forall|t: i64| #[trigger] hist_above(seq![e], t) == if e.0 >= t {
            e.1 as int
        } else {
            0
        },
{
    assert(seq![e].drop_first() =~= Seq::<(i64, i64)>::empty());
    assert(hist_total(seq![e]) == e.1 + hist_total(seq![e].drop_first()));
    assert(hist_weighted(seq![e]) == e.0 * e.1 + hist_weighted(seq![e].drop_first()));
    assert forall|k: i64| #[trigger] hist_count(seq![e], k) == (if e.0 == k {
        e.1 as int
    } else {
        0
    }) by {
        assert(hist_count(seq![e], k) == (if e.0 == k {
            e.1 as int
        } else {
            0
        }) + hist_count(seq![e].drop_first(), k));
    }
    assert forall|t: i64| #[trigger] hist_above(seq![e], t) == (if e.0 >= t {
        e.1 as int
    } else {
        0
    }) by {
        assert(hist_above(seq![e], t) == (if e.0 >= t {
            e.1 as int
        } else {
            0
        }) + hist_above(seq![e].drop_first(), t));
    }
}

} // verus!
