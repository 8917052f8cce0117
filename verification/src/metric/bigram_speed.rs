//! Time from one text-producing press to the next, per pair of texts.
use vstd::prelude::*;

use crate::input::{KeyEvent, KeyEventKind, KeyEventView, TextPair, text_pair_lt};
use crate::metric::durations::lemma_cross_transitive;
use crate::metric::key_usage::{cell_count, cell_text};
use crate::metric::{
    average_order, averages_comparable, byte_len, count_ok, decoded, is_decode_error,
    snapshot_view, stats_ok, validate_dimension, validate_entry_count, DurationStats,
    MetricSnapshot, MetricSnapshotError, PayloadProblem, SnapshotView, MAX_DIMENSION_BYTES,
    MAX_DIMENSION_ENTRIES, MAX_DURATION_NANOSECONDS, MAX_SNAPSHOT_BYTES,
    MAX_TOTAL_DURATION_NANOSECONDS,
};
use crate::payload::{
    cells_view, encode_payload, lemma_payload_shape, row_fields, row_fits, rows_view, tops_view,
    value_fits, Cell, CellView, PayloadLayout, RowLayout, TopKind, TopValue, TopView,
};
use crate::sorting::{ranked, sort_ranked, Ranked};
use crate::table::{
    entries_map, entry_views, keys_distinct, lemma_permuted_entries, listing, Table, TableKey,
};
use crate::text::{compare_text, lemma_text_lt_transitive, lemma_text_order_antisymmetric,
    lemma_text_order_equal, text_lt};

verus! {

pub const BIGRAM_SPEED_ID: &'static str = "bigram-speed";

pub const BIGRAM_SPEED_VERSION: u32 = 1;

/// Gaps of this many nanoseconds or more end the typing flow (two seconds).
pub const BIGRAM_FLOW_TIMEOUT_NS: u64 = 2000000000;

/// Pairs with fewer samples than this are not listed.
pub const MINIMUM_SAMPLES: u64 = 3;

pub type PairStats = Map<(Seq<char>, Seq<char>), DurationStats>;

/// The pair that `e` completes and its duration: a text-producing press within
/// the typing flow after the last such press.
pub open spec fn completed_bigram(last: Option<(Seq<char>, u64)>, e: KeyEventView) -> Option<((Seq<char>, Seq<char>), u64)> {
    match (last, e.text) {
        (Some((p, t0)), Some(t)) => if e.kind == KeyEventKind::Press && e.timestamp >= t0
            && e.timestamp - t0 < BIGRAM_FLOW_TIMEOUT_NS {
            Some(((p, t), (e.timestamp - t0) as u64))
        } else {
            None
        },
        _ => None,
    }
}

/// The last text-producing press after `e`.
pub open spec fn last_press_after(last: Option<(Seq<char>, u64)>, e: KeyEventView) -> Option<(Seq<char>, u64)> {
    match e.text {
        Some(t) => if e.kind == KeyEventKind::Press {
            Some((t, e.timestamp))
        } else {
            last
        },
        None => last,
    }
}

/// The stats after one more sample of `d` nanoseconds for `k`.
pub open spec fn pair_recorded(m: PairStats, k: (Seq<char>, Seq<char>), d: u64) -> PairStats {
    let before = if m.contains_key(k) {
        m[k]
    } else {
        DurationStats { total_ns: 0, samples: 0 }
    };
    m.insert(k, DurationStats { total_ns: (before.total_ns + d) as u128, samples: (before.samples + 1) as u64 })
}

/// The stats after `e`.
pub open spec fn bigram_stats_after(last: Option<(Seq<char>, u64)>, s: PairStats, e: KeyEventView) -> PairStats {
    match completed_bigram(last, e) {
        Some((k, d)) => pair_recorded(s, k, d),
        None => s,
    }
}

/// The pairs with enough samples to be listed.
pub open spec fn qualifying(m: PairStats) -> PairStats {
    Map::new(|k: (Seq<char>, Seq<char>)| m.contains_key(k) && m[k].samples >= MINIMUM_SAMPLES, |k: (Seq<char>, Seq<char>)| m[k])
}

/// The order of bigram lists: fastest (or slowest) average first, then by pair.
pub open spec fn bigram_before(slowest: bool, a: ((Seq<char>, Seq<char>), DurationStats), b: ((Seq<char>, Seq<char>), DurationStats)) -> bool {
    let o = if slowest {
        average_order(b.1, a.1)
    } else {
        average_order(a.1, b.1)
    };
    o < 0 || (o == 0 && text_pair_lt(a.0, b.0))
}

impl Ranked for (TextPair, DurationStats) {
    type Mode = bool;

    open spec fn ranks_before(slowest: bool, a: Self, b: Self) -> bool {
        a.1.samples > 0 && b.1.samples > 0 && bigram_before(slowest, (a.0@, a.1), (b.0@, b.1))
    }

    open spec fn comparable(slowest: bool, a: Self, b: Self) -> bool {
        averages_comparable(a.1, b.1)
    }

    proof fn lemma_ranks_before_transitive(slowest: bool, a: Self, b: Self, c: Self) {
        if text_pair_lt(a.0@, b.0@) && text_pair_lt(b.0@, c.0@) {
            TextPair::lemma_key_lt_transitive(a.0@, b.0@, c.0@);
        }
        TextPair::lemma_key_lt_irreflexive(a.0@);
        TextPair::lemma_key_lt_irreflexive(b.0@);
        if slowest {
            lemma_cross_transitive(
                c.1.total_ns as int,
                c.1.samples as int,
                b.1.total_ns as int,
                b.1.samples as int,
                a.1.total_ns as int,
                a.1.samples as int,
            );
        } else {
            lemma_cross_transitive(
                a.1.total_ns as int,
                a.1.samples as int,
                b.1.total_ns as int,
                b.1.samples as int,
                c.1.total_ns as int,
                c.1.samples as int,
            );
        }
    }

    proof fn lemma_ranks_before_asymmetric(slowest: bool, a: Self, b: Self) {
        TextPair::lemma_key_lt_total(a.0@, b.0@);
        if text_pair_lt(a.0@, b.0@) && text_pair_lt(b.0@, a.0@) {
            TextPair::lemma_key_lt_transitive(a.0@, b.0@, a.0@);
            TextPair::lemma_key_lt_irreflexive(a.0@);
        }
    }

    fn precedes(slowest: bool, a: &Self, b: &Self) -> (r: bool) {
        if a.1.samples == 0 || b.1.samples == 0 {
            return false;
        }
        let o = if slowest {
            b.1.compare_average(a.1)
        } else {
            a.1.compare_average(b.1)
        };
        o < 0 || (o == 0 && a.0.key_less(&b.0))
    }
}

/// The row a pair's stats are saved as: `{first, second, total_ns, samples}`.
pub open spec fn pair_duration_row(e: ((Seq<char>, Seq<char>), DurationStats)) -> Seq<CellView> {
    seq![
        CellView::Text(e.0.0),
        CellView::Text(e.0.1),
        CellView::Count(e.1.total_ns as u64),
        CellView::Count(e.1.samples),
    ]
}

/// The payload that lists the stats in pair order.
pub open spec fn bigram_payload(m: PairStats) -> Seq<char> {
    encode_payload(
        PayloadLayout::PairDurations,
        seq![TopView::Rows(listing::<TextPair, DurationStats>(m).map_values(|e: ((Seq<char>, Seq<char>), DurationStats)| pair_duration_row(e)))],
    )
}

/// Every aggregate may be saved: texts short enough, samples and totals in range.
pub open spec fn bigram_savable(m: PairStats) -> bool {
    forall|k: (Seq<char>, Seq<char>)| #[trigger] m.contains_key(k) ==> byte_len(k.0) <= MAX_DIMENSION_BYTES && byte_len(k.1) <= MAX_DIMENSION_BYTES && stats_ok(m[k])
}

/// The pair and stats a saved row holds.
pub open spec fn row_pair_duration(r: Seq<CellView>) -> ((Seq<char>, Seq<char>), DurationStats) {
    ((cell_text(r[0]), cell_text(r[1])), DurationStats { total_ns: cell_count(r[2]) as u128, samples: cell_count(r[3]) })
}

/// Saved rows that may be restored: few enough, each valid, no pair twice.
pub open spec fn bigram_rows_valid(rows: Seq<Seq<CellView>>) -> bool {
    &&& rows.len() <= MAX_DIMENSION_ENTRIES
    &&& forall|i: int| 0 <= i < rows.len() ==> byte_len(cell_text(#[trigger] rows[i][0])) <= MAX_DIMENSION_BYTES && byte_len(cell_text(rows[i][1])) <= MAX_DIMENSION_BYTES && cell_count(rows[i][2]) <= MAX_DURATION_NANOSECONDS && count_ok(cell_count(rows[i][3]))
    &&& forall|i: int, j: int| 0 <= i < j < rows.len() ==> row_pair_duration(#[trigger] rows[i]).0 != row_pair_duration(#[trigger] rows[j]).0
}

/// The stats a snapshot restores, or `None` when it is refused.
pub open spec fn restored_bigrams(s: SnapshotView) -> Option<PairStats> {
    match decoded(s, BIGRAM_SPEED_ID@, BIGRAM_SPEED_VERSION, PayloadLayout::PairDurations) {
        Some(v) => match v[0] {
            TopView::Rows(rows) => if bigram_rows_valid(rows) {
                Some(entries_map(rows.map_values(|r: Seq<CellView>| row_pair_duration(r))))
            } else {
                None
            },
            TopView::Count(_) => None,
        },
        None => None,
    }
}

/// Records, per pair of consecutive texts, the time from one press to the next.
pub struct BigramSpeed {
    last_press: Option<(String, u64)>,
    stats: Table<TextPair, DurationStats>,
}

impl BigramSpeed {
    pub closed spec fn wf(&self) -> bool {
        self.stats.wf()
    }

    pub closed spec fn last_press_view(&self) -> Option<(Seq<char>, u64)> {
        match self.last_press {
            Some((t, at)) => Some((t@, at)),
            None => None,
        }
    }

    pub closed spec fn stats_view(&self) -> PairStats {
        self.stats.map()
    }

    pub fn new() -> (r: Self)
        ensures
            r.wf(),
            r.last_press_view() is None,
            r.stats_view() == PairStats::empty(),
    {
        BigramSpeed { last_press: None, stats: Table::new() }
    }

    /// Whether `event` would not overflow the stats.
    pub open spec fn accepts(&self, event: KeyEventView) -> bool {
        completed_bigram(self.last_press_view(), event) matches Some((k, d)) ==> (
        self.stats_view().contains_key(k) ==> self.stats_view()[k].total_ns + d
            <= MAX_TOTAL_DURATION_NANOSECONDS && self.stats_view()[k].samples < u64::MAX)
    }

    pub fn process(&mut self, event: &KeyEvent)
        requires
            old(self).wf(),
            old(self).accepts(event@),
        ensures
            final(self).wf(),
            final(self).last_press_view() == last_press_after(old(self).last_press_view(), event@),
            final(self).stats_view() == bigram_stats_after(old(self).last_press_view(), old(self).stats_view(), event@),
    {
        if event.kind() != KeyEventKind::Press {
            return;
        }
        let text = match event.text() {
            Some(t) => t,
            None => return,
        };
        let now = event.timestamp();
        if let Some((previous, t0)) = &self.last_press {
            if now >= *t0 && now - *t0 < BIGRAM_FLOW_TIMEOUT_NS {
                let key = TextPair::new(previous.as_str(), text);
                let mut s = match self.stats.get(&key) {
                    Some(s) => *s,
                    None => DurationStats::empty(),
                };
                s.record(now - *t0);
                self.stats.insert(key, s);
            }
        }
        self.last_press = Some((text.to_owned(), now));
    }

    /// Whether a press is remembered for the next pair.
    pub fn has_last_press(&self) -> (r: bool)
        ensures
            r == self.last_press_view() is Some,
    {
        self.last_press.is_some()
    }

    pub fn has_data(&self) -> (r: bool)
        requires
            self.wf(),
        ensures
            r == (self.stats_view() != PairStats::empty()),
    {
        !self.stats.is_empty()
    }

    /// The stats held for the pair `first`, `second`.
    pub fn stats_for(&self, first: &str, second: &str) -> (r: Option<DurationStats>)
        requires
            self.wf(),
        ensures
            r == (if self.stats_view().contains_key((first@, second@)) {
                Some(self.stats_view()[(first@, second@)])
            } else {
                None::<DurationStats>
            }),
    {
        match self.stats.get(&TextPair::new(first, second)) {
            Some(s) => Some(*s),
            None => None,
        }
    }

    /// Sets the stats held for the pair `first`, `second`.
    pub fn set_stats(&mut self, first: &str, second: &str, stats: DurationStats)
        requires
            old(self).wf(),
        ensures
            final(self).wf(),
            final(self).stats_view() == old(self).stats_view().insert((first@, second@), stats),
            final(self).last_press_view() == old(self).last_press_view(),
    {
        self.stats.insert(TextPair::new(first, second), stats);
    }

    /// Drops every aggregate, keeping the last press.
    pub fn clear_stats(&mut self)
        requires
            old(self).wf(),
        ensures
            final(self).wf(),
            final(self).stats_view() == PairStats::empty(),
            final(self).last_press_view() == old(self).last_press_view(),
    {
        self.stats.clear();
    }

    /// The pairs with at least three samples, fastest (or slowest) first.
    pub fn sorted_pairs(&self, slowest: bool) -> (r: Vec<(TextPair, DurationStats)>)
        requires
            self.wf(),
            forall|a: (Seq<char>, Seq<char>), b: (Seq<char>, Seq<char>)|
                #[trigger] self.stats_view().contains_key(a) && #[trigger] self.stats_view().contains_key(b)
                    ==> averages_comparable(self.stats_view()[a], self.stats_view()[b]),
        ensures
            keys_distinct(entry_views(r@)),
            entries_map(entry_views(r@)) == qualifying(self.stats_view()),
            ranked(slowest, r@),
    {
        let entries = self.stats.sorted_entries();
        let ghost ev = entry_views(entries@);
        let mut kept: Vec<(TextPair, DurationStats)> = Vec::new();
        let mut i: usize = 0;
        proof {
            assert(ev.take(0) =~= Seq::<((Seq<char>, Seq<char>), DurationStats)>::empty());
            crate::table::lemma_empty_map(ev.take(0));
            crate::table::lemma_empty_map(entry_views(kept@));
            assert(qualifying(entries_map(ev.take(0))) =~= PairStats::empty());
        }
        while i < entries.len()
            invariant
                i <= entries.len(),
                ev == entry_views(entries@),
                entries_map(ev) == self.stats_view(),
                keys_distinct(ev),
                keys_distinct(entry_views(kept@)),
                entries_map(entry_views(kept@)) == qualifying(entries_map(ev.take(i as int))),
                forall|j: int| 0 <= j < kept.len() ==> exists|q: int| 0 <= q < ev.len() && (#[trigger] entry_views(kept@)[j]) == ev[q],
            decreases entries.len() - i,
        {
            let ghost pre = ev.take(i as int);
            let ghost e = ev[i as int];
            proof {
                assert(ev.take(i as int + 1) =~= pre.push(e));
                assert(keys_distinct(pre));
                assert(!crate::table::has_key(pre, e.0)) by {
                    if crate::table::has_key(pre, e.0) {
                        let q = choose|q: int| 0 <= q < pre.len() && #[trigger] pre[q].0 == e.0;
                        assert(ev[q].0 == ev[i as int].0);
                    }
                }
                crate::table::lemma_map_push(pre, e.0, e.1);
            }
            if entries[i].1.samples >= MINIMUM_SAMPLES {
                let ghost kv = entry_views(kept@);
                proof {
                    assert(!crate::table::has_key(kv, e.0)) by {
                        if crate::table::has_key(kv, e.0) {
                            let q = choose|q: int| 0 <= q < kv.len() && #[trigger] kv[q].0 == e.0;
                            crate::table::lemma_entry_in_map(kv, q);
                            assert(qualifying(entries_map(pre)).contains_key(e.0));
                        }
                    }
                    crate::table::lemma_map_push(kv, e.0, e.1);
                    assert(qualifying(entries_map(pre.push(e))) =~= qualifying(entries_map(pre)).insert(e.0, e.1));
                }
                kept.push((entries[i].0.copy_key(), entries[i].1));
                proof {
                    assert(entry_views(kept@) =~= kv.push(e));
                    assert forall|j: int| 0 <= j < kept.len() implies exists|q: int| 0 <= q < ev.len() && (#[trigger] entry_views(kept@)[j]) == ev[q] by {
                        if j < kv.len() {
                            assert(entry_views(kept@)[j] == kv[j]);
                        } else {
                            assert(entry_views(kept@)[j] == ev[i as int]);
                        }
                    }
                }
            } else {
                proof {
                    assert(qualifying(entries_map(pre.push(e))) =~= qualifying(entries_map(pre)));
                }
            }
            i += 1;
        }
        proof {
            assert(ev.take(entries.len() as int) =~= ev);
            let kv = entry_views(kept@);
            assert forall|a: int, b: int| 0 <= a < kept.len() && 0 <= b < kept.len() implies <(TextPair, DurationStats) as Ranked>::comparable(slowest, #[trigger] kept@[a], #[trigger] kept@[b]) by {
                let qa = choose|q: int| 0 <= q < ev.len() && kv[a] == ev[q];
                let qb = choose|q: int| 0 <= q < ev.len() && kv[b] == ev[q];
                assert(kv[a] == ev[qa]);
                assert(kv[b] == ev[qb]);
                crate::table::lemma_entry_in_map(ev, qa);
                crate::table::lemma_entry_in_map(ev, qb);
                assert(self.stats_view().contains_key(ev[qa].0));
                assert(self.stats_view().contains_key(ev[qb].0));
            }
        }
        let r = sort_ranked(slowest, kept);
        proof {
            lemma_permuted_entries(kept@, r@);
        }
        r
    }

    /// The stats as a snapshot, listed by pair; the last press is not saved.
    /// Whether the aggregates can be saved: within the limits, and the payload small enough.
    pub open spec fn snapshot_ok(&self) -> bool {
        self.stats_view().dom().len() <= MAX_DIMENSION_ENTRIES && bigram_savable(self.stats_view()) && byte_len(bigram_payload(self.stats_view())) <= MAX_SNAPSHOT_BYTES
    }

    /// The snapshot the aggregates are saved as.
    pub open spec fn snapshot_value(&self) -> crate::metric::SnapshotView {
        snapshot_view(BIGRAM_SPEED_ID@, BIGRAM_SPEED_VERSION, bigram_payload(self.stats_view()))
    }

    pub fn snapshot(&self) -> (r: Result<MetricSnapshot, MetricSnapshotError>)
        requires
            self.wf(),
        ensures
            r is Ok <==> self.snapshot_ok(),
            r matches Ok(s) ==> s@ == self.snapshot_value(),
    {
        validate_entry_count(BIGRAM_SPEED_ID, self.stats.len())?;
        let entries = self.stats.sorted_entries();
        let ghost ev = entry_views(entries@);
        let mut rows: Vec<Vec<Cell>> = Vec::new();
        let mut i: usize = 0;
        while i < entries.len()
            invariant
                i <= entries.len(),
                ev == entry_views(entries@),
                ev == listing::<TextPair, DurationStats>(self.stats_view()),
                entries_map(ev) == self.stats_view(),
                keys_distinct(ev),
                rows.len() == i,
                rows_view(rows@) == ev.take(i as int).map_values(|e: ((Seq<char>, Seq<char>), DurationStats)| pair_duration_row(e)),
                forall|j: int| 0 <= j < i ==> byte_len((#[trigger] ev[j]).0.0) <= MAX_DIMENSION_BYTES && byte_len(ev[j].0.1) <= MAX_DIMENSION_BYTES && stats_ok(ev[j].1),
            decreases entries.len() - i,
        {
            let (pair, s) = &entries[i];
            proof {
                crate::table::lemma_entry_in_map(ev, i as int);
                reveal_strlit("bigram-speed");
            }
            validate_dimension(BIGRAM_SPEED_ID, pair.first())?;
            validate_dimension(BIGRAM_SPEED_ID, pair.second())?;
            let (total_ns, samples) = s.snapshot_parts(BIGRAM_SPEED_ID)?;
            let row = vec![
                Cell::Text(pair.first().to_owned()),
                Cell::Text(pair.second().to_owned()),
                Cell::Count(total_ns),
                Cell::Count(samples),
            ];
            let ghost before = rows_view(rows@);
            rows.push(row);
            proof {
                assert(cells_view(row@) =~= pair_duration_row(ev[i as int]));
                assert(rows_view(rows@) =~= before.push(cells_view(row@)));
                assert(ev.take(i as int + 1) =~= ev.take(i as int).push(ev[i as int]));
            }
            i += 1;
        }
        proof {
            assert(ev.take(entries.len() as int) =~= ev);
            assert forall|k: (Seq<char>, Seq<char>)| #[trigger] self.stats_view().contains_key(k) implies byte_len(k.0) <= MAX_DIMENSION_BYTES && byte_len(k.1) <= MAX_DIMENSION_BYTES && stats_ok(self.stats_view()[k]) by {
                let j = choose|j: int| 0 <= j < ev.len() && #[trigger] ev[j].0 == k;
                crate::table::lemma_entry_in_map(ev, j);
            }
        }
        let values = vec![TopValue::Rows(rows)];
        proof {
            let tv = tops_view(values@);
            assert(tv =~= seq![TopView::Rows(ev.map_values(|e: ((Seq<char>, Seq<char>), DurationStats)| pair_duration_row(e)))]);
            assert forall|j: int| 0 <= j < rows_view(rows@).len() implies row_fits(row_fields(RowLayout::PairDurations), #[trigger] rows_view(rows@)[j]) by {
                assert(rows_view(rows@)[j] == pair_duration_row(ev[j]));
            }
            assert(value_fits(TopKind::Rows(RowLayout::PairDurations), tv[0]));
            reveal_strlit("bigram-speed");
        }
        MetricSnapshot::encode(BIGRAM_SPEED_ID, BIGRAM_SPEED_VERSION, PayloadLayout::PairDurations, &values)
    }

    /// Replaces the stats with those the snapshot holds and forgets the last
    /// press; on an error nothing changes.
    pub fn restore(&mut self, snapshot: &MetricSnapshot) -> (r: Result<(), MetricSnapshotError>)
        requires
            old(self).wf(),
        ensures
            final(self).wf(),
            match restored_bigrams(snapshot@) {
                Some(m) => r is Ok && final(self).stats_view() == m && final(self).last_press_view() is None,
                None => r is Err && final(self).stats_view() == old(self).stats_view()
                    && final(self).last_press_view() == old(self).last_press_view(),
            },
            r matches Err(e) ==> (match decoded(snapshot@, BIGRAM_SPEED_ID@, BIGRAM_SPEED_VERSION, PayloadLayout::PairDurations) {
                None => is_decode_error(e, snapshot@, BIGRAM_SPEED_ID@, BIGRAM_SPEED_VERSION),
                Some(_) => e matches MetricSnapshotError::InvalidPayload { metric_id, .. } && metric_id@ == BIGRAM_SPEED_ID@,
            }),
    {
        let values = snapshot.decode(BIGRAM_SPEED_ID, BIGRAM_SPEED_VERSION, PayloadLayout::PairDurations)?;
        let ghost tv = tops_view(values@);
        proof {
            lemma_payload_shape(snapshot@.payload, PayloadLayout::PairDurations);
            assert(value_fits(TopKind::Rows(RowLayout::PairDurations), tv[0]));
            reveal_strlit("bigram-speed");
        }
        let rows = match &values[0] {
            TopValue::Rows(rows) => rows,
            TopValue::Count(_) => {
                assert(false);
                return Err(MetricSnapshotError::EmptyMetricId);
            },
        };
        let ghost rv = rows_view(rows@);
        assert(tv[0] == TopView::Rows(rv));
        if let Err(e) = validate_entry_count(BIGRAM_SPEED_ID, rows.len()) {
            return Err(e);
        }
        let ghost all = rv.map_values(|r: Seq<CellView>| row_pair_duration(r));
        let mut table: Table<TextPair, DurationStats> = Table::new();
        let mut i: usize = 0;
        proof {
            assert(all.take(0) =~= Seq::<((Seq<char>, Seq<char>), DurationStats)>::empty());
            crate::table::lemma_empty_map(all.take(0));
        }
        while i < rows.len()
            invariant
                i <= rows.len(),
                self.wf(),
                self.stats_view() == old(self).stats_view(),
                self.last_press_view() == old(self).last_press_view(),
                decoded(snapshot@, BIGRAM_SPEED_ID@, BIGRAM_SPEED_VERSION, PayloadLayout::PairDurations) == Some(tv),
                tv[0] == TopView::Rows(rv),
                rv == rows_view(rows@),
                all == rv.map_values(|r: Seq<CellView>| row_pair_duration(r)),
                forall|j: int| 0 <= j < rv.len() ==> row_fits(row_fields(RowLayout::PairDurations), #[trigger] rv[j]),
                table.wf(),
                table.map() == entries_map(all.take(i as int)),
                keys_distinct(all.take(i as int)),
                forall|j: int| 0 <= j < i ==> byte_len(cell_text(#[trigger] rv[j][0])) <= MAX_DIMENSION_BYTES && byte_len(cell_text(rv[j][1])) <= MAX_DIMENSION_BYTES && cell_count(rv[j][2]) <= MAX_DURATION_NANOSECONDS && count_ok(cell_count(rv[j][3])),
                forall|j: int, k: int| 0 <= j < k < i ==> row_pair_duration(#[trigger] rv[j]).0 != row_pair_duration(#[trigger] rv[k]).0,
                rows.len() <= MAX_DIMENSION_ENTRIES,
            decreases rows.len() - i,
        {
            let row = &rows[i];
            proof {
                let fields = row_fields(RowLayout::PairDurations);
                assert(row_fits(fields, rv[i as int]));
                assert(rv[i as int] == cells_view(row@));
                assert(crate::payload::cell_fits(fields[0].1, rv[i as int][0]));
                assert(crate::payload::cell_fits(fields[1].1, rv[i as int][1]));
                assert(crate::payload::cell_fits(fields[2].1, rv[i as int][2]));
                assert(crate::payload::cell_fits(fields[3].1, rv[i as int][3]));
            }
            let first = match &row[0] {
                Cell::Text(t) => t,
                Cell::Count(_) => {
                    assert(false);
                    return Err(MetricSnapshotError::EmptyMetricId);
                },
            };
            let second = match &row[1] {
                Cell::Text(t) => t,
                Cell::Count(_) => {
                    assert(false);
                    return Err(MetricSnapshotError::EmptyMetricId);
                },
            };
            let total_ns = match &row[2] {
                Cell::Count(n) => *n,
                Cell::Text(_) => {
                    assert(false);
                    0
                },
            };
            let samples = match &row[3] {
                Cell::Count(n) => *n,
                Cell::Text(_) => {
                    assert(false);
                    0
                },
            };
            if let Err(e) = validate_dimension(BIGRAM_SPEED_ID, first.as_str()) {
                assert(!bigram_rows_valid(rv)) by {
                    assert(byte_len(cell_text(rv[i as int][0])) > MAX_DIMENSION_BYTES);
                }
                return Err(e);
            }
            if let Err(e) = validate_dimension(BIGRAM_SPEED_ID, second.as_str()) {
                assert(!bigram_rows_valid(rv)) by {
                    assert(byte_len(cell_text(rv[i as int][1])) > MAX_DIMENSION_BYTES);
                }
                return Err(e);
            }
            let ghost prefix = all.take(i as int);
            let ghost entry = all[i as int];
            assert(entry == row_pair_duration(rv[i as int]));
            let key = TextPair::new(first.as_str(), second.as_str());
            if table.get(&key).is_some() {
                proof {
                    let q = choose|q: int| 0 <= q < prefix.len() && #[trigger] prefix[q].0 == entry.0;
                    assert(prefix[q] == row_pair_duration(rv[q]));
                    assert(!bigram_rows_valid(rv));
                }
                return Err(MetricSnapshotError::invalid_payload(BIGRAM_SPEED_ID, PayloadProblem::DuplicateBigram));
            }
            let s = match DurationStats::from_snapshot_parts(BIGRAM_SPEED_ID, total_ns, samples) {
                Ok(s) => s,
                Err(e) => {
                    assert(!bigram_rows_valid(rv)) by {
                        assert(!(cell_count(rv[i as int][2]) <= MAX_DURATION_NANOSECONDS && count_ok(cell_count(rv[i as int][3]))));
                    }
                    return Err(e);
                },
            };
            proof {
                assert(!crate::table::has_key(prefix, entry.0)) by {
                    if crate::table::has_key(prefix, entry.0) {
                        let q = choose|q: int| 0 <= q < prefix.len() && #[trigger] prefix[q].0 == entry.0;
                        crate::table::lemma_entry_in_map(prefix, q);
                    }
                }
                crate::table::lemma_map_push(prefix, entry.0, entry.1);
                assert(all.take(i as int + 1) =~= prefix.push(entry));
                assert forall|q: int| 0 <= q < i implies row_pair_duration(#[trigger] rv[q]).0 != row_pair_duration(rv[i as int]).0 by {
                    assert(prefix[q] == row_pair_duration(rv[q]));
                    if row_pair_duration(rv[q]).0 == row_pair_duration(rv[i as int]).0 {
                        assert(crate::table::has_key(prefix, entry.0));
                    }
                }
            }
            table.insert(key, s);
            i += 1;
        }
        proof {
            assert(all.take(rows.len() as int) =~= all);
            assert(bigram_rows_valid(rv));
        }
        self.stats = table;
        self.last_press = None;
        Ok(())
    }

    /// Forgets the last press, keeping the stats.
    pub fn clear_in_flight(&mut self)
        requires
            old(self).wf(),
        ensures
            final(self).wf(),
            final(self).stats_view() == old(self).stats_view(),
            final(self).last_press_view() is None,
    {
        self.last_press = None;
    }

    pub fn reset(&mut self)
        ensures
            final(self).wf(),
            final(self).stats_view() == PairStats::empty(),
            final(self).last_press_view() is None,
    {
        self.last_press = None;
        self.stats = Table::new();
    }

    /// Restoring the snapshot of the stats gives back the same stats.
    #[verifier::rlimit(80)]
    pub proof fn lemma_round_trip(&self)
        requires
            self.wf(),
            self.snapshot_ok(),
        ensures
            restored_bigrams(self.snapshot_value()) == Some(self.stats_view()),
    {
        let m = self.stats_view();
        self.stats.lemma_has_listing();
        let l = listing::<TextPair, DurationStats>(m);
        crate::table::lemma_map_len(l);
        let rows = l.map_values(|e: ((Seq<char>, Seq<char>), DurationStats)| pair_duration_row(e));
        let values = seq![TopView::Rows(rows)];
        let fields = row_fields(RowLayout::PairDurations);
        assert forall|j: int| 0 <= j < rows.len() implies row_fits(fields, #[trigger] rows[j]) by {
            assert(rows[j] == pair_duration_row(l[j]));
        }
        assert(crate::payload::values_fit(PayloadLayout::PairDurations, values)) by {
            assert(value_fits(crate::payload::top_fields(PayloadLayout::PairDurations)[0].1, values[0]));
        }
        crate::roundtrip::lemma_payload_round_trip(PayloadLayout::PairDurations, values);
        assert forall|i: int| 0 <= i < rows.len() implies #[trigger] row_pair_duration(rows[i]) == l[i] by {
            crate::table::lemma_entry_in_map(l, i);
            assert(rows[i] == pair_duration_row(l[i]));
        }
        assert forall|i: int| 0 <= i < rows.len() implies byte_len(cell_text(#[trigger] rows[i][0])) <= MAX_DIMENSION_BYTES && byte_len(cell_text(rows[i][1])) <= MAX_DIMENSION_BYTES && cell_count(rows[i][2]) <= MAX_DURATION_NANOSECONDS && count_ok(cell_count(rows[i][3])) by {
            crate::table::lemma_entry_in_map(l, i);
            assert(rows[i] == pair_duration_row(l[i]));
        }
        assert forall|i: int, j: int| 0 <= i < j < rows.len() implies row_pair_duration(#[trigger] rows[i]).0 != row_pair_duration(#[trigger] rows[j]).0 by {
            assert(row_pair_duration(rows[i]) == l[i]);
            assert(row_pair_duration(rows[j]) == l[j]);
        }
        assert(bigram_rows_valid(rows));
        assert(rows.map_values(|r: Seq<CellView>| row_pair_duration(r)) =~= l);
    }
}

} // verus!
