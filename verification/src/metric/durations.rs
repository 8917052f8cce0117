//! Duration aggregates keyed by produced text, their ordering, snapshots and restoring.
use vstd::prelude::*;

use crate::metric::{
    average_order, averages_comparable, byte_len, count_ok, decoded, is_decode_error,
    snapshot_view, stats_ok, validate_dimension, validate_entry_count, DurationStats,
    MetricSnapshot, MetricSnapshotError, PayloadProblem, SnapshotView, MAX_DIMENSION_BYTES,
    MAX_DIMENSION_ENTRIES, MAX_DURATION_NANOSECONDS, MAX_SNAPSHOT_BYTES,
    MAX_TOTAL_DURATION_NANOSECONDS,
};
use crate::metric::key_usage::{cell_count, cell_text};
use crate::payload::{
    cells_view, encode_payload, lemma_payload_shape, row_fields, row_fits, rows_view, tops_view,
    value_fits, Cell, CellView, PayloadLayout, RowLayout, TopKind, TopValue, TopView,
};
use crate::sorting::{lemma_ranked_unique, ranked, sort_ranked, Ranked};
use crate::table::{
    entries_map, entry_views, keys_distinct, lemma_permuted_entries, listing, Table, TableKey,
};
use crate::text::{compare_text, lemma_text_lt_transitive, lemma_text_order_antisymmetric,
    lemma_text_order_equal, text_lt};

verus! {

/// The stats after one more sample of `d` nanoseconds for `k`.
pub open spec fn recorded(m: Map<Seq<char>, DurationStats>, k: Seq<char>, d: u64) -> Map<Seq<char>, DurationStats> {
    let before = if m.contains_key(k) {
        m[k]
    } else {
        DurationStats { total_ns: 0, samples: 0 }
    };
    m.insert(k, DurationStats { total_ns: (before.total_ns + d) as u128, samples: (before.samples + 1) as u64 })
}

/// One more sample of `d` nanoseconds for `k` fits in the stats.
pub open spec fn can_record(m: Map<Seq<char>, DurationStats>, k: Seq<char>, d: u64) -> bool {
    m.contains_key(k) ==> m[k].total_ns + d <= MAX_TOTAL_DURATION_NANOSECONDS && m[k].samples < u64::MAX
}

/// Adds one sample of `d` nanoseconds for `key`.
pub fn record_text_duration(stats: &mut Table<String, DurationStats>, key: &str, d: u64)
    requires
        old(stats).wf(),
        can_record(old(stats).map(), key@, d),
    ensures
        final(stats).wf(),
        final(stats).map() == recorded(old(stats).map(), key@, d),
{
    let k = key.to_owned();
    let mut s = match stats.get(&k) {
        Some(s) => *s,
        None => DurationStats::empty(),
    };
    s.record(d);
    stats.insert(k, s);
}

/// How duration lists are ordered.
#[derive(Clone, Copy, Debug, PartialEq, Eq, Structural)]
pub enum DurationSort {
    /// Highest average first, then by text.
    Slowest,
    /// Lowest average first, then by text.
    Fastest,
    /// By text.
    Label,
    /// Most samples first, then by text.
    SampleCount,
}

impl DurationSort {
    /// The name shown for the order.
    pub fn label(self) -> (r: &'static str)
        ensures
            r@ == match self {
                DurationSort::Slowest => "Slowest"@,
                DurationSort::Fastest => "Fastest"@,
                DurationSort::Label => "Label"@,
                DurationSort::SampleCount => "Sample count"@,
            },
    {
        match self {
            DurationSort::Slowest => "Slowest",
            DurationSort::Fastest => "Fastest",
            DurationSort::Label => "Label",
            DurationSort::SampleCount => "Sample count",
        }
    }
}

/// The order of duration lists.
pub open spec fn duration_before(mode: DurationSort, a: (Seq<char>, DurationStats), b: (Seq<char>, DurationStats)) -> bool {
    match mode {
        DurationSort::Slowest => average_order(b.1, a.1) < 0 || (average_order(b.1, a.1) == 0
            && text_lt(a.0, b.0)),
        DurationSort::Fastest => average_order(a.1, b.1) < 0 || (average_order(a.1, b.1) == 0
            && text_lt(a.0, b.0)),
        DurationSort::Label => text_lt(a.0, b.0),
        DurationSort::SampleCount => a.1.samples > b.1.samples || (a.1.samples == b.1.samples
            && text_lt(a.0, b.0)),
    }
}

/// `a/b` and `c/d` compare as the cross products do, transitively, for positive `b, d, f`.
pub proof fn lemma_cross_transitive(a: int, b: int, c: int, d: int, e: int, f: int)
    requires
        b > 0,
        d > 0,
        f > 0,
        a * d <= c * b,
        c * f <= e * d,
    ensures
        a * f <= e * b,
        (a * d < c * b || c * f < e * d) ==> a * f < e * b,
{
    assert(a * d * f <= c * b * f) by (nonlinear_arith)
        requires
            a * d <= c * b,
            f > 0,
    ;
    assert(c * f * b <= e * d * b) by (nonlinear_arith)
        requires
            c * f <= e * d,
            b > 0,
    ;
    assert(a * f * d <= e * b * d) by (nonlinear_arith)
        requires
            a * d * f <= c * b * f,
            c * f * b <= e * d * b,
    ;
    assert(a * f <= e * b) by (nonlinear_arith)
        requires
            a * f * d <= e * b * d,
            d > 0,
    ;
    if a * d < c * b || c * f < e * d {
        assert(a * f * d < e * b * d) by (nonlinear_arith)
            requires
                a * d <= c * b,
                c * f <= e * d,
                a * d < c * b || c * f < e * d,
                b > 0,
                d > 0,
                f > 0,
        ;
        assert(a * f < e * b) by (nonlinear_arith)
            requires
                a * f * d < e * b * d,
                d > 0,
        ;
    }
}

proof fn lemma_average_transitive(x: DurationStats, y: DurationStats, z: DurationStats)
    requires
        x.samples > 0,
        y.samples > 0,
        z.samples > 0,
        average_order(x, y) <= 0,
        average_order(y, z) <= 0,
    ensures
        average_order(x, z) <= 0,
        (average_order(x, y) < 0 || average_order(y, z) < 0) ==> average_order(x, z) < 0,
{
    lemma_cross_transitive(
        x.total_ns as int,
        x.samples as int,
        y.total_ns as int,
        y.samples as int,
        z.total_ns as int,
        z.samples as int,
    );
}

impl Ranked for (String, DurationStats) {
    type Mode = DurationSort;

    open spec fn ranks_before(mode: DurationSort, a: Self, b: Self) -> bool {
        a.1.samples > 0 && b.1.samples > 0 && duration_before(mode, (a.0@, a.1), (b.0@, b.1))
    }

    open spec fn comparable(mode: DurationSort, a: Self, b: Self) -> bool {
        averages_comparable(a.1, b.1)
    }

    proof fn lemma_ranks_before_transitive(mode: DurationSort, a: Self, b: Self, c: Self) {
        let (x, y, z) = (a.0@, b.0@, c.0@);
        lemma_text_order_equal(x, y);
        lemma_text_order_equal(y, z);
        lemma_text_order_equal(x, z);
        if text_lt(x, y) && text_lt(y, z) {
            lemma_text_lt_transitive(x, y, z);
        }
        match mode {
            DurationSort::Slowest => {
                lemma_average_transitive(c.1, b.1, a.1);
            },
            DurationSort::Fastest => {
                lemma_average_transitive(a.1, b.1, c.1);
            },
            _ => {},
        }
    }

    proof fn lemma_ranks_before_asymmetric(mode: DurationSort, a: Self, b: Self) {
        lemma_text_order_antisymmetric(a.0@, b.0@);
        lemma_text_order_equal(a.0@, b.0@);
    }

    fn precedes(mode: DurationSort, a: &Self, b: &Self) -> (r: bool) {
        if a.1.samples == 0 || b.1.samples == 0 {
            return false;
        }
        let t = compare_text(a.0.as_str(), b.0.as_str());
        match mode {
            DurationSort::Slowest => {
                let o = b.1.compare_average(a.1);
                o < 0 || (o == 0 && t < 0)
            },
            DurationSort::Fastest => {
                let o = a.1.compare_average(b.1);
                o < 0 || (o == 0 && t < 0)
            },
            DurationSort::Label => t < 0,
            DurationSort::SampleCount => a.1.samples > b.1.samples || (a.1.samples == b.1.samples
                && t < 0),
        }
    }
}

/// Every pair of aggregates can be compared by average without overflow.
pub open spec fn stats_comparable<K>(m: Map<K, DurationStats>) -> bool {
    forall|a: K, b: K| #[trigger] m.contains_key(a) && #[trigger] m.contains_key(b) ==> averages_comparable(m[a], m[b])
}

/// Every text with its stats, in the chosen order.
pub fn sorted_text_durations(stats: &Table<String, DurationStats>, sort: DurationSort) -> (r: Vec<(String, DurationStats)>)
    requires
        stats.wf(),
        stats_comparable(stats.map()),
    ensures
        keys_distinct(entry_views(r@)),
        entries_map(entry_views(r@)) == stats.map(),
        ranked(sort, r@),
{
    let entries = stats.sorted_entries();
    proof {
        let ev = entry_views(entries@);
        assert forall|i: int, j: int| 0 <= i < entries.len() && 0 <= j < entries.len() implies <(String, DurationStats) as Ranked>::comparable(sort, #[trigger] entries@[i], #[trigger] entries@[j]) by {
            crate::table::lemma_entry_in_map(ev, i);
            crate::table::lemma_entry_in_map(ev, j);
            assert(stats.map().contains_key(ev[i].0) && stats.map().contains_key(ev[j].0));
        }
    }
    let r = sort_ranked(sort, entries);
    proof {
        lemma_permuted_entries(entries@, r@);
    }
    r
}

/// The number of samples a listing holds in all.
pub open spec fn listed_samples(s: Seq<(String, DurationStats)>) -> int
    decreases s.len(),
{
    if s.len() == 0 {
        0
    } else {
        listed_samples(s.drop_last()) + s.last().1.samples
    }
}

/// The time a listing holds in all, in nanoseconds.
pub open spec fn listed_total_ns(s: Seq<(String, DurationStats)>) -> int
    decreases s.len(),
{
    if s.len() == 0 {
        0
    } else {
        listed_total_ns(s.drop_last()) + s.last().1.total_ns
    }
}

proof fn lemma_listed_prefix(s: Seq<(String, DurationStats)>, n: int)
    requires
        0 <= n <= s.len(),
    ensures
        listed_samples(s.take(n)) <= listed_samples(s),
        listed_total_ns(s.take(n)) <= listed_total_ns(s),
    decreases s.len(),
{
    if n == s.len() {
        assert(s.take(n) =~= s);
    } else {
        assert(s.drop_last().take(n) =~= s.take(n));
        lemma_listed_prefix(s.drop_last(), n);
    }
}

proof fn lemma_listed_samples_bound(s: Seq<(String, DurationStats)>)
    ensures
        0 <= listed_samples(s) <= s.len() * 18446744073709551615,
    decreases s.len(),
{
    if s.len() > 0 {
        lemma_listed_samples_bound(s.drop_last());
    }
}

/// The time and the number of samples of a whole listing, from which its
/// average weighted by sample counts follows; `None` when it holds no sample.
pub fn overall_totals(stats: &Vec<(String, DurationStats)>) -> (r: Option<(u128, u128)>)
    requires
        listed_total_ns(stats@) <= u128::MAX,
    ensures
        r is None <==> listed_samples(stats@) == 0,
        r matches Some((total, samples)) ==> total == listed_total_ns(stats@) && samples
            == listed_samples(stats@),
{
    let mut samples: u128 = 0;
    let mut total: u128 = 0;
    let mut i: usize = 0;
    while i < stats.len()
        invariant
            i <= stats.len(),
            samples == listed_samples(stats@.take(i as int)),
            total == listed_total_ns(stats@.take(i as int)),
            listed_total_ns(stats@) <= u128::MAX,
        decreases stats.len() - i,
    {
        let next: usize = i + 1;
        proof {
            let s = stats@.take(next as int);
            assert(s.drop_last() =~= stats@.take(i as int));
            lemma_listed_prefix(stats@, next as int);
            lemma_listed_samples_bound(s);
            assert(next * 18446744073709551615 <= 18446744073709551615 * 18446744073709551615int)
                by (nonlinear_arith)
                requires
                    next <= 18446744073709551615int,
            ;
        }
        samples = samples + stats[i].1.samples as u128;
        total = total + stats[i].1.total_ns;
        i = next;
    }
    assert(stats@.take(stats.len() as int) =~= stats@);
    if samples == 0 {
        None
    } else {
        Some((total, samples))
    }
}

/// The row a text's stats are saved as: `{text, total_ns, samples}`.
pub open spec fn text_duration_row(e: (Seq<char>, DurationStats)) -> Seq<CellView> {
    seq![CellView::Text(e.0), CellView::Count(e.1.total_ns as u64), CellView::Count(e.1.samples)]
}

/// The payload that lists the stats in text order.
pub open spec fn text_durations_payload(m: Map<Seq<char>, DurationStats>) -> Seq<char> {
    encode_payload(
        PayloadLayout::TextDurations,
        seq![TopView::Rows(listing::<String, DurationStats>(m).map_values(|e: (Seq<char>, DurationStats)| text_duration_row(e)))],
    )
}

/// Every aggregate may be saved: texts short enough, samples and totals in range.
pub open spec fn text_durations_savable(m: Map<Seq<char>, DurationStats>) -> bool {
    forall|k: Seq<char>| #[trigger] m.contains_key(k) ==> byte_len(k) <= MAX_DIMENSION_BYTES && stats_ok(m[k])
}

/// The text and stats a saved row holds.
pub open spec fn row_text_duration(r: Seq<CellView>) -> (Seq<char>, DurationStats) {
    (cell_text(r[0]), DurationStats { total_ns: cell_count(r[1]) as u128, samples: cell_count(r[2]) })
}

/// Saved rows that may be restored: few enough, each valid, no text twice.
pub open spec fn text_duration_rows_valid(rows: Seq<Seq<CellView>>) -> bool {
    &&& rows.len() <= MAX_DIMENSION_ENTRIES
    &&& forall|i: int| 0 <= i < rows.len() ==> byte_len(cell_text(#[trigger] rows[i][0])) <= MAX_DIMENSION_BYTES && cell_count(rows[i][1]) <= MAX_DURATION_NANOSECONDS && count_ok(cell_count(rows[i][2]))
    &&& forall|i: int, j: int| 0 <= i < j < rows.len() ==> cell_text(#[trigger] rows[i][0]) != cell_text(#[trigger] rows[j][0])
}

/// The stats a snapshot of `metric_id` restores, or `None` when it is refused.
pub open spec fn restored_text_durations(s: SnapshotView, metric_id: Seq<char>) -> Option<Map<Seq<char>, DurationStats>> {
    match decoded(s, metric_id, 1, PayloadLayout::TextDurations) {
        Some(v) => match v[0] {
            TopView::Rows(rows) => if text_duration_rows_valid(rows) {
                Some(entries_map(rows.map_values(|r: Seq<CellView>| row_text_duration(r))))
            } else {
                None
            },
            TopView::Count(_) => None,
        },
        None => None,
    }
}

/// A snapshot of text-keyed stats, listed in text order.
pub fn snapshot_text_durations(metric_id: &str, stats: &Table<String, DurationStats>) -> (r: Result<MetricSnapshot, MetricSnapshotError>)
    requires
        stats.wf(),
    ensures
        r is Ok <==> metric_id@.len() > 0 && stats.map().dom().len() <= MAX_DIMENSION_ENTRIES
            && text_durations_savable(stats.map()) && byte_len(text_durations_payload(stats.map()))
            <= MAX_SNAPSHOT_BYTES,
        r matches Ok(s) ==> s@ == snapshot_view(metric_id@, 1, text_durations_payload(stats.map())),
{
    validate_entry_count(metric_id, stats.len())?;
    let entries = stats.sorted_entries();
    let ghost ev = entry_views(entries@);
    let mut rows: Vec<Vec<Cell>> = Vec::new();
    let mut i: usize = 0;
    while i < entries.len()
        invariant
            i <= entries.len(),
            ev == entry_views(entries@),
            ev == listing::<String, DurationStats>(stats.map()),
            entries_map(ev) == stats.map(),
            keys_distinct(ev),
            rows.len() == i,
            rows_view(rows@) == ev.take(i as int).map_values(|e: (Seq<char>, DurationStats)| text_duration_row(e)),
            forall|j: int| 0 <= j < i ==> byte_len(#[trigger] ev[j].0) <= MAX_DIMENSION_BYTES && stats_ok(ev[j].1),
        decreases entries.len() - i,
    {
        let (text, s) = &entries[i];
        if let Err(e) = validate_dimension(metric_id, text.as_str()) {
            proof {
                crate::table::lemma_entry_in_map(ev, i as int);
            }
            return Err(e);
        }
        let (total_ns, samples) = match s.snapshot_parts(metric_id) {
            Ok(p) => p,
            Err(e) => {
                proof {
                    crate::table::lemma_entry_in_map(ev, i as int);
                }
                return Err(e);
            },
        };
        let row = vec![Cell::Text(text.clone()), Cell::Count(total_ns), Cell::Count(samples)];
        let ghost before = rows_view(rows@);
        rows.push(row);
        proof {
            assert(cells_view(row@) =~= text_duration_row(ev[i as int]));
            assert(rows_view(rows@) =~= before.push(cells_view(row@)));
            assert(ev.take(i as int + 1) =~= ev.take(i as int).push(ev[i as int]));
        }
        i += 1;
    }
    proof {
        assert(ev.take(entries.len() as int) =~= ev);
        assert forall|k: Seq<char>| #[trigger] stats.map().contains_key(k) implies byte_len(k) <= MAX_DIMENSION_BYTES && stats_ok(stats.map()[k]) by {
            let j = choose|j: int| 0 <= j < ev.len() && #[trigger] ev[j].0 == k;
            crate::table::lemma_entry_in_map(ev, j);
        }
    }
    let values = vec![TopValue::Rows(rows)];
    proof {
        let tv = tops_view(values@);
        assert(tv =~= seq![TopView::Rows(ev.map_values(|e: (Seq<char>, DurationStats)| text_duration_row(e)))]);
        assert forall|j: int| 0 <= j < rows_view(rows@).len() implies row_fits(row_fields(RowLayout::TextDurations), #[trigger] rows_view(rows@)[j]) by {
            assert(rows_view(rows@)[j] == text_duration_row(ev[j]));
        }
        assert(value_fits(TopKind::Rows(RowLayout::TextDurations), tv[0]));
    }
    MetricSnapshot::encode(metric_id, 1, PayloadLayout::TextDurations, &values)
}

/// The text-keyed stats a snapshot of `metric_id` holds.
pub fn restore_text_durations(metric_id: &str, snapshot: &MetricSnapshot) -> (r: Result<Table<String, DurationStats>, MetricSnapshotError>)
    ensures
        match restored_text_durations(snapshot@, metric_id@) {
            Some(m) => r matches Ok(t) && t.wf() && t.map() == m,
            None => r is Err,
        },
        r matches Err(e) ==> (match decoded(snapshot@, metric_id@, 1, PayloadLayout::TextDurations) {
            None => is_decode_error(e, snapshot@, metric_id@, 1),
            Some(_) => e matches MetricSnapshotError::InvalidPayload { metric_id: m, .. } && m@ == metric_id@,
        }),
{
    let values = snapshot.decode(metric_id, 1, PayloadLayout::TextDurations)?;
    let ghost tv = tops_view(values@);
    proof {
        lemma_payload_shape(snapshot@.payload, PayloadLayout::TextDurations);
        assert(value_fits(TopKind::Rows(RowLayout::TextDurations), tv[0]));
    }
    let rows = match &values[0] {
        TopValue::Rows(rows) => rows,
        TopValue::Count(_) => {
            assert(false);
            return Err(MetricSnapshotError::EmptyMetricId);
        },
    };
    let ghost rv = rows_view(rows@);
    assert(tv[0] == TopView::Rows(rv));
    if let Err(e) = validate_entry_count(metric_id, rows.len()) {
        return Err(e);
    }
    let ghost all = rv.map_values(|r: Seq<CellView>| row_text_duration(r));
    let mut table: Table<String, DurationStats> = Table::new();
    let mut i: usize = 0;
    proof {
        assert(all.take(0) =~= Seq::<(Seq<char>, DurationStats)>::empty());
        crate::table::lemma_empty_map(all.take(0));
    }
    while i < rows.len()
        invariant
            i <= rows.len(),
            decoded(snapshot@, metric_id@, 1, PayloadLayout::TextDurations) == Some(tv),
            tv[0] == TopView::Rows(rv),
            rv == rows_view(rows@),
            all == rv.map_values(|r: Seq<CellView>| row_text_duration(r)),
            forall|j: int| 0 <= j < rv.len() ==> row_fits(row_fields(RowLayout::TextDurations), #[trigger] rv[j]),
            table.wf(),
            table.map() == entries_map(all.take(i as int)),
            keys_distinct(all.take(i as int)),
            forall|j: int| 0 <= j < i ==> byte_len(cell_text(#[trigger] rv[j][0])) <= MAX_DIMENSION_BYTES && cell_count(rv[j][1]) <= MAX_DURATION_NANOSECONDS && count_ok(cell_count(rv[j][2])),
            forall|j: int, k: int| 0 <= j < k < i ==> cell_text(#[trigger] rv[j][0]) != cell_text(#[trigger] rv[k][0]),
            rows.len() <= MAX_DIMENSION_ENTRIES,
        decreases rows.len() - i,
    {
        let row = &rows[i];
        proof {
            let fields = row_fields(RowLayout::TextDurations);
            assert(row_fits(fields, rv[i as int]));
            assert(rv[i as int] == cells_view(row@));
            assert(crate::payload::cell_fits(fields[0].1, rv[i as int][0]));
            assert(crate::payload::cell_fits(fields[1].1, rv[i as int][1]));
            assert(crate::payload::cell_fits(fields[2].1, rv[i as int][2]));
        }
        let text = match &row[0] {
            Cell::Text(t) => t,
            Cell::Count(_) => {
                assert(false);
                return Err(MetricSnapshotError::EmptyMetricId);
            },
        };
        let total_ns = match &row[1] {
            Cell::Count(n) => *n,
            Cell::Text(_) => {
                assert(false);
                0
            },
        };
        let samples = match &row[2] {
            Cell::Count(n) => *n,
            Cell::Text(_) => {
                assert(false);
                0
            },
        };
        if let Err(e) = validate_dimension(metric_id, text.as_str()) {
            assert(!text_duration_rows_valid(rv)) by {
                assert(byte_len(cell_text(rv[i as int][0])) > MAX_DIMENSION_BYTES);
            }
            return Err(e);
        }
        let ghost prefix = all.take(i as int);
        let ghost entry = all[i as int];
        assert(entry == row_text_duration(rv[i as int]));
        if table.get(text).is_some() {
            proof {
                let q = choose|q: int| 0 <= q < prefix.len() && #[trigger] prefix[q].0 == entry.0;
                assert(prefix[q] == row_text_duration(rv[q]));
                assert(cell_text(rv[q][0]) == cell_text(rv[i as int][0]));
                assert(!text_duration_rows_valid(rv));
            }
            return Err(MetricSnapshotError::invalid_payload(metric_id, PayloadProblem::DuplicateDuration));
        }
        let s = match DurationStats::from_snapshot_parts(metric_id, total_ns, samples) {
            Ok(s) => s,
            Err(e) => {
                assert(!text_duration_rows_valid(rv)) by {
                    assert(!(cell_count(rv[i as int][1]) <= MAX_DURATION_NANOSECONDS && count_ok(cell_count(rv[i as int][2]))));
                }
                return Err(e);
            },
        };
        proof {
            assert(!crate::table::has_key(prefix, entry.0)) by {
                if crate::table::has_key(prefix, entry.0) {
                    let q = choose|q: int| 0 <= q < prefix.len() && #[trigger] prefix[q].0 == entry.0;
                    crate::table::lemma_entry_in_map(prefix, q);
                }
            }
            crate::table::lemma_map_push(prefix, entry.0, entry.1);
            assert(all.take(i as int + 1) =~= prefix.push(entry));
            assert forall|q: int| 0 <= q < i implies cell_text(#[trigger] rv[q][0]) != cell_text(rv[i as int][0]) by {
                assert(prefix[q] == row_text_duration(rv[q]));
                if cell_text(rv[q][0]) == cell_text(rv[i as int][0]) {
                    assert(crate::table::has_key(prefix, entry.0));
                }
            }
        }
        table.insert(text.clone(), s);
        i += 1;
    }
    proof {
        assert(all.take(rows.len() as int) =~= all);
        assert(text_duration_rows_valid(rv));
    }
    Ok(table)
}

/// Restoring the snapshot of savable text-keyed stats gives back the same stats.
#[verifier::rlimit(80)]
pub proof fn lemma_text_durations_round_trip(stats: &Table<String, DurationStats>, metric_id: Seq<char>)
    requires
        stats.wf(),
        stats.map().dom().len() <= MAX_DIMENSION_ENTRIES,
        text_durations_savable(stats.map()),
    ensures
        restored_text_durations(snapshot_view(metric_id, 1, text_durations_payload(stats.map())), metric_id) == Some(stats.map()),
{
    let m = stats.map();
    stats.lemma_has_listing();
    let l = listing::<String, DurationStats>(m);
    crate::table::lemma_map_len(l);
    let rows = l.map_values(|e: (Seq<char>, DurationStats)| text_duration_row(e));
    let values = seq![TopView::Rows(rows)];
    let fields = row_fields(RowLayout::TextDurations);
    assert forall|j: int| 0 <= j < rows.len() implies row_fits(fields, #[trigger] rows[j]) by {
        assert(rows[j] == text_duration_row(l[j]));
    }
    assert(crate::payload::values_fit(PayloadLayout::TextDurations, values)) by {
        assert(value_fits(crate::payload::top_fields(PayloadLayout::TextDurations)[0].1, values[0]));
    }
    crate::roundtrip::lemma_payload_round_trip(PayloadLayout::TextDurations, values);
    assert forall|i: int| 0 <= i < rows.len() implies byte_len(cell_text(#[trigger] rows[i][0])) <= MAX_DIMENSION_BYTES && cell_count(rows[i][1]) <= MAX_DURATION_NANOSECONDS && count_ok(cell_count(rows[i][2])) by {
        crate::table::lemma_entry_in_map(l, i);
        assert(rows[i] == text_duration_row(l[i]));
    }
    assert forall|i: int, j: int| 0 <= i < j < rows.len() implies cell_text(#[trigger] rows[i][0]) != cell_text(#[trigger] rows[j][0]) by {
        assert(rows[i] == text_duration_row(l[i]));
        assert(rows[j] == text_duration_row(l[j]));
    }
    assert(text_duration_rows_valid(rows));
    assert forall|i: int| 0 <= i < rows.len() implies #[trigger] row_text_duration(rows[i]) == l[i] by {
        crate::table::lemma_entry_in_map(l, i);
        assert(rows[i] == text_duration_row(l[i]));
    }
    assert(rows.map_values(|r: Seq<CellView>| row_text_duration(r)) =~= l);
}

/// Duration lists are deterministic: two listings of the same stats in the
/// same order, each text listed once and every entry sampled, are equal.
pub proof fn lemma_duration_listing_unique(
    mode: DurationSort,
    a: Seq<(String, DurationStats)>,
    b: Seq<(String, DurationStats)>,
)
    requires
        ranked(mode, a),
        ranked(mode, b),
        a.to_multiset() == b.to_multiset(),
        keys_distinct(entry_views(a)),
        forall|i: int| 0 <= i < a.len() ==> (#[trigger] a[i]).1.samples > 0,
    ensures
        a == b,
{
    assert forall|x: (String, DurationStats), y: (String, DurationStats)|
        a.contains(x) && a.contains(y) && x != y implies <(String, DurationStats) as Ranked>::ranks_before(
        mode,
        x,
        y,
    ) || <(String, DurationStats) as Ranked>::ranks_before(mode, y, x) by {
        let p = choose|p: int| 0 <= p < a.len() && a[p] == x;
        let q = choose|q: int| 0 <= q < a.len() && a[q] == y;
        assert(p != q);
        assert(entry_views(a)[p].0 != entry_views(a)[q].0);
        assert(a[p].1.samples > 0 && a[q].1.samples > 0);
        lemma_text_order_equal(x.0@, y.0@);
        lemma_text_order_antisymmetric(x.0@, y.0@);
    }
    lemma_ranked_unique(mode, a, b);
}

} // verus!
