//! Presses per physical key.
use vstd::prelude::*;

use crate::input::{physical_key_lt, KeyEvent, KeyEventKind, PhysicalKey};
use crate::metric::{
    byte_len, count_ok, decoded, is_decode_error, snapshot_view, validate_count,
    validate_dimension, validate_entry_count, MetricSnapshot, MetricSnapshotError,
    PayloadProblem, SnapshotView, MAX_DIMENSION_BYTES, MAX_DIMENSION_ENTRIES, MAX_SNAPSHOT_BYTES,
};
use crate::payload::{
    encode_payload, lemma_payload_shape, rows_view, tops_view, value_fits, row_fits, row_fields,
    Cell, CellView, PayloadLayout, RowLayout, TopKind, TopValue, TopView, cells_view,
};
use crate::sorting::{lemma_ranked_unique, ranked, sort_ranked, Ranked};
use crate::table::{
    counts_max, counts_total, entries_map, entry_views, keys_distinct, lemma_permuted_entries,
    listing, table_max, table_total, Table, TableKey,
};
use crate::text::{compare_text, lemma_text_lt_transitive, lemma_text_order_antisymmetric,
    lemma_text_order_equal, text_lt};

verus! {

pub const KEY_USAGE_ID: &'static str = "key-usage";

pub const KEY_USAGE_VERSION: u32 = 1;

/// How the key usage list is ordered.
#[derive(Clone, Copy, Debug, PartialEq, Eq, Structural)]
pub enum KeyUsageSort {
    /// Most presses first, then by label, then by code.
    PressCount,
    /// By label, then by code.
    KeyLabel,
}

impl KeyUsageSort {
    /// The name shown for the order.
    pub fn label(self) -> (r: &'static str)
        ensures
            r@ == match self {
                KeyUsageSort::PressCount => "Press count"@,
                KeyUsageSort::KeyLabel => "Key label"@,
            },
    {
        match self {
            KeyUsageSort::PressCount => "Press count",
            KeyUsageSort::KeyLabel => "Key label",
        }
    }
}

/// The order of the key usage list.
pub open spec fn key_count_before(mode: KeyUsageSort, a: ((u16, Seq<char>), u64), b: ((u16, Seq<char>), u64)) -> bool {
    let by_label = text_lt(a.0.1, b.0.1) || (a.0.1 == b.0.1 && a.0.0 < b.0.0);
    match mode {
        KeyUsageSort::PressCount => a.1 > b.1 || (a.1 == b.1 && by_label),
        KeyUsageSort::KeyLabel => by_label,
    }
}

impl Ranked for (PhysicalKey, u64) {
    type Mode = KeyUsageSort;

    open spec fn ranks_before(mode: KeyUsageSort, a: Self, b: Self) -> bool {
        key_count_before(mode, (a.0@, a.1), (b.0@, b.1))
    }

    open spec fn comparable(mode: KeyUsageSort, a: Self, b: Self) -> bool {
        true
    }

    proof fn lemma_ranks_before_transitive(mode: KeyUsageSort, a: Self, b: Self, c: Self) {
        let (x, y, z) = (a.0@.1, b.0@.1, c.0@.1);
        lemma_text_order_equal(x, y);
        lemma_text_order_equal(y, z);
        lemma_text_order_equal(x, z);
        if text_lt(x, y) && text_lt(y, z) {
            lemma_text_lt_transitive(x, y, z);
        }
    }

    proof fn lemma_ranks_before_asymmetric(mode: KeyUsageSort, a: Self, b: Self) {
        lemma_text_order_antisymmetric(a.0@.1, b.0@.1);
        lemma_text_order_equal(a.0@.1, b.0@.1);
    }

    fn precedes(mode: KeyUsageSort, a: &Self, b: &Self) -> (r: bool) {
        let c = compare_text(a.0.label(), b.0.label());
        proof {
            lemma_text_order_equal(a.0@.1, b.0@.1);
        }
        let by_label = c < 0 || (c == 0 && a.0.code() < b.0.code());
        match mode {
            KeyUsageSort::PressCount => a.1 > b.1 || (a.1 == b.1 && by_label),
            KeyUsageSort::KeyLabel => by_label,
        }
    }
}

/// No two counted keys share a Linux key code.
pub open spec fn codes_distinct(m: Map<(u16, Seq<char>), u64>) -> bool {
    forall|a: (u16, Seq<char>), b: (u16, Seq<char>)| #[trigger] m.contains_key(a) && #[trigger] m.contains_key(b) && a.0 == b.0 ==> a == b
}

/// The row a key's count is saved as: `{code, label, count}`.
pub open spec fn key_row(e: ((u16, Seq<char>), u64)) -> Seq<CellView> {
    seq![CellView::Count(e.0.0 as u64), CellView::Text(e.0.1), CellView::Count(e.1)]
}

/// The payload that lists the counts in key order.
pub open spec fn key_usage_payload(m: Map<(u16, Seq<char>), u64>) -> Seq<char> {
    encode_payload(
        PayloadLayout::KeyCounts,
        seq![TopView::Rows(listing::<PhysicalKey, u64>(m).map_values(|e: ((u16, Seq<char>), u64)| key_row(e)))],
    )
}

/// Every count may be saved: labels short enough and counts in range.
pub open spec fn key_counts_savable(m: Map<(u16, Seq<char>), u64>) -> bool {
    forall|k: (u16, Seq<char>)| #[trigger] m.contains_key(k) ==> byte_len(k.1) <= MAX_DIMENSION_BYTES && count_ok(m[k])
}

pub open spec fn cell_count(c: CellView) -> u64 {
    match c {
        CellView::Count(n) => n,
        CellView::Text(_) => 0,
    }
}

pub open spec fn cell_text(c: CellView) -> Seq<char> {
    match c {
        CellView::Text(t) => t,
        CellView::Count(_) => Seq::empty(),
    }
}

/// The key and count a saved row holds.
pub open spec fn row_key_count(r: Seq<CellView>) -> ((u16, Seq<char>), u64) {
    ((cell_count(r[0]) as u16, cell_text(r[1])), cell_count(r[2]))
}

/// Saved rows that may be restored: few enough, each valid, no code twice.
pub open spec fn key_rows_valid(rows: Seq<Seq<CellView>>) -> bool {
    &&& rows.len() <= MAX_DIMENSION_ENTRIES
    &&& forall|i: int| 0 <= i < rows.len() ==> byte_len(cell_text(#[trigger] rows[i][1])) <= MAX_DIMENSION_BYTES && count_ok(cell_count(rows[i][2]))
    &&& forall|i: int, j: int| 0 <= i < j < rows.len() ==> cell_count(#[trigger] rows[i][0]) != cell_count(#[trigger] rows[j][0])
}

/// The counts a snapshot restores, or `None` when it is refused.
pub open spec fn restored_key_counts(s: SnapshotView) -> Option<Map<(u16, Seq<char>), u64>> {
    match decoded(s, KEY_USAGE_ID@, KEY_USAGE_VERSION, PayloadLayout::KeyCounts) {
        Some(v) => match v[0] {
            TopView::Rows(rows) => if key_rows_valid(rows) {
                Some(entries_map(rows.map_values(|r: Seq<CellView>| row_key_count(r))))
            } else {
                None
            },
            TopView::Count(_) => None,
        },
        None => None,
    }
}

/// Counts presses per physical key (code and label); repeats and releases are not presses.
pub struct KeyUsage {
    counts: Table<PhysicalKey, u64>,
}

impl KeyUsage {
    pub closed spec fn wf(&self) -> bool {
        self.counts.wf()
    }

    pub closed spec fn counts_view(&self) -> Map<(u16, Seq<char>), u64> {
        self.counts.map()
    }

    pub fn new() -> (r: Self)
        ensures
            r.wf(),
            r.counts_view() == Map::<(u16, Seq<char>), u64>::empty(),
    {
        KeyUsage { counts: Table::new() }
    }

    /// The count after one more press of `k`.
    pub open spec fn pressed(m: Map<(u16, Seq<char>), u64>, k: (u16, Seq<char>)) -> Map<(u16, Seq<char>), u64> {
        m.insert(k, if m.contains_key(k) { (m[k] + 1) as u64 } else { 1 })
    }

    /// Whether `event` would not overflow a count.
    pub open spec fn accepts(&self, event: crate::input::KeyEventView) -> bool {
        event.kind == KeyEventKind::Press && self.counts_view().contains_key(event.key) ==> self.counts_view()[event.key] < u64::MAX
    }

    pub fn process(&mut self, event: &KeyEvent)
        requires
            old(self).wf(),
            old(self).accepts(event@),
        ensures
            final(self).wf(),
            final(self).counts_view() == if event@.kind == KeyEventKind::Press {
                Self::pressed(old(self).counts_view(), event@.key)
            } else {
                old(self).counts_view()
            },
    {
        if event.kind() == KeyEventKind::Press {
            let key = event.key();
            let next = match self.counts.get(key) {
                Some(c) => *c + 1,
                None => 1,
            };
            self.counts.insert(key.copy_key(), next);
        }
    }

    /// Holds `count` as the presses of `key`, replacing any count held before.
    pub fn set_count(&mut self, key: PhysicalKey, count: u64)
        requires
            old(self).wf(),
        ensures
            final(self).wf(),
            final(self).counts_view() == old(self).counts_view().insert(key@, count),
    {
        self.counts.insert(key, count);
    }

    /// The presses counted for `key`.
    pub fn count_of(&self, key: &PhysicalKey) -> (r: Option<u64>)
        requires
            self.wf(),
        ensures
            r == (if self.counts_view().contains_key(key@) {
                Some(self.counts_view()[key@])
            } else {
                None::<u64>
            }),
    {
        match self.counts.get(key) {
            Some(c) => Some(*c),
            None => None,
        }
    }

    /// All counted presses, summed without overflow.
    pub fn total_presses(&self) -> (r: u128)
        requires
            self.wf(),
        ensures
            r == counts_total(listing::<PhysicalKey, u64>(self.counts_view())),
    {
        table_total(&self.counts)
    }

    /// The largest count of any key, or zero.
    pub fn maximum_count(&self) -> (r: u64)
        requires
            self.wf(),
        ensures
            r == counts_max(listing::<PhysicalKey, u64>(self.counts_view())),
    {
        table_max(&self.counts)
    }

    /// The number of distinct keys counted.
    pub fn key_count(&self) -> (r: usize)
        requires
            self.wf(),
        ensures
            r == self.counts_view().dom().len(),
    {
        self.counts.len()
    }

    pub fn has_data(&self) -> (r: bool)
        requires
            self.wf(),
        ensures
            r == (self.counts_view() != Map::<(u16, Seq<char>), u64>::empty()),
    {
        !self.counts.is_empty()
    }

    /// Every key and its count, in the chosen order.
    pub fn sorted_counts(&self, sort: KeyUsageSort) -> (r: Vec<(PhysicalKey, u64)>)
        requires
            self.wf(),
        ensures
            keys_distinct(entry_views(r@)),
            entries_map(entry_views(r@)) == self.counts_view(),
            ranked(sort, r@),
    {
        let entries = self.counts.sorted_entries();
        let r = sort_ranked(sort, entries);
        proof {
            lemma_permuted_entries(entries@, r@);
        }
        r
    }

    /// The counts as a snapshot, listed by code and then label.
    /// Whether the aggregates can be saved: within the limits, and the payload small enough.
    pub open spec fn snapshot_ok(&self) -> bool {
        self.counts_view().dom().len() <= MAX_DIMENSION_ENTRIES && key_counts_savable(self.counts_view()) && byte_len(key_usage_payload(self.counts_view())) <= MAX_SNAPSHOT_BYTES
    }

    /// The snapshot the aggregates are saved as.
    pub open spec fn snapshot_value(&self) -> crate::metric::SnapshotView {
        snapshot_view(KEY_USAGE_ID@, KEY_USAGE_VERSION, key_usage_payload(self.counts_view()))
    }

    pub fn snapshot(&self) -> (r: Result<MetricSnapshot, MetricSnapshotError>)
        requires
            self.wf(),
        ensures
            r is Ok <==> self.snapshot_ok(),
            r matches Ok(s) ==> s@ == self.snapshot_value(),
    {
        validate_entry_count(KEY_USAGE_ID, self.counts.len())?;
        let entries = self.counts.sorted_entries();
        let ghost ev = entry_views(entries@);
        let mut rows: Vec<Vec<Cell>> = Vec::new();
        let mut i: usize = 0;
        while i < entries.len()
            invariant
                i <= entries.len(),
                ev == entry_views(entries@),
                ev == listing::<PhysicalKey, u64>(self.counts_view()),
                entries_map(ev) == self.counts_view(),
                keys_distinct(ev),
                rows.len() == i,
                rows_view(rows@) == ev.take(i as int).map_values(|e: ((u16, Seq<char>), u64)| key_row(e)),
                forall|j: int| 0 <= j < i ==> byte_len(#[trigger] ev[j].0.1) <= MAX_DIMENSION_BYTES && count_ok(ev[j].1),
            decreases entries.len() - i,
        {
            let (key, count) = &entries[i];
            let label = key.label();
            if let Err(e) = validate_dimension(KEY_USAGE_ID, label) {
                proof {
                    crate::table::lemma_entry_in_map(ev, i as int);
                }
                return Err(e);
            }
            if let Err(e) = validate_count(KEY_USAGE_ID, *count) {
                proof {
                    crate::table::lemma_entry_in_map(ev, i as int);
                }
                return Err(e);
            }
            assert(ev[i as int].0.1 == label@ && ev[i as int].1 == *count);
            assert(byte_len(ev[i as int].0.1) <= MAX_DIMENSION_BYTES && count_ok(ev[i as int].1));
            let row = vec![
                Cell::Count(key.code() as u64),
                Cell::Text(label.to_owned()),
                Cell::Count(*count),
            ];
            let ghost before = rows_view(rows@);
            rows.push(row);
            proof {
                assert(cells_view(row@) =~= key_row(ev[i as int]));
                assert(rows_view(rows@) =~= before.push(cells_view(row@)));
                assert(ev.take(i as int + 1) =~= ev.take(i as int).push(ev[i as int]));
            }
            i += 1;
        }
        proof {
            assert(ev.take(entries.len() as int) =~= ev);
            assert forall|k: (u16, Seq<char>)| #[trigger] self.counts_view().contains_key(k) implies byte_len(k.1) <= MAX_DIMENSION_BYTES && count_ok(self.counts_view()[k]) by {
                let j = choose|j: int| 0 <= j < ev.len() && #[trigger] ev[j].0 == k;
                crate::table::lemma_entry_in_map(ev, j);
            }
        }
        let values = vec![TopValue::Rows(rows)];
        proof {
            let tv = tops_view(values@);
            assert(tv =~= seq![TopView::Rows(ev.map_values(|e: ((u16, Seq<char>), u64)| key_row(e)))]);
            assert forall|j: int| 0 <= j < rows_view(rows@).len() implies row_fits(row_fields(RowLayout::KeyCounts), #[trigger] rows_view(rows@)[j]) by {
                assert(rows_view(rows@)[j] == key_row(ev[j]));
            }
            assert(value_fits(TopKind::Rows(RowLayout::KeyCounts), tv[0]));
            reveal_strlit("key-usage");
        }
        MetricSnapshot::encode(KEY_USAGE_ID, KEY_USAGE_VERSION, PayloadLayout::KeyCounts, &values)
    }

    /// Replaces the counts with those the snapshot holds; on an error nothing changes.
    pub fn restore(&mut self, snapshot: &MetricSnapshot) -> (r: Result<(), MetricSnapshotError>)
        requires
            old(self).wf(),
        ensures
            final(self).wf(),
            match restored_key_counts(snapshot@) {
                Some(m) => r is Ok && final(self).counts_view() == m,
                None => r is Err && final(self).counts_view() == old(self).counts_view(),
            },
            r matches Err(e) ==> (match decoded(
                snapshot@,
                KEY_USAGE_ID@,
                KEY_USAGE_VERSION,
                PayloadLayout::KeyCounts,
            ) {
                None => is_decode_error(e, snapshot@, KEY_USAGE_ID@, KEY_USAGE_VERSION),
                Some(_) => e matches MetricSnapshotError::InvalidPayload { metric_id, .. } && metric_id@ == KEY_USAGE_ID@,
            }),
    {
        let values = snapshot.decode(KEY_USAGE_ID, KEY_USAGE_VERSION, PayloadLayout::KeyCounts)?;
        let ghost tv = tops_view(values@);
        proof {
            lemma_payload_shape(snapshot@.payload, PayloadLayout::KeyCounts);
            assert(value_fits(TopKind::Rows(RowLayout::KeyCounts), tv[0]));
            reveal_strlit("key-usage");
        }
        let rows = match &values[0] {
            TopValue::Rows(rows) => rows,
            TopValue::Count(_) => {
                assert(false);
                return Err(MetricSnapshotError::EmptyMetricId);
            },
        };
        let ghost rv = rows_view(rows@);
        assert(tv[0] == TopView::Rows(rv));
        if let Err(e) = validate_entry_count(KEY_USAGE_ID, rows.len()) {
            return Err(e);
        }
        let ghost all = rv.map_values(|r: Seq<CellView>| row_key_count(r));
        let mut table: Table<PhysicalKey, u64> = Table::new();
        let mut codes: Vec<u64> = Vec::new();
        let mut i: usize = 0;
        proof {
            assert(all.take(0) =~= Seq::<((u16, Seq<char>), u64)>::empty());
            crate::table::lemma_empty_map(all.take(0));
        }
        while i < rows.len()
            invariant
                i <= rows.len(),
                self.wf(),
                self.counts_view() == old(self).counts_view(),
                decoded(snapshot@, KEY_USAGE_ID@, KEY_USAGE_VERSION, PayloadLayout::KeyCounts) == Some(tv),
                tv[0] == TopView::Rows(rv),
                rv == rows_view(rows@),
                all == rv.map_values(|r: Seq<CellView>| row_key_count(r)),
                forall|j: int| 0 <= j < rv.len() ==> row_fits(row_fields(RowLayout::KeyCounts), #[trigger] rv[j]),
                table.wf(),
                table.map() == entries_map(all.take(i as int)),
                keys_distinct(all.take(i as int)),
                codes@ == Seq::new(i as nat, |j: int| cell_count(rv[j][0])),
                forall|j: int| 0 <= j < i ==> byte_len(cell_text(#[trigger] rv[j][1])) <= MAX_DIMENSION_BYTES && count_ok(cell_count(rv[j][2])),
                forall|j: int, k: int| 0 <= j < k < i ==> cell_count(#[trigger] rv[j][0]) != cell_count(#[trigger] rv[k][0]),
                rows.len() <= MAX_DIMENSION_ENTRIES,
            decreases rows.len() - i,
        {
            let row = &rows[i];
            proof {
                let fields = row_fields(RowLayout::KeyCounts);
                assert(row_fits(fields, rv[i as int]));
                assert(rv[i as int] == cells_view(row@));
                assert(crate::payload::cell_fits(fields[0].1, rv[i as int][0]));
                assert(crate::payload::cell_fits(fields[1].1, rv[i as int][1]));
                assert(crate::payload::cell_fits(fields[2].1, rv[i as int][2]));
            }
            let code = match &row[0] {
                Cell::Count(n) => *n,
                Cell::Text(_) => {
                    assert(false);
                    0
                },
            };
            let label = match &row[1] {
                Cell::Text(t) => t.as_str(),
                Cell::Count(_) => {
                    assert(false);
                    ""
                },
            };
            let count = match &row[2] {
                Cell::Count(n) => *n,
                Cell::Text(_) => {
                    assert(false);
                    0
                },
            };
            if let Err(e) = validate_dimension(KEY_USAGE_ID, label) {
                assert(!key_rows_valid(rv)) by {
                    assert(byte_len(cell_text(rv[i as int][1])) > MAX_DIMENSION_BYTES);
                }
                return Err(e);
            }
            if let Err(e) = validate_count(KEY_USAGE_ID, count) {
                assert(!key_rows_valid(rv)) by {
                    assert(!count_ok(cell_count(rv[i as int][2])));
                }
                return Err(e);
            }
            let mut j: usize = 0;
            while j < codes.len()
                invariant
                    j <= codes.len(),
                    i < rows.len(),
                    rv == rows_view(rows@),
                    self.wf(),
                    self.counts_view() == old(self).counts_view(),
                    decoded(snapshot@, KEY_USAGE_ID@, KEY_USAGE_VERSION, PayloadLayout::KeyCounts) == Some(tv),
                    tv[0] == TopView::Rows(rv),
                    forall|q: int| 0 <= q < j ==> codes@[q] != code,
                    codes@ == Seq::new(i as nat, |q: int| cell_count(rv[q][0])),
                    code == cell_count(rv[i as int][0]),
                decreases codes.len() - j,
            {
                if codes[j] == code {
                    proof {
                        assert(cell_count(rv[j as int][0]) == cell_count(rv[i as int][0]));
                        assert(!key_rows_valid(rv));
                    }
                    return Err(
                        MetricSnapshotError::invalid_payload(
                            KEY_USAGE_ID,
                            PayloadProblem::DuplicateKeyCode,
                        ),
                    );
                }
                j += 1;
            }
            let ghost prefix = all.take(i as int);
            let ghost entry = all[i as int];
            proof {
                assert forall|q: int| 0 <= q < i implies cell_count(#[trigger] rv[q][0]) != cell_count(rv[i as int][0]) by {
                    assert(codes@[q] == cell_count(rv[q][0]));
                }
                assert(entry == row_key_count(rv[i as int]));
                assert(!crate::table::has_key(prefix, entry.0)) by {
                    if crate::table::has_key(prefix, entry.0) {
                        let q = choose|q: int| 0 <= q < prefix.len() && #[trigger] prefix[q].0 == entry.0;
                        assert(prefix[q] == row_key_count(rv[q]));
                        assert(codes@[q] == cell_count(rv[q][0]));
                        let fields = row_fields(RowLayout::KeyCounts);
                        assert(row_fits(fields, rv[q]));
                        assert(crate::payload::cell_fits(fields[0].1, rv[q][0]));
                        assert(cell_count(rv[q][0]) <= 0xFFFF);
                        assert(cell_count(rv[i as int][0]) <= 0xFFFF);
                        assert(cell_count(rv[q][0]) != cell_count(rv[i as int][0]));
                        assert((cell_count(rv[q][0]) as u16) == (cell_count(rv[i as int][0]) as u16));
                    }
                }
                crate::table::lemma_map_push(prefix, entry.0, entry.1);
                assert(all.take(i as int + 1) =~= prefix.push(entry));
            }
            table.insert(PhysicalKey::new(code as u16, label), count);
            codes.push(code);
            proof {
                assert(codes@ =~= Seq::new(i as nat + 1, |q: int| cell_count(rv[q][0])));
            }
            i += 1;
        }
        proof {
            assert(all.take(rows.len() as int) =~= all);
            assert(key_rows_valid(rv));
        }
        self.counts = table;
        Ok(())
    }

    pub fn reset(&mut self)
        ensures
            final(self).wf(),
            final(self).counts_view() == Map::<(u16, Seq<char>), u64>::empty(),
    {
        self.counts = Table::new();
    }

    /// There is no in-flight context to drop.
    pub fn clear_in_flight(&mut self)
        requires
            old(self).wf(),
        ensures
            final(self).wf(),
            final(self).counts_view() == old(self).counts_view(),
    {
    }

    /// Restoring the snapshot of the counts gives back the same counts, when no
    /// two counted keys share a code.
    #[verifier::spinoff_prover]
    #[verifier::rlimit(40)]
    pub proof fn lemma_round_trip(&self)
        requires
            self.wf(),
            self.snapshot_ok(),
            codes_distinct(self.counts_view()),
        ensures
            restored_key_counts(self.snapshot_value()) == Some(self.counts_view()),
    {
        let m = self.counts_view();
        self.counts.lemma_has_listing();
        let l = listing::<PhysicalKey, u64>(m);
        crate::table::lemma_map_len(l);
        let rows = l.map_values(|e: ((u16, Seq<char>), u64)| key_row(e));
        let values = seq![TopView::Rows(rows)];
        let fields = row_fields(RowLayout::KeyCounts);
        assert forall|j: int| 0 <= j < rows.len() implies row_fits(fields, #[trigger] rows[j]) by {
            assert(rows[j] == key_row(l[j]));
            assert(crate::payload::cell_fits(fields[0].1, rows[j][0]));
        }
        assert(crate::payload::values_fit(PayloadLayout::KeyCounts, values)) by {
            assert(value_fits(crate::payload::top_fields(PayloadLayout::KeyCounts)[0].1, values[0]));
        }
        crate::roundtrip::lemma_payload_round_trip(PayloadLayout::KeyCounts, values);
        assert forall|i: int| 0 <= i < rows.len() implies byte_len(cell_text(#[trigger] rows[i][1])) <= MAX_DIMENSION_BYTES && count_ok(cell_count(rows[i][2])) by {
            crate::table::lemma_entry_in_map(l, i);
            assert(rows[i] == key_row(l[i]));
        }
        assert forall|i: int, j: int| 0 <= i < j < rows.len() implies cell_count(#[trigger] rows[i][0]) != cell_count(#[trigger] rows[j][0]) by {
            assert(rows[i] == key_row(l[i]));
            assert(rows[j] == key_row(l[j]));
            crate::table::lemma_entry_in_map(l, i);
            crate::table::lemma_entry_in_map(l, j);
            if l[i].0.0 == l[j].0.0 {
                assert(l[i].0 == l[j].0);
            }
        }
        assert(key_rows_valid(rows));
        assert(rows.map_values(|r: Seq<CellView>| row_key_count(r)) =~= l);
    }

    /// The fits of the rows the counts are saved as, without any condition on codes.
    proof fn lemma_rows_fit(&self)
        requires
            self.wf(),
            key_counts_savable(self.counts_view()),
        ensures
            crate::payload::values_fit(PayloadLayout::KeyCounts, seq![TopView::Rows(
                listing::<PhysicalKey, u64>(self.counts_view()).map_values(|e: ((u16, Seq<char>), u64)| key_row(e)),
            )]),
            listing::<PhysicalKey, u64>(self.counts_view()).len() == self.counts_view().dom().len(),
    {
        let m = self.counts_view();
        self.counts.lemma_has_listing();
        let l = listing::<PhysicalKey, u64>(m);
        crate::table::lemma_map_len(l);
        let rows = l.map_values(|e: ((u16, Seq<char>), u64)| key_row(e));
        let values = seq![TopView::Rows(rows)];
        let fields = row_fields(RowLayout::KeyCounts);
        assert forall|j: int| 0 <= j < rows.len() implies row_fits(fields, #[trigger] rows[j]) by {
            assert(rows[j] == key_row(l[j]));
            crate::table::lemma_entry_in_map(l, j);
            assert(crate::payload::cell_fits(fields[0].1, rows[j][0]));
        }
        assert(crate::payload::values_fit(PayloadLayout::KeyCounts, values)) by {
            assert(value_fits(crate::payload::top_fields(PayloadLayout::KeyCounts)[0].1, values[0]));
        }
    }

    /// Only counts with no key are saved as the payload of no counts.
    pub proof fn lemma_empty_payload(&self, empty: &Self)
        requires
            self.wf(),
            key_counts_savable(self.counts_view()),
            empty.wf(),
            empty.counts_view() == Map::<(u16, Seq<char>), u64>::empty(),
            key_usage_payload(self.counts_view()) == key_usage_payload(empty.counts_view()),
        ensures
            self.counts_view() == Map::<(u16, Seq<char>), u64>::empty(),
    {
        self.lemma_rows_fit();
        empty.lemma_rows_fit();
        let rk = listing::<PhysicalKey, u64>(self.counts_view()).map_values(|e: ((u16, Seq<char>), u64)| key_row(e));
        let re = listing::<PhysicalKey, u64>(empty.counts_view()).map_values(|e: ((u16, Seq<char>), u64)| key_row(e));
        crate::roundtrip::lemma_payload_round_trip(PayloadLayout::KeyCounts, seq![TopView::Rows(rk)]);
        crate::roundtrip::lemma_payload_round_trip(PayloadLayout::KeyCounts, seq![TopView::Rows(re)]);
        assert(seq![TopView::Rows(rk)][0] == seq![TopView::Rows(re)][0]);
        assert(rk.len() == re.len());
        self.counts.lemma_has_listing();
        assert(self.counts_view().dom().len() == 0);
        assert(self.counts_view().dom() =~= Set::<(u16, Seq<char>)>::empty());
        assert(self.counts_view() =~= Map::<(u16, Seq<char>), u64>::empty());
    }
}

/// The key usage list is deterministic: two listings of the same counts in
/// the same order, each key listed once, are equal.
pub proof fn lemma_key_listing_unique(
    mode: KeyUsageSort,
    a: Seq<(PhysicalKey, u64)>,
    b: Seq<(PhysicalKey, u64)>,
)
    requires
        ranked(mode, a),
        ranked(mode, b),
        a.to_multiset() == b.to_multiset(),
        keys_distinct(entry_views(a)),
    ensures
        a == b,
{
    assert forall|x: (PhysicalKey, u64), y: (PhysicalKey, u64)|
        a.contains(x) && a.contains(y) && x != y implies <(PhysicalKey, u64) as Ranked>::ranks_before(
        mode,
        x,
        y,
    ) || <(PhysicalKey, u64) as Ranked>::ranks_before(mode, y, x) by {
        let p = choose|p: int| 0 <= p < a.len() && a[p] == x;
        let q = choose|q: int| 0 <= q < a.len() && a[q] == y;
        assert(p != q);
        assert(entry_views(a)[p].0 != entry_views(a)[q].0);
        lemma_text_order_equal(x.0@.1, y.0@.1);
        lemma_text_order_antisymmetric(x.0@.1, y.0@.1);
    }
    lemma_ranked_unique(mode, a, b);
}

} // verus!
