//! Backspace-based signals: deleted text, and the text typed right after a deletion.
use vstd::prelude::*;

use crate::input::{KeyEvent, KeyEventKind, KeyEventView, KeyRole, TextPair, text_pair_lt};
use crate::metric::key_usage::{cell_count, cell_text};
use crate::metric::{
    byte_len, count_ok, decoded, is_decode_error, snapshot_view, validate_count,
    validate_dimension, validate_entry_count, MetricSnapshot, MetricSnapshotError,
    PayloadProblem, SnapshotView, MAX_DIMENSION_BYTES, MAX_DIMENSION_ENTRIES, MAX_SNAPSHOT_BYTES,
};
use crate::payload::{
    cells_view, encode_payload, lemma_payload_shape, row_fields, row_fits, rows_view, tops_view,
    value_fits, Cell, CellView, PayloadLayout, RowLayout, TopKind, TopValue, TopView,
};
use crate::sorting::{lemma_ranked_unique, ranked, sort_ranked, Ranked};
use crate::table::{
    counts_total, entries_map, entry_views, keys_distinct, lemma_permuted_entries, listing,
    table_total, Table, TableKey,
};
use crate::text::{compare_text, lemma_text_lt_transitive, lemma_text_order_antisymmetric,
    lemma_text_order_equal, text_lt};

verus! {

pub const CORRECTIONS_ID: &'static str = "corrections";

pub const CORRECTIONS_VERSION: u32 = 1;

/// How many recent texts are remembered for backspaces.
pub const HISTORY_SIZE: usize = 10;

pub type Deletions = Map<Seq<char>, u64>;

pub type Confusions = Map<(Seq<char>, Seq<char>), u64>;

/// The mathematical value of [`CorrectionSignals`].
pub struct CorrectionView {
    pub history: Seq<Seq<char>>,
    pub pending: Option<Seq<char>>,
    pub mistakes: Deletions,
    pub confusions: Confusions,
}

/// The count after one more occurrence of `k`.
pub open spec fn bumped<K>(m: Map<K, u64>, k: K) -> Map<K, u64> {
    m.insert(k, if m.contains_key(k) { (m[k] + 1) as u64 } else { 1 })
}

/// The history after `t` is produced: the last ten texts.
pub open spec fn remembered(h: Seq<Seq<char>>, t: Seq<char>) -> Seq<Seq<char>> {
    let h2 = h.push(t);
    if h2.len() > HISTORY_SIZE {
        h2.drop_first()
    } else {
        h2
    }
}

/// The state after `e`. Releases are ignored; a backspace deletes the most
/// recent text, counts it and waits for its correction; a text-producing key
/// completes a pending correction and is remembered.
pub open spec fn correction_after(v: CorrectionView, e: KeyEventView) -> CorrectionView {
    if e.kind == KeyEventKind::Release {
        v
    } else if e.role == KeyRole::Backspace {
        if v.history.len() > 0 {
            let d = v.history.last();
            CorrectionView {
                history: v.history.drop_last(),
                pending: Some(d),
                mistakes: bumped(v.mistakes, d),
                confusions: v.confusions,
            }
        } else {
            v
        }
    } else {
        match e.text {
            None => v,
            Some(t) => CorrectionView {
                history: remembered(v.history, t),
                pending: None,
                mistakes: v.mistakes,
                confusions: match v.pending {
                    Some(d) => bumped(v.confusions, (d, t)),
                    None => v.confusions,
                },
            },
        }
    }
}

/// How correction lists are ordered.
#[derive(Clone, Copy, Debug, PartialEq, Eq, Structural)]
pub enum CorrectionSort {
    /// Most occurrences first, then by label.
    OccurrenceCount,
    /// By label.
    Label,
}

impl CorrectionSort {
    /// The name shown for the order.
    pub fn label(self) -> (r: &'static str)
        ensures
            r@ == match self {
                CorrectionSort::OccurrenceCount => "Occurrence count"@,
                CorrectionSort::Label => "Label"@,
            },
    {
        match self {
            CorrectionSort::OccurrenceCount => "Occurrence count",
            CorrectionSort::Label => "Label",
        }
    }
}

impl Ranked for (String, u64) {
    type Mode = CorrectionSort;

    open spec fn ranks_before(mode: CorrectionSort, a: Self, b: Self) -> bool {
        match mode {
            CorrectionSort::OccurrenceCount => a.1 > b.1 || (a.1 == b.1 && text_lt(a.0@, b.0@)),
            CorrectionSort::Label => text_lt(a.0@, b.0@),
        }
    }

    open spec fn comparable(mode: CorrectionSort, a: Self, b: Self) -> bool {
        true
    }

    proof fn lemma_ranks_before_transitive(mode: CorrectionSort, a: Self, b: Self, c: Self) {
        lemma_text_order_equal(a.0@, b.0@);
        lemma_text_order_equal(b.0@, c.0@);
        if text_lt(a.0@, b.0@) && text_lt(b.0@, c.0@) {
            lemma_text_lt_transitive(a.0@, b.0@, c.0@);
        }
    }

    proof fn lemma_ranks_before_asymmetric(mode: CorrectionSort, a: Self, b: Self) {
        lemma_text_order_antisymmetric(a.0@, b.0@);
    }

    fn precedes(mode: CorrectionSort, a: &Self, b: &Self) -> (r: bool) {
        let t = compare_text(a.0.as_str(), b.0.as_str());
        match mode {
            CorrectionSort::OccurrenceCount => a.1 > b.1 || (a.1 == b.1 && t < 0),
            CorrectionSort::Label => t < 0,
        }
    }
}

impl Ranked for (TextPair, u64) {
    type Mode = CorrectionSort;

    open spec fn ranks_before(mode: CorrectionSort, a: Self, b: Self) -> bool {
        match mode {
            CorrectionSort::OccurrenceCount => a.1 > b.1 || (a.1 == b.1 && text_pair_lt(a.0@, b.0@)),
            CorrectionSort::Label => text_pair_lt(a.0@, b.0@),
        }
    }

    open spec fn comparable(mode: CorrectionSort, a: Self, b: Self) -> bool {
        true
    }

    proof fn lemma_ranks_before_transitive(mode: CorrectionSort, a: Self, b: Self, c: Self) {
        if text_pair_lt(a.0@, b.0@) && text_pair_lt(b.0@, c.0@) {
            TextPair::lemma_key_lt_transitive(a.0@, b.0@, c.0@);
        }
    }

    proof fn lemma_ranks_before_asymmetric(mode: CorrectionSort, a: Self, b: Self) {
        if text_pair_lt(a.0@, b.0@) && text_pair_lt(b.0@, a.0@) {
            TextPair::lemma_key_lt_transitive(a.0@, b.0@, a.0@);
            TextPair::lemma_key_lt_irreflexive(a.0@);
        }
    }

    fn precedes(mode: CorrectionSort, a: &Self, b: &Self) -> (r: bool) {
        let t = a.0.key_less(&b.0);
        match mode {
            CorrectionSort::OccurrenceCount => a.1 > b.1 || (a.1 == b.1 && t),
            CorrectionSort::Label => t,
        }
    }
}

/// The row a deletion count is saved as: `{text, count}`.
pub open spec fn deletion_row(e: (Seq<char>, u64)) -> Seq<CellView> {
    seq![CellView::Text(e.0), CellView::Count(e.1)]
}

/// The row a correction count is saved as: `{deleted, typed, count}`.
pub open spec fn correction_row(e: ((Seq<char>, Seq<char>), u64)) -> Seq<CellView> {
    seq![CellView::Text(e.0.0), CellView::Text(e.0.1), CellView::Count(e.1)]
}

/// The payload that lists deletions by text and corrections by pair.
pub open spec fn corrections_payload(mistakes: Deletions, confusions: Confusions) -> Seq<char> {
    encode_payload(
        PayloadLayout::Corrections,
        seq![
            TopView::Rows(listing::<String, u64>(mistakes).map_values(|e: (Seq<char>, u64)| deletion_row(e))),
            TopView::Rows(listing::<TextPair, u64>(confusions).map_values(|e: ((Seq<char>, Seq<char>), u64)| correction_row(e))),
        ],
    )
}

/// Every count may be saved: texts short enough and counts in range.
pub open spec fn corrections_savable(mistakes: Deletions, confusions: Confusions) -> bool {
    &&& forall|k: Seq<char>| #[trigger] mistakes.contains_key(k) ==> byte_len(k) <= MAX_DIMENSION_BYTES && count_ok(mistakes[k])
    &&& forall|k: (Seq<char>, Seq<char>)| #[trigger] confusions.contains_key(k) ==> byte_len(k.0) <= MAX_DIMENSION_BYTES && byte_len(k.1) <= MAX_DIMENSION_BYTES && count_ok(confusions[k])
}

pub open spec fn row_deletion(r: Seq<CellView>) -> (Seq<char>, u64) {
    (cell_text(r[0]), cell_count(r[1]))
}

pub open spec fn row_correction(r: Seq<CellView>) -> ((Seq<char>, Seq<char>), u64) {
    ((cell_text(r[0]), cell_text(r[1])), cell_count(r[2]))
}

pub open spec fn deletion_rows_valid(rows: Seq<Seq<CellView>>) -> bool {
    &&& forall|i: int| 0 <= i < rows.len() ==> byte_len(cell_text(#[trigger] rows[i][0])) <= MAX_DIMENSION_BYTES && count_ok(cell_count(rows[i][1]))
    &&& forall|i: int, j: int| 0 <= i < j < rows.len() ==> cell_text(#[trigger] rows[i][0]) != cell_text(#[trigger] rows[j][0])
}

pub open spec fn correction_rows_valid(rows: Seq<Seq<CellView>>) -> bool {
    &&& forall|i: int| 0 <= i < rows.len() ==> byte_len(cell_text(#[trigger] rows[i][0])) <= MAX_DIMENSION_BYTES && byte_len(cell_text(rows[i][1])) <= MAX_DIMENSION_BYTES && count_ok(cell_count(rows[i][2]))
    &&& forall|i: int, j: int| 0 <= i < j < rows.len() ==> row_correction(#[trigger] rows[i]).0 != row_correction(#[trigger] rows[j]).0
}

/// The counts a snapshot restores, or `None` when it is refused.
pub open spec fn restored_corrections(s: SnapshotView) -> Option<(Deletions, Confusions)> {
    match decoded(s, CORRECTIONS_ID@, CORRECTIONS_VERSION, PayloadLayout::Corrections) {
        Some(v) => match (v[0], v[1]) {
            (TopView::Rows(d), TopView::Rows(c)) => if d.len() + c.len() <= MAX_DIMENSION_ENTRIES
                && deletion_rows_valid(d) && correction_rows_valid(c) {
                Some((
                    entries_map(d.map_values(|r: Seq<CellView>| row_deletion(r))),
                    entries_map(c.map_values(|r: Seq<CellView>| row_correction(r))),
                ))
            } else {
                None
            },
            _ => None,
        },
        None => None,
    }
}

/// Infers deleted text from backspaces, and the correction typed right after.
pub struct CorrectionSignals {
    history: Vec<String>,
    pending_deleted: Option<String>,
    mistakes: Table<String, u64>,
    confusions: Table<TextPair, u64>,
}

impl CorrectionSignals {
    pub closed spec fn wf(&self) -> bool {
        self.mistakes.wf() && self.confusions.wf() && self.history.len() <= HISTORY_SIZE
    }

    pub closed spec fn state(&self) -> CorrectionView {
        CorrectionView {
            history: self.history@.map_values(|t: String| t@),
            pending: match self.pending_deleted {
                Some(t) => Some(t@),
                None => None,
            },
            mistakes: self.mistakes.map(),
            confusions: self.confusions.map(),
        }
    }

    pub fn new() -> (r: Self)
        ensures
            r.wf(),
            r.state().history.len() == 0,
            r.state().pending is None,
            r.state().mistakes == Deletions::empty(),
            r.state().confusions == Confusions::empty(),
    {
        CorrectionSignals {
            history: Vec::new(),
            pending_deleted: None,
            mistakes: Table::new(),
            confusions: Table::new(),
        }
    }

    /// Whether `event` would not overflow a count.
    pub open spec fn accepts(&self, e: KeyEventView) -> bool {
        let v = self.state();
        e.kind != KeyEventKind::Release ==> if e.role == KeyRole::Backspace {
            v.history.len() > 0 && v.mistakes.contains_key(v.history.last()) ==> v.mistakes[v.history.last()] < u64::MAX
        } else {
            (e.text matches Some(t) && v.pending matches Some(d) && v.confusions.contains_key((d, t)))
                ==> v.confusions[(v.pending->0, e.text->0)] < u64::MAX
        }
    }

    pub fn process(&mut self, event: &KeyEvent)
        requires
            old(self).wf(),
            old(self).accepts(event@),
        ensures
            final(self).wf(),
            final(self).state() == correction_after(old(self).state(), event@),
    {
        let ghost v = self.state();
        if event.kind() == KeyEventKind::Release {
            return;
        }
        if event.role() == KeyRole::Backspace {
            if let Some(deleted) = self.history.pop() {
                let next = match self.mistakes.get(&deleted) {
                    Some(c) => *c + 1,
                    None => 1,
                };
                self.mistakes.insert(deleted.clone(), next);
                self.pending_deleted = Some(deleted);
                assert(self.state().history =~= v.history.drop_last());
            }
            return;
        }
        let text = match event.text() {
            Some(t) => t,
            None => return,
        };
        if let Some(deleted) = self.pending_deleted.take() {
            let key = TextPair::from_strings(deleted, text.to_owned());
            let next = match self.confusions.get(&key) {
                Some(c) => *c + 1,
                None => 1,
            };
            self.confusions.insert(key, next);
        }
        self.history.push(text.to_owned());
        if self.history.len() > HISTORY_SIZE {
            self.history.remove(0);
        }
        assert(self.state().history =~= remembered(v.history, text@));
    }

    /// The number of recent texts remembered.
    pub fn history_len(&self) -> (r: usize)
        ensures
            r == self.state().history.len(),
    {
        self.history.len()
    }

    /// The most recent text remembered.
    pub fn last_text(&self) -> (r: Option<&str>)
        ensures
            match r {
                Some(t) => self.state().history.len() > 0 && t@ == self.state().history.last(),
                None => self.state().history.len() == 0,
            },
    {
        let n = self.history.len();
        if n == 0 {
            None
        } else {
            Some(self.history[n - 1].as_str())
        }
    }

    /// The deleted text awaiting its correction.
    pub fn pending_deleted(&self) -> (r: Option<&str>)
        ensures
            match r {
                Some(t) => self.state().pending == Some(t@),
                None => self.state().pending is None,
            },
    {
        match &self.pending_deleted {
            Some(t) => Some(t.as_str()),
            None => None,
        }
    }

    /// Deletions counted for `text`.
    pub fn deletions_of(&self, text: &str) -> (r: Option<u64>)
        requires
            self.wf(),
        ensures
            r == (if self.state().mistakes.contains_key(text@) {
                Some(self.state().mistakes[text@])
            } else {
                None::<u64>
            }),
    {
        match self.mistakes.get(&text.to_owned()) {
            Some(c) => Some(*c),
            None => None,
        }
    }

    /// Corrections counted from `deleted` to `typed`.
    pub fn corrections_of(&self, deleted: &str, typed: &str) -> (r: Option<u64>)
        requires
            self.wf(),
        ensures
            r == (if self.state().confusions.contains_key((deleted@, typed@)) {
                Some(self.state().confusions[(deleted@, typed@)])
            } else {
                None::<u64>
            }),
    {
        match self.confusions.get(&TextPair::new(deleted, typed)) {
            Some(c) => Some(*c),
            None => None,
        }
    }

    /// The number of deleted texts and of correction pairs counted.
    pub fn dimension_counts(&self) -> (r: (usize, usize))
        requires
            self.wf(),
        ensures
            r.0 == self.state().mistakes.dom().len(),
            r.1 == self.state().confusions.dom().len(),
    {
        (self.mistakes.len(), self.confusions.len())
    }

    /// Sets the deletions counted for `text`.
    pub fn set_deletions(&mut self, text: &str, count: u64)
        requires
            old(self).wf(),
        ensures
            final(self).wf(),
            final(self).state().mistakes == old(self).state().mistakes.insert(text@, count),
            final(self).state().confusions == old(self).state().confusions,
            final(self).state().history == old(self).state().history,
            final(self).state().pending == old(self).state().pending,
    {
        self.mistakes.insert(text.to_owned(), count);
    }

    /// Sets the corrections counted from `deleted` to `typed`.
    pub fn set_corrections(&mut self, deleted: &str, typed: &str, count: u64)
        requires
            old(self).wf(),
        ensures
            final(self).wf(),
            final(self).state().confusions == old(self).state().confusions.insert((deleted@, typed@), count),
            final(self).state().mistakes == old(self).state().mistakes,
            final(self).state().history == old(self).state().history,
            final(self).state().pending == old(self).state().pending,
    {
        self.confusions.insert(TextPair::new(deleted, typed), count);
    }

    /// All observed deletions, summed without overflow.
    pub fn total_deletions(&self) -> (r: u128)
        requires
            self.wf(),
        ensures
            r == counts_total(listing::<String, u64>(self.state().mistakes)),
    {
        table_total(&self.mistakes)
    }

    pub fn has_data(&self) -> (r: bool)
        requires
            self.wf(),
        ensures
            r == (self.state().mistakes != Deletions::empty() || self.state().confusions != Confusions::empty()),
    {
        !self.mistakes.is_empty() || !self.confusions.is_empty()
    }

    /// Every deleted text and its count, in the chosen order.
    pub fn sorted_mistakes(&self, sort: CorrectionSort) -> (r: Vec<(String, u64)>)
        requires
            self.wf(),
        ensures
            keys_distinct(entry_views(r@)),
            entries_map(entry_views(r@)) == self.state().mistakes,
            ranked(sort, r@),
    {
        let entries = self.mistakes.sorted_entries();
        let r = sort_ranked(sort, entries);
        proof {
            lemma_permuted_entries(entries@, r@);
        }
        r
    }

    /// Every correction pair and its count, in the chosen order.
    pub fn sorted_confusions(&self, sort: CorrectionSort) -> (r: Vec<(TextPair, u64)>)
        requires
            self.wf(),
        ensures
            keys_distinct(entry_views(r@)),
            entries_map(entry_views(r@)) == self.state().confusions,
            ranked(sort, r@),
    {
        let entries = self.confusions.sorted_entries();
        let r = sort_ranked(sort, entries);
        proof {
            lemma_permuted_entries(entries@, r@);
        }
        r
    }

    /// The counts as a snapshot; the recent texts and pending correction are not saved.
    /// Whether the aggregates can be saved: within the limits, and the payload small enough.
    pub open spec fn snapshot_ok(&self) -> bool {
        self.state().mistakes.dom().len() + self.state().confusions.dom().len() <= MAX_DIMENSION_ENTRIES && corrections_savable(self.state().mistakes, self.state().confusions) && byte_len(corrections_payload(self.state().mistakes, self.state().confusions)) <= MAX_SNAPSHOT_BYTES
    }

    /// The snapshot the aggregates are saved as.
    pub open spec fn snapshot_value(&self) -> crate::metric::SnapshotView {
        snapshot_view(CORRECTIONS_ID@, CORRECTIONS_VERSION, corrections_payload(self.state().mistakes, self.state().confusions))
    }

    pub fn snapshot(&self) -> (r: Result<MetricSnapshot, MetricSnapshotError>)
        requires
            self.wf(),
        ensures
            r is Ok <==> self.snapshot_ok(),
            r matches Ok(s) ==> s@ == self.snapshot_value(),
    {
        let (deleted_count, pair_count) = (self.mistakes.len(), self.confusions.len());
        let entries = match deleted_count.checked_add(pair_count) {
            Some(n) => n,
            None => {
                return Err(MetricSnapshotError::invalid_payload(CORRECTIONS_ID, PayloadProblem::TooManyEntries));
            },
        };
        validate_entry_count(CORRECTIONS_ID, entries)?;
        let deletions = deletion_rows(&self.mistakes)?;
        let corrections = correction_rows(&self.confusions)?;
        let ghost dv = rows_view(deletions@);
        let ghost cv = rows_view(corrections@);
        let values = vec![TopValue::Rows(deletions), TopValue::Rows(corrections)];
        proof {
            let tv = tops_view(values@);
            let ml = listing::<String, u64>(self.mistakes.map());
            let cl = listing::<TextPair, u64>(self.confusions.map());
            assert(tv =~= seq![TopView::Rows(dv), TopView::Rows(cv)]);
            assert forall|j: int| 0 <= j < dv.len() implies row_fits(row_fields(RowLayout::TextCounts), #[trigger] dv[j]) by {
                assert(dv[j] == deletion_row(ml[j]));
            }
            assert forall|j: int| 0 <= j < cv.len() implies row_fits(row_fields(RowLayout::PairCounts), #[trigger] cv[j]) by {
                assert(cv[j] == correction_row(cl[j]));
            }
            assert(value_fits(TopKind::Rows(RowLayout::TextCounts), tv[0]));
            assert(value_fits(TopKind::Rows(RowLayout::PairCounts), tv[1]));
            reveal_strlit("corrections");
        }
        MetricSnapshot::encode(CORRECTIONS_ID, CORRECTIONS_VERSION, PayloadLayout::Corrections, &values)
    }

    /// Replaces the counts with those the snapshot holds and forgets the recent
    /// texts and pending correction; on an error nothing changes.
    pub fn restore(&mut self, snapshot: &MetricSnapshot) -> (r: Result<(), MetricSnapshotError>)
        requires
            old(self).wf(),
        ensures
            final(self).wf(),
            match restored_corrections(snapshot@) {
                Some((m, c)) => r is Ok && final(self).state().mistakes == m
                    && final(self).state().confusions == c && final(self).state().history.len() == 0
                    && final(self).state().pending is None,
                None => r is Err && final(self).state() == old(self).state(),
            },
            r matches Err(e) ==> (match decoded(snapshot@, CORRECTIONS_ID@, CORRECTIONS_VERSION, PayloadLayout::Corrections) {
                None => is_decode_error(e, snapshot@, CORRECTIONS_ID@, CORRECTIONS_VERSION),
                Some(_) => e matches MetricSnapshotError::InvalidPayload { metric_id, .. } && metric_id@ == CORRECTIONS_ID@,
            }),
    {
        let values = snapshot.decode(CORRECTIONS_ID, CORRECTIONS_VERSION, PayloadLayout::Corrections)?;
        let ghost tv = tops_view(values@);
        proof {
            lemma_payload_shape(snapshot@.payload, PayloadLayout::Corrections);
            assert(value_fits(crate::payload::top_fields(PayloadLayout::Corrections)[0].1, tv[0]));
            assert(value_fits(crate::payload::top_fields(PayloadLayout::Corrections)[1].1, tv[1]));
            reveal_strlit("corrections");
        }
        let deletions = match &values[0] {
            TopValue::Rows(rows) => rows,
            TopValue::Count(_) => {
                assert(false);
                return Err(MetricSnapshotError::EmptyMetricId);
            },
        };
        let corrections = match &values[1] {
            TopValue::Rows(rows) => rows,
            TopValue::Count(_) => {
                assert(false);
                return Err(MetricSnapshotError::EmptyMetricId);
            },
        };
        assert(tv[0] == TopView::Rows(rows_view(deletions@)));
        assert(tv[1] == TopView::Rows(rows_view(corrections@)));
        let entries = match deletions.len().checked_add(corrections.len()) {
            Some(n) => n,
            None => {
                return Err(MetricSnapshotError::invalid_payload(CORRECTIONS_ID, PayloadProblem::TooManyEntries));
            },
        };
        validate_entry_count(CORRECTIONS_ID, entries)?;
        let mistakes = read_deletions(deletions)?;
        let confusions = read_confusions(corrections)?;
        self.history = Vec::new();
        self.pending_deleted = None;
        self.mistakes = mistakes;
        self.confusions = confusions;
        Ok(())
    }

    /// Restoring the snapshot of the counts gives back the same counts.
    #[verifier::rlimit(80)]
    pub proof fn lemma_round_trip(&self)
        requires
            self.wf(),
            self.snapshot_ok(),
        ensures
            restored_corrections(self.snapshot_value()) == Some((self.state().mistakes, self.state().confusions)),
    {
        let dm = self.state().mistakes;
        let cm = self.state().confusions;
        self.mistakes.lemma_has_listing();
        self.confusions.lemma_has_listing();
        let dl = listing::<String, u64>(dm);
        let cl = listing::<TextPair, u64>(cm);
        crate::table::lemma_map_len(dl);
        crate::table::lemma_map_len(cl);
        let drows = dl.map_values(|e: (Seq<char>, u64)| deletion_row(e));
        let crows = cl.map_values(|e: ((Seq<char>, Seq<char>), u64)| correction_row(e));
        let values = seq![TopView::Rows(drows), TopView::Rows(crows)];
        let df = row_fields(RowLayout::TextCounts);
        let cf = row_fields(RowLayout::PairCounts);
        assert forall|j: int| 0 <= j < drows.len() implies row_fits(df, #[trigger] drows[j]) by {
            assert(drows[j] == deletion_row(dl[j]));
        }
        assert forall|j: int| 0 <= j < crows.len() implies row_fits(cf, #[trigger] crows[j]) by {
            assert(crows[j] == correction_row(cl[j]));
        }
        assert(crate::payload::values_fit(PayloadLayout::Corrections, values)) by {
            assert(value_fits(crate::payload::top_fields(PayloadLayout::Corrections)[0].1, values[0]));
            assert(value_fits(crate::payload::top_fields(PayloadLayout::Corrections)[1].1, values[1]));
        }
        crate::roundtrip::lemma_payload_round_trip(PayloadLayout::Corrections, values);
        assert forall|i: int| 0 <= i < drows.len() implies #[trigger] row_deletion(drows[i]) == dl[i] by {
            assert(drows[i] == deletion_row(dl[i]));
        }
        assert forall|i: int| 0 <= i < crows.len() implies #[trigger] row_correction(crows[i]) == cl[i] by {
            assert(crows[i] == correction_row(cl[i]));
        }
        assert forall|i: int| 0 <= i < drows.len() implies byte_len(cell_text(#[trigger] drows[i][0])) <= MAX_DIMENSION_BYTES && count_ok(cell_count(drows[i][1])) by {
            crate::table::lemma_entry_in_map(dl, i);
            assert(drows[i] == deletion_row(dl[i]));
        }
        assert forall|i: int| 0 <= i < crows.len() implies byte_len(cell_text(#[trigger] crows[i][0])) <= MAX_DIMENSION_BYTES && byte_len(cell_text(crows[i][1])) <= MAX_DIMENSION_BYTES && count_ok(cell_count(crows[i][2])) by {
            crate::table::lemma_entry_in_map(cl, i);
            assert(crows[i] == correction_row(cl[i]));
        }
        assert forall|i: int, j: int| 0 <= i < j < drows.len() implies cell_text(#[trigger] drows[i][0]) != cell_text(#[trigger] drows[j][0]) by {
            assert(row_deletion(drows[i]) == dl[i]);
            assert(row_deletion(drows[j]) == dl[j]);
        }
        assert forall|i: int, j: int| 0 <= i < j < crows.len() implies row_correction(#[trigger] crows[i]).0 != row_correction(#[trigger] crows[j]).0 by {
            assert(row_correction(crows[i]) == cl[i]);
            assert(row_correction(crows[j]) == cl[j]);
        }
        assert(deletion_rows_valid(drows));
        assert(correction_rows_valid(crows));
        assert(drows.map_values(|r: Seq<CellView>| row_deletion(r)) =~= dl);
        assert(crows.map_values(|r: Seq<CellView>| row_correction(r)) =~= cl);
    }

    /// Forgets the recent texts and any pending correction, keeping the counts.
    pub fn clear_in_flight(&mut self)
        requires
            old(self).wf(),
        ensures
            final(self).wf(),
            final(self).state().history.len() == 0,
            final(self).state().pending is None,
            final(self).state().mistakes == old(self).state().mistakes,
            final(self).state().confusions == old(self).state().confusions,
    {
        self.history = Vec::new();
        self.pending_deleted = None;
    }

    pub fn reset(&mut self)
        ensures
            final(self).wf(),
            final(self).state().history.len() == 0,
            final(self).state().pending is None,
            final(self).state().mistakes == Deletions::empty(),
            final(self).state().confusions == Confusions::empty(),
    {
        self.history = Vec::new();
        self.pending_deleted = None;
        self.mistakes = Table::new();
        self.confusions = Table::new();
    }
}

/// The deletion counts as saved rows, listed by text.
fn deletion_rows(mistakes: &Table<String, u64>) -> (r: Result<Vec<Vec<Cell>>, MetricSnapshotError>)
    requires
        mistakes.wf(),
    ensures
        r is Ok <==> (forall|k: Seq<char>| #[trigger] mistakes.map().contains_key(k) ==> byte_len(k) <= MAX_DIMENSION_BYTES && count_ok(mistakes.map()[k])),
        r matches Ok(rows) ==> rows_view(rows@) == listing::<String, u64>(mistakes.map()).map_values(|e: (Seq<char>, u64)| deletion_row(e)),
        r matches Err(e) ==> e matches MetricSnapshotError::InvalidPayload { metric_id, .. } && metric_id@ == CORRECTIONS_ID@,
{
    let entries = mistakes.sorted_entries();
    let ghost ev = entry_views(entries@);
    let mut rows: Vec<Vec<Cell>> = Vec::new();
    let mut i: usize = 0;
    while i < entries.len()
        invariant
            i <= entries.len(),
            ev == entry_views(entries@),
            ev == listing::<String, u64>(mistakes.map()),
            entries_map(ev) == mistakes.map(),
            keys_distinct(ev),
            rows.len() == i,
            rows_view(rows@) == ev.take(i as int).map_values(|e: (Seq<char>, u64)| deletion_row(e)),
            forall|j: int| 0 <= j < i ==> byte_len((#[trigger] ev[j]).0) <= MAX_DIMENSION_BYTES && count_ok(ev[j].1),
        decreases entries.len() - i,
    {
        let (text, count) = &entries[i];
        proof {
            crate::table::lemma_entry_in_map(ev, i as int);
            reveal_strlit("corrections");
        }
        validate_dimension(CORRECTIONS_ID, text.as_str())?;
        validate_count(CORRECTIONS_ID, *count)?;
        let row = vec![Cell::Text(text.clone()), Cell::Count(*count)];
        let ghost before = rows_view(rows@);
        rows.push(row);
        proof {
            assert(cells_view(row@) =~= deletion_row(ev[i as int]));
            assert(rows_view(rows@) =~= before.push(cells_view(row@)));
            assert(ev.take(i as int + 1) =~= ev.take(i as int).push(ev[i as int]));
        }
        i += 1;
    }
    proof {
        assert(ev.take(entries.len() as int) =~= ev);
        assert forall|k: Seq<char>| #[trigger] mistakes.map().contains_key(k) implies byte_len(k) <= MAX_DIMENSION_BYTES && count_ok(mistakes.map()[k]) by {
            let j = choose|j: int| 0 <= j < ev.len() && #[trigger] ev[j].0 == k;
            crate::table::lemma_entry_in_map(ev, j);
        }
    }
    Ok(rows)
}

/// The correction counts as saved rows, listed by pair.
fn correction_rows(confusions: &Table<TextPair, u64>) -> (r: Result<Vec<Vec<Cell>>, MetricSnapshotError>)
    requires
        confusions.wf(),
    ensures
        r is Ok <==> (forall|k: (Seq<char>, Seq<char>)| #[trigger] confusions.map().contains_key(k) ==> byte_len(k.0) <= MAX_DIMENSION_BYTES && byte_len(k.1) <= MAX_DIMENSION_BYTES && count_ok(confusions.map()[k])),
        r matches Ok(rows) ==> rows_view(rows@) == listing::<TextPair, u64>(confusions.map()).map_values(|e: ((Seq<char>, Seq<char>), u64)| correction_row(e)),
        r matches Err(e) ==> e matches MetricSnapshotError::InvalidPayload { metric_id, .. } && metric_id@ == CORRECTIONS_ID@,
{
    let entries = confusions.sorted_entries();
    let ghost ev = entry_views(entries@);
    let mut rows: Vec<Vec<Cell>> = Vec::new();
    let mut i: usize = 0;
    while i < entries.len()
        invariant
            i <= entries.len(),
            ev == entry_views(entries@),
            ev == listing::<TextPair, u64>(confusions.map()),
            entries_map(ev) == confusions.map(),
            keys_distinct(ev),
            rows.len() == i,
            rows_view(rows@) == ev.take(i as int).map_values(|e: ((Seq<char>, Seq<char>), u64)| correction_row(e)),
            forall|j: int| 0 <= j < i ==> byte_len((#[trigger] ev[j]).0.0) <= MAX_DIMENSION_BYTES && byte_len(ev[j].0.1) <= MAX_DIMENSION_BYTES && count_ok(ev[j].1),
        decreases entries.len() - i,
    {
        let (pair, count) = &entries[i];
        proof {
            crate::table::lemma_entry_in_map(ev, i as int);
            reveal_strlit("corrections");
        }
        validate_dimension(CORRECTIONS_ID, pair.first())?;
        validate_dimension(CORRECTIONS_ID, pair.second())?;
        validate_count(CORRECTIONS_ID, *count)?;
        let row = vec![Cell::Text(pair.first().to_owned()), Cell::Text(pair.second().to_owned()), Cell::Count(*count)];
        let ghost before = rows_view(rows@);
        rows.push(row);
        proof {
            assert(cells_view(row@) =~= correction_row(ev[i as int]));
            assert(rows_view(rows@) =~= before.push(cells_view(row@)));
            assert(ev.take(i as int + 1) =~= ev.take(i as int).push(ev[i as int]));
        }
        i += 1;
    }
    proof {
        assert(ev.take(entries.len() as int) =~= ev);
        assert forall|k: (Seq<char>, Seq<char>)| #[trigger] confusions.map().contains_key(k) implies byte_len(k.0) <= MAX_DIMENSION_BYTES && byte_len(k.1) <= MAX_DIMENSION_BYTES && count_ok(confusions.map()[k]) by {
            let j = choose|j: int| 0 <= j < ev.len() && #[trigger] ev[j].0 == k;
            crate::table::lemma_entry_in_map(ev, j);
        }
    }
    Ok(rows)
}

/// The deletion counts saved rows hold.
fn read_deletions(rows: &Vec<Vec<Cell>>) -> (r: Result<Table<String, u64>, MetricSnapshotError>)
    requires
        forall|j: int| 0 <= j < rows.len() ==> row_fits(row_fields(RowLayout::TextCounts), #[trigger] rows_view(rows@)[j]),
    ensures
        r is Ok <==> deletion_rows_valid(rows_view(rows@)),
        r matches Ok(t) ==> t.wf() && t.map() == entries_map(rows_view(rows@).map_values(|r: Seq<CellView>| row_deletion(r))),
        r matches Err(e) ==> e matches MetricSnapshotError::InvalidPayload { metric_id, .. } && metric_id@ == CORRECTIONS_ID@,
{
    let ghost rv = rows_view(rows@);
    let ghost all = rv.map_values(|r: Seq<CellView>| row_deletion(r));
    let mut table: Table<String, u64> = Table::new();
    let mut i: usize = 0;
    proof {
        assert(all.take(0) =~= Seq::<(Seq<char>, u64)>::empty());
        crate::table::lemma_empty_map(all.take(0));
        reveal_strlit("corrections");
    }
    while i < rows.len()
        invariant
            i <= rows.len(),
            rv == rows_view(rows@),
            all == rv.map_values(|r: Seq<CellView>| row_deletion(r)),
            forall|j: int| 0 <= j < rv.len() ==> row_fits(row_fields(RowLayout::TextCounts), #[trigger] rv[j]),
            table.wf(),
            table.map() == entries_map(all.take(i as int)),
            keys_distinct(all.take(i as int)),
            forall|j: int| 0 <= j < i ==> byte_len(cell_text(#[trigger] rv[j][0])) <= MAX_DIMENSION_BYTES && count_ok(cell_count(rv[j][1])),
            forall|j: int, k: int| 0 <= j < k < i ==> cell_text(#[trigger] rv[j][0]) != cell_text(#[trigger] rv[k][0]),
        decreases rows.len() - i,
    {
        let row = &rows[i];
        proof {
            let fields = row_fields(RowLayout::TextCounts);
            assert(row_fits(fields, rv[i as int]));
            assert(rv[i as int] == cells_view(row@));
            assert(crate::payload::cell_fits(fields[0].1, rv[i as int][0]));
            assert(crate::payload::cell_fits(fields[1].1, rv[i as int][1]));
        }
        let text = match &row[0] {
            Cell::Text(t) => t,
            Cell::Count(_) => {
                assert(false);
                return Err(MetricSnapshotError::EmptyMetricId);
            },
        };
        let count = match &row[1] {
            Cell::Count(n) => *n,
            Cell::Text(_) => {
                assert(false);
                0
            },
        };
        if let Err(e) = validate_dimension(CORRECTIONS_ID, text.as_str()) {
            assert(byte_len(cell_text(rv[i as int][0])) > MAX_DIMENSION_BYTES);
            return Err(e);
        }
        if let Err(e) = validate_count(CORRECTIONS_ID, count) {
            assert(!count_ok(cell_count(rv[i as int][1])));
            return Err(e);
        }
        let ghost prefix = all.take(i as int);
        let ghost entry = all[i as int];
        assert(entry == row_deletion(rv[i as int]));
        if table.get(text).is_some() {
            proof {
                let q = choose|q: int| 0 <= q < prefix.len() && #[trigger] prefix[q].0 == entry.0;
                assert(prefix[q] == row_deletion(rv[q]));
                assert(!deletion_rows_valid(rv));
            }
            return Err(MetricSnapshotError::invalid_payload(CORRECTIONS_ID, PayloadProblem::DuplicateDeletion));
        }
        proof {
            assert(!crate::table::has_key(prefix, entry.0)) by {
                if crate::table::has_key(prefix, entry.0) {
                    let q = choose|q: int| 0 <= q < prefix.len() && #[trigger] prefix[q].0 == entry.0;
                    crate::table::lemma_entry_in_map(prefix, q);
                }
            }
            crate::table::lemma_map_push(prefix, entry.0, entry.1);
            assert(all.take(i as int + 1) =~= prefix.push(entry));
            assert forall|q: int| 0 <= q < i implies cell_text(#[trigger] rv[q][0]) != cell_text(rv[i as int][0]) by {
                assert(prefix[q] == row_deletion(rv[q]));
                if cell_text(rv[q][0]) == cell_text(rv[i as int][0]) {
                    assert(prefix[q].0 == entry.0);
                    assert(crate::table::has_key(prefix, entry.0));
                }
            }
        }
        table.insert(text.clone(), count);
        i += 1;
    }
    proof {
        assert(all.take(rows.len() as int) =~= all);
    }
    Ok(table)
}

/// The correction counts saved rows hold.
fn read_confusions(rows: &Vec<Vec<Cell>>) -> (r: Result<Table<TextPair, u64>, MetricSnapshotError>)
    requires
        forall|j: int| 0 <= j < rows.len() ==> row_fits(row_fields(RowLayout::PairCounts), #[trigger] rows_view(rows@)[j]),
    ensures
        r is Ok <==> correction_rows_valid(rows_view(rows@)),
        r matches Ok(t) ==> t.wf() && t.map() == entries_map(rows_view(rows@).map_values(|r: Seq<CellView>| row_correction(r))),
        r matches Err(e) ==> e matches MetricSnapshotError::InvalidPayload { metric_id, .. } && metric_id@ == CORRECTIONS_ID@,
{
    let ghost rv = rows_view(rows@);
    let ghost all = rv.map_values(|r: Seq<CellView>| row_correction(r));
    let mut table: Table<TextPair, u64> = Table::new();
    let mut i: usize = 0;
    proof {
        assert(all.take(0) =~= Seq::<((Seq<char>, Seq<char>), u64)>::empty());
        crate::table::lemma_empty_map(all.take(0));
        reveal_strlit("corrections");
    }
    while i < rows.len()
        invariant
            i <= rows.len(),
            rv == rows_view(rows@),
            all == rv.map_values(|r: Seq<CellView>| row_correction(r)),
            forall|j: int| 0 <= j < rv.len() ==> row_fits(row_fields(RowLayout::PairCounts), #[trigger] rv[j]),
            table.wf(),
            table.map() == entries_map(all.take(i as int)),
            keys_distinct(all.take(i as int)),
            forall|j: int| 0 <= j < i ==> byte_len(cell_text(#[trigger] rv[j][0])) <= MAX_DIMENSION_BYTES && byte_len(cell_text(rv[j][1])) <= MAX_DIMENSION_BYTES && count_ok(cell_count(rv[j][2])),
            forall|j: int, k: int| 0 <= j < k < i ==> row_correction(#[trigger] rv[j]).0 != row_correction(#[trigger] rv[k]).0,
        decreases rows.len() - i,
    {
        let row = &rows[i];
        proof {
            let fields = row_fields(RowLayout::PairCounts);
            assert(row_fits(fields, rv[i as int]));
            assert(rv[i as int] == cells_view(row@));
            assert(crate::payload::cell_fits(fields[0].1, rv[i as int][0]));
            assert(crate::payload::cell_fits(fields[1].1, rv[i as int][1]));
            assert(crate::payload::cell_fits(fields[2].1, rv[i as int][2]));
        }
        let deleted = match &row[0] {
            Cell::Text(t) => t,
            Cell::Count(_) => {
                assert(false);
                return Err(MetricSnapshotError::EmptyMetricId);
            },
        };
        let typed = match &row[1] {
            Cell::Text(t) => t,
            Cell::Count(_) => {
                assert(false);
                return Err(MetricSnapshotError::EmptyMetricId);
            },
        };
        let count = match &row[2] {
            Cell::Count(n) => *n,
            Cell::Text(_) => {
                assert(false);
                0
            },
        };
        if let Err(e) = validate_dimension(CORRECTIONS_ID, deleted.as_str()) {
            assert(byte_len(cell_text(rv[i as int][0])) > MAX_DIMENSION_BYTES);
            return Err(e);
        }
        if let Err(e) = validate_dimension(CORRECTIONS_ID, typed.as_str()) {
            assert(byte_len(cell_text(rv[i as int][1])) > MAX_DIMENSION_BYTES);
            return Err(e);
        }
        if let Err(e) = validate_count(CORRECTIONS_ID, count) {
            assert(!count_ok(cell_count(rv[i as int][2])));
            return Err(e);
        }
        let ghost prefix = all.take(i as int);
        let ghost entry = all[i as int];
        assert(entry == row_correction(rv[i as int]));
        let key = TextPair::new(deleted.as_str(), typed.as_str());
        if table.get(&key).is_some() {
            proof {
                let q = choose|q: int| 0 <= q < prefix.len() && #[trigger] prefix[q].0 == entry.0;
                assert(prefix[q] == row_correction(rv[q]));
                assert(!correction_rows_valid(rv));
            }
            return Err(MetricSnapshotError::invalid_payload(CORRECTIONS_ID, PayloadProblem::DuplicateCorrection));
        }
        proof {
            assert(!crate::table::has_key(prefix, entry.0)) by {
                if crate::table::has_key(prefix, entry.0) {
                    let q = choose|q: int| 0 <= q < prefix.len() && #[trigger] prefix[q].0 == entry.0;
                    crate::table::lemma_entry_in_map(prefix, q);
                }
            }
            crate::table::lemma_map_push(prefix, entry.0, entry.1);
            assert(all.take(i as int + 1) =~= prefix.push(entry));
            assert forall|q: int| 0 <= q < i implies row_correction(#[trigger] rv[q]).0 != row_correction(rv[i as int]).0 by {
                assert(prefix[q] == row_correction(rv[q]));
                if row_correction(rv[q]).0 == row_correction(rv[i as int]).0 {
                    assert(crate::table::has_key(prefix, entry.0));
                }
            }
        }
        table.insert(key, count);
        i += 1;
    }
    proof {
        assert(all.take(rows.len() as int) =~= all);
    }
    Ok(table)
}

/// The deleted-text list is deterministic: two listings of the same counts
/// in the same order, each text listed once, are equal.
pub proof fn lemma_deletion_listing_unique(
    mode: CorrectionSort,
    a: Seq<(String, u64)>,
    b: Seq<(String, u64)>,
)
    requires
        ranked(mode, a),
        ranked(mode, b),
        a.to_multiset() == b.to_multiset(),
        keys_distinct(entry_views(a)),
    ensures
        a == b,
{
    assert forall|x: (String, u64), y: (String, u64)|
        a.contains(x) && a.contains(y) && x != y implies <(String, u64) as Ranked>::ranks_before(
        mode,
        x,
        y,
    ) || <(String, u64) as Ranked>::ranks_before(mode, y, x) by {
        let p = choose|p: int| 0 <= p < a.len() && a[p] == x;
        let q = choose|q: int| 0 <= q < a.len() && a[q] == y;
        assert(p != q);
        assert(entry_views(a)[p].0 != entry_views(a)[q].0);
        lemma_text_order_equal(x.0@, y.0@);
        lemma_text_order_antisymmetric(x.0@, y.0@);
    }
    lemma_ranked_unique(mode, a, b);
}

/// The inferred-correction list is deterministic: two listings of the same
/// counts in the same order, each pair listed once, are equal.
pub proof fn lemma_correction_listing_unique(
    mode: CorrectionSort,
    a: Seq<(TextPair, u64)>,
    b: Seq<(TextPair, u64)>,
)
    requires
        ranked(mode, a),
        ranked(mode, b),
        a.to_multiset() == b.to_multiset(),
        keys_distinct(entry_views(a)),
    ensures
        a == b,
{
    assert forall|x: (TextPair, u64), y: (TextPair, u64)|
        a.contains(x) && a.contains(y) && x != y implies <(TextPair, u64) as Ranked>::ranks_before(
        mode,
        x,
        y,
    ) || <(TextPair, u64) as Ranked>::ranks_before(mode, y, x) by {
        let p = choose|p: int| 0 <= p < a.len() && a[p] == x;
        let q = choose|q: int| 0 <= q < a.len() && a[q] == y;
        assert(p != q);
        assert(entry_views(a)[p].0 != entry_views(a)[q].0);
        lemma_text_order_equal(x.0@.0, y.0@.0);
        lemma_text_order_antisymmetric(x.0@.0, y.0@.0);
        lemma_text_order_equal(x.0@.1, y.0@.1);
        lemma_text_order_antisymmetric(x.0@.1, y.0@.1);
    }
    lemma_ranked_unique(mode, a, b);
}

/// The correction signals under the name of the error-rate metric: the same
/// aggregates, snapshot format and ID.
pub type ErrorRate = CorrectionSignals;

} // verus!
