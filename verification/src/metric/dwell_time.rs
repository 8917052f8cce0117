//! How long keys are held, per text they produced when pressed.
use vstd::prelude::*;

use crate::input::{KeyEvent, KeyEventKind, KeyEventView, PhysicalKey};
use crate::metric::durations::{
    can_record, record_text_duration, recorded, restore_text_durations, restored_text_durations,
    snapshot_text_durations, sorted_text_durations, stats_comparable, text_durations_payload,
    text_durations_savable, DurationSort,
};
use crate::metric::{
    byte_len, decoded, is_decode_error, snapshot_view, DurationStats, MetricSnapshot,
    MetricSnapshotError, MAX_DIMENSION_ENTRIES, MAX_SNAPSHOT_BYTES,
};
use crate::payload::PayloadLayout;
use crate::sorting::ranked;
use crate::table::{entries_map, entry_views, keys_distinct, Table, TableKey};

verus! {

pub const DWELL_TIME_ID: &'static str = "dwell-time";

pub const DWELL_TIME_VERSION: u32 = 1;

pub open spec fn opt_text(o: Option<String>) -> Option<Seq<char>> {
    match o {
        Some(t) => Some(t@),
        None => None,
    }
}

/// The keys held down: when each was pressed and the text it produced then.
pub type PressedView = Map<(u16, Seq<char>), (u64, Option<Seq<char>>)>;

/// The held keys after `e`.
pub open spec fn dwell_pressed_after(p: PressedView, e: KeyEventView) -> PressedView {
    match e.kind {
        KeyEventKind::Press => if p.contains_key(e.key) {
            p
        } else {
            p.insert(e.key, (e.timestamp, e.text))
        },
        KeyEventKind::Release => p.remove(e.key),
        KeyEventKind::Repeat => p,
    }
}

/// The hold that `e` completes: the text and its duration, if `e` releases a
/// held key that produced text and was pressed no later than released.
pub open spec fn completed_hold(p: PressedView, e: KeyEventView) -> Option<(Seq<char>, u64)> {
    if e.kind == KeyEventKind::Release && p.contains_key(e.key) && p[e.key].1 is Some
        && e.timestamp >= p[e.key].0 {
        Some((p[e.key].1->0, (e.timestamp - p[e.key].0) as u64))
    } else {
        None
    }
}

/// The stats after `e`.
pub open spec fn dwell_stats_after(p: PressedView, s: Map<Seq<char>, DurationStats>, e: KeyEventView) -> Map<Seq<char>, DurationStats> {
    match completed_hold(p, e) {
        Some((t, d)) => recorded(s, t, d),
        None => s,
    }
}

/// Records, per produced text, the time from press to release of a key.
pub struct DwellTime {
    pressed_keys: Table<PhysicalKey, (u64, Option<String>)>,
    stats: Table<String, DurationStats>,
}

impl DwellTime {
    pub closed spec fn wf(&self) -> bool {
        self.pressed_keys.wf() && self.stats.wf()
    }

    pub closed spec fn pressed_view(&self) -> PressedView {
        self.pressed_keys.map().map_values(|v: (u64, Option<String>)| (v.0, opt_text(v.1)))
    }

    pub closed spec fn stats_view(&self) -> Map<Seq<char>, DurationStats> {
        self.stats.map()
    }

    pub fn new() -> (r: Self)
        ensures
            r.wf(),
            r.pressed_view() == PressedView::empty(),
            r.stats_view() == Map::<Seq<char>, DurationStats>::empty(),
    {
        let r = DwellTime { pressed_keys: Table::new(), stats: Table::new() };
        assert(r.pressed_view() =~= PressedView::empty());
        r
    }

    /// Whether `event` would not overflow the stats.
    pub open spec fn accepts(&self, event: KeyEventView) -> bool {
        completed_hold(self.pressed_view(), event) matches Some((t, d)) ==> can_record(self.stats_view(), t, d)
    }

    pub fn process(&mut self, event: &KeyEvent)
        requires
            old(self).wf(),
            old(self).accepts(event@),
        ensures
            final(self).wf(),
            final(self).pressed_view() == dwell_pressed_after(old(self).pressed_view(), event@),
            final(self).stats_view() == dwell_stats_after(old(self).pressed_view(), old(self).stats_view(), event@),
    {
        let ghost p = self.pressed_view();
        let key = event.key();
        match event.kind() {
            KeyEventKind::Press => {
                if self.pressed_keys.get(key).is_none() {
                    let text = match event.text() {
                        Some(t) => Some(t.to_owned()),
                        None => None,
                    };
                    let ghost v = (event@.timestamp, opt_text(text));
                    self.pressed_keys.insert(key.copy_key(), (event.timestamp(), text));
                    assert(self.pressed_view() =~= p.insert(event@.key, v));
                } else {
                    assert(p.contains_key(event@.key));
                }
            },
            KeyEventKind::Release => {
                let removed = self.pressed_keys.remove(key);
                assert(self.pressed_view() =~= p.remove(event@.key));
                match removed {
                    Some((pressed_at, Some(text))) => {
                        if event.timestamp() >= pressed_at {
                            record_text_duration(&mut self.stats, text.as_str(), event.timestamp() - pressed_at);
                        }
                    },
                    _ => {},
                }
            },
            KeyEventKind::Repeat => {},
        }
    }

    pub fn has_data(&self) -> (r: bool)
        requires
            self.wf(),
        ensures
            r == (self.stats_view() != Map::<Seq<char>, DurationStats>::empty()),
    {
        !self.stats.is_empty()
    }

    /// The stats held for `text`.
    pub fn stats_for(&self, text: &str) -> (r: Option<DurationStats>)
        requires
            self.wf(),
        ensures
            r == (if self.stats_view().contains_key(text@) {
                Some(self.stats_view()[text@])
            } else {
                None::<DurationStats>
            }),
    {
        match self.stats.get(&text.to_owned()) {
            Some(s) => Some(*s),
            None => None,
        }
    }

    /// Sets the stats held for `text`.
    pub fn set_stats(&mut self, text: &str, stats: DurationStats)
        requires
            old(self).wf(),
        ensures
            final(self).wf(),
            final(self).stats_view() == old(self).stats_view().insert(text@, stats),
            final(self).pressed_view() == old(self).pressed_view(),
    {
        self.stats.insert(text.to_owned(), stats);
    }

    /// The number of keys held down.
    pub fn pressed_count(&self) -> (r: usize)
        requires
            self.wf(),
        ensures
            r == self.pressed_view().dom().len(),
    {
        let n = self.pressed_keys.len();
        assert(self.pressed_view().dom() =~= self.pressed_keys.map().dom());
        n
    }

    /// Every text with its stats, in the chosen order.
    pub fn sorted_stats(&self, sort: DurationSort) -> (r: Vec<(String, DurationStats)>)
        requires
            self.wf(),
            stats_comparable(self.stats_view()),
        ensures
            keys_distinct(entry_views(r@)),
            entries_map(entry_views(r@)) == self.stats_view(),
            ranked(sort, r@),
    {
        sorted_text_durations(&self.stats, sort)
    }

    /// The stats as a snapshot, listed by text; held keys are not saved.
    /// Whether the aggregates can be saved: within the limits, and the payload small enough.
    pub open spec fn snapshot_ok(&self) -> bool {
        self.stats_view().dom().len() <= MAX_DIMENSION_ENTRIES && text_durations_savable(self.stats_view()) && byte_len(text_durations_payload(self.stats_view())) <= MAX_SNAPSHOT_BYTES
    }

    /// The snapshot the aggregates are saved as.
    pub open spec fn snapshot_value(&self) -> crate::metric::SnapshotView {
        snapshot_view(DWELL_TIME_ID@, DWELL_TIME_VERSION, text_durations_payload(self.stats_view()))
    }

    pub fn snapshot(&self) -> (r: Result<MetricSnapshot, MetricSnapshotError>)
        requires
            self.wf(),
        ensures
            r is Ok <==> self.snapshot_ok(),
            r matches Ok(s) ==> s@ == self.snapshot_value(),
    {
        proof {
            reveal_strlit("dwell-time");
        }
        snapshot_text_durations(DWELL_TIME_ID, &self.stats)
    }

    /// Replaces the stats with those the snapshot holds and forgets held keys;
    /// on an error nothing changes.
    pub fn restore(&mut self, snapshot: &MetricSnapshot) -> (r: Result<(), MetricSnapshotError>)
        requires
            old(self).wf(),
        ensures
            final(self).wf(),
            match restored_text_durations(snapshot@, DWELL_TIME_ID@) {
                Some(m) => r is Ok && final(self).stats_view() == m && final(self).pressed_view()
                    == PressedView::empty(),
                None => r is Err && final(self).stats_view() == old(self).stats_view()
                    && final(self).pressed_view() == old(self).pressed_view(),
            },
            r matches Err(e) ==> (match decoded(snapshot@, DWELL_TIME_ID@, 1, PayloadLayout::TextDurations) {
                None => is_decode_error(e, snapshot@, DWELL_TIME_ID@, 1),
                Some(_) => e matches MetricSnapshotError::InvalidPayload { metric_id, .. } && metric_id@ == DWELL_TIME_ID@,
            }),
    {
        let stats = restore_text_durations(DWELL_TIME_ID, snapshot)?;
        self.stats = stats;
        self.pressed_keys = Table::new();
        assert(self.pressed_view() =~= PressedView::empty());
        Ok(())
    }

    /// Forgets the keys held down, keeping the stats.
    pub fn clear_in_flight(&mut self)
        requires
            old(self).wf(),
        ensures
            final(self).wf(),
            final(self).stats_view() == old(self).stats_view(),
            final(self).pressed_view() == PressedView::empty(),
    {
        self.pressed_keys.clear();
        assert(self.pressed_view() =~= PressedView::empty());
    }

    pub fn reset(&mut self)
        ensures
            final(self).wf(),
            final(self).stats_view() == Map::<Seq<char>, DurationStats>::empty(),
            final(self).pressed_view() == PressedView::empty(),
    {
        self.pressed_keys = Table::new();
        self.stats = Table::new();
        assert(self.pressed_view() =~= PressedView::empty());
    }

    /// Restoring the snapshot of the stats gives back the same stats.
    pub proof fn lemma_round_trip(&self)
        requires
            self.wf(),
            self.snapshot_ok(),
        ensures
            restored_text_durations(self.snapshot_value(), DWELL_TIME_ID@) == Some(self.stats_view()),
    {
        crate::metric::durations::lemma_text_durations_round_trip(&self.stats, DWELL_TIME_ID@);
    }
}

} // verus!
