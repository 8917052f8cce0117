//! Time from releasing a key to the next press that produces text.
use vstd::prelude::*;

use crate::input::{KeyEvent, KeyEventKind, KeyEventView};
use crate::metric::durations::{
    can_record, record_text_duration, recorded, restore_text_durations, restored_text_durations,
    snapshot_text_durations, sorted_text_durations, stats_comparable, text_durations_payload,
    text_durations_savable, DurationSort,
};
use crate::metric::{
    byte_len, decoded, is_decode_error, snapshot_view, DurationStats, MetricSnapshot,
    MetricSnapshotError, MAX_DIMENSION_ENTRIES, MAX_SNAPSHOT_BYTES,
};
use crate::payload::PayloadLayout;
use crate::sorting::ranked;
use crate::table::{entries_map, entry_views, keys_distinct, Table};

verus! {

pub const FLIGHT_TIME_ID: &'static str = "flight-time";

pub const FLIGHT_TIME_VERSION: u32 = 1;

/// Gaps of this many nanoseconds or more end the typing flow (two seconds).
pub const TYPING_FLOW_TIMEOUT_NS: u64 = 2000000000;

/// The flight that `e` completes: its destination text and duration, if `e` is
/// a text-producing press within the typing flow after the last release.
pub open spec fn completed_flight(last_release: Option<u64>, e: KeyEventView) -> Option<(Seq<char>, u64)> {
    match (last_release, e.text) {
        (Some(t0), Some(t)) => if e.kind == KeyEventKind::Press && e.timestamp >= t0
            && e.timestamp - t0 < TYPING_FLOW_TIMEOUT_NS {
            Some((t, (e.timestamp - t0) as u64))
        } else {
            None
        },
        _ => None,
    }
}

/// The last release after `e`.
pub open spec fn release_after(last_release: Option<u64>, e: KeyEventView) -> Option<u64> {
    if e.kind == KeyEventKind::Release {
        Some(e.timestamp)
    } else {
        last_release
    }
}

/// The stats after `e`.
pub open spec fn flight_stats_after(last_release: Option<u64>, s: Map<Seq<char>, DurationStats>, e: KeyEventView) -> Map<Seq<char>, DurationStats> {
    match completed_flight(last_release, e) {
        Some((t, d)) => recorded(s, t, d),
        None => s,
    }
}

/// Records, per destination text, the time from a release to the next text-producing press.
pub struct FlightTime {
    last_release: Option<u64>,
    stats: Table<String, DurationStats>,
}

impl FlightTime {
    pub closed spec fn wf(&self) -> bool {
        self.stats.wf()
    }

    pub closed spec fn last_release_view(&self) -> Option<u64> {
        self.last_release
    }

    pub closed spec fn stats_view(&self) -> Map<Seq<char>, DurationStats> {
        self.stats.map()
    }

    pub fn new() -> (r: Self)
        ensures
            r.wf(),
            r.last_release_view() is None,
            r.stats_view() == Map::<Seq<char>, DurationStats>::empty(),
    {
        FlightTime { last_release: None, stats: Table::new() }
    }

    /// Whether `event` would not overflow the stats.
    pub open spec fn accepts(&self, event: KeyEventView) -> bool {
        completed_flight(self.last_release_view(), event) matches Some((t, d)) ==> can_record(self.stats_view(), t, d)
    }

    pub fn process(&mut self, event: &KeyEvent)
        requires
            old(self).wf(),
            old(self).accepts(event@),
        ensures
            final(self).wf(),
            final(self).last_release_view() == release_after(old(self).last_release_view(), event@),
            final(self).stats_view() == flight_stats_after(old(self).last_release_view(), old(self).stats_view(), event@),
    {
        match event.kind() {
            KeyEventKind::Press => {
                if let (Some(t0), Some(text)) = (self.last_release, event.text()) {
                    let now = event.timestamp();
                    if now >= t0 && now - t0 < TYPING_FLOW_TIMEOUT_NS {
                        record_text_duration(&mut self.stats, text, now - t0);
                    }
                }
            },
            KeyEventKind::Release => {
                self.last_release = Some(event.timestamp());
            },
            KeyEventKind::Repeat => {},
        }
    }

    /// Whether a release is remembered for the next flight.
    pub fn has_last_release(&self) -> (r: bool)
        ensures
            r == self.last_release_view() is Some,
    {
        self.last_release.is_some()
    }
    pub fn has_data(&self) -> (r: bool)
        requires
            self.wf(),
        ensures
            r == (self.stats_view() != Map::<Seq<char>, DurationStats>::empty()),
    {
        !self.stats.is_empty()
    }

    /// The stats held for `text`.
    pub fn stats_for(&self, text: &str) -> (r: Option<DurationStats>)
        requires
            self.wf(),
        ensures
            r == (if self.stats_view().contains_key(text@) {
                Some(self.stats_view()[text@])
            } else {
                None::<DurationStats>
            }),
    {
        match self.stats.get(&text.to_owned()) {
            Some(s) => Some(*s),
            None => None,
        }
    }

    /// Sets the stats held for `text`.
    pub fn set_stats(&mut self, text: &str, stats: DurationStats)
        requires
            old(self).wf(),
        ensures
            final(self).wf(),
            final(self).stats_view() == old(self).stats_view().insert(text@, stats),
            final(self).last_release_view() == old(self).last_release_view(),
    {
        self.stats.insert(text.to_owned(), stats);
    }

    /// Every text with its stats, in the chosen order.
    pub fn sorted_stats(&self, sort: DurationSort) -> (r: Vec<(String, DurationStats)>)
        requires
            self.wf(),
            stats_comparable(self.stats_view()),
        ensures
            keys_distinct(entry_views(r@)),
            entries_map(entry_views(r@)) == self.stats_view(),
            ranked(sort, r@),
    {
        sorted_text_durations(&self.stats, sort)
    }

    /// The stats as a snapshot, listed by text; the last release is not saved.
    /// Whether the aggregates can be saved: within the limits, and the payload small enough.
    pub open spec fn snapshot_ok(&self) -> bool {
        self.stats_view().dom().len() <= MAX_DIMENSION_ENTRIES && text_durations_savable(self.stats_view()) && byte_len(text_durations_payload(self.stats_view())) <= MAX_SNAPSHOT_BYTES
    }

    /// The snapshot the aggregates are saved as.
    pub open spec fn snapshot_value(&self) -> crate::metric::SnapshotView {
        snapshot_view(FLIGHT_TIME_ID@, FLIGHT_TIME_VERSION, text_durations_payload(self.stats_view()))
    }

    pub fn snapshot(&self) -> (r: Result<MetricSnapshot, MetricSnapshotError>)
        requires
            self.wf(),
        ensures
            r is Ok <==> self.snapshot_ok(),
            r matches Ok(s) ==> s@ == self.snapshot_value(),
    {
        proof {
            reveal_strlit("flight-time");
        }
        snapshot_text_durations(FLIGHT_TIME_ID, &self.stats)
    }

    /// Replaces the stats with those the snapshot holds and forgets the last
    /// release; on an error nothing changes.
    pub fn restore(&mut self, snapshot: &MetricSnapshot) -> (r: Result<(), MetricSnapshotError>)
        requires
            old(self).wf(),
        ensures
            final(self).wf(),
            match restored_text_durations(snapshot@, FLIGHT_TIME_ID@) {
                Some(m) => r is Ok && final(self).stats_view() == m && final(self).last_release_view() is None,
                None => r is Err && final(self).stats_view() == old(self).stats_view()
                    && final(self).last_release_view() == old(self).last_release_view(),
            },
            r matches Err(e) ==> (match decoded(snapshot@, FLIGHT_TIME_ID@, 1, PayloadLayout::TextDurations) {
                None => is_decode_error(e, snapshot@, FLIGHT_TIME_ID@, 1),
                Some(_) => e matches MetricSnapshotError::InvalidPayload { metric_id, .. } && metric_id@ == FLIGHT_TIME_ID@,
            }),
    {
        let stats = restore_text_durations(FLIGHT_TIME_ID, snapshot)?;
        self.stats = stats;
        self.last_release = None;
        Ok(())
    }

    /// Forgets the last release, keeping the stats.
    pub fn clear_in_flight(&mut self)
        requires
            old(self).wf(),
        ensures
            final(self).wf(),
            final(self).stats_view() == old(self).stats_view(),
            final(self).last_release_view() is None,
    {
        self.last_release = None;
    }

    pub fn reset(&mut self)
        ensures
            final(self).wf(),
            final(self).stats_view() == Map::<Seq<char>, DurationStats>::empty(),
            final(self).last_release_view() is None,
    {
        self.last_release = None;
        self.stats = Table::new();
    }

    /// Restoring the snapshot of the stats gives back the same stats.
    pub proof fn lemma_round_trip(&self)
        requires
            self.wf(),
            self.snapshot_ok(),
        ensures
            restored_text_durations(self.snapshot_value(), FLIGHT_TIME_ID@) == Some(self.stats_view()),
    {
        crate::metric::durations::lemma_text_durations_round_trip(&self.stats, FLIGHT_TIME_ID@);
    }
}

} // verus!
