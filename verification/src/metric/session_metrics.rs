//! The built-in metrics of a session, fed the same events and saved together.
use vstd::prelude::*;

use crate::input::{KeyEvent, KeyEventView};
use crate::metric::bigram_speed::{BigramSpeed, BIGRAM_SPEED_ID};
use crate::metric::correction_signals::{CorrectionSignals, CORRECTIONS_ID};
use crate::metric::dwell_time::{DwellTime, DWELL_TIME_ID};
use crate::metric::flight_time::{FlightTime, FLIGHT_TIME_ID};
use crate::metric::key_usage::{KeyUsage, KEY_USAGE_ID};
use crate::metric::total_presses::{TotalPresses, TOTAL_PRESSES_ID};
use crate::metric::{MetricSnapshot, MetricSnapshotError};
use crate::text::same_text;

verus! {

/// The IDs of the built-in metrics, in the order their snapshots are listed.
pub open spec fn session_metric_ids() -> Seq<Seq<char>> {
    seq![
        TOTAL_PRESSES_ID@,
        KEY_USAGE_ID@,
        DWELL_TIME_ID@,
        FLIGHT_TIME_ID@,
        BIGRAM_SPEED_ID@,
        CORRECTIONS_ID@,
    ]
}

/// The payload layout of the built-in metric `id`.
pub open spec fn metric_layout(id: Seq<char>) -> crate::payload::PayloadLayout {
    if id == TOTAL_PRESSES_ID@ {
        crate::payload::PayloadLayout::Count
    } else if id == KEY_USAGE_ID@ {
        crate::payload::PayloadLayout::KeyCounts
    } else if id == DWELL_TIME_ID@ || id == FLIGHT_TIME_ID@ {
        crate::payload::PayloadLayout::TextDurations
    } else if id == BIGRAM_SPEED_ID@ {
        crate::payload::PayloadLayout::PairDurations
    } else {
        crate::payload::PayloadLayout::Corrections
    }
}

/// The error a built-in metric reports when it cannot restore `v`: a decode
/// error when the payload does not read in the metric's layout (all built-in
/// metrics are at version 1), else an invalid payload of that metric.
pub open spec fn restore_error_ok(e: MetricSnapshotError, v: crate::metric::SnapshotView) -> bool {
    match crate::metric::decoded(v, v.metric_id, 1, metric_layout(v.metric_id)) {
        None => crate::metric::is_decode_error(e, v, v.metric_id, 1),
        Some(_) => e matches MetricSnapshotError::InvalidPayload { metric_id, .. } && metric_id@ == v.metric_id,
    }
}

/// The six built-in metrics of a session.
pub struct SessionMetrics {
    total_presses: TotalPresses,
    key_usage: KeyUsage,
    dwell_time: DwellTime,
    flight_time: FlightTime,
    bigram_speed: BigramSpeed,
    corrections: CorrectionSignals,
}

impl SessionMetrics {
    pub closed spec fn total_presses_part(&self) -> TotalPresses {
        self.total_presses
    }

    pub closed spec fn key_usage_part(&self) -> KeyUsage {
        self.key_usage
    }

    pub closed spec fn dwell_time_part(&self) -> DwellTime {
        self.dwell_time
    }

    pub closed spec fn flight_time_part(&self) -> FlightTime {
        self.flight_time
    }

    pub closed spec fn bigram_speed_part(&self) -> BigramSpeed {
        self.bigram_speed
    }

    pub closed spec fn corrections_part(&self) -> CorrectionSignals {
        self.corrections
    }

    pub fn total_presses(&self) -> (r: &TotalPresses)
        ensures
            *r == self.total_presses_part(),
    {
        &self.total_presses
    }

    pub fn key_usage(&self) -> (r: &KeyUsage)
        ensures
            *r == self.key_usage_part(),
    {
        &self.key_usage
    }

    pub fn dwell_time(&self) -> (r: &DwellTime)
        ensures
            *r == self.dwell_time_part(),
    {
        &self.dwell_time
    }

    pub fn flight_time(&self) -> (r: &FlightTime)
        ensures
            *r == self.flight_time_part(),
    {
        &self.flight_time
    }

    pub fn bigram_speed(&self) -> (r: &BigramSpeed)
        ensures
            *r == self.bigram_speed_part(),
    {
        &self.bigram_speed
    }

    pub fn corrections(&self) -> (r: &CorrectionSignals)
        ensures
            *r == self.corrections_part(),
    {
        &self.corrections
    }

    pub open spec fn wf(&self) -> bool {
        &&& self.key_usage_part().wf()
        &&& self.dwell_time_part().wf()
        &&& self.flight_time_part().wf()
        &&& self.bigram_speed_part().wf()
        &&& self.corrections_part().wf()
    }

    /// Whether no metric would overflow on `event`.
    pub open spec fn accepts(&self, event: KeyEventView) -> bool {
        &&& self.total_presses_part().accepts(event)
        &&& self.key_usage_part().accepts(event)
        &&& self.dwell_time_part().accepts(event)
        &&& self.flight_time_part().accepts(event)
        &&& self.bigram_speed_part().accepts(event)
        &&& self.corrections_part().accepts(event)
    }

    /// Whether any metric holds an aggregate.
    pub open spec fn holds_data(&self) -> bool {
        ||| self.total_presses_part().count_view() > 0
        ||| self.key_usage_part().counts_view() != Map::<(u16, Seq<char>), u64>::empty()
        ||| self.dwell_time_part().stats_view() != Map::<Seq<char>, crate::metric::DurationStats>::empty()
        ||| self.flight_time_part().stats_view() != Map::<Seq<char>, crate::metric::DurationStats>::empty()
        ||| self.bigram_speed_part().stats_view() != crate::metric::bigram_speed::PairStats::empty()
        ||| self.corrections_part().state().mistakes != crate::metric::correction_signals::Deletions::empty()
        ||| self.corrections_part().state().confusions != crate::metric::correction_signals::Confusions::empty()
    }

    /// No metric holds an aggregate or any in-flight context.
    pub open spec fn is_pristine(&self) -> bool {
        &&& self.total_presses_part().count_view() == 0
        &&& self.key_usage_part().counts_view() == Map::<(u16, Seq<char>), u64>::empty()
        &&& self.dwell_time_part().stats_view() == Map::<Seq<char>, crate::metric::DurationStats>::empty()
        &&& self.dwell_time_part().pressed_view() == crate::metric::dwell_time::PressedView::empty()
        &&& self.flight_time_part().stats_view() == Map::<Seq<char>, crate::metric::DurationStats>::empty()
        &&& self.flight_time_part().last_release_view() is None
        &&& self.bigram_speed_part().stats_view() == crate::metric::bigram_speed::PairStats::empty()
        &&& self.bigram_speed_part().last_press_view() is None
        &&& self.corrections_part().state().mistakes == crate::metric::correction_signals::Deletions::empty()
        &&& self.corrections_part().state().confusions == crate::metric::correction_signals::Confusions::empty()
        &&& self.corrections_part().state().history.len() == 0
        &&& self.corrections_part().state().pending is None
    }

    /// Every metric can be saved.
    pub open spec fn snapshots_ok(&self) -> bool {
        &&& self.total_presses_part().snapshot_ok()
        &&& self.key_usage_part().snapshot_ok()
        &&& self.dwell_time_part().snapshot_ok()
        &&& self.flight_time_part().snapshot_ok()
        &&& self.bigram_speed_part().snapshot_ok()
        &&& self.corrections_part().snapshot_ok()
    }

    /// The snapshots of the metrics, in the order of [`session_metric_ids`].
    pub open spec fn snapshot_values(&self) -> Seq<crate::metric::SnapshotView> {
        seq![
            self.total_presses_part().snapshot_value(),
            self.key_usage_part().snapshot_value(),
            self.dwell_time_part().snapshot_value(),
            self.flight_time_part().snapshot_value(),
            self.bigram_speed_part().snapshot_value(),
            self.corrections_part().snapshot_value(),
        ]
    }

    /// `self` is `before` after every metric processed `event`.
    pub open spec fn processed(&self, before: SessionMetrics, event: KeyEventView) -> bool {
        &&& self.total_presses_part().count_view() == before.total_presses_part().count_view() + if event.kind == crate::input::KeyEventKind::Press { 1int } else { 0int }
        &&& self.key_usage_part().counts_view() == if event.kind == crate::input::KeyEventKind::Press {
            KeyUsage::pressed(before.key_usage_part().counts_view(), event.key)
        } else {
            before.key_usage_part().counts_view()
        }
        &&& self.dwell_time_part().pressed_view() == crate::metric::dwell_time::dwell_pressed_after(before.dwell_time_part().pressed_view(), event)
        &&& self.dwell_time_part().stats_view() == crate::metric::dwell_time::dwell_stats_after(before.dwell_time_part().pressed_view(), before.dwell_time_part().stats_view(), event)
        &&& self.flight_time_part().last_release_view() == crate::metric::flight_time::release_after(before.flight_time_part().last_release_view(), event)
        &&& self.flight_time_part().stats_view() == crate::metric::flight_time::flight_stats_after(before.flight_time_part().last_release_view(), before.flight_time_part().stats_view(), event)
        &&& self.bigram_speed_part().last_press_view() == crate::metric::bigram_speed::last_press_after(before.bigram_speed_part().last_press_view(), event)
        &&& self.bigram_speed_part().stats_view() == crate::metric::bigram_speed::bigram_stats_after(before.bigram_speed_part().last_press_view(), before.bigram_speed_part().stats_view(), event)
        &&& self.corrections_part().state() == crate::metric::correction_signals::correction_after(before.corrections_part().state(), event)
    }

    /// `self` is `before` with every metric's in-flight context dropped.
    pub open spec fn cleared(&self, before: SessionMetrics) -> bool {
        &&& self.total_presses_part().count_view() == before.total_presses_part().count_view()
        &&& self.key_usage_part().counts_view() == before.key_usage_part().counts_view()
        &&& self.dwell_time_part().stats_view() == before.dwell_time_part().stats_view()
        &&& self.dwell_time_part().pressed_view() == crate::metric::dwell_time::PressedView::empty()
        &&& self.flight_time_part().stats_view() == before.flight_time_part().stats_view()
        &&& self.flight_time_part().last_release_view() is None
        &&& self.bigram_speed_part().stats_view() == before.bigram_speed_part().stats_view()
        &&& self.bigram_speed_part().last_press_view() is None
        &&& self.corrections_part().state().mistakes == before.corrections_part().state().mistakes
        &&& self.corrections_part().state().confusions == before.corrections_part().state().confusions
        &&& self.corrections_part().state().history.len() == 0
        &&& self.corrections_part().state().pending is None
    }

    pub fn new() -> (r: Self)
        ensures
            r.wf(),
            r.is_pristine(),
    {
        SessionMetrics {
            total_presses: TotalPresses::new(),
            key_usage: KeyUsage::new(),
            dwell_time: DwellTime::new(),
            flight_time: FlightTime::new(),
            bigram_speed: BigramSpeed::new(),
            corrections: CorrectionSignals::new(),
        }
    }

    /// Feeds `event` to every metric.
    pub fn process(&mut self, event: &KeyEvent)
        requires
            old(self).wf(),
            old(self).accepts(event@),
        ensures
            final(self).wf(),
            final(self).total_presses_part().count_view() == old(self).total_presses_part().count_view() + if event@.kind == crate::input::KeyEventKind::Press { 1int } else { 0int },
            final(self).key_usage_part().counts_view() == if event@.kind == crate::input::KeyEventKind::Press {
                KeyUsage::pressed(old(self).key_usage_part().counts_view(), event@.key)
            } else {
                old(self).key_usage_part().counts_view()
            },
            final(self).dwell_time_part().pressed_view() == crate::metric::dwell_time::dwell_pressed_after(old(self).dwell_time_part().pressed_view(), event@),
            final(self).dwell_time_part().stats_view() == crate::metric::dwell_time::dwell_stats_after(old(self).dwell_time_part().pressed_view(), old(self).dwell_time_part().stats_view(), event@),
            final(self).flight_time_part().last_release_view() == crate::metric::flight_time::release_after(old(self).flight_time_part().last_release_view(), event@),
            final(self).flight_time_part().stats_view() == crate::metric::flight_time::flight_stats_after(old(self).flight_time_part().last_release_view(), old(self).flight_time_part().stats_view(), event@),
            final(self).bigram_speed_part().last_press_view() == crate::metric::bigram_speed::last_press_after(old(self).bigram_speed_part().last_press_view(), event@),
            final(self).bigram_speed_part().stats_view() == crate::metric::bigram_speed::bigram_stats_after(old(self).bigram_speed_part().last_press_view(), old(self).bigram_speed_part().stats_view(), event@),
            final(self).corrections_part().state() == crate::metric::correction_signals::correction_after(old(self).corrections_part().state(), event@),
    {
        self.total_presses.process(event);
        self.key_usage.process(event);
        self.dwell_time.process(event);
        self.flight_time.process(event);
        self.bigram_speed.process(event);
        self.corrections.process(event);
    }

    /// Drops every metric's in-flight context (held keys, last release, last
    /// press, recent texts), keeping every aggregate.
    pub fn clear_in_flight(&mut self)
        requires
            old(self).wf(),
        ensures
            final(self).wf(),
            final(self).total_presses_part().count_view() == old(self).total_presses_part().count_view(),
            final(self).key_usage_part().counts_view() == old(self).key_usage_part().counts_view(),
            final(self).dwell_time_part().stats_view() == old(self).dwell_time_part().stats_view(),
            final(self).dwell_time_part().pressed_view() == crate::metric::dwell_time::PressedView::empty(),
            final(self).flight_time_part().stats_view() == old(self).flight_time_part().stats_view(),
            final(self).flight_time_part().last_release_view() is None,
            final(self).bigram_speed_part().stats_view() == old(self).bigram_speed_part().stats_view(),
            final(self).bigram_speed_part().last_press_view() is None,
            final(self).corrections_part().state().mistakes == old(self).corrections_part().state().mistakes,
            final(self).corrections_part().state().confusions == old(self).corrections_part().state().confusions,
            final(self).corrections_part().state().history.len() == 0,
            final(self).corrections_part().state().pending is None,
    {
        self.total_presses.clear_in_flight();
        self.key_usage.clear_in_flight();
        self.dwell_time.clear_in_flight();
        self.flight_time.clear_in_flight();
        self.bigram_speed.clear_in_flight();
        self.corrections.clear_in_flight();
    }

    /// Returns every metric to its initial state.
    pub fn reset(&mut self)
        ensures
            final(self).wf(),
            final(self).is_pristine(),
    {
        self.total_presses.reset();
        self.key_usage.reset();
        self.dwell_time.reset();
        self.flight_time.reset();
        self.bigram_speed.reset();
        self.corrections.reset();
    }

    pub fn has_data(&self) -> (r: bool)
        requires
            self.wf(),
        ensures
            r == self.holds_data(),
    {
        self.total_presses.has_data() || self.key_usage.has_data() || self.dwell_time.has_data()
            || self.flight_time.has_data() || self.bigram_speed.has_data()
            || self.corrections.has_data()
    }

    /// One snapshot per metric, in the order of [`session_metric_ids`]; the
    /// first metric that cannot be saved decides the error.
    pub fn snapshots(&self) -> (r: Result<Vec<MetricSnapshot>, MetricSnapshotError>)
        requires
            self.wf(),
        ensures
            r is Ok <==> (self.total_presses_part().snapshot_ok() && self.key_usage_part().snapshot_ok()
                && self.dwell_time_part().snapshot_ok() && self.flight_time_part().snapshot_ok()
                && self.bigram_speed_part().snapshot_ok() && self.corrections_part().snapshot_ok()),
            r matches Ok(v) ==> v.len() == 6 && v@[0]@ == self.total_presses_part().snapshot_value()
                && v@[1]@ == self.key_usage_part().snapshot_value() && v@[2]@
                == self.dwell_time_part().snapshot_value() && v@[3]@ == self.flight_time_part().snapshot_value()
                && v@[4]@ == self.bigram_speed_part().snapshot_value() && v@[5]@
                == self.corrections_part().snapshot_value(),
    {
        let a = self.total_presses.snapshot()?;
        let b = self.key_usage.snapshot()?;
        let c = self.dwell_time.snapshot()?;
        let d = self.flight_time.snapshot()?;
        let e = self.bigram_speed.snapshot()?;
        let f = self.corrections.snapshot()?;
        Ok(vec![a, b, c, d, e, f])
    }

    /// Whether `metric_id` names a built-in metric.
    pub fn contains_id(metric_id: &str) -> (r: bool)
        ensures
            r == session_metric_ids().contains(metric_id@),
    {
        proof {
            reveal_strlit("total-presses");
            reveal_strlit("key-usage");
            reveal_strlit("dwell-time");
            reveal_strlit("flight-time");
            reveal_strlit("bigram-speed");
            reveal_strlit("corrections");
            let ids = session_metric_ids();
            assert(ids[0] == TOTAL_PRESSES_ID@);
            assert(ids[1] == KEY_USAGE_ID@);
            assert(ids[2] == DWELL_TIME_ID@);
            assert(ids[3] == FLIGHT_TIME_ID@);
            assert(ids[4] == BIGRAM_SPEED_ID@);
            assert(ids[5] == CORRECTIONS_ID@);
        }
        let r = same_text(metric_id, TOTAL_PRESSES_ID) || same_text(metric_id, KEY_USAGE_ID)
            || same_text(metric_id, DWELL_TIME_ID) || same_text(metric_id, FLIGHT_TIME_ID)
            || same_text(metric_id, BIGRAM_SPEED_ID) || same_text(metric_id, CORRECTIONS_ID);
        proof {
            let ids = session_metric_ids();
            if ids.contains(metric_id@) {
                let k = choose|k: int| 0 <= k < ids.len() && ids[k] == metric_id@;
                assert(k == 0 || k == 1 || k == 2 || k == 3 || k == 4 || k == 5);
            }
            if r {
                if metric_id@ == TOTAL_PRESSES_ID@ {
                    assert(ids[0] == metric_id@);
                } else if metric_id@ == KEY_USAGE_ID@ {
                    assert(ids[1] == metric_id@);
                } else if metric_id@ == DWELL_TIME_ID@ {
                    assert(ids[2] == metric_id@);
                } else if metric_id@ == FLIGHT_TIME_ID@ {
                    assert(ids[3] == metric_id@);
                } else if metric_id@ == BIGRAM_SPEED_ID@ {
                    assert(ids[4] == metric_id@);
                } else {
                    assert(ids[5] == metric_id@);
                }
            }
        }
        r
    }

    /// Every metric but the `k`-th (in the order of [`session_metric_ids`]) is the same in both.
    pub open spec fn same_except(&self, other: &Self, k: int) -> bool {
        &&& k != 0 ==> self.total_presses_part() == other.total_presses_part()
        &&& k != 1 ==> self.key_usage_part() == other.key_usage_part()
        &&& k != 2 ==> self.dwell_time_part() == other.dwell_time_part()
        &&& k != 3 ==> self.flight_time_part() == other.flight_time_part()
        &&& k != 4 ==> self.bigram_speed_part() == other.bigram_speed_part()
        &&& k != 5 ==> self.corrections_part() == other.corrections_part()
    }

    /// Restores the metric the snapshot belongs to; the other metrics do not
    /// change, and on an error nothing changes.
    pub fn restore_snapshot(&mut self, snapshot: &MetricSnapshot) -> (r: Result<(), MetricSnapshotError>)
        requires
            old(self).wf(),
        ensures
            final(self).wf(),
            !session_metric_ids().contains(snapshot@.metric_id) ==> (r matches Err(
                MetricSnapshotError::MetricMismatch { expected, actual },
            ) && expected@ == "a built-in session metric"@ && actual@ == snapshot@.metric_id
                && final(self).same_except(old(self), -1)),
            snapshot@.metric_id == TOTAL_PRESSES_ID@ ==> final(self).same_except(old(self), 0)
                && match crate::metric::total_presses::restored_count(snapshot@) {
                Some(n) => r is Ok && final(self).total_presses_part().count_view() == n,
                None => r is Err && final(self).total_presses_part().count_view() == old(self).total_presses_part().count_view(),
            },
            snapshot@.metric_id == KEY_USAGE_ID@ ==> final(self).same_except(old(self), 1)
                && match crate::metric::key_usage::restored_key_counts(snapshot@) {
                Some(m) => r is Ok && final(self).key_usage_part().counts_view() == m,
                None => r is Err && final(self).key_usage_part().counts_view() == old(self).key_usage_part().counts_view(),
            },
            snapshot@.metric_id == DWELL_TIME_ID@ ==> final(self).same_except(old(self), 2)
                && match crate::metric::durations::restored_text_durations(snapshot@, DWELL_TIME_ID@) {
                Some(m) => r is Ok && final(self).dwell_time_part().stats_view() == m
                    && final(self).dwell_time_part().pressed_view() == crate::metric::dwell_time::PressedView::empty(),
                None => r is Err && final(self).dwell_time_part().stats_view() == old(self).dwell_time_part().stats_view()
                    && final(self).dwell_time_part().pressed_view() == old(self).dwell_time_part().pressed_view(),
            },
            snapshot@.metric_id == FLIGHT_TIME_ID@ ==> final(self).same_except(old(self), 3)
                && match crate::metric::durations::restored_text_durations(snapshot@, FLIGHT_TIME_ID@) {
                Some(m) => r is Ok && final(self).flight_time_part().stats_view() == m
                    && final(self).flight_time_part().last_release_view() is None,
                None => r is Err && final(self).flight_time_part().stats_view() == old(self).flight_time_part().stats_view()
                    && final(self).flight_time_part().last_release_view() == old(self).flight_time_part().last_release_view(),
            },
            snapshot@.metric_id == BIGRAM_SPEED_ID@ ==> final(self).same_except(old(self), 4)
                && match crate::metric::bigram_speed::restored_bigrams(snapshot@) {
                Some(m) => r is Ok && final(self).bigram_speed_part().stats_view() == m
                    && final(self).bigram_speed_part().last_press_view() is None,
                None => r is Err && final(self).bigram_speed_part().stats_view() == old(self).bigram_speed_part().stats_view()
                    && final(self).bigram_speed_part().last_press_view() == old(self).bigram_speed_part().last_press_view(),
            },
            snapshot@.metric_id == CORRECTIONS_ID@ ==> final(self).same_except(old(self), 5)
                && match crate::metric::correction_signals::restored_corrections(snapshot@) {
                Some((m, c)) => r is Ok && final(self).corrections_part().state().mistakes == m
                    && final(self).corrections_part().state().confusions == c
                    && final(self).corrections_part().state().history.len() == 0
                    && final(self).corrections_part().state().pending is None,
                None => r is Err && final(self).corrections_part().state() == old(self).corrections_part().state(),
            },
            session_metric_ids().contains(snapshot@.metric_id) ==> (r matches Err(e) ==> restore_error_ok(e, snapshot@)),
    {
        proof {
            lemma_ids_distinct();
            reveal_strlit("total-presses");
            reveal_strlit("key-usage");
            reveal_strlit("dwell-time");
            reveal_strlit("flight-time");
            reveal_strlit("bigram-speed");
            reveal_strlit("corrections");
        }
        match Self::metric_index(snapshot.metric_id()) {
            Some(0) => self.total_presses.restore(snapshot),
            Some(1) => self.key_usage.restore(snapshot),
            Some(2) => self.dwell_time.restore(snapshot),
            Some(3) => self.flight_time.restore(snapshot),
            Some(4) => self.bigram_speed.restore(snapshot),
            Some(_) => self.corrections.restore(snapshot),
            None => {
                proof {
                    reveal_strlit("a built-in session metric");
                }
                Err(MetricSnapshotError::MetricMismatch {
                    expected: "a built-in session metric".to_owned(),
                    actual: snapshot.metric_id().to_owned(),
                })
            },
        }
    }

    /// The position of `metric_id` among [`session_metric_ids`].
    fn metric_index(metric_id: &str) -> (r: Option<usize>)
        ensures
            match r {
                Some(k) => k < 6 && session_metric_ids()[k as int] == metric_id@,
                None => !session_metric_ids().contains(metric_id@),
            },
    {
        proof {
            reveal_strlit("total-presses");
            reveal_strlit("key-usage");
            reveal_strlit("dwell-time");
            reveal_strlit("flight-time");
            reveal_strlit("bigram-speed");
            reveal_strlit("corrections");
        }
        let r = if same_text(metric_id, TOTAL_PRESSES_ID) {
            Some(0)
        } else if same_text(metric_id, KEY_USAGE_ID) {
            Some(1)
        } else if same_text(metric_id, DWELL_TIME_ID) {
            Some(2)
        } else if same_text(metric_id, FLIGHT_TIME_ID) {
            Some(3)
        } else if same_text(metric_id, BIGRAM_SPEED_ID) {
            Some(4)
        } else if same_text(metric_id, CORRECTIONS_ID) {
            Some(5)
        } else {
            None
        };
        proof {
            let ids = session_metric_ids();
            if r is None && ids.contains(metric_id@) {
                let k = choose|k: int| 0 <= k < ids.len() && ids[k] == metric_id@;
                assert(k == 0 || k == 1 || k == 2 || k == 3 || k == 4 || k == 5);
            }
        }
        r
    }
}

/// Restoring the snapshots a session's metrics are saved as gives back every
/// aggregate, provided no two counted keys share a code.
pub proof fn lemma_session_round_trip(m: &SessionMetrics)
    requires
        m.wf(),
        m.total_presses_part().snapshot_ok(),
        m.key_usage_part().snapshot_ok(),
        m.dwell_time_part().snapshot_ok(),
        m.flight_time_part().snapshot_ok(),
        m.bigram_speed_part().snapshot_ok(),
        m.corrections_part().snapshot_ok(),
        crate::metric::key_usage::codes_distinct(m.key_usage_part().counts_view()),
    ensures
        crate::metric::total_presses::restored_count(m.total_presses_part().snapshot_value())
            == Some(m.total_presses_part().count_view()),
        crate::metric::key_usage::restored_key_counts(m.key_usage_part().snapshot_value())
            == Some(m.key_usage_part().counts_view()),
        crate::metric::durations::restored_text_durations(m.dwell_time_part().snapshot_value(), DWELL_TIME_ID@)
            == Some(m.dwell_time_part().stats_view()),
        crate::metric::durations::restored_text_durations(m.flight_time_part().snapshot_value(), FLIGHT_TIME_ID@)
            == Some(m.flight_time_part().stats_view()),
        crate::metric::bigram_speed::restored_bigrams(m.bigram_speed_part().snapshot_value())
            == Some(m.bigram_speed_part().stats_view()),
        crate::metric::correction_signals::restored_corrections(m.corrections_part().snapshot_value())
            == Some((m.corrections_part().state().mistakes, m.corrections_part().state().confusions)),
{
    m.total_presses_part().lemma_round_trip();
    m.key_usage_part().lemma_round_trip();
    m.dwell_time_part().lemma_round_trip();
    m.flight_time_part().lemma_round_trip();
    m.bigram_speed_part().lemma_round_trip();
    m.corrections_part().lemma_round_trip();
}

/// Dropping the in-flight context of a session's metrics leaves them as
/// restoring their saved snapshots would: every aggregate the snapshots give
/// back, and no in-flight context (held keys, last release, last press,
/// recent texts, pending deletion), so no later event is analysed across the
/// boundary. This holds when no two counted keys share a code.
pub proof fn lemma_clear_matches_restore(before: SessionMetrics, after: SessionMetrics)
    requires
        before.wf(),
        before.snapshots_ok(),
        crate::metric::key_usage::codes_distinct(before.key_usage_part().counts_view()),
        after.cleared(before),
    ensures
        crate::metric::total_presses::restored_count(before.total_presses_part().snapshot_value())
            == Some(after.total_presses_part().count_view()),
        crate::metric::key_usage::restored_key_counts(before.key_usage_part().snapshot_value())
            == Some(after.key_usage_part().counts_view()),
        crate::metric::durations::restored_text_durations(before.dwell_time_part().snapshot_value(), DWELL_TIME_ID@)
            == Some(after.dwell_time_part().stats_view()),
        crate::metric::durations::restored_text_durations(before.flight_time_part().snapshot_value(), FLIGHT_TIME_ID@)
            == Some(after.flight_time_part().stats_view()),
        crate::metric::bigram_speed::restored_bigrams(before.bigram_speed_part().snapshot_value())
            == Some(after.bigram_speed_part().stats_view()),
        crate::metric::correction_signals::restored_corrections(before.corrections_part().snapshot_value())
            == Some((after.corrections_part().state().mistakes, after.corrections_part().state().confusions)),
        after.dwell_time_part().pressed_view() == crate::metric::dwell_time::PressedView::empty(),
        after.flight_time_part().last_release_view() is None,
        after.bigram_speed_part().last_press_view() is None,
        after.corrections_part().state().history.len() == 0,
        after.corrections_part().state().pending is None,
{
    lemma_session_round_trip(&before);
}

/// Metrics that are all fresh are saved alike: a reset session saves exactly
/// what a new session saves.
pub proof fn lemma_pristine_snapshots_equal(a: SessionMetrics, b: SessionMetrics)
    requires
        a.is_pristine(),
        b.is_pristine(),
    ensures
        a.snapshots_ok() == b.snapshots_ok(),
        a.snapshot_values() == b.snapshot_values(),
{
}

/// A session whose metrics are all fresh holds no data.
pub proof fn lemma_pristine_holds_no_data(m: &SessionMetrics)
    requires
        m.is_pristine(),
    ensures
        !m.holds_data(),
{
}

proof fn lemma_blank_count(k: TotalPresses, f: TotalPresses)
    requires
        k.snapshot_ok(),
        f.count_view() == 0,
        k.snapshot_value() == f.snapshot_value(),
    ensures
        k.count_view() == 0,
{
    assert(f.snapshot_ok());
    k.lemma_round_trip();
    f.lemma_round_trip();
}

proof fn lemma_blank_key_usage(k: KeyUsage, f: KeyUsage)
    requires
        k.wf(),
        k.snapshot_ok(),
        f.wf(),
        f.counts_view() == Map::<(u16, Seq<char>), u64>::empty(),
        k.snapshot_value() == f.snapshot_value(),
    ensures
        k.counts_view() == Map::<(u16, Seq<char>), u64>::empty(),
{
    k.lemma_empty_payload(&f);
}

proof fn lemma_blank_dwell(k: DwellTime, f: DwellTime)
    requires
        k.wf(),
        k.snapshot_ok(),
        f.wf(),
        f.stats_view() == Map::<Seq<char>, crate::metric::DurationStats>::empty(),
        k.snapshot_value() == f.snapshot_value(),
    ensures
        k.stats_view() == Map::<Seq<char>, crate::metric::DurationStats>::empty(),
{
    assert(f.stats_view().dom() =~= Set::<Seq<char>>::empty());
    assert(f.snapshot_ok());
    k.lemma_round_trip();
    f.lemma_round_trip();
}

proof fn lemma_blank_flight(k: FlightTime, f: FlightTime)
    requires
        k.wf(),
        k.snapshot_ok(),
        f.wf(),
        f.stats_view() == Map::<Seq<char>, crate::metric::DurationStats>::empty(),
        k.snapshot_value() == f.snapshot_value(),
    ensures
        k.stats_view() == Map::<Seq<char>, crate::metric::DurationStats>::empty(),
{
    assert(f.stats_view().dom() =~= Set::<Seq<char>>::empty());
    assert(f.snapshot_ok());
    k.lemma_round_trip();
    f.lemma_round_trip();
}

proof fn lemma_blank_bigrams(k: BigramSpeed, f: BigramSpeed)
    requires
        k.wf(),
        k.snapshot_ok(),
        f.wf(),
        f.stats_view() == crate::metric::bigram_speed::PairStats::empty(),
        k.snapshot_value() == f.snapshot_value(),
    ensures
        k.stats_view() == crate::metric::bigram_speed::PairStats::empty(),
{
    assert(f.stats_view().dom() =~= Set::empty());
    assert(f.snapshot_ok());
    k.lemma_round_trip();
    f.lemma_round_trip();
}

proof fn lemma_blank_corrections(k: CorrectionSignals, f: CorrectionSignals)
    requires
        k.wf(),
        k.snapshot_ok(),
        f.wf(),
        f.state().mistakes == crate::metric::correction_signals::Deletions::empty(),
        f.state().confusions == crate::metric::correction_signals::Confusions::empty(),
        k.snapshot_value() == f.snapshot_value(),
    ensures
        k.state().mistakes == crate::metric::correction_signals::Deletions::empty(),
        k.state().confusions == crate::metric::correction_signals::Confusions::empty(),
{
    assert(f.state().mistakes.dom() =~= Set::empty());
    assert(f.state().confusions.dom() =~= Set::empty());
    assert(f.snapshot_ok());
    k.lemma_round_trip();
    f.lemma_round_trip();
}

/// A session holds data exactly when its saved snapshots differ from those of
/// a fresh session: only aggregates are saved, and no aggregate is saved as an
/// empty one.
pub proof fn lemma_data_iff_snapshots_differ(m: &SessionMetrics, fresh: &SessionMetrics)
    requires
        m.wf(),
        m.snapshots_ok(),
        fresh.wf(),
        fresh.is_pristine(),
    ensures
        m.holds_data() <==> m.snapshot_values() != fresh.snapshot_values(),
{
    if !m.holds_data() {
        assert(m.snapshot_values() =~= fresh.snapshot_values());
    } else if m.snapshot_values() == fresh.snapshot_values() {
        let a = m.snapshot_values();
        let b = fresh.snapshot_values();
        assert(a[0] == b[0] && a[1] == b[1] && a[2] == b[2] && a[3] == b[3] && a[4] == b[4] && a[5] == b[5]);
        lemma_blank_count(m.total_presses_part(), fresh.total_presses_part());
        lemma_blank_key_usage(m.key_usage_part(), fresh.key_usage_part());
        lemma_blank_dwell(m.dwell_time_part(), fresh.dwell_time_part());
        lemma_blank_flight(m.flight_time_part(), fresh.flight_time_part());
        lemma_blank_bigrams(m.bigram_speed_part(), fresh.bigram_speed_part());
        lemma_blank_corrections(m.corrections_part(), fresh.corrections_part());
    }
}

/// The built-in metric IDs are distinct.
pub proof fn lemma_ids_distinct()
    ensures
        forall|i: int, j: int| 0 <= i < 6 && 0 <= j < 6 && i != j ==> session_metric_ids()[i] != session_metric_ids()[j],
{
    reveal_strlit("total-presses");
    reveal_strlit("key-usage");
    reveal_strlit("dwell-time");
    reveal_strlit("flight-time");
    reveal_strlit("bigram-speed");
    reveal_strlit("corrections");
    let ids = session_metric_ids();
    assert(ids[0].len() == 13 && ids[1].len() == 9 && ids[2].len() == 10 && ids[3].len() == 11 && ids[4].len() == 12 && ids[5].len() == 11);
    assert(ids[3][0] != ids[5][0]);
}

} // verus!
