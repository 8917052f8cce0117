//! The session being captured: its identity, capture time, keyboard, metrics
//! and the physical keys seen while capturing.
use vstd::prelude::*;

use crate::input::{KeyEvent, PhysicalKey};
use crate::metric::session_metrics::SessionMetrics;
use crate::metric::{error_message, MAX_TOTAL_DURATION_NANOSECONDS};
use crate::session::{
    expected_issues, issue_details_ok, issue_view, recovered_from, stored_view, KeyboardContext,
    MetricRecoveryIssue, SessionId, SessionSnapshot, StoredMetricSnapshot, StoredSession,
    UNTITLED_SESSION,
};
use crate::table::{Table, TableKey};

verus! {

/// The version recorded in saved sessions.
pub const APPLICATION_VERSION: &'static str = "0.2.0";

/// The message when a capture time does not fit in a saved session.
pub const DURATION_OUT_OF_RANGE: &'static str = "Capture duration exceeds the storage range";

/// A point of the monotonic clock.
#[verifier::external_type_specification]
#[verifier::external_body]
pub struct ExInstant(std::time::Instant);

/// `Instant::now`: the current point of the monotonic clock.
#[verifier::external_body]
fn monotonic_now() -> std::time::Instant {
    std::time::Instant::now()
}

/// `Instant::elapsed` in nanoseconds: the time since `started`, which the
/// clock alone decides.
#[verifier::external_body]
fn elapsed_nanos(started: &std::time::Instant) -> u128 {
    started.elapsed().as_nanos()
}

/// `SystemTime::now().duration_since(UNIX_EPOCH)` in milliseconds; `None`
/// when the clock is before the epoch. The clock alone decides the value.
#[verifier::external_body]
fn system_millis_since_epoch() -> Option<u128> {
    match std::time::SystemTime::now().duration_since(std::time::UNIX_EPOCH) {
        Ok(d) => Some(d.as_millis()),
        Err(_) => None,
    }
}

/// The wall-clock time in Unix milliseconds, given the time since the epoch.
pub open spec fn unix_ms_result(since_epoch_ms: Option<u128>) -> Result<i64, Seq<char>> {
    match since_epoch_ms {
        None => Err("system clock precedes the Unix epoch"@),
        Some(ms) => if ms > i64::MAX {
            Err("system time exceeds the storage range"@)
        } else {
            Ok(ms as i64)
        },
    }
}

/// Unix milliseconds from the time since the epoch, when they fit in an `i64`.
pub fn unix_ms(since_epoch_ms: Option<u128>) -> (r: Result<i64, String>)
    ensures
        match unix_ms_result(since_epoch_ms) {
            Ok(v) => r == Ok::<i64, String>(v),
            Err(m) => r matches Err(e) && e@ == m,
        },
{
    match since_epoch_ms {
        None => Err("system clock precedes the Unix epoch".to_string()),
        Some(ms) => if ms > i64::MAX as u128 {
            Err("system time exceeds the storage range".to_string())
        } else {
            Ok(ms as i64)
        },
    }
}

/// The current wall-clock time in Unix milliseconds.
pub fn unix_now_ms() -> (r: Result<i64, String>)
    ensures
        exists|since: Option<u128>| match #[trigger] unix_ms_result(since) {
            Ok(v) => r == Ok::<i64, String>(v),
            Err(m) => r matches Err(e) && e@ == m,
        },
{
    let since = system_millis_since_epoch();
    unix_ms(since)
}

/// `Duration::saturating_add` on nanosecond counts.
pub open spec fn saturating_duration(a: nat, b: nat) -> nat {
    if a + b > MAX_TOTAL_DURATION_NANOSECONDS {
        MAX_TOTAL_DURATION_NANOSECONDS as nat
    } else {
        a + b
    }
}

fn add_duration(a: u128, b: u128) -> (r: u128)
    requires
        a <= MAX_TOTAL_DURATION_NANOSECONDS,
    ensures
        r == saturating_duration(a as nat, b as nat),
{
    if b > MAX_TOTAL_DURATION_NANOSECONDS - a {
        MAX_TOTAL_DURATION_NANOSECONDS
    } else {
        a + b
    }
}

/// Key codes are ordered as numbers.
impl TableKey for u16 {
    open spec fn key_lt(a: u16, b: u16) -> bool {
        a < b
    }

    proof fn lemma_key_lt_irreflexive(a: u16) {
    }

    proof fn lemma_key_lt_transitive(a: u16, b: u16, c: u16) {
    }

    proof fn lemma_key_lt_total(a: u16, b: u16) {
    }

    fn same_key(&self, other: &Self) -> (r: bool) {
        *self == *other
    }

    fn key_less(&self, other: &Self) -> (r: bool) {
        *self < *other
    }

    fn copy_key(&self) -> (r: Self) {
        *self
    }
}

/// The session being captured.
pub struct WorkingSession {
    pub id: Option<SessionId>,
    pub name: Option<String>,
    pub created_at_ms: i64,
    pub last_opened_at_ms: i64,
    pub captured_duration_ns: u128,
    pub capture_started_at: Option<std::time::Instant>,
    pub keyboard: KeyboardContext,
    pub restored: bool,
    pub metrics: SessionMetrics,
    pub physical_keys: Table<u16, PhysicalKey>,
}

impl WorkingSession {
    pub open spec fn wf(&self) -> bool {
        &&& self.captured_view() <= MAX_TOTAL_DURATION_NANOSECONDS
        &&& self.metrics_view().wf()
        &&& self.keys_table().wf()
    }

    /// The capture time of the finished capture segments, in nanoseconds.
    pub open spec fn captured_view(&self) -> nat {
        self.captured_duration_ns as nat
    }

    /// Whether a capture segment is running.
    pub open spec fn capturing(&self) -> bool {
        self.capture_started_at is Some
    }

    pub open spec fn metrics_view(&self) -> SessionMetrics {
        self.metrics
    }

    pub open spec fn keys_table(&self) -> Table<u16, PhysicalKey> {
        self.physical_keys
    }

    /// The physical key remembered for each code.
    pub open spec fn keys_view(&self) -> Map<u16, (u16, Seq<char>)> {
        self.keys_table().map().map_values(|k: PhysicalKey| k@)
    }

    /// A new untitled session opened at `now_ms`.
    pub fn untitled(now_ms: i64, keyboard: KeyboardContext) -> (r: Self)
        ensures
            r.wf(),
            r.id is None,
            r.name is None,
            r.created_at_ms == now_ms,
            r.last_opened_at_ms == now_ms,
            r.captured_view() == 0,
            !r.capturing(),
            r.keyboard == keyboard,
            !r.restored,
            r.metrics_view().is_pristine(),
            r.keys_view() == Map::<u16, (u16, Seq<char>)>::empty(),
    {
        WorkingSession {
            id: None,
            name: None,
            created_at_ms: now_ms,
            last_opened_at_ms: now_ms,
            captured_duration_ns: 0,
            capture_started_at: None,
            keyboard,
            restored: false,
            metrics: SessionMetrics::new(),
            physical_keys: Table::new(),
        }
    }

    /// A saved session opened again, with the issues of its metric snapshots.
    /// A negative saved capture time counts as zero.
    pub fn restore(stored: StoredSession) -> (r: (Self, Vec<MetricRecoveryIssue>))
        ensures
            r.0.wf(),
            r.0.id == Some(stored.metadata.id),
            r.0.name == stored.metadata.name,
            r.0.created_at_ms == stored.metadata.created_at_ms,
            r.0.last_opened_at_ms == stored.metadata.last_opened_at_ms,
            r.0.captured_view() == if stored.metadata.captured_duration_ns >= 0 {
                stored.metadata.captured_duration_ns as nat
            } else {
                0
            },
            !r.0.capturing(),
            r.0.keyboard == stored.metadata.keyboard,
            r.0.restored,
            r.0.keys_view() == Map::<u16, (u16, Seq<char>)>::empty(),
            recovered_from(
                r.0.metrics_view(),
                stored.metrics@.map_values(|s: StoredMetricSnapshot| stored_view(s)),
                stored.metrics.len() as int,
            ),
            r.1@.map_values(|i: MetricRecoveryIssue| issue_view(i)) == expected_issues(
                stored.metrics@.map_values(|s: StoredMetricSnapshot| stored_view(s)),
                stored.metrics.len() as int,
            ),
            forall|q: int| 0 <= q < r.1.len() ==> issue_details_ok(#[trigger] r.1@[q],
                stored.metrics@.map_values(|s: StoredMetricSnapshot| stored_view(s)), stored.metrics.len() as int),
    {
        let (metrics, issues) = SessionMetrics::restore(&stored.metrics);
        let metadata = stored.metadata;
        let captured: u128 = if metadata.captured_duration_ns >= 0 {
            metadata.captured_duration_ns as u128
        } else {
            0
        };
        (
            WorkingSession {
                id: Some(metadata.id),
                name: metadata.name,
                created_at_ms: metadata.created_at_ms,
                last_opened_at_ms: metadata.last_opened_at_ms,
                captured_duration_ns: captured,
                capture_started_at: None,
                keyboard: metadata.keyboard,
                restored: true,
                metrics,
                physical_keys: Table::new(),
            },
            issues,
        )
    }

    /// The session's name, or the untitled placeholder.
    pub fn display_name(&self) -> (r: &str)
        ensures
            r@ == match self.name {
                Some(n) => n@,
                None => UNTITLED_SESSION@,
            },
    {
        match &self.name {
            Some(n) => n.as_str(),
            None => UNTITLED_SESSION,
        }
    }

    pub fn metrics(&self) -> (r: &SessionMetrics)
        ensures
            *r == self.metrics_view(),
    {
        &self.metrics
    }

    /// The capture time when the running segment has lasted `elapsed_ns`.
    pub fn duration_with(&self, elapsed_ns: u128) -> (r: u128)
        requires
            self.wf(),
        ensures
            r == if self.capturing() {
                saturating_duration(self.captured_view(), elapsed_ns as nat)
            } else {
                self.captured_view()
            },
    {
        if self.capture_started_at.is_some() {
            add_duration(self.captured_duration_ns, elapsed_ns)
        } else {
            self.captured_duration_ns
        }
    }

    /// The capture time so far, including the running segment.
    pub fn duration(&self) -> (r: u128)
        requires
            self.wf(),
        ensures
            !self.capturing() ==> r == self.captured_view(),
            self.capturing() ==> exists|e: nat| r == saturating_duration(self.captured_view(), e),
    {
        match &self.capture_started_at {
            Some(started) => {
                let e = elapsed_nanos(started);
                self.duration_with(e)
            },
            None => self.captured_duration_ns,
        }
    }

    /// Starts a capture segment now; the session is no longer as restored.
    pub fn start_capture(&mut self)
        requires
            old(self).wf(),
        ensures
            final(self).wf(),
            final(self).capturing(),
            !final(self).restored,
            final(self).captured_view() == old(self).captured_view(),
            final(self).metrics_view() == old(self).metrics_view(),
            final(self).keys_view() == old(self).keys_view(),
            final(self).id == old(self).id,
            final(self).name == old(self).name,
    {
        self.capture_started_at = Some(monotonic_now());
        self.restored = false;
    }

    /// Ends the running capture segment, adding its time; false when none ran.
    pub fn finish_capture_segment(&mut self) -> (r: bool)
        requires
            old(self).wf(),
        ensures
            final(self).wf(),
            r == old(self).capturing(),
            !final(self).capturing(),
            !r ==> final(self).captured_view() == old(self).captured_view(),
            r ==> exists|e: nat| final(self).captured_view() == saturating_duration(old(self).captured_view(), e),
            final(self).metrics_view() == old(self).metrics_view(),
            final(self).keys_view() == old(self).keys_view(),
            final(self).restored == old(self).restored,
    {
        match self.capture_started_at.take() {
            None => false,
            Some(started) => {
                let e = elapsed_nanos(&started);
                self.captured_duration_ns = add_duration(self.captured_duration_ns, e);
                true
            },
        }
    }

    /// The physical key for `code`: the one seen before, or a new one named by `label`.
    pub fn physical_key<F: FnOnce() -> String>(&mut self, code: u16, label: F) -> (r: PhysicalKey)
        requires
            old(self).wf(),
            call_requires(label, ()),
        ensures
            final(self).wf(),
            old(self).keys_view().contains_key(code) ==> r@ == old(self).keys_view()[code]
                && final(self).keys_view() == old(self).keys_view(),
            !old(self).keys_view().contains_key(code) ==> exists|l: String|
                call_ensures(label, (), l) && r@ == (code, l@) && final(self).keys_view()
                    == old(self).keys_view().insert(code, r@),
            final(self).metrics_view() == old(self).metrics_view(),
            final(self).captured_view() == old(self).captured_view(),
            final(self).capturing() == old(self).capturing(),
    {
        match self.physical_keys.get(&code) {
            Some(k) => k.copy_key(),
            None => {
                let l = label();
                let key = PhysicalKey::new(code, l.as_str());
                let result = key.copy_key();
                let ghost before = self.keys_view();
                self.physical_keys.insert(code, key);
                proof {
                    assert(self.keys_view() =~= before.insert(code, result@));
                }
                result
            },
        }
    }

    /// Feeds `event` to the session's metrics.
    pub fn process(&mut self, event: &KeyEvent)
        requires
            old(self).wf(),
            old(self).metrics_view().accepts(event@),
        ensures
            final(self).wf(),
            final(self).metrics_view().processed(old(self).metrics_view(), event@),
            final(self).keys_view() == old(self).keys_view(),
            final(self).captured_view() == old(self).captured_view(),
            final(self).capturing() == old(self).capturing(),
    {
        self.metrics.process(event);
    }

    /// Drops the metrics' in-flight context and the remembered keys.
    pub fn clear_in_flight(&mut self)
        requires
            old(self).wf(),
        ensures
            final(self).wf(),
            final(self).metrics_view().cleared(old(self).metrics_view()),
            final(self).keys_view() == Map::<u16, (u16, Seq<char>)>::empty(),
            final(self).captured_view() == old(self).captured_view(),
            final(self).capturing() == old(self).capturing(),
    {
        self.metrics.clear_in_flight();
        self.physical_keys.clear();
    }

    /// Whether the session holds anything worth saving: a name, capture time,
    /// a running capture or metric data.
    pub fn has_content(&self) -> (r: bool)
        requires
            self.wf(),
        ensures
            r == (self.name is Some || self.captured_view() != 0 || self.capturing()
                || self.metrics_view().holds_data()),
    {
        self.name.is_some() || self.captured_duration_ns != 0 || self.capture_started_at.is_some()
            || self.metrics.has_data()
    }

    /// Forgets every statistic and the capture time; the identity stays.
    pub fn reset_statistics(&mut self)
        requires
            old(self).wf(),
        ensures
            final(self).wf(),
            final(self).metrics_view().is_pristine(),
            final(self).keys_view() == Map::<u16, (u16, Seq<char>)>::empty(),
            final(self).captured_view() == 0,
            !final(self).capturing(),
            final(self).id == old(self).id,
            final(self).name == old(self).name,
            final(self).keyboard == old(self).keyboard,
    {
        self.metrics.reset();
        self.physical_keys.clear();
        self.captured_duration_ns = 0;
        self.capture_started_at = None;
    }

    /// The snapshot saved at `now_ms` when the capture time is `duration_ns`:
    /// the update time is `now_ms`, the open time stays.
    pub fn snapshot_with(&self, now_ms: i64, duration_ns: u128) -> (r: Result<SessionSnapshot, String>)
        requires
            self.wf(),
        ensures
            duration_ns > i64::MAX ==> (r matches Err(m) && m@ == DURATION_OUT_OF_RANGE@),
            duration_ns <= i64::MAX && !self.metrics_view().snapshots_ok() ==> (r matches Err(m)
                && exists|e: crate::metric::MetricSnapshotError| m@ == error_message(e)),
            duration_ns <= i64::MAX && self.metrics_view().snapshots_ok() ==> (r matches Ok(s)
                && s.id == self.id && s.name == self.name && s.created_at_ms == self.created_at_ms
                && s.updated_at_ms == now_ms && s.last_opened_at_ms == self.last_opened_at_ms
                && s.captured_duration_ns == duration_ns && s.application_version@
                == APPLICATION_VERSION@ && s.keyboard == self.keyboard && s.metrics@.map_values(
                |m: crate::metric::MetricSnapshot| m@,
            ) == self.metrics_view().snapshot_values()),
    {
        if duration_ns > i64::MAX as u128 {
            return Err(DURATION_OUT_OF_RANGE.to_string());
        }
        let metrics = match self.metrics.snapshots() {
            Ok(m) => m,
            Err(e) => {
                return Err(e.describe());
            },
        };
        let name = match &self.name {
            Some(n) => Some(n.clone()),
            None => None,
        };
        Ok(
            SessionSnapshot {
                id: self.id,
                name,
                created_at_ms: self.created_at_ms,
                updated_at_ms: now_ms,
                last_opened_at_ms: self.last_opened_at_ms,
                captured_duration_ns: duration_ns as i64,
                application_version: APPLICATION_VERSION.to_string(),
                keyboard: self.keyboard.clone(),
                metrics,
            },
        )
    }

    /// The snapshot saved at `now_ms`, with the capture time so far.
    pub fn snapshot(&self, now_ms: i64) -> (r: Result<SessionSnapshot, String>)
        requires
            self.wf(),
        ensures
            !self.capturing() && self.captured_view() <= i64::MAX
                && self.metrics_view().snapshots_ok() ==> (r matches Ok(s) && s.updated_at_ms
                == now_ms && s.last_opened_at_ms == self.last_opened_at_ms
                && s.captured_duration_ns == self.captured_view()),
            r matches Ok(s) ==> s.updated_at_ms == now_ms && s.last_opened_at_ms
                == self.last_opened_at_ms && s.created_at_ms == self.created_at_ms && s.id == self.id
                && s.name == self.name && s.keyboard == self.keyboard && s.application_version@
                == APPLICATION_VERSION@ && s.metrics@.map_values(
                |m: crate::metric::MetricSnapshot| m@,
            ) == self.metrics_view().snapshot_values() && self.metrics_view().snapshots_ok()
                && (!self.capturing() ==> s.captured_duration_ns == self.captured_view())
                && (self.capturing() ==> exists|e: nat| s.captured_duration_ns == saturating_duration(self.captured_view(), e)),
            !self.metrics_view().snapshots_ok() ==> r is Err,
            r matches Err(m) ==> m@ == DURATION_OUT_OF_RANGE@ || (!self.metrics_view().snapshots_ok()
                && exists|e: crate::metric::MetricSnapshotError| m@ == error_message(e)),
    {
        let d = self.duration();
        self.snapshot_with(now_ms, d)
    }
}

} // verus!
