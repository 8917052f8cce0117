//! Saved sessions: identity, keyboard context, stored metric snapshots, and
//! recovering a session's metrics from what was stored.
use vstd::prelude::*;

use crate::metric::bigram_speed::{restored_bigrams, PairStats};
use crate::metric::correction_signals::{restored_corrections, Confusions, Deletions};
use crate::metric::durations::restored_text_durations;
use crate::metric::dwell_time::{PressedView, DWELL_TIME_ID};
use crate::metric::flight_time::FLIGHT_TIME_ID;
use crate::metric::key_usage::restored_key_counts;
use crate::metric::session_metrics::{lemma_ids_distinct, restore_error_ok, session_metric_ids, SessionMetrics};
use crate::metric::total_presses::restored_count;
use crate::metric::DurationStats;
use crate::metric::{snapshot_view, MetricSnapshot, MetricSnapshotError, SnapshotView, byte_len, MAX_SNAPSHOT_BYTES, error_message};
use crate::text::{append_str, same_text, append_signed, signed_decimal};

verus! {

/// The positive row ID of a saved session.
#[derive(Clone, Copy, Debug, PartialEq, Eq, Hash, Structural)]
pub struct SessionId(i64);

impl View for SessionId {
    type V = i64;

    closed spec fn view(&self) -> i64 {
        self.0
    }
}

impl SessionId {
    /// An ID for a positive value.
    pub fn new(value: i64) -> (r: Option<Self>)
        ensures
            r is Some <==> value > 0,
            r matches Some(id) ==> id@ == value,
    {
        if value > 0 {
            Some(SessionId(value))
        } else {
            None
        }
    }

    pub fn get(self) -> (r: i64)
        ensures
            r == self@,
            r > 0,
    {
        proof {
            use_type_invariant(self);
        }
        self.0
    }

    #[verifier::type_invariant]
    spec fn positive(self) -> bool {
        self.0 > 0
    }
}

/// The keyboard a session was captured with.
#[derive(Debug, Default, PartialEq, Eq)]
pub struct KeyboardContext {
    pub display_name: Option<String>,
    pub model: String,
    pub layout: String,
    pub variant: String,
}

impl Clone for KeyboardContext {
    fn clone(&self) -> (r: Self)
        ensures
            r == *self,
    {
        KeyboardContext {
            display_name: match &self.display_name {
                Some(n) => Some(n.clone()),
                None => None,
            },
            model: self.model.clone(),
            layout: self.layout.clone(),
            variant: self.variant.clone(),
        }
    }
}

/// A session as it is saved: metadata and one snapshot per metric.
#[derive(Debug)]
pub struct SessionSnapshot {
    pub id: Option<SessionId>,
    pub name: Option<String>,
    pub created_at_ms: i64,
    pub updated_at_ms: i64,
    pub last_opened_at_ms: i64,
    pub captured_duration_ns: i64,
    pub application_version: String,
    pub keyboard: KeyboardContext,
    pub metrics: Vec<MetricSnapshot>,
}

/// What is listed of a saved session.
#[derive(Clone, Debug, PartialEq, Eq)]
pub struct SessionMetadata {
    pub id: SessionId,
    pub name: Option<String>,
    pub created_at_ms: i64,
    pub updated_at_ms: i64,
    pub last_opened_at_ms: i64,
    pub captured_duration_ns: i64,
    pub application_version: String,
    pub keyboard: KeyboardContext,
}

/// The name shown for a session without one.
pub const UNTITLED_SESSION: &'static str = "Untitled session";

impl SessionMetadata {
    /// The session's name, or "Untitled session" when it has none.
    pub fn display_name(&self) -> (r: &str)
        ensures
            r@ == match self.name {
                Some(n) => n@,
                None => UNTITLED_SESSION@,
            },
    {
        match &self.name {
            Some(n) => n.as_str(),
            None => UNTITLED_SESSION,
        }
    }
}

/// A metric snapshot as read from storage, before it is checked.
#[derive(Clone, Debug, PartialEq, Eq)]
pub struct StoredMetricSnapshot {
    pub metric_id: String,
    pub schema_version: i64,
    pub payload_json: String,
}

/// Why a stored metric snapshot could not be used.
#[derive(Debug)]
pub enum StoredMetricError {
    InvalidSchemaVersion { actual: i64 },
    InvalidSnapshot(MetricSnapshotError),
}

/// The snapshot a stored row converts to, or `None` when its version or
/// metadata is invalid.
pub open spec fn stored_snapshot(metric_id: Seq<char>, schema_version: i64, payload: Seq<char>) -> Option<SnapshotView> {
    if 0 < schema_version <= u32::MAX && metric_id.len() > 0 && byte_len(payload) <= MAX_SNAPSHOT_BYTES {
        Some(snapshot_view(metric_id, schema_version as u32, payload))
    } else {
        None
    }
}

/// The message of a stored metric error.
pub open spec fn stored_error_message(e: StoredMetricError) -> Seq<char> {
    match e {
        StoredMetricError::InvalidSchemaVersion { actual } => "stored metric schema version "@
            + signed_decimal(actual as int) + " is invalid"@,
        StoredMetricError::InvalidSnapshot(_) => "stored metric snapshot metadata is invalid"@,
    }
}

impl StoredMetricError {
    /// The error's message.
    pub fn describe(&self) -> (r: String)
        ensures
            r@ == stored_error_message(*self),
    {
        let mut s = String::new();
        match self {
            StoredMetricError::InvalidSchemaVersion { actual } => {
                append_str(&mut s, "stored metric schema version ");
                append_signed(&mut s, *actual);
                append_str(&mut s, " is invalid");
            },
            StoredMetricError::InvalidSnapshot(_) => {
                append_str(&mut s, "stored metric snapshot metadata is invalid");
            },
        }
        s
    }
}

impl StoredMetricSnapshot {
    /// The checked snapshot: the version must be a positive `u32`, the ID
    /// non-empty and the payload within the size limit.
    pub fn to_metric_snapshot(&self) -> (r: Result<MetricSnapshot, StoredMetricError>)
        ensures
            match stored_snapshot(self.metric_id@, self.schema_version, self.payload_json@) {
                Some(v) => r matches Ok(s) && s@ == v,
                None => r is Err,
            },
            r matches Err(e) ==> (if !(0 < self.schema_version <= u32::MAX) {
                e == StoredMetricError::InvalidSchemaVersion { actual: self.schema_version }
            } else {
                e matches StoredMetricError::InvalidSnapshot(inner) && if self.metric_id@.len() == 0 {
                    inner is EmptyMetricId
                } else {
                    inner matches MetricSnapshotError::PayloadTooLarge { metric_id: m, size, maximum }
                        && m@ == self.metric_id@ && size == byte_len(self.payload_json@) && maximum
                        == MAX_SNAPSHOT_BYTES
                }
            }),
    {
        if self.schema_version <= 0 || self.schema_version > u32::MAX as i64 {
            return Err(StoredMetricError::InvalidSchemaVersion { actual: self.schema_version });
        }
        match MetricSnapshot::from_json(
            self.metric_id.as_str(),
            self.schema_version as u32,
            self.payload_json.clone(),
        ) {
            Ok(s) => Ok(s),
            Err(e) => Err(StoredMetricError::InvalidSnapshot(e)),
        }
    }
}

/// A saved session as read from storage.
#[derive(Debug)]
pub struct StoredSession {
    pub metadata: SessionMetadata,
    pub metrics: Vec<StoredMetricSnapshot>,
}

/// A stored metric snapshot that could not be restored.
#[derive(Clone, Debug, PartialEq, Eq)]
pub enum MetricRecoveryIssue {
    Unknown { metric_id: String },
    Duplicate { metric_id: String },
    Invalid { metric_id: String, details: String },
}

/// The message shown for a recovery issue.
pub open spec fn recovery_message(issue: MetricRecoveryIssue) -> Seq<char> {
    match issue {
        MetricRecoveryIssue::Unknown { metric_id } => "Unsupported saved metric: "@ + metric_id@,
        MetricRecoveryIssue::Duplicate { metric_id } => "Duplicate saved metric was ignored: "@
            + metric_id@,
        MetricRecoveryIssue::Invalid { metric_id, details } => "Could not restore saved metric "@
            + metric_id@ + ": "@ + details@,
    }
}

/// The message shown for a recovery issue.
pub fn metric_recovery_message(issue: &MetricRecoveryIssue) -> (r: String)
    ensures
        r@ == recovery_message(*issue),
{
    let mut s = String::new();
    match issue {
        MetricRecoveryIssue::Unknown { metric_id } => {
            append_str(&mut s, "Unsupported saved metric: ");
            append_str(&mut s, metric_id.as_str());
        },
        MetricRecoveryIssue::Duplicate { metric_id } => {
            append_str(&mut s, "Duplicate saved metric was ignored: ");
            append_str(&mut s, metric_id.as_str());
        },
        MetricRecoveryIssue::Invalid { metric_id, details } => {
            append_str(&mut s, "Could not restore saved metric ");
            append_str(&mut s, metric_id.as_str());
            append_str(&mut s, ": ");
            append_str(&mut s, details.as_str());
        },
    }
    s
}

/// What a recovery issue is about.
#[derive(Clone, Copy, Debug, PartialEq, Eq, Structural)]
pub enum IssueKind {
    Unknown,
    Duplicate,
    Invalid,
}

/// The kind and metric ID of an issue.
pub open spec fn issue_view(i: MetricRecoveryIssue) -> (IssueKind, Seq<char>) {
    match i {
        MetricRecoveryIssue::Unknown { metric_id } => (IssueKind::Unknown, metric_id@),
        MetricRecoveryIssue::Duplicate { metric_id } => (IssueKind::Duplicate, metric_id@),
        MetricRecoveryIssue::Invalid { metric_id, .. } => (IssueKind::Invalid, metric_id@),
    }
}

/// The details of an invalid stored snapshot: the message of its conversion
/// error when it does not convert, else that of the error its metric reports.
pub open spec fn invalid_details_ok(st: (Seq<char>, i64, Seq<char>), details: Seq<char>) -> bool {
    match stored_snapshot(st.0, st.1, st.2) {
        None => details == if !(0 < st.1 <= u32::MAX) {
            "stored metric schema version "@ + signed_decimal(st.1 as int) + " is invalid"@
        } else {
            "stored metric snapshot metadata is invalid"@
        },
        Some(v) => exists|e: MetricSnapshotError| restore_error_ok(e, v) && details == error_message(e),
    }
}

/// A stored snapshot taken by its ID, version and payload.
pub type StoredView = (Seq<char>, i64, Seq<char>);

pub open spec fn stored_view(s: StoredMetricSnapshot) -> StoredView {
    (s.metric_id@, s.schema_version, s.payload_json@)
}

/// The snapshot restores into the metric it names.
pub open spec fn restores(v: SnapshotView) -> bool {
    if v.metric_id == session_metric_ids()[0] {
        restored_count(v) is Some
    } else if v.metric_id == session_metric_ids()[1] {
        restored_key_counts(v) is Some
    } else if v.metric_id == session_metric_ids()[2] {
        restored_text_durations(v, DWELL_TIME_ID@) is Some
    } else if v.metric_id == session_metric_ids()[3] {
        restored_text_durations(v, FLIGHT_TIME_ID@) is Some
    } else if v.metric_id == session_metric_ids()[4] {
        restored_bigrams(v) is Some
    } else if v.metric_id == session_metric_ids()[5] {
        restored_corrections(v) is Some
    } else {
        false
    }
}

/// The stored snapshot converts and restores.
pub open spec fn stored_restores(st: StoredView) -> bool {
    match stored_snapshot(st.0, st.1, st.2) {
        Some(v) => restores(v),
        None => false,
    }
}

/// An earlier stored snapshot has the same ID.
pub open spec fn seen_before(snaps: Seq<StoredView>, i: int) -> bool {
    exists|j: int| 0 <= j < i && (#[trigger] snaps[j]).0 == snaps[i].0
}

/// The issue the `i`-th stored snapshot raises, if any.
pub open spec fn issue_at(snaps: Seq<StoredView>, i: int) -> Option<(IssueKind, Seq<char>)> {
    if seen_before(snaps, i) {
        Some((IssueKind::Duplicate, snaps[i].0))
    } else if !session_metric_ids().contains(snaps[i].0) {
        Some((IssueKind::Unknown, snaps[i].0))
    } else if !stored_restores(snaps[i]) {
        Some((IssueKind::Invalid, snaps[i].0))
    } else {
        None
    }
}

/// An invalid-snapshot issue names the first stored snapshot with its ID, and
/// its details are those of that snapshot's error.
pub open spec fn issue_details_ok(issue: MetricRecoveryIssue, snaps: Seq<StoredView>, n: int) -> bool {
    issue matches MetricRecoveryIssue::Invalid { metric_id, details } ==> (first_with(snaps, metric_id@, n)
        matches Some(j) && invalid_details_ok(snaps[j], details@))
}

/// The issues the first `n` stored snapshots raise, in order.
pub open spec fn expected_issues(snaps: Seq<StoredView>, n: int) -> Seq<(IssueKind, Seq<char>)>
    decreases n,
{
    if n <= 0 {
        Seq::empty()
    } else {
        expected_issues(snaps, n - 1) + match issue_at(snaps, n - 1) {
            Some(x) => seq![x],
            None => Seq::empty(),
        }
    }
}

/// The first stored snapshot with ID `id` among the first `n`.
pub open spec fn first_with(snaps: Seq<StoredView>, id: Seq<char>, n: int) -> Option<int>
    decreases n,
{
    if n <= 0 {
        None
    } else {
        match first_with(snaps, id, n - 1) {
            Some(i) => Some(i),
            None => if snaps[n - 1].0 == id {
                Some(n - 1)
            } else {
                None
            },
        }
    }
}

/// The snapshot the first stored row with ID `id` converts to.
pub open spec fn recovered_snapshot(snaps: Seq<StoredView>, id: Seq<char>, n: int) -> Option<SnapshotView> {
    match first_with(snaps, id, n) {
        Some(i) => stored_snapshot(snaps[i].0, snaps[i].1, snaps[i].2),
        None => None,
    }
}

/// What the stored snapshots restore into each metric: what the first
/// snapshot with its ID restores, or nothing.
pub open spec fn total_after(snaps: Seq<StoredView>, n: int) -> u64 {
    match recovered_snapshot(snaps, session_metric_ids()[0], n) {
        Some(v) => match restored_count(v) {
            Some(c) => c,
            None => 0,
        },
        None => 0,
    }
}

pub open spec fn keys_after(snaps: Seq<StoredView>, n: int) -> Map<(u16, Seq<char>), u64> {
    match recovered_snapshot(snaps, session_metric_ids()[1], n) {
        Some(v) => match restored_key_counts(v) {
            Some(m) => m,
            None => Map::empty(),
        },
        None => Map::empty(),
    }
}

pub open spec fn dwell_after(snaps: Seq<StoredView>, n: int) -> Map<Seq<char>, DurationStats> {
    match recovered_snapshot(snaps, session_metric_ids()[2], n) {
        Some(v) => match restored_text_durations(v, DWELL_TIME_ID@) {
            Some(m) => m,
            None => Map::empty(),
        },
        None => Map::empty(),
    }
}

pub open spec fn flight_after(snaps: Seq<StoredView>, n: int) -> Map<Seq<char>, DurationStats> {
    match recovered_snapshot(snaps, session_metric_ids()[3], n) {
        Some(v) => match restored_text_durations(v, FLIGHT_TIME_ID@) {
            Some(m) => m,
            None => Map::empty(),
        },
        None => Map::empty(),
    }
}

pub open spec fn bigrams_after(snaps: Seq<StoredView>, n: int) -> PairStats {
    match recovered_snapshot(snaps, session_metric_ids()[4], n) {
        Some(v) => match restored_bigrams(v) {
            Some(m) => m,
            None => Map::empty(),
        },
        None => Map::empty(),
    }
}

pub open spec fn corrections_after(snaps: Seq<StoredView>, n: int) -> (Deletions, Confusions) {
    match recovered_snapshot(snaps, session_metric_ids()[5], n) {
        Some(v) => match restored_corrections(v) {
            Some(m) => m,
            None => (Map::empty(), Map::empty()),
        },
        None => (Map::empty(), Map::empty()),
    }
}

/// The metrics hold what the first `n` stored snapshots restore, and no
/// in-flight context.
pub open spec fn recovered_from(m: SessionMetrics, snaps: Seq<StoredView>, n: int) -> bool {
    &&& m.total_presses_part().count_view() == total_after(snaps, n)
    &&& m.key_usage_part().counts_view() == keys_after(snaps, n)
    &&& m.dwell_time_part().stats_view() == dwell_after(snaps, n)
    &&& m.dwell_time_part().pressed_view() == PressedView::empty()
    &&& m.flight_time_part().stats_view() == flight_after(snaps, n)
    &&& m.flight_time_part().last_release_view() is None
    &&& m.bigram_speed_part().stats_view() == bigrams_after(snaps, n)
    &&& m.bigram_speed_part().last_press_view() is None
    &&& m.corrections_part().state().mistakes == corrections_after(snaps, n).0
    &&& m.corrections_part().state().confusions == corrections_after(snaps, n).1
    &&& m.corrections_part().state().history.len() == 0
    &&& m.corrections_part().state().pending is None
}

proof fn lemma_first_with_none(snaps: Seq<StoredView>, id: Seq<char>, n: int)
    requires
        0 <= n <= snaps.len(),
        forall|j: int| 0 <= j < n ==> (#[trigger] snaps[j]).0 != id,
    ensures
        first_with(snaps, id, n) is None,
    decreases n,
{
    if n > 0 {
        lemma_first_with_none(snaps, id, n - 1);
    }
}

proof fn lemma_first_with_found(snaps: Seq<StoredView>, id: Seq<char>, n: int)
    requires
        0 <= n <= snaps.len(),
    ensures
        first_with(snaps, id, n) matches Some(i) ==> 0 <= i < n && snaps[i].0 == id,
    decreases n,
{
    if n > 0 {
        lemma_first_with_found(snaps, id, n - 1);
    }
}

proof fn lemma_first_with_some(snaps: Seq<StoredView>, id: Seq<char>, n: int, x: int)
    requires
        0 <= x < n <= snaps.len(),
        snaps[x].0 == id,
    ensures
        first_with(snaps, id, n) is Some,
    decreases n,
{
    if x < n - 1 {
        lemma_first_with_some(snaps, id, n - 1, x);
    }
}

/// The after-values do not change when no metric's first snapshot changes.
proof fn lemma_after_stable(snaps: Seq<StoredView>, n: int)
    requires
        forall|k: int| 0 <= k < 6 ==> #[trigger] first_with(snaps, session_metric_ids()[k], n + 1) == first_with(snaps, session_metric_ids()[k], n),
    ensures
        total_after(snaps, n + 1) == total_after(snaps, n),
        keys_after(snaps, n + 1) == keys_after(snaps, n),
        dwell_after(snaps, n + 1) == dwell_after(snaps, n),
        flight_after(snaps, n + 1) == flight_after(snaps, n),
        bigrams_after(snaps, n + 1) == bigrams_after(snaps, n),
        corrections_after(snaps, n + 1) == corrections_after(snaps, n),
{
    assert(first_with(snaps, session_metric_ids()[0], n + 1) == first_with(snaps, session_metric_ids()[0], n));
    assert(first_with(snaps, session_metric_ids()[1], n + 1) == first_with(snaps, session_metric_ids()[1], n));
    assert(first_with(snaps, session_metric_ids()[2], n + 1) == first_with(snaps, session_metric_ids()[2], n));
    assert(first_with(snaps, session_metric_ids()[3], n + 1) == first_with(snaps, session_metric_ids()[3], n));
    assert(first_with(snaps, session_metric_ids()[4], n + 1) == first_with(snaps, session_metric_ids()[4], n));
    assert(first_with(snaps, session_metric_ids()[5], n + 1) == first_with(snaps, session_metric_ids()[5], n));
}

/// The `n`-th stored snapshot is the first for metric `k` and does not convert:
/// nothing changes.
proof fn lemma_unconverted_step(m: SessionMetrics, snaps: Seq<StoredView>, n: int, k: int)
    requires
        0 <= n < snaps.len(),
        0 <= k < 6,
        snaps[n].0 == session_metric_ids()[k],
        first_with(snaps, session_metric_ids()[k], n) is None,
        first_with(snaps, session_metric_ids()[k], n + 1) == Some(n),
        stored_snapshot(snaps[n].0, snaps[n].1, snaps[n].2) is None,
        forall|j: int| 0 <= j < 6 && j != k ==> #[trigger] first_with(snaps, session_metric_ids()[j], n + 1) == first_with(snaps, session_metric_ids()[j], n),
        recovered_from(m, snaps, n),
    ensures
        recovered_from(m, snaps, n + 1),
        !stored_restores(snaps[n]),
{
    assert(recovered_snapshot(snaps, session_metric_ids()[k], n) is None);
    assert(recovered_snapshot(snaps, session_metric_ids()[k], n + 1) is None);
    assert(first_with(snaps, session_metric_ids()[0], n + 1) == first_with(snaps, session_metric_ids()[0], n) || k == 0);
    assert(first_with(snaps, session_metric_ids()[1], n + 1) == first_with(snaps, session_metric_ids()[1], n) || k == 1);
    assert(first_with(snaps, session_metric_ids()[2], n + 1) == first_with(snaps, session_metric_ids()[2], n) || k == 2);
    assert(first_with(snaps, session_metric_ids()[3], n + 1) == first_with(snaps, session_metric_ids()[3], n) || k == 3);
    assert(first_with(snaps, session_metric_ids()[4], n + 1) == first_with(snaps, session_metric_ids()[4], n) || k == 4);
    assert(first_with(snaps, session_metric_ids()[5], n + 1) == first_with(snaps, session_metric_ids()[5], n) || k == 5);
}

/// The `n`-th stored snapshot is the first for metric `k` and converts to `v`;
/// restoring it (successfully or not) keeps the metrics what the snapshots restore.
proof fn lemma_restore_step(
    before: SessionMetrics,
    after: SessionMetrics,
    snaps: Seq<StoredView>,
    n: int,
    k: int,
    v: SnapshotView,
    ok: bool,
)
    requires
        0 <= n < snaps.len(),
        0 <= k < 6,
        snaps[n].0 == session_metric_ids()[k],
        v.metric_id == snaps[n].0,
        first_with(snaps, session_metric_ids()[k], n) is None,
        first_with(snaps, session_metric_ids()[k], n + 1) == Some(n),
        stored_snapshot(snaps[n].0, snaps[n].1, snaps[n].2) == Some(v),
        forall|j: int| 0 <= j < 6 && j != k ==> #[trigger] first_with(snaps, session_metric_ids()[j], n + 1) == first_with(snaps, session_metric_ids()[j], n),
        forall|a: int, b: int| 0 <= a < 6 && 0 <= b < 6 && a != b ==> session_metric_ids()[a] != session_metric_ids()[b],
        recovered_from(before, snaps, n),
        after.same_except(&before, k),
        k == 0 ==> match restored_count(v) {
            Some(c) => ok && after.total_presses_part().count_view() == c,
            None => !ok && after.total_presses_part().count_view() == before.total_presses_part().count_view(),
        },
        k == 1 ==> match restored_key_counts(v) {
            Some(c) => ok && after.key_usage_part().counts_view() == c,
            None => !ok && after.key_usage_part().counts_view() == before.key_usage_part().counts_view(),
        },
        k == 2 ==> match restored_text_durations(v, DWELL_TIME_ID@) {
            Some(c) => ok && after.dwell_time_part().stats_view() == c && after.dwell_time_part().pressed_view() == PressedView::empty(),
            None => !ok && after.dwell_time_part().stats_view() == before.dwell_time_part().stats_view() && after.dwell_time_part().pressed_view() == before.dwell_time_part().pressed_view(),
        },
        k == 3 ==> match restored_text_durations(v, FLIGHT_TIME_ID@) {
            Some(c) => ok && after.flight_time_part().stats_view() == c && after.flight_time_part().last_release_view() is None,
            None => !ok && after.flight_time_part().stats_view() == before.flight_time_part().stats_view() && after.flight_time_part().last_release_view() == before.flight_time_part().last_release_view(),
        },
        k == 4 ==> match restored_bigrams(v) {
            Some(c) => ok && after.bigram_speed_part().stats_view() == c && after.bigram_speed_part().last_press_view() is None,
            None => !ok && after.bigram_speed_part().stats_view() == before.bigram_speed_part().stats_view() && after.bigram_speed_part().last_press_view() == before.bigram_speed_part().last_press_view(),
        },
        k == 5 ==> match restored_corrections(v) {
            Some((a, b)) => ok && after.corrections_part().state().mistakes == a && after.corrections_part().state().confusions == b
                && after.corrections_part().state().history.len() == 0 && after.corrections_part().state().pending is None,
            None => !ok && after.corrections_part().state() == before.corrections_part().state(),
        },
    ensures
        recovered_from(after, snaps, n + 1),
        ok == stored_restores(snaps[n]),
{
    assert(recovered_snapshot(snaps, session_metric_ids()[k], n) is None);
    assert(recovered_snapshot(snaps, session_metric_ids()[k], n + 1) == Some(v));
    assert(first_with(snaps, session_metric_ids()[0], n + 1) == first_with(snaps, session_metric_ids()[0], n) || k == 0);
    assert(first_with(snaps, session_metric_ids()[1], n + 1) == first_with(snaps, session_metric_ids()[1], n) || k == 1);
    assert(first_with(snaps, session_metric_ids()[2], n + 1) == first_with(snaps, session_metric_ids()[2], n) || k == 2);
    assert(first_with(snaps, session_metric_ids()[3], n + 1) == first_with(snaps, session_metric_ids()[3], n) || k == 3);
    assert(first_with(snaps, session_metric_ids()[4], n + 1) == first_with(snaps, session_metric_ids()[4], n) || k == 4);
    assert(first_with(snaps, session_metric_ids()[5], n + 1) == first_with(snaps, session_metric_ids()[5], n) || k == 5);
    assert(v.metric_id == session_metric_ids()[k]);
}

impl SessionMetrics {
    /// Restores a session's metrics from stored snapshots. Each stored
    /// snapshot is checked in order: a repeated ID is a duplicate, an ID that
    /// names no metric is unknown, and one that does not convert or restore is
    /// invalid; each raises an issue and changes nothing.
    #[verifier::rlimit(60)]
    pub fn restore(snapshots: &Vec<StoredMetricSnapshot>) -> (r: (SessionMetrics, Vec<MetricRecoveryIssue>))
        ensures
            r.0.wf(),
            recovered_from(r.0, snapshots@.map_values(|s: StoredMetricSnapshot| stored_view(s)), snapshots.len() as int),
            r.1@.map_values(|i: MetricRecoveryIssue| issue_view(i)) == expected_issues(
                snapshots@.map_values(|s: StoredMetricSnapshot| stored_view(s)),
                snapshots.len() as int,
            ),
            forall|q: int| 0 <= q < r.1.len() ==> issue_details_ok(#[trigger] r.1@[q],
                snapshots@.map_values(|s: StoredMetricSnapshot| stored_view(s)), snapshots.len() as int),
    {
        let ghost sv = snapshots@.map_values(|s: StoredMetricSnapshot| stored_view(s));
        let mut metrics = SessionMetrics::new();
        let mut issues: Vec<MetricRecoveryIssue> = Vec::new();
        let mut seen: Vec<String> = Vec::new();
        let mut i: usize = 0;
        proof {
            lemma_ids_distinct();
            assert(issues@.map_values(|i: MetricRecoveryIssue| issue_view(i)) =~= expected_issues(sv, 0));
        }
        while i < snapshots.len()
            invariant
                i <= snapshots.len(),
                sv == snapshots@.map_values(|s: StoredMetricSnapshot| stored_view(s)),
                metrics.wf(),
                recovered_from(metrics, sv, i as int),
                issues@.map_values(|i: MetricRecoveryIssue| issue_view(i)) == expected_issues(sv, i as int),
                forall|q: int| 0 <= q < issues.len() ==> issue_details_ok(#[trigger] issues@[q], sv, i as int),
                seen.len() == i,
                forall|q: int| 0 <= q < i ==> (#[trigger] seen@[q])@ == sv[q].0,
                forall|a: int, b: int| 0 <= a < 6 && 0 <= b < 6 && a != b ==> session_metric_ids()[a] != session_metric_ids()[b],
            decreases snapshots.len() - i,
        {
            let stored = &snapshots[i];
            let id = stored.metric_id.as_str();
            let ghost before = issues@.map_values(|i: MetricRecoveryIssue| issue_view(i));
            assert(sv[i as int] == stored_view(*stored));
            // Has this ID been seen before?
            let mut q: usize = 0;
            let mut duplicate = false;
            while q < seen.len()
                invariant
                    q <= seen.len(),
                    seen.len() == i,
                    i < snapshots.len(),
                    sv == snapshots@.map_values(|s: StoredMetricSnapshot| stored_view(s)),
                    forall|x: int| 0 <= x < i ==> (#[trigger] seen@[x])@ == sv[x].0,
                    id@ == sv[i as int].0,
                    duplicate <==> exists|x: int| 0 <= x < q && (#[trigger] seen@[x])@ == id@,
                decreases seen.len() - q,
            {
                if same_text(seen[q].as_str(), id) {
                    duplicate = true;
                }
                q += 1;
            }
            proof {
                if duplicate {
                    let x = choose|x: int| 0 <= x < q && (#[trigger] seen@[x])@ == id@;
                    assert(sv[x].0 == sv[i as int].0);
                    assert(seen_before(sv, i as int));
                } else {
                    assert(!seen_before(sv, i as int)) by {
                        if seen_before(sv, i as int) {
                            let x = choose|x: int| 0 <= x < i && (#[trigger] sv[x]).0 == sv[i as int].0;
                            assert(seen@[x]@ == id@);
                        }
                    }
                }
                assert(expected_issues(sv, i as int + 1) == before + match issue_at(sv, i as int) {
                    Some(x) => seq![x],
                    None => Seq::empty(),
                });
            }
            seen.push(stored.metric_id.clone());
            if duplicate {
                proof {
                    let x = choose|x: int| 0 <= x < i && (#[trigger] sv[x]).0 == sv[i as int].0;
                    assert forall|k: int| 0 <= k < 6 implies #[trigger] first_with(sv, session_metric_ids()[k], i as int + 1) == first_with(sv, session_metric_ids()[k], i as int) by {
                        if sv[i as int].0 == session_metric_ids()[k] {
                            lemma_first_with_some(sv, session_metric_ids()[k], i as int, x);
                        }
                    }
                    lemma_after_stable(sv, i as int);
                }
                issues.push(MetricRecoveryIssue::Duplicate { metric_id: stored.metric_id.clone() });
                assert(issues@.map_values(|i: MetricRecoveryIssue| issue_view(i)) =~= before.push((IssueKind::Duplicate, sv[i as int].0)));
            } else if !SessionMetrics::contains_id(id) {
                proof {
                    assert forall|k: int| 0 <= k < 6 implies #[trigger] first_with(sv, session_metric_ids()[k], i as int + 1) == first_with(sv, session_metric_ids()[k], i as int) by {
                        assert(sv[i as int].0 != session_metric_ids()[k]);
                    }
                    lemma_after_stable(sv, i as int);
                }
                issues.push(MetricRecoveryIssue::Unknown { metric_id: stored.metric_id.clone() });
                assert(issues@.map_values(|i: MetricRecoveryIssue| issue_view(i)) =~= before.push((IssueKind::Unknown, sv[i as int].0)));
            } else {
                let ghost k = choose|k: int| 0 <= k < 6 && session_metric_ids()[k] == id@;
                proof {
                    let ids = session_metric_ids();
                    let kk = choose|kk: int| 0 <= kk < ids.len() && ids[kk] == id@;
                    assert(0 <= k < 6 && ids[k] == id@);
                    assert forall|x: int| 0 <= x < i implies (#[trigger] sv[x]).0 != ids[k] by {
                        if sv[x].0 == ids[k] {
                            assert(seen_before(sv, i as int));
                        }
                    }
                    lemma_first_with_none(sv, ids[k], i as int);
                    assert(first_with(sv, ids[k], i as int + 1) == Some(i as int));
                    assert forall|j: int| 0 <= j < 6 && j != k implies #[trigger] first_with(sv, ids[j], i as int + 1) == first_with(sv, ids[j], i as int) by {
                        assert(sv[i as int].0 != ids[j]);
                    }
                }
                let converted = stored.to_metric_snapshot();
                let ghost first = stored_snapshot(sv[i as int].0, sv[i as int].1, sv[i as int].2);
                let ghost old_m = metrics;
                let failure: Option<String> = match converted {
                    Ok(snapshot) => {
                        assert(first == Some(snapshot@));
                        let res = metrics.restore_snapshot(&snapshot);
                        proof {
                            lemma_restore_step(old_m, metrics, sv, i as int, k, snapshot@, res is Ok);
                        }
                        match res {
                            Ok(()) => None,
                            Err(e) => {
                                let d = e.describe();
                                assert(restore_error_ok(e, snapshot@) && d@ == error_message(e));
                                Some(d)
                            },
                        }
                    },
                    Err(e) => {
                        proof {
                            assert(first is None);
                            lemma_unconverted_step(metrics, sv, i as int, k);
                        }
                        Some(e.describe())
                    },
                };
                assert(failure matches Some(d) ==> invalid_details_ok(sv[i as int], d@));
                if let Some(details) = failure {
                    issues.push(MetricRecoveryIssue::Invalid { metric_id: stored.metric_id.clone(), details });
                    assert(issues@.map_values(|i: MetricRecoveryIssue| issue_view(i)) =~= before.push((IssueKind::Invalid, sv[i as int].0)));
                } else {
                    assert(issues@.map_values(|i: MetricRecoveryIssue| issue_view(i)) =~= before);
                }
            }
            proof {
                assert forall|x: int| 0 <= x < i + 1 implies (#[trigger] seen@[x])@ == sv[x].0 by {}
                assert forall|q: int| 0 <= q < issues.len() implies issue_details_ok(#[trigger] issues@[q], sv, i as int + 1) by {
                    if let MetricRecoveryIssue::Invalid { metric_id, details } = issues@[q] {
                        if first_with(sv, metric_id@, i as int) is Some {
                            assert(first_with(sv, metric_id@, i as int + 1) == first_with(sv, metric_id@, i as int));
                        }
                    }
                }
            }
            i += 1;
        }
        (metrics, issues)
    }
}

} // verus!
