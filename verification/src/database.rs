//! The rules a session must meet to be stored, and the orders sessions are listed in.
use vstd::prelude::*;

use crate::metric::byte_len;
use crate::session::{KeyboardContext, SessionId, SessionMetadata, SessionSnapshot};
use crate::text::{append_str, chars_of, same_text};

verus! {

pub const APPLICATION_ID: i64 = 0x45565450;

pub const DATABASE_SCHEMA_VERSION: i64 = 2;

pub const MAX_SESSION_METRICS: usize = 1000;

pub const MAX_APPLICATION_VERSION_BYTES: usize = 128;

pub const MAX_SESSION_NAME_BYTES: usize = 80;

pub const MAX_KEYBOARD_NAME_BYTES: usize = 1024;

pub const MAX_KEYBOARD_VALUE_BYTES: usize = 256;

pub const MAX_SESSION_LIST_SIZE: u32 = 10000;

/// The Unicode `White_Space` property, the code points that `char::is_whitespace` accepts.
pub open spec fn unicode_white_space(c: char) -> bool {
    let v = c as int;
    ||| 0x9 <= v <= 0xd
    ||| v == 0x20 || v == 0x85 || v == 0xa0 || v == 0x1680
    ||| 0x2000 <= v <= 0x200a
    ||| v == 0x2028 || v == 0x2029 || v == 0x202f || v == 0x205f || v == 0x3000
}

/// Whether `c` has the Unicode `White_Space` property, as `char::is_whitespace` tells.
pub(crate) fn char_is_whitespace(c: char) -> (r: bool)
    ensures
        r == unicode_white_space(c),
{
    let v = c as u32;
    (0x9 <= v && v <= 0xd) || v == 0x20 || v == 0x85 || v == 0xa0 || v == 0x1680 || (0x2000 <= v
        && v <= 0x200a) || v == 0x2028 || v == 0x2029 || v == 0x202f || v == 0x205f || v == 0x3000
}

/// Whether serde_json reads `text` as one JSON value.
pub uninterp spec fn json_accepts(text: Seq<char>) -> bool;

/// `serde_json::from_str::<serde::de::IgnoredAny>`: whether `text` is one
/// well-formed JSON value.
#[verifier::external_body]
fn is_json(text: &str) -> (r: bool)
    ensures
        r == json_accepts(text@),
{
    serde_json::from_str::<serde::de::IgnoredAny>(text).is_ok()
}

/// Why a session cannot be stored or read back.
#[derive(Clone, Debug, PartialEq, Eq)]
pub enum ValidationError {
    InvalidSessionName,
    InvalidTimestamp,
    InvalidDuration,
    InvalidApplicationVersion,
    InvalidKeyboardContext,
    TooManyMetrics,
    DuplicateMetric(String),
    InvalidMetricJson { metric_id: String },
    InvalidStoredSession,
}

impl ValidationError {
    /// The error's message.
    pub fn describe(&self) -> (r: String)
        ensures
            r@ == match *self {
                ValidationError::InvalidSessionName => "session name is invalid"@,
                ValidationError::InvalidTimestamp => "session timestamp is invalid"@,
                ValidationError::InvalidDuration => "captured duration is invalid"@,
                ValidationError::InvalidApplicationVersion => "application version is invalid"@,
                ValidationError::InvalidKeyboardContext => "keyboard context is invalid"@,
                ValidationError::TooManyMetrics => "session has too many metrics"@,
                ValidationError::DuplicateMetric(m) => "session contains duplicate metric "@ + m@,
                ValidationError::InvalidMetricJson { metric_id } => "metric "@ + metric_id@
                    + " contains invalid JSON"@,
                ValidationError::InvalidStoredSession => "stored session metadata is invalid"@,
            },
    {
        let mut r = String::new();
        match self {
            ValidationError::InvalidSessionName => append_str(&mut r, "session name is invalid"),
            ValidationError::InvalidTimestamp => append_str(&mut r, "session timestamp is invalid"),
            ValidationError::InvalidDuration => append_str(&mut r, "captured duration is invalid"),
            ValidationError::InvalidApplicationVersion => append_str(
                &mut r,
                "application version is invalid",
            ),
            ValidationError::InvalidKeyboardContext => append_str(&mut r, "keyboard context is invalid"),
            ValidationError::TooManyMetrics => append_str(&mut r, "session has too many metrics"),
            ValidationError::DuplicateMetric(m) => {
                append_str(&mut r, "session contains duplicate metric ");
                append_str(&mut r, m.as_str());
            },
            ValidationError::InvalidMetricJson { metric_id } => {
                append_str(&mut r, "metric ");
                append_str(&mut r, metric_id.as_str());
                append_str(&mut r, " contains invalid JSON");
            },
            ValidationError::InvalidStoredSession => append_str(
                &mut r,
                "stored session metadata is invalid",
            ),
        }
        r
    }
}

/// A session name is stored only when it is non-empty, has no surrounding
/// whitespace and is at most 80 bytes.
pub open spec fn name_ok(name: Seq<char>) -> bool {
    &&& name.len() > 0
    &&& !unicode_white_space(name[0])
    &&& !unicode_white_space(name.last())
    &&& byte_len(name) <= MAX_SESSION_NAME_BYTES
}

pub fn validate_session_name(name: Option<&str>) -> (r: Result<(), ValidationError>)
    ensures
        r is Ok <==> (name matches Some(n) ==> name_ok(n@)),
        r matches Err(e) ==> e == ValidationError::InvalidSessionName,
{
    match name {
        None => Ok(()),
        Some(n) => {
            let chars = chars_of(n);
            if chars.len() == 0 || char_is_whitespace(chars[0]) || char_is_whitespace(
                chars[chars.len() - 1],
            ) || n.len() > MAX_SESSION_NAME_BYTES {
                Err(ValidationError::InvalidSessionName)
            } else {
                Ok(())
            }
        },
    }
}

pub fn validate_timestamp(value: i64) -> (r: Result<(), ValidationError>)
    ensures
        r is Ok <==> value >= 0,
        r matches Err(e) ==> e == ValidationError::InvalidTimestamp,
{
    if value < 0 {
        Err(ValidationError::InvalidTimestamp)
    } else {
        Ok(())
    }
}

/// The keyboard description fits the stored columns.
pub open spec fn keyboard_ok(k: KeyboardContext) -> bool {
    &&& k.display_name matches Some(n) ==> byte_len(n@) <= MAX_KEYBOARD_NAME_BYTES
    &&& byte_len(k.model@) <= MAX_KEYBOARD_VALUE_BYTES
    &&& byte_len(k.layout@) <= MAX_KEYBOARD_VALUE_BYTES
    &&& byte_len(k.variant@) <= MAX_KEYBOARD_VALUE_BYTES
}

/// The problem with the session's fields before its metrics, if any, in the
/// order they are checked.
pub open spec fn header_problem(
    created_at_ms: i64,
    updated_at_ms: i64,
    last_opened_at_ms: i64,
    captured_duration_ns: i64,
    application_version: Seq<char>,
    name: Option<Seq<char>>,
    keyboard: KeyboardContext,
    metric_count: nat,
) -> Option<ValidationError> {
    if created_at_ms < 0 || updated_at_ms < 0 || last_opened_at_ms < 0 {
        Some(ValidationError::InvalidTimestamp)
    } else if captured_duration_ns < 0 {
        Some(ValidationError::InvalidDuration)
    } else if application_version.len() == 0 || byte_len(application_version)
        > MAX_APPLICATION_VERSION_BYTES {
        Some(ValidationError::InvalidApplicationVersion)
    } else if name matches Some(n) && !name_ok(n) {
        Some(ValidationError::InvalidSessionName)
    } else if !keyboard_ok(keyboard) {
        Some(ValidationError::InvalidKeyboardContext)
    } else if metric_count > MAX_SESSION_METRICS {
        Some(ValidationError::TooManyMetrics)
    } else {
        None
    }
}

/// The problem with the snapshot's fields before its metrics, if any.
pub open spec fn snapshot_header_problem(snapshot: SessionSnapshot) -> Option<ValidationError> {
    header_problem(
        snapshot.created_at_ms,
        snapshot.updated_at_ms,
        snapshot.last_opened_at_ms,
        snapshot.captured_duration_ns,
        snapshot.application_version@,
        match snapshot.name {
            Some(n) => Some(n@),
            None => None,
        },
        snapshot.keyboard,
        snapshot.metrics.len() as nat,
    )
}

/// The metric at `i` repeats an earlier metric's ID.
pub open spec fn repeats_id(ids: Seq<Seq<char>>, i: int) -> bool {
    exists|j: int| 0 <= j < i && #[trigger] ids[j] == ids[i]
}

/// The metric at `i` is refused: a repeated ID, or a payload that is not JSON.
pub open spec fn metric_refused(ids: Seq<Seq<char>>, payloads: Seq<Seq<char>>, i: int) -> bool {
    repeats_id(ids, i) || !json_accepts(payloads[i])
}

/// Checks what a session must meet to be stored; the first problem found is reported.
pub fn validate_snapshot(snapshot: &SessionSnapshot) -> (r: Result<(), ValidationError>)
    ensures
        ({
            let ids = snapshot.metrics@.map_values(|m: crate::metric::MetricSnapshot| m@.metric_id);
            let payloads = snapshot.metrics@.map_values(|m: crate::metric::MetricSnapshot| m@.payload);
            match snapshot_header_problem(*snapshot) {
                Some(e) => r == Err::<(), ValidationError>(e),
                None => {
                    &&& r is Ok <==> (forall|i: int| 0 <= i < ids.len() ==> !#[trigger] metric_refused(ids, payloads, i))
                    &&& r matches Err(e) ==> exists|i: int| 0 <= i < ids.len() && #[trigger] metric_refused(ids, payloads, i)
                        && (forall|j: int| 0 <= j < i ==> !#[trigger] metric_refused(ids, payloads, j))
                        && (if repeats_id(ids, i) {
                            e matches ValidationError::DuplicateMetric(m) && m@ == ids[i]
                        } else {
                            e matches ValidationError::InvalidMetricJson { metric_id } && metric_id@ == ids[i]
                        })
                },
            }
        }),
{
    let ghost ids = snapshot.metrics@.map_values(|m: crate::metric::MetricSnapshot| m@.metric_id);
    let ghost payloads = snapshot.metrics@.map_values(|m: crate::metric::MetricSnapshot| m@.payload);
    validate_timestamp(snapshot.created_at_ms)?;
    validate_timestamp(snapshot.updated_at_ms)?;
    validate_timestamp(snapshot.last_opened_at_ms)?;
    if snapshot.captured_duration_ns < 0 {
        return Err(ValidationError::InvalidDuration);
    }
    if snapshot.application_version.as_str().is_empty()
        || snapshot.application_version.as_str().len() > MAX_APPLICATION_VERSION_BYTES {
        return Err(ValidationError::InvalidApplicationVersion);
    }
    let name = match &snapshot.name {
        Some(n) => Some(n.as_str()),
        None => None,
    };
    validate_session_name(name)?;
    let keyboard = &snapshot.keyboard;
    let long_name = match &keyboard.display_name {
        Some(n) => n.as_str().len() > MAX_KEYBOARD_NAME_BYTES,
        None => false,
    };
    if long_name || keyboard.model.as_str().len() > MAX_KEYBOARD_VALUE_BYTES
        || keyboard.layout.as_str().len() > MAX_KEYBOARD_VALUE_BYTES
        || keyboard.variant.as_str().len() > MAX_KEYBOARD_VALUE_BYTES {
        return Err(ValidationError::InvalidKeyboardContext);
    }
    if snapshot.metrics.len() > MAX_SESSION_METRICS {
        return Err(ValidationError::TooManyMetrics);
    }
    let mut i: usize = 0;
    while i < snapshot.metrics.len()
        invariant
            i <= snapshot.metrics.len(),
            snapshot_header_problem(*snapshot) is None,
            ids == snapshot.metrics@.map_values(|m: crate::metric::MetricSnapshot| m@.metric_id),
            payloads == snapshot.metrics@.map_values(|m: crate::metric::MetricSnapshot| m@.payload),
            forall|j: int| 0 <= j < i ==> !#[trigger] metric_refused(ids, payloads, j),
        decreases snapshot.metrics.len() - i,
    {
        let id = snapshot.metrics[i].metric_id();
        let mut j: usize = 0;
        while j < i
            invariant
                j <= i,
                i < snapshot.metrics.len(),
                snapshot_header_problem(*snapshot) is None,
                ids == snapshot.metrics@.map_values(|m: crate::metric::MetricSnapshot| m@.metric_id),
                payloads == snapshot.metrics@.map_values(|m: crate::metric::MetricSnapshot| m@.payload),
                forall|q: int| 0 <= q < i ==> !#[trigger] metric_refused(ids, payloads, q),
                id@ == ids[i as int],
                forall|q: int| 0 <= q < j ==> ids[q] != ids[i as int],
            decreases i - j,
        {
            if same_text(snapshot.metrics[j].metric_id(), id) {
                proof {
                    assert(ids[j as int] == ids[i as int]);
                    assert(repeats_id(ids, i as int));
                    assert(metric_refused(ids, payloads, i as int));
                }
                return Err(ValidationError::DuplicateMetric(id.to_owned()));
            }
            j += 1;
        }
        assert(!repeats_id(ids, i as int));
        if !is_json(snapshot.metrics[i].payload_json()) {
            assert(metric_refused(ids, payloads, i as int));
            return Err(ValidationError::InvalidMetricJson { metric_id: id.to_owned() });
        }
        i += 1;
    }
    Ok(())
}

/// What opening a database finds: an empty database to set up, a database
/// of this application at the supported schema, or one to refuse.
#[derive(Clone, Copy, Debug, PartialEq, Eq, Structural)]
pub enum SchemaCheck {
    Create,
    Compatible,
    Unidentified,
    WrongApplication { actual: i64 },
    Incompatible { actual: i64 },
}

/// The outcome for a database's `application_id`, `user_version` and number
/// of schema objects: only a database with none of them is set up, and an
/// existing one must carry this application's identity and schema version.
pub open spec fn schema_check(application_id: i64, schema_version: i64, object_count: i64) -> SchemaCheck {
    if application_id == 0 && schema_version == 0 && object_count == 0 {
        SchemaCheck::Create
    } else if application_id != APPLICATION_ID {
        if application_id == 0 {
            SchemaCheck::Unidentified
        } else {
            SchemaCheck::WrongApplication { actual: application_id }
        }
    } else if schema_version != DATABASE_SCHEMA_VERSION {
        SchemaCheck::Incompatible { actual: schema_version }
    } else {
        SchemaCheck::Compatible
    }
}

pub fn check_schema(application_id: i64, schema_version: i64, object_count: i64) -> (r: SchemaCheck)
    ensures
        r == schema_check(application_id, schema_version, object_count),
{
    if application_id == 0 && schema_version == 0 && object_count == 0 {
        SchemaCheck::Create
    } else if application_id != APPLICATION_ID {
        if application_id == 0 {
            SchemaCheck::Unidentified
        } else {
            SchemaCheck::WrongApplication { actual: application_id }
        }
    } else if schema_version != DATABASE_SCHEMA_VERSION {
        SchemaCheck::Incompatible { actual: schema_version }
    } else {
        SchemaCheck::Compatible
    }
}

/// The number of sessions a list asks for: at least one, at most the list limit.
pub fn list_limit(limit: u32) -> (r: u32)
    ensures
        r == if limit < 1 {
            1
        } else if limit > MAX_SESSION_LIST_SIZE {
            MAX_SESSION_LIST_SIZE
        } else {
            limit
        },
{
    if limit < 1 {
        1
    } else if limit > MAX_SESSION_LIST_SIZE {
        MAX_SESSION_LIST_SIZE
    } else {
        limit
    }
}

/// How saved sessions are listed.
#[derive(Clone, Copy, Debug, PartialEq, Eq, Structural)]
pub enum SessionListOrder {
    /// Most recently opened first.
    LastOpened,
    /// Most recently updated first.
    LastUpdated,
}

impl SessionListOrder {
    /// The SQL ordering clause; ties go to the newest session ID.
    pub fn sql(self) -> (r: &'static str)
        ensures
            r@ == match self {
                SessionListOrder::LastOpened => "last_opened_at_ms DESC, id DESC"@,
                SessionListOrder::LastUpdated => "updated_at_ms DESC, id DESC"@,
            },
    {
        match self {
            SessionListOrder::LastOpened => "last_opened_at_ms DESC, id DESC",
            SessionListOrder::LastUpdated => "updated_at_ms DESC, id DESC",
        }
    }
}

/// The query that reads session metadata rows, in the column order of
/// [`RawSessionMetadata`].
pub open spec fn metadata_query_text() -> Seq<char> {
    "SELECT\n        id, name, created_at_ms, updated_at_ms, last_opened_at_ms,\n        captured_duration_ns, application_version, keyboard_name,\n        xkb_model, xkb_layout, xkb_variant\n     FROM sessions"@
}

pub fn session_metadata_query() -> (r: &'static str)
    ensures
        r@ == metadata_query_text(),
{
    "SELECT\n        id, name, created_at_ms, updated_at_ms, last_opened_at_ms,\n        captured_duration_ns, application_version, keyboard_name,\n        xkb_model, xkb_layout, xkb_variant\n     FROM sessions"
}

/// A session row as read from the database, before it is checked.
#[derive(Clone, Debug, PartialEq, Eq)]
pub struct RawSessionMetadata {
    pub id: i64,
    pub name: Option<String>,
    pub created_at_ms: i64,
    pub updated_at_ms: i64,
    pub last_opened_at_ms: i64,
    pub captured_duration_ns: i64,
    pub application_version: String,
    pub keyboard_name: Option<String>,
    pub xkb_model: String,
    pub xkb_layout: String,
    pub xkb_variant: String,
}

/// The row is a session that could have been stored.
pub open spec fn raw_ok(raw: RawSessionMetadata) -> bool {
    raw.id > 0 && header_problem(
        raw.created_at_ms,
        raw.updated_at_ms,
        raw.last_opened_at_ms,
        raw.captured_duration_ns,
        raw.application_version@,
        match raw.name {
            Some(n) => Some(n@),
            None => None,
        },
        KeyboardContext {
            display_name: raw.keyboard_name,
            model: raw.xkb_model,
            layout: raw.xkb_layout,
            variant: raw.xkb_variant,
        },
        0,
    ) is None
}

/// The metadata a stored row holds, when it meets the storage rules.
pub fn metadata_from_raw(raw: RawSessionMetadata) -> (r: Result<SessionMetadata, ValidationError>)
    ensures
        r is Ok <==> raw_ok(raw),
        r matches Ok(m) ==> m.id@ == raw.id && m.name == raw.name && m.created_at_ms
            == raw.created_at_ms && m.updated_at_ms == raw.updated_at_ms && m.last_opened_at_ms
            == raw.last_opened_at_ms && m.captured_duration_ns == raw.captured_duration_ns
            && m.application_version == raw.application_version && m.keyboard == (KeyboardContext {
            display_name: raw.keyboard_name,
            model: raw.xkb_model,
            layout: raw.xkb_layout,
            variant: raw.xkb_variant,
        }),
        r matches Err(e) ==> e == ValidationError::InvalidStoredSession,
{
    let id = match SessionId::new(raw.id) {
        Some(id) => id,
        None => return Err(ValidationError::InvalidStoredSession),
    };
    let snapshot = SessionSnapshot {
        id: Some(id),
        name: raw.name,
        created_at_ms: raw.created_at_ms,
        updated_at_ms: raw.updated_at_ms,
        last_opened_at_ms: raw.last_opened_at_ms,
        captured_duration_ns: raw.captured_duration_ns,
        application_version: raw.application_version,
        keyboard: KeyboardContext {
            display_name: raw.keyboard_name,
            model: raw.xkb_model,
            layout: raw.xkb_layout,
            variant: raw.xkb_variant,
        },
        metrics: Vec::new(),
    };
    if validate_snapshot(&snapshot).is_err() {
        return Err(ValidationError::InvalidStoredSession);
    }
    Ok(SessionMetadata {
        id,
        name: snapshot.name,
        created_at_ms: snapshot.created_at_ms,
        updated_at_ms: snapshot.updated_at_ms,
        last_opened_at_ms: snapshot.last_opened_at_ms,
        captured_duration_ns: snapshot.captured_duration_ns,
        application_version: snapshot.application_version,
        keyboard: snapshot.keyboard,
    })
}

} // verus!
