//! Metric snapshots, their limits, and duration aggregates shared by the metrics.
use vstd::prelude::*;

use crate::payload::{
    encode_payload, parse_payload, read_payload, tops_view, values_fit, write_payload,
    PayloadLayout, TopValue, TopView,
};
use crate::text::{append_decimal, append_str, same_text};

pub mod bigram_speed;
pub mod correction_signals;
pub mod durations;
pub mod dwell_time;
pub mod flight_time;
pub mod key_usage;
pub mod session_metrics;
pub mod total_presses;


verus! {

/// The largest payload a snapshot may hold, in bytes.
pub const MAX_SNAPSHOT_BYTES: usize = 16777216;

/// The most entries a snapshot may list.
pub const MAX_DIMENSION_ENTRIES: usize = 100000;

/// The longest dimension text a snapshot may hold, in bytes.
pub const MAX_DIMENSION_BYTES: usize = 256;

/// The largest count a snapshot may hold (`i64::MAX`).
pub const MAX_AGGREGATE_COUNT: u64 = 9223372036854775807;

/// The largest duration total a snapshot may hold, in nanoseconds (`i64::MAX`).
pub const MAX_DURATION_NANOSECONDS: u64 = 9223372036854775807;

/// The largest duration total an aggregate can hold, in nanoseconds (`Duration::MAX`).
pub const MAX_TOTAL_DURATION_NANOSECONDS: u128 = 18446744073709551615999999999;

/// Why a snapshot payload was refused.
#[derive(Clone, Copy, Debug, PartialEq, Eq, Structural)]
pub enum PayloadProblem {
    TooManyEntries,
    DimensionTooLong,
    CountTooLarge,
    ZeroCount,
    DurationTooLarge,
    DuplicateKeyCode,
    DuplicateDuration,
    DuplicateBigram,
    DuplicateDeletion,
    DuplicateCorrection,
}

impl PayloadProblem {
    /// A short description of the problem.
    pub fn message(&self) -> (r: &'static str)
        ensures
            r@ == problem_message(*self),
    {
        match self {
            PayloadProblem::TooManyEntries => "too many dimension entries",
            PayloadProblem::DimensionTooLong => "dimension string is too long",
            PayloadProblem::CountTooLarge => "aggregate count is too large",
            PayloadProblem::ZeroCount => "aggregate count must be greater than zero",
            PayloadProblem::DurationTooLarge => "duration total is too large",
            PayloadProblem::DuplicateKeyCode => "duplicate physical key code",
            PayloadProblem::DuplicateDuration => "duplicate duration dimension",
            PayloadProblem::DuplicateBigram => "duplicate bigram dimension",
            PayloadProblem::DuplicateDeletion => "duplicate deletion dimension",
            PayloadProblem::DuplicateCorrection => "duplicate correction dimension",
        }
    }
}

/// Why a snapshot could not be made, read or applied.
#[derive(Debug)]
#[allow(inconsistent_fields)]
pub enum MetricSnapshotError {
    EmptyMetricId,
    InvalidSchemaVersion,
    PayloadTooLarge { metric_id: String, size: usize, maximum: usize },
    MetricMismatch { expected: String, actual: String },
    UnsupportedSchemaVersion { metric_id: String, supported: u32, actual: u32 },
    Decode { metric_id: String, schema_version: u32 },
    InvalidPayload { metric_id: String, reason: PayloadProblem },
}

/// The refusal of a payload for `reason`, as seen by a contract.
pub open spec fn is_invalid_payload(
    e: MetricSnapshotError,
    metric_id: Seq<char>,
    reason: PayloadProblem,
) -> bool {
    e matches MetricSnapshotError::InvalidPayload { metric_id: m, reason: r } && m@ == metric_id
        && r == reason
}

impl MetricSnapshotError {
    pub fn invalid_payload(metric_id: &str, reason: PayloadProblem) -> (r: Self)
        ensures
            is_invalid_payload(r, metric_id@, reason),
    {
        MetricSnapshotError::InvalidPayload { metric_id: metric_id.to_owned(), reason }
    }
}

/// The UTF-8 length of a text in bytes, as `str::len` reports it.
pub open spec fn byte_len(t: Seq<char>) -> usize {
    vstd::utf8::encode_utf8(t).len() as usize
}

pub fn validate_entry_count(metric_id: &str, entries: usize) -> (r: Result<(), MetricSnapshotError>)
    ensures
        r is Ok <==> entries <= MAX_DIMENSION_ENTRIES,
        r matches Err(e) ==> is_invalid_payload(e, metric_id@, PayloadProblem::TooManyEntries),
{
    if entries > MAX_DIMENSION_ENTRIES {
        return Err(MetricSnapshotError::invalid_payload(metric_id, PayloadProblem::TooManyEntries));
    }
    Ok(())
}

pub fn validate_dimension(metric_id: &str, value: &str) -> (r: Result<(), MetricSnapshotError>)
    ensures
        r is Ok <==> byte_len(value@) <= MAX_DIMENSION_BYTES,
        r matches Err(e) ==> is_invalid_payload(e, metric_id@, PayloadProblem::DimensionTooLong),
{
    if value.len() > MAX_DIMENSION_BYTES {
        return Err(
            MetricSnapshotError::invalid_payload(metric_id, PayloadProblem::DimensionTooLong),
        );
    }
    Ok(())
}

pub fn validate_scalar_count(metric_id: &str, count: u64) -> (r: Result<(), MetricSnapshotError>)
    ensures
        r is Ok <==> count <= MAX_AGGREGATE_COUNT,
        r matches Err(e) ==> is_invalid_payload(e, metric_id@, PayloadProblem::CountTooLarge),
{
    if count > MAX_AGGREGATE_COUNT {
        return Err(MetricSnapshotError::invalid_payload(metric_id, PayloadProblem::CountTooLarge));
    }
    Ok(())
}

pub fn validate_count(metric_id: &str, count: u64) -> (r: Result<(), MetricSnapshotError>)
    ensures
        r is Ok <==> 0 < count <= MAX_AGGREGATE_COUNT,
        r matches Err(e) ==> is_invalid_payload(
            e,
            metric_id@,
            if count > MAX_AGGREGATE_COUNT {
                PayloadProblem::CountTooLarge
            } else {
                PayloadProblem::ZeroCount
            },
        ),
{
    validate_scalar_count(metric_id, count)?;
    if count == 0 {
        return Err(MetricSnapshotError::invalid_payload(metric_id, PayloadProblem::ZeroCount));
    }
    Ok(())
}

/// A count that a snapshot may hold for a dimension.
pub open spec fn count_ok(count: u64) -> bool {
    0 < count <= MAX_AGGREGATE_COUNT
}

/// The total time and number of samples of one timed dimension.
#[derive(Clone, Copy, Debug, PartialEq, Eq, Structural)]
pub struct DurationStats {
    pub total_ns: u128,
    pub samples: u64,
}

/// The three-way comparison of the averages `a.total/a.samples` and `b.total/b.samples`.
pub open spec fn average_order(a: DurationStats, b: DurationStats) -> int {
    let left = a.total_ns * b.samples;
    let right = b.total_ns * a.samples;
    if left < right {
        -1
    } else if left == right {
        0
    } else {
        1
    }
}

/// Both cross products of an average comparison fit in `u128`.
pub open spec fn averages_comparable(a: DurationStats, b: DurationStats) -> bool {
    a.total_ns * b.samples <= u128::MAX && b.total_ns * a.samples <= u128::MAX
}

/// Stats that a snapshot may hold.
pub open spec fn stats_ok(s: DurationStats) -> bool {
    count_ok(s.samples) && s.total_ns <= MAX_DURATION_NANOSECONDS
}

impl DurationStats {
    pub fn new(total_ns: u128, samples: u64) -> (r: Self)
        ensures
            r.total_ns == total_ns,
            r.samples == samples,
    {
        DurationStats { total_ns, samples }
    }

    /// No samples yet.
    pub fn empty() -> (r: Self)
        ensures
            r.total_ns == 0,
            r.samples == 0,
    {
        DurationStats { total_ns: 0, samples: 0 }
    }

    /// Adds one sample of `duration_ns` nanoseconds.
    pub fn record(&mut self, duration_ns: u64)
        requires
            old(self).total_ns + duration_ns <= MAX_TOTAL_DURATION_NANOSECONDS,
            old(self).samples < u64::MAX,
        ensures
            final(self).total_ns == old(self).total_ns + duration_ns,
            final(self).samples == old(self).samples + 1,
    {
        self.total_ns = self.total_ns + duration_ns as u128;
        self.samples = self.samples + 1;
    }

    /// Compares the averages exactly, without division: negative, zero or positive.
    pub fn compare_average(self, other: Self) -> (r: i8)
        requires
            averages_comparable(self, other),
        ensures
            r as int == average_order(self, other),
    {
        let left = self.total_ns * other.samples as u128;
        let right = other.total_ns * self.samples as u128;
        if left < right {
            -1
        } else if left == right {
            0
        } else {
            1
        }
    }

    /// The total and the sample count as a snapshot holds them.
    pub fn snapshot_parts(self, metric_id: &str) -> (r: Result<(u64, u64), MetricSnapshotError>)
        ensures
            r is Ok <==> stats_ok(self),
            r matches Ok((t, n)) ==> t == self.total_ns && n == self.samples,
            r matches Err(e) ==> is_invalid_payload(
                e,
                metric_id@,
                if self.samples > MAX_AGGREGATE_COUNT {
                    PayloadProblem::CountTooLarge
                } else if self.samples == 0 {
                    PayloadProblem::ZeroCount
                } else {
                    PayloadProblem::DurationTooLarge
                },
            ),
    {
        validate_count(metric_id, self.samples)?;
        if self.total_ns > MAX_DURATION_NANOSECONDS as u128 {
            return Err(
                MetricSnapshotError::invalid_payload(metric_id, PayloadProblem::DurationTooLarge),
            );
        }
        Ok((self.total_ns as u64, self.samples))
    }

    /// Stats read back from a snapshot's total and sample count.
    pub fn from_snapshot_parts(metric_id: &str, total_ns: u64, samples: u64) -> (r: Result<
        Self,
        MetricSnapshotError,
    >)
        ensures
            r is Ok <==> count_ok(samples) && total_ns <= MAX_DURATION_NANOSECONDS,
            r matches Ok(s) ==> s.total_ns == total_ns && s.samples == samples,
            r matches Err(e) ==> is_invalid_payload(
                e,
                metric_id@,
                if samples > MAX_AGGREGATE_COUNT {
                    PayloadProblem::CountTooLarge
                } else if samples == 0 {
                    PayloadProblem::ZeroCount
                } else {
                    PayloadProblem::DurationTooLarge
                },
            ),
    {
        validate_count(metric_id, samples)?;
        if total_ns > MAX_DURATION_NANOSECONDS {
            return Err(
                MetricSnapshotError::invalid_payload(metric_id, PayloadProblem::DurationTooLarge),
            );
        }
        Ok(DurationStats { total_ns: total_ns as u128, samples })
    }
}

/// The saved state of one metric: its ID, payload schema version and payload text.
#[derive(Debug)]
pub struct MetricSnapshot {
    metric_id: String,
    schema_version: u32,
    payload_json: String,
}

/// The mathematical value of a [`MetricSnapshot`].
pub struct SnapshotView {
    pub metric_id: Seq<char>,
    pub schema_version: u32,
    pub payload: Seq<char>,
}

impl View for MetricSnapshot {
    type V = SnapshotView;

    closed spec fn view(&self) -> SnapshotView {
        SnapshotView {
            metric_id: self.metric_id@,
            schema_version: self.schema_version,
            payload: self.payload_json@,
        }
    }
}

impl Clone for MetricSnapshot {
    fn clone(&self) -> (r: Self)
        ensures
            r@ == self@,
    {
        MetricSnapshot {
            metric_id: self.metric_id.clone(),
            schema_version: self.schema_version,
            payload_json: self.payload_json.clone(),
        }
    }
}

/// The snapshot view for the given parts.
pub open spec fn snapshot_view(metric_id: Seq<char>, schema_version: u32, payload: Seq<char>) -> SnapshotView {
    SnapshotView { metric_id, schema_version, payload }
}

impl MetricSnapshot {
    pub fn from_json(metric_id: &str, schema_version: u32, payload_json: String) -> (r: Result<
        Self,
        MetricSnapshotError,
    >)
        ensures
            r is Ok <==> metric_id@.len() > 0 && schema_version > 0 && byte_len(payload_json@)
                <= MAX_SNAPSHOT_BYTES,
            r matches Ok(s) ==> s@ == snapshot_view(metric_id@, schema_version, payload_json@),
            r matches Err(e) ==> (if metric_id@.len() == 0 {
                e is EmptyMetricId
            } else if schema_version == 0 {
                e is InvalidSchemaVersion
            } else {
                e matches MetricSnapshotError::PayloadTooLarge { metric_id: m, size, maximum }
                    && m@ == metric_id@ && size == byte_len(payload_json@) && maximum
                    == MAX_SNAPSHOT_BYTES
            }),
    {
        if metric_id.is_empty() {
            return Err(MetricSnapshotError::EmptyMetricId);
        }
        if schema_version == 0 {
            return Err(MetricSnapshotError::InvalidSchemaVersion);
        }
        let size = payload_json.as_str().len();
        if size > MAX_SNAPSHOT_BYTES {
            return Err(
                MetricSnapshotError::PayloadTooLarge {
                    metric_id: metric_id.to_owned(),
                    size,
                    maximum: MAX_SNAPSHOT_BYTES,
                },
            );
        }
        Ok(MetricSnapshot { metric_id: metric_id.to_owned(), schema_version, payload_json })
    }

    /// A snapshot whose payload is `values` written in `layout`.
    pub fn encode(metric_id: &str, schema_version: u32, layout: PayloadLayout, values: &Vec<TopValue>) -> (r: Result<
        Self,
        MetricSnapshotError,
    >)
        requires
            values_fit(layout, tops_view(values@)),
        ensures
            r is Ok <==> metric_id@.len() > 0 && schema_version > 0 && byte_len(
                encode_payload(layout, tops_view(values@)),
            ) <= MAX_SNAPSHOT_BYTES,
            r matches Ok(s) ==> s@ == snapshot_view(
                metric_id@,
                schema_version,
                encode_payload(layout, tops_view(values@)),
            ),
    {
        let payload = write_payload(layout, values);
        Self::from_json(metric_id, schema_version, payload)
    }

    /// The payload values, when the snapshot belongs to `expected_metric_id`,
    /// has the supported version, and its payload is a valid payload of `layout`.
    pub fn decode(&self, expected_metric_id: &str, supported_schema_version: u32, layout: PayloadLayout) -> (r: Result<
        Vec<TopValue>,
        MetricSnapshotError,
    >)
        ensures
            r is Ok <==> self@.metric_id == expected_metric_id@ && self@.schema_version
                == supported_schema_version && parse_payload(self@.payload, layout) is Some,
            r matches Ok(v) ==> parse_payload(self@.payload, layout) == Some(tops_view(v@)),
            r matches Err(e) ==> (if self@.metric_id != expected_metric_id@ {
                e matches MetricSnapshotError::MetricMismatch { expected, actual } && expected@
                    == expected_metric_id@ && actual@ == self@.metric_id
            } else if self@.schema_version != supported_schema_version {
                e matches MetricSnapshotError::UnsupportedSchemaVersion {
                    metric_id,
                    supported,
                    actual,
                } && metric_id@ == self@.metric_id && supported == supported_schema_version
                    && actual == self@.schema_version
            } else {
                e matches MetricSnapshotError::Decode { metric_id, schema_version } && metric_id@
                    == self@.metric_id && schema_version == self@.schema_version
            }),
    {
        if !same_text(self.metric_id.as_str(), expected_metric_id) {
            return Err(
                MetricSnapshotError::MetricMismatch {
                    expected: expected_metric_id.to_owned(),
                    actual: self.metric_id.clone(),
                },
            );
        }
        if self.schema_version != supported_schema_version {
            return Err(
                MetricSnapshotError::UnsupportedSchemaVersion {
                    metric_id: self.metric_id.clone(),
                    supported: supported_schema_version,
                    actual: self.schema_version,
                },
            );
        }
        match read_payload(self.payload_json.as_str(), layout) {
            Some(v) => Ok(v),
            None => Err(
                MetricSnapshotError::Decode {
                    metric_id: self.metric_id.clone(),
                    schema_version: self.schema_version,
                },
            ),
        }
    }

    pub fn metric_id(&self) -> (r: &str)
        ensures
            r@ == self@.metric_id,
    {
        self.metric_id.as_str()
    }

    pub fn schema_version(&self) -> (r: u32)
        ensures
            r == self@.schema_version,
    {
        self.schema_version
    }

    pub fn payload_json(&self) -> (r: &str)
        ensures
            r@ == self@.payload,
    {
        self.payload_json.as_str()
    }

    /// Whether two snapshots hold the same ID, version and payload.
    pub fn same_as(&self, other: &MetricSnapshot) -> (r: bool)
        ensures
            r == (self@ == other@),
    {
        same_text(self.metric_id.as_str(), other.metric_id.as_str())
            && self.schema_version == other.schema_version
            && same_text(self.payload_json.as_str(), other.payload_json.as_str())
    }
}

/// The error a refused decode reports: the wrong metric, the wrong version,
/// or a payload that is not one of the layout.
pub open spec fn is_decode_error(e: MetricSnapshotError, s: SnapshotView, metric_id: Seq<char>, schema_version: u32) -> bool {
    if s.metric_id != metric_id {
        e matches MetricSnapshotError::MetricMismatch { expected, actual } && expected@
            == metric_id && actual@ == s.metric_id
    } else if s.schema_version != schema_version {
        e matches MetricSnapshotError::UnsupportedSchemaVersion { metric_id: m, supported, actual }
            && m@ == s.metric_id && supported == schema_version && actual == s.schema_version
    } else {
        e matches MetricSnapshotError::Decode { metric_id: m, schema_version: v } && m@
            == s.metric_id && v == s.schema_version
    }
}

/// The payload values of a snapshot that belongs to `metric_id` at `schema_version`.
pub open spec fn decoded(s: SnapshotView, metric_id: Seq<char>, schema_version: u32, layout: PayloadLayout) -> Option<Seq<TopView>> {
    if s.metric_id == metric_id && s.schema_version == schema_version {
        parse_payload(s.payload, layout)
    } else {
        None
    }
}

/// The message of a payload problem.
pub open spec fn problem_message(p: PayloadProblem) -> Seq<char> {
    match p {
        PayloadProblem::TooManyEntries => "too many dimension entries"@,
        PayloadProblem::DimensionTooLong => "dimension string is too long"@,
        PayloadProblem::CountTooLarge => "aggregate count is too large"@,
        PayloadProblem::ZeroCount => "aggregate count must be greater than zero"@,
        PayloadProblem::DurationTooLarge => "duration total is too large"@,
        PayloadProblem::DuplicateKeyCode => "duplicate physical key code"@,
        PayloadProblem::DuplicateDuration => "duplicate duration dimension"@,
        PayloadProblem::DuplicateBigram => "duplicate bigram dimension"@,
        PayloadProblem::DuplicateDeletion => "duplicate deletion dimension"@,
        PayloadProblem::DuplicateCorrection => "duplicate correction dimension"@,
    }
}

/// The message of a snapshot error.
pub open spec fn error_message(e: MetricSnapshotError) -> Seq<char> {
    match e {
        MetricSnapshotError::EmptyMetricId => "metric snapshot ID cannot be empty"@,
        MetricSnapshotError::InvalidSchemaVersion => "metric snapshot schema version must be greater than zero"@,
        MetricSnapshotError::PayloadTooLarge { metric_id, size, maximum } => "metric snapshot for "@
            + metric_id@ + " is "@ + crate::text::decimal(size as nat) + " bytes; maximum is "@
            + crate::text::decimal(maximum as nat) + " bytes"@,
        MetricSnapshotError::MetricMismatch { expected, actual } => "snapshot belongs to metric "@
            + actual@ + ", not "@ + expected@,
        MetricSnapshotError::UnsupportedSchemaVersion { metric_id, supported, actual } => "metric "@
            + metric_id@ + " snapshot schema version "@ + crate::text::decimal(actual as nat)
            + " is unsupported; expected "@ + crate::text::decimal(supported as nat),
        MetricSnapshotError::Decode { metric_id, schema_version } => "failed to decode metric "@
            + metric_id@ + " snapshot schema version "@ + crate::text::decimal(schema_version as nat),
        MetricSnapshotError::InvalidPayload { metric_id, reason } => "metric "@ + metric_id@
            + " snapshot is invalid: "@ + problem_message(reason),
    }
}

impl MetricSnapshotError {
    /// The error's message.
    pub fn describe(&self) -> (r: String)
        ensures
            r@ == error_message(*self),
    {
        let mut s = String::new();
        match self {
            MetricSnapshotError::EmptyMetricId => {
                append_str(&mut s, "metric snapshot ID cannot be empty");
            },
            MetricSnapshotError::InvalidSchemaVersion => {
                append_str(&mut s, "metric snapshot schema version must be greater than zero");
            },
            MetricSnapshotError::PayloadTooLarge { metric_id, size, maximum } => {
                append_str(&mut s, "metric snapshot for ");
                append_str(&mut s, metric_id.as_str());
                append_str(&mut s, " is ");
                append_decimal(&mut s, *size as u128);
                append_str(&mut s, " bytes; maximum is ");
                append_decimal(&mut s, *maximum as u128);
                append_str(&mut s, " bytes");
            },
            MetricSnapshotError::MetricMismatch { expected, actual } => {
                append_str(&mut s, "snapshot belongs to metric ");
                append_str(&mut s, actual.as_str());
                append_str(&mut s, ", not ");
                append_str(&mut s, expected.as_str());
            },
            MetricSnapshotError::UnsupportedSchemaVersion { metric_id, supported, actual } => {
                append_str(&mut s, "metric ");
                append_str(&mut s, metric_id.as_str());
                append_str(&mut s, " snapshot schema version ");
                append_decimal(&mut s, *actual as u128);
                append_str(&mut s, " is unsupported; expected ");
                append_decimal(&mut s, *supported as u128);
            },
            MetricSnapshotError::Decode { metric_id, schema_version } => {
                append_str(&mut s, "failed to decode metric ");
                append_str(&mut s, metric_id.as_str());
                append_str(&mut s, " snapshot schema version ");
                append_decimal(&mut s, *schema_version as u128);
            },
            MetricSnapshotError::InvalidPayload { metric_id, reason } => {
                append_str(&mut s, "metric ");
                append_str(&mut s, metric_id.as_str());
                append_str(&mut s, " snapshot is invalid: ");
                append_str(&mut s, reason.message());
            },
        }
        s
    }
}

} // verus!
