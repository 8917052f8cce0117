//! The number of physical key presses.
use vstd::prelude::*;

use crate::input::{KeyEvent, KeyEventKind};
use crate::metric::{
    decoded, is_decode_error, is_invalid_payload, snapshot_view, validate_scalar_count,
    MetricSnapshot, MetricSnapshotError, PayloadProblem, MAX_AGGREGATE_COUNT,
    MAX_SNAPSHOT_BYTES, byte_len,
};
use crate::payload::{encode_payload, PayloadLayout, TopValue, TopView};

verus! {

pub const TOTAL_PRESSES_ID: &'static str = "total-presses";

pub const TOTAL_PRESSES_VERSION: u32 = 1;

/// Counts presses; repeats and releases are not presses.
pub struct TotalPresses {
    count: u64,
}

/// The payload a count is saved as.
pub open spec fn count_payload(count: u64) -> Seq<char> {
    encode_payload(PayloadLayout::Count, seq![TopView::Count(count)])
}

/// The count a snapshot restores, or `None` when it is refused.
pub open spec fn restored_count(s: crate::metric::SnapshotView) -> Option<u64> {
    match decoded(s, TOTAL_PRESSES_ID@, TOTAL_PRESSES_VERSION, PayloadLayout::Count) {
        Some(v) => match v[0] {
            TopView::Count(n) => if n <= MAX_AGGREGATE_COUNT {
                Some(n)
            } else {
                None
            },
            _ => None,
        },
        None => None,
    }
}

impl TotalPresses {
    pub closed spec fn count_view(&self) -> u64 {
        self.count
    }

    pub fn new() -> (r: Self)
        ensures
            r.count_view() == 0,
    {
        TotalPresses { count: 0 }
    }

    /// The number of presses counted.
    pub fn count(&self) -> (r: u64)
        ensures
            r == self.count_view(),
    {
        self.count
    }

    /// Whether `event` would not overflow the count.
    pub open spec fn accepts(&self, event: crate::input::KeyEventView) -> bool {
        event.kind == KeyEventKind::Press ==> self.count_view() < u64::MAX
    }

    pub fn process(&mut self, event: &KeyEvent)
        requires
            old(self).accepts(event@),
        ensures
            final(self).count_view() == old(self).count_view() + if event@.kind
                == KeyEventKind::Press {
                1int
            } else {
                0int
            },
    {
        if event.kind() == KeyEventKind::Press {
            self.count = self.count + 1;
        }
    }

    pub fn has_data(&self) -> (r: bool)
        ensures
            r == (self.count_view() > 0),
    {
        self.count > 0
    }

    /// Whether the aggregates can be saved: within the limits, and the payload small enough.
    pub open spec fn snapshot_ok(&self) -> bool {
        self.count_view() <= MAX_AGGREGATE_COUNT && byte_len(count_payload(self.count_view())) <= MAX_SNAPSHOT_BYTES
    }

    /// The snapshot the aggregates are saved as.
    pub open spec fn snapshot_value(&self) -> crate::metric::SnapshotView {
        snapshot_view(TOTAL_PRESSES_ID@, TOTAL_PRESSES_VERSION, count_payload(self.count_view()))
    }

    pub fn snapshot(&self) -> (r: Result<MetricSnapshot, MetricSnapshotError>)
        ensures
            r is Ok <==> self.snapshot_ok(),
            r matches Ok(s) ==> s@ == self.snapshot_value(),
            self.count_view() > MAX_AGGREGATE_COUNT ==> (r matches Err(e) && is_invalid_payload(
                e,
                TOTAL_PRESSES_ID@,
                PayloadProblem::CountTooLarge,
            )),
    {
        validate_scalar_count(TOTAL_PRESSES_ID, self.count)?;
        let values = vec![TopValue::Count(self.count)];
        proof {
            reveal_strlit("total-presses");
            assert(crate::payload::tops_view(values@) =~= seq![TopView::Count(self.count)]);
        }
        MetricSnapshot::encode(TOTAL_PRESSES_ID, TOTAL_PRESSES_VERSION, PayloadLayout::Count, &values)
    }

    /// Replaces the count with the one the snapshot holds; on an error nothing changes.
    pub fn restore(&mut self, snapshot: &MetricSnapshot) -> (r: Result<(), MetricSnapshotError>)
        ensures
            match restored_count(snapshot@) {
                Some(n) => r is Ok && final(self).count_view() == n,
                None => r is Err && final(self).count_view() == old(self).count_view(),
            },
            r matches Err(e) ==> (match decoded(
                snapshot@,
                TOTAL_PRESSES_ID@,
                TOTAL_PRESSES_VERSION,
                PayloadLayout::Count,
            ) {
                None => is_decode_error(e, snapshot@, TOTAL_PRESSES_ID@, TOTAL_PRESSES_VERSION),
                Some(_) => is_invalid_payload(e, TOTAL_PRESSES_ID@, PayloadProblem::CountTooLarge),
            }),
    {
        let values = snapshot.decode(TOTAL_PRESSES_ID, TOTAL_PRESSES_VERSION, PayloadLayout::Count)?;
        proof {
            crate::payload::lemma_payload_shape(snapshot@.payload, PayloadLayout::Count);
            assert(crate::payload::value_fits(
                crate::payload::TopKind::Count,
                crate::payload::tops_view(values@)[0],
            ));
        }
        let count = match &values[0] {
            TopValue::Count(n) => *n,
            TopValue::Rows(_) => {
                assert(false);
                0
            },
        };
        validate_scalar_count(TOTAL_PRESSES_ID, count)?;
        self.count = count;
        Ok(())
    }

    pub fn reset(&mut self)
        ensures
            final(self).count_view() == 0,
    {
        self.count = 0;
    }

    /// There is no in-flight context to drop.
    pub fn clear_in_flight(&mut self)
        ensures
            final(self).count_view() == old(self).count_view(),
    {
    }

    /// Restoring the snapshot of a count gives back that count.
    pub proof fn lemma_round_trip(&self)
        requires
            self.snapshot_ok(),
        ensures
            restored_count(self.snapshot_value()) == Some(self.count_view()),
    {
        let values = seq![TopView::Count(self.count_view())];
        assert(crate::payload::values_fit(PayloadLayout::Count, values)) by {
            assert(crate::payload::value_fits(crate::payload::top_fields(PayloadLayout::Count)[0].1, values[0]));
        }
        crate::roundtrip::lemma_payload_round_trip(PayloadLayout::Count, values);
    }
}

} // verus!
