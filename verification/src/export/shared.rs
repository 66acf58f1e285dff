//! What the sink, the worker and the handle of an exporter share.

use vstd::prelude::*;

use crate::context;
use crate::export::metrics::{ExporterMetrics, ExporterMetricsSnapshot, ExporterStatus};
use crate::export::metrics;

verus! {

/// What the sink, the worker and the handle of an exporter share.
pub struct Shared {
    /// Whether the sink accepts records.
    pub accepting: bool,
    /// The number of records that the sink accepted.
    pub accepted: u64,
    pub metrics: ExporterMetrics,
    /// The shortest time between two emergency diagnostics.
    pub diagnostic_interval_millis: u64,
    /// When the last emergency diagnostic was given.
    pub last_diagnostic_millis: u64,
    /// The last failure.
    pub last_error: Option<String>,
}

/// The text of an emergency diagnostic.
pub open spec fn emergency_text(message: Seq<char>) -> Seq<char> {
    "[eden_logger_export emergency] "@ + message
}

impl Shared {
    /// The state of a fresh exporter.
    pub fn new(diagnostic_interval_millis: u64) -> (shared: Shared)
        ensures
            shared.accepting,
            shared.accepted == 0,
            shared.metrics == metrics::initial_metrics(),
            shared.diagnostic_interval_millis == diagnostic_interval_millis,
            shared.last_diagnostic_millis == 0,
            shared.last_error is None,
    {
        Shared {
            accepting: true,
            accepted: 0,
            metrics: ExporterMetrics::default(),
            diagnostic_interval_millis,
            last_diagnostic_millis: 0,
            last_error: None,
        }
    }

    /// Whether a diagnostic is due at a time.
    pub open spec fn diagnostic_due(&self, now: u64) -> bool {
        let elapsed = if now >= self.last_diagnostic_millis {
            now - self.last_diagnostic_millis
        } else {
            0
        };
        elapsed >= self.diagnostic_interval_millis
    }

    /// Whether `after` and a diagnostic are what an emergency leaves: at most one diagnostic for
    /// each interval.
    pub open spec fn is_emergency(
        &self,
        after: &Self,
        now: u64,
        message: Seq<char>,
        diagnostic: Option<String>,
    ) -> bool {
        if self.diagnostic_due(now) {
            &&& *after == (Shared { last_diagnostic_millis: now, ..*self })
            &&& context::text_of(diagnostic) == Some(emergency_text(message))
        } else {
            &&& *after == *self
            &&& diagnostic is None
        }
    }

    /// Gives an emergency diagnostic, unless one was given less than an interval ago.
    pub fn emergency(&mut self, now: u64, message: &str) -> (diagnostic: Option<String>)
        ensures
            old(self).is_emergency(final(self), now, message@, diagnostic),
    {
        let elapsed: u64 = now.saturating_sub(self.last_diagnostic_millis);
        if elapsed < self.diagnostic_interval_millis {
            return None;
        }
        self.last_diagnostic_millis = now;
        let mut text = "[eden_logger_export emergency] ".to_owned();
        text.append(message);
        Some(text)
    }

    /// Sets the state of the exporter.
    pub fn set_status(&mut self, status: ExporterStatus)
        ensures
            *final(self) == (Shared {
                metrics: ExporterMetrics { status, ..old(self).metrics },
                ..*old(self)
            }),
    {
        self.metrics.status = status;
    }

    /// The counters and gauges as they are.
    pub fn snapshot(&self) -> (snapshot: ExporterMetricsSnapshot)
        ensures
            snapshot == self.metrics.snapshot_with(self.accepted),
    {
        self.metrics.snapshot(self.accepted)
    }
}

/// Keeps a failure.
pub fn set_last_error(shared: &mut Shared, message: String)
    ensures
        *final(shared) == (Shared { last_error: Some(message), ..*old(shared) }),
{
    shared.last_error = Some(message);
}

/// One less, but not below zero.
pub open spec fn one_less(value: u64) -> u64 {
    if value > 0 {
        (value - 1) as u64
    } else {
        0
    }
}

/// Takes one off a gauge, but not below zero.
pub fn decrement(value: &mut u64)
    ensures
        *final(value) == one_less(*old(value)),
{
    if *value > 0 {
        *value = *value - 1;
    }
}

/// The records that the queues and the worker hold.
pub fn remaining_records(shared: &Shared) -> (remaining: u64)
    ensures
        remaining == metrics::saturating_sum(
            shared.metrics.normal_queue_depth + shared.metrics.reserved_queue_depth,
            shared.metrics.inflight as int,
        ),
{
    shared.metrics.normal_queue_depth.saturating_add(
        shared.metrics.reserved_queue_depth,
    ).saturating_add(shared.metrics.inflight)
}

/// Two emergencies one after the other that both give a diagnostic are at least an interval apart,
/// and an emergency that comes an interval or more after the last diagnostic gives one. Each
/// diagnostic ends in the message of its own emergency, and nothing but the time of the last
/// diagnostic changes.
pub proof fn law_diagnostics_keep_their_distance(
    before: Shared,
    between: Shared,
    after: Shared,
    first: u64,
    second: u64,
    first_message: Seq<char>,
    second_message: Seq<char>,
    first_diagnostic: Option<String>,
    second_diagnostic: Option<String>,
)
    requires
        before.is_emergency(&between, first, first_message, first_diagnostic),
        between.is_emergency(&after, second, second_message, second_diagnostic),
    ensures
        first_diagnostic is Some && second_diagnostic is Some
            && before.diagnostic_interval_millis > 0 ==> second - first
            >= before.diagnostic_interval_millis,
        first_diagnostic is Some && second - first >= before.diagnostic_interval_millis
            ==> second_diagnostic is Some,
        first - before.last_diagnostic_millis >= before.diagnostic_interval_millis
            ==> first_diagnostic is Some,
        first_diagnostic is Some ==> first_message.is_suffix_of(first_diagnostic->0@),
        between.accepting == before.accepting,
        between.accepted == before.accepted,
        between.metrics == before.metrics,
        between.last_error == before.last_error,
        between.diagnostic_interval_millis == before.diagnostic_interval_millis,
{
}

}
