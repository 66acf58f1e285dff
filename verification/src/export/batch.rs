//! The export of a batch: requests, retries, and the isolation of records that a collector rejects.
//!
//! Sending and sleeping are outside of this module. A run says what the next request holds, is told
//! what came of it, and says what follows.

use vstd::arithmetic::power2;
use vstd::prelude::*;

use crate::context;
use crate::export::config::{OtlpHttpError, OtlpHttpErrorKind};
use crate::export::metrics::{ExporterMetrics, ExporterStatus};
use crate::export::shared;
use crate::export::shared::Shared;
use crate::time;
use crate::time::{Clock, Duration};

verus! {

/// What a collector says to a request that it acknowledges.
pub struct OtlpExportOutcome {
    /// Records that the collector accepted.
    pub accepted: u64,
    /// Records that the collector rejected.
    pub rejected: u64,
    /// A diagnostic of the collector.
    pub message: Option<String>,
}

/// What came of a request.
pub enum Reply {
    Acknowledged(OtlpExportOutcome),
    Failed(OtlpHttpError),
}

/// What follows the reply to a request.
pub enum Verdict<T> {
    /// The records of the request are settled or parted: go on with the next request.
    Proceed,
    /// Send the same records again after a delay.
    Retry(Duration),
    /// Give up, with the records that are left.
    Terminal(Vec<Vec<T>>),
}

/// The records of stacked batches, from the top down.
pub open spec fn stacked<T>(pending: Seq<Vec<T>>) -> Seq<T>
    decreases pending.len(),
{
    if pending.len() == 0 {
        Seq::empty()
    } else {
        pending.last()@ + stacked(pending.drop_last())
    }
}

/// The number of requests that suffice where no request is retried: parting a batch of two records
/// or more costs one, and each record one.
pub open spec fn request_bound<T>(pending: Seq<Vec<T>>) -> int
    decreases pending.len(),
{
    if pending.len() == 0 {
        0
    } else {
        request_bound(pending.drop_last()) + 2 * pending.last()@.len() - 1
    }
}

/// The export of a batch.
pub struct ExportRun<T> {
    /// The records of the request that is out.
    pub current: Option<Vec<T>>,
    /// Batches that are to be exported: the last one comes first.
    pub pending: Vec<Vec<T>>,
    /// How often the request failed in a row.
    pub failures: u32,
}

/// Half of the records, rounded down.
pub open spec fn half<T>(records: Seq<T>) -> int {
    records.len() as int / 2
}

/// Whether batches are stacked as parting records leaves them: both halves on top, the first half
/// above the second.
pub open spec fn is_parted<T>(
    records: Seq<T>,
    before: Seq<Vec<T>>,
    after: Seq<Vec<T>>,
) -> bool {
    &&& after.len() == before.len() + 2
    &&& forall|i: int| 0 <= i < before.len() ==> #[trigger] after[i] == before[i]
    &&& after[before.len() as int]@ == records.skip(half(records))
    &&& after[(before.len() + 1) as int]@ == records.take(half(records))
}

/// Parts records in halves, and stacks both: the first half comes first.
pub fn split_records<T>(records: Vec<T>, pending: &mut Vec<Vec<T>>)
    ensures
        is_parted(records@, old(pending)@, final(pending)@),
        stacked(final(pending)@) == records@ + stacked(old(pending)@),
        request_bound(final(pending)@) == request_bound(old(pending)@) + 2 * records@.len() - 2,
{
    let ghost all = records@;
    let ghost before = pending@;
    let mut left = records;
    let middle: usize = left.len() / 2;
    let right = left.split_off(middle);
    let ghost r = right;
    let ghost l = left;
    pending.push(right);
    pending.push(left);
    proof {
        assert(pending@.drop_last() =~= before.push(r));
        assert(before.push(r).drop_last() =~= before);
        assert(stacked(before.push(r)) == r@ + stacked(before));
        assert(stacked(pending@) == l@ + stacked(before.push(r)));
        assert(stacked(pending@) =~= all + stacked(before));
        assert(request_bound(before.push(r)) == request_bound(before) + 2 * r@.len() - 1);
    }
}

/// The base delay after failures in a row: it doubles with each failure, up to a maximum.
pub open spec fn base_delay_millis(failures: u32, initial: Duration, maximum: Duration) -> nat {
    let steps: nat = if failures == 0 {
        0
    } else if failures - 1 > 20 {
        20
    } else {
        (failures - 1) as nat
    };
    let grown = initial.millis() * doubled(steps);
    if grown < maximum.millis() {
        grown
    } else {
        maximum.millis()
    }
}

/// Two to the power of `n`.
pub open spec fn doubled(n: nat) -> nat
    decreases n,
{
    if n == 0 {
        1
    } else {
        2 * doubled((n - 1) as nat)
    }
}

/// The delay in milliseconds, once a jitter of 75 to 125 percent is applied to the base delay.
pub open spec fn jittered_millis(base: nat, subsec_nanos: u32) -> nat {
    let jittered = base * (75 + subsec_nanos as nat % 51) / 100;
    if jittered <= u64::MAX {
        jittered
    } else {
        u64::MAX as nat
    }
}

fn power_of_two(n: u32) -> (power: u128)
    requires
        n <= 20,
    ensures
        power == doubled(n as nat),
        1 <= power <= 1_048_576,
{
    let mut power: u128 = 1;
    let mut i: u32 = 0;
    proof {
        reveal_with_fuel(doubled, 22);
        assert(doubled(20) == 1_048_576);
    }
    while i < n
        invariant
            i <= n <= 20,
            power == doubled(i as nat),
            1 <= power,
            doubled(20) == 1_048_576,
        decreases n - i,
    {
        proof {
            lemma_doubled_is_monotone((i + 1) as nat, 20);
        }
        power = power * 2;
        i = i + 1;
    }
    proof {
        lemma_doubled_is_monotone(n as nat, 20);
    }
    power
}

proof fn lemma_doubled_is_monotone(a: nat, b: nat)
    requires
        a <= b,
    ensures
        1 <= doubled(a) <= doubled(b),
    decreases b,
{
    if b > a {
        lemma_doubled_is_monotone(a, (b - 1) as nat);
    } else if a > 0 {
        lemma_doubled_is_monotone((a - 1) as nat, (b - 1) as nat);
    }
}

/// The delay before a retry, with the jitter that a reading of the clock gives.
pub fn retry_delay_at(
    failures: u32,
    initial: Duration,
    maximum: Duration,
    subsec_nanos: u32,
) -> (delay: Duration)
    ensures
        delay.spec_nanos() == jittered_millis(
            base_delay_millis(failures, initial, maximum),
            subsec_nanos,
        ) * 1_000_000,
        delay.millis() == jittered_millis(
            base_delay_millis(failures, initial, maximum),
            subsec_nanos,
        ),
{
    let steps: u32 = if failures == 0 {
        0
    } else if failures - 1 > 20 {
        20
    } else {
        failures - 1
    };
    let factor: u128 = power_of_two(steps);
    let grown: u128 = match initial.as_millis().checked_mul(factor) {
        Some(product) => product,
        None => u128::MAX,
    };
    let most: u128 = maximum.as_millis();
    let base: u128 = if grown < most {
        grown
    } else {
        most
    };
    assert(base == base_delay_millis(failures, initial, maximum));
    let percent: u128 = 75 + (subsec_nanos % 51) as u128;
    assert(base * percent <= u128::MAX) by (nonlinear_arith)
        requires
            base <= u128::MAX / 1_000_000,
            percent <= 125,
    ;
    let jittered: u128 = base * percent / 100;
    if jittered <= u64::MAX as u128 {
        Duration::from_millis(jittered as u64)
    } else {
        Duration::from_millis(u64::MAX)
    }
}

/// The delay before a retry, with the jitter of the current time.
pub fn retry_delay(failures: u32, initial: Duration, maximum: Duration) -> (delay: Duration)
    ensures
        in_jitter_envelope(delay.millis(), base_delay_millis(failures, initial, maximum)),
        exists|clock: Clock| #[trigger]
            call_ensures(Clock::now, (), clock) && call_ensures(
                retry_delay_at,
                (failures, initial, maximum, clock.subsec_nanos),
                delay,
            ),
{
    let clock = Clock::now();
    let delay = retry_delay_at(failures, initial, maximum, clock.subsec_nanos);
    proof {
        law_jitter_stays_in_its_envelope(
            base_delay_millis(failures, initial, maximum),
            clock.subsec_nanos,
        );
    }
    delay
}

/// Whether a delay is 75 to 125 percent of a base delay, as far as it can be represented.
pub open spec fn in_jitter_envelope(delay: nat, base: nat) -> bool {
    &&& delay <= base * 125 / 100
    &&& delay >= base * 75 / 100 || delay == u64::MAX
    &&& base >= 2 ==> delay > 0
}

/// Jitter keeps a delay inside 75 to 125 percent of the base delay, and never makes a delay of two
/// milliseconds or more vanish.
pub proof fn law_jitter_stays_in_its_envelope(base: nat, subsec_nanos: u32)
    ensures
        in_jitter_envelope(jittered_millis(base, subsec_nanos), base),
{
    let percent = 75 + subsec_nanos as nat % 51;
    assert(75 <= percent <= 125);
    assert(base * 75 <= base * percent <= base * 125) by (nonlinear_arith)
        requires
            75 <= percent <= 125,
            base >= 0,
    ;
}

/// The base delay never exceeds the maximum, and never shrinks with further failures.
pub proof fn law_backoff_grows_to_its_maximum(
    fewer: u32,
    more: u32,
    initial: Duration,
    maximum: Duration,
)
    requires
        fewer <= more,
    ensures
        base_delay_millis(fewer, initial, maximum) <= base_delay_millis(more, initial, maximum),
        base_delay_millis(more, initial, maximum) <= maximum.millis(),
{
    let a: nat = if fewer == 0 {
        0
    } else if fewer - 1 > 20 {
        20
    } else {
        (fewer - 1) as nat
    };
    let b: nat = if more == 0 {
        0
    } else if more - 1 > 20 {
        20
    } else {
        (more - 1) as nat
    };
    lemma_doubled_is_monotone(a, b);
    let m = initial.millis();
    let x = doubled(a);
    let y = doubled(b);
    assert(m * x <= m * y) by (nonlinear_arith)
        requires
            x <= y,
            m >= 0,
    ;
}

/// The delay that a collector asked for, or else one that doubles with each failure; never beyond
/// the maximum.
pub open spec fn is_retry_delay(
    delay: Duration,
    error: OtlpHttpError,
    failures: u32,
    initial: Duration,
    maximum: Duration,
    subsec_nanos: u32,
) -> bool {
    let asked = match error.retry_after {
        Some(after) => after.spec_nanos(),
        None => jittered_millis(base_delay_millis(failures, initial, maximum), subsec_nanos)
            * 1_000_000,
    };
    delay.spec_nanos() == if maximum.spec_nanos() < asked {
        maximum.spec_nanos()
    } else {
        asked
    }
}

/// The diagnostic of a record that a collector rejected.
pub open spec fn rejection_text(reason: Seq<char>) -> Seq<char> {
    "collector rejected an individual log record: "@ + reason
}

/// The reason of a partial rejection.
pub open spec fn rejection_reason(message: Option<String>) -> Seq<char> {
    match message {
        Some(reason) => reason@,
        None => "collector partially rejected an individual record"@,
    }
}

/// The counters once a record is rejected.
pub open spec fn rejected_one(state: Shared) -> Shared {
    Shared {
        metrics: ExporterMetrics {
            rejected: state.metrics.rejected.wrapping_add(1),
            ..state.metrics
        },
        ..state
    }
}

/// Counts a record that was rejected, and gives a diagnostic of it where one is due.
pub fn reject_record(state: &mut Shared, now: u64, reason: &str) -> (diagnostic: Option<String>)
    ensures
        rejected_one(*old(state)).is_emergency(
            final(state),
            now,
            rejection_text(reason@),
            diagnostic,
        ),
{
    state.metrics.rejected = state.metrics.rejected.wrapping_add(1);
    let mut message = "collector rejected an individual log record: ".to_owned();
    message.append(reason);
    state.emergency(now, message.as_str())
}

/// The counters once all records of a request are acknowledged.
pub open spec fn exported_all(state: Shared, count: nat) -> Shared {
    Shared {
        metrics: ExporterMetrics {
            exported: state.metrics.exported.wrapping_add(count as u64),
            batches: state.metrics.batches.wrapping_add(1),
            ..state.metrics
        },
        ..state
    }
}

/// The counters once a request is acknowledged in part.
pub open spec fn acknowledged_in_part(state: Shared) -> Shared {
    Shared {
        metrics: ExporterMetrics {
            partial_rejections: state.metrics.partial_rejections.wrapping_add(1),
            batches: state.metrics.batches.wrapping_add(1),
            ..state.metrics
        },
        ..state
    }
}

/// Whether a state is what a retryable failure leaves.
pub open spec fn is_backing_off(after: Shared, before: Shared, error: OtlpHttpError) -> bool {
    &&& after == (Shared {
        metrics: ExporterMetrics {
            retries: before.metrics.retries.wrapping_add(1),
            status: ExporterStatus::BackingOff,
            ..before.metrics
        },
        last_error: after.last_error,
        ..before
    })
    &&& context::text_of(after.last_error) == Some(error.text())
}

/// Whether a state and a diagnostic are what a permanent failure leaves.
pub open spec fn is_terminal(
    after: Shared,
    before: Shared,
    error: OtlpHttpError,
    now: u64,
    diagnostic: Option<String>,
) -> bool {
    exists|failed: Shared|
        {
            &&& failed == (Shared {
                metrics: ExporterMetrics {
                    status: ExporterStatus::TerminalFailure,
                    ..before.metrics
                },
                last_error: failed.last_error,
                ..before
            })
            &&& context::text_of(failed.last_error) == Some(error.text())
            &&& #[trigger] failed.is_emergency(
                &after,
                now,
                "OTLP exporter entered terminal failure: "@ + error.text(),
                diagnostic,
            )
        }
}

/// Whether a reply settles or parts the records of a request: records are settled when all of them
/// are acknowledged, or when a single one is rejected.
pub open spec fn parts(reply: Reply) -> bool {
    match reply {
        Reply::Acknowledged(outcome) => outcome.rejected > 0,
        Reply::Failed(error) => error.kind == OtlpHttpErrorKind::InvalidPayload,
    }
}

/// Whether a run and a state are what looking for the next request leaves: there is one as long as
/// records are outstanding, the one that is out or else the batch on top of the stack.
pub open spec fn is_request<T>(
    before: ExportRun<T>,
    state_before: Shared,
    after: ExportRun<T>,
    state_after: Shared,
    request: bool,
) -> bool {
    &&& request == (before.outstanding().len() > 0)
    &&& after.outstanding() == before.outstanding()
    &&& after.requests_left() == before.requests_left()
    &&& before.current is Some ==> after == before
    &&& if request {
        &&& after.current is Some
        &&& state_after == (Shared {
            metrics: ExporterMetrics {
                export_attempts: state_before.metrics.export_attempts.wrapping_add(1),
                ..state_before.metrics
            },
            ..state_before
        })
        &&& before.current is None ==> {
            &&& after.requested() == before.pending@.last()@
            &&& after.pending@ == before.pending@.drop_last()
            &&& after.failures == 0
        }
    } else {
        state_after == state_before && after.current is None
    }
}

/// Whether a state, a verdict and a diagnostic are what a reply to a request of some records leaves.
pub open spec fn is_answer<T>(
    before: ExportRun<T>,
    state_before: Shared,
    reply: Reply,
    retry_initial: Duration,
    retry_max: Duration,
    clock: Clock,
    after: ExportRun<T>,
    state_after: Shared,
    result: (Verdict<T>, Option<String>),
) -> bool {
    match reply {
        Reply::Acknowledged(outcome) => {
            if outcome.rejected == 0 {
                &&& result == (Verdict::<T>::Proceed, None::<String>)
                &&& state_after == exported_all(state_before, before.requested().len())
            } else {
                &&& result.0 is Proceed
                &&& if before.requested().len() == 1 {
                    rejected_one(acknowledged_in_part(state_before)).is_emergency(
                        &state_after,
                        clock.unix_millis,
                        rejection_text(rejection_reason(outcome.message)),
                        result.1,
                    )
                } else {
                    state_after == acknowledged_in_part(state_before) && result.1 is None
                }
            }
        },
        Reply::Failed(error) => {
            if error.kind == OtlpHttpErrorKind::InvalidPayload {
                &&& result.0 is Proceed
                &&& if before.requested().len() == 1 {
                    rejected_one(state_before).is_emergency(
                        &state_after,
                        clock.unix_millis,
                        rejection_text(error.text()),
                        result.1,
                    )
                } else {
                    state_after == state_before && result.1 is None
                }
            } else if error.retryable() {
                &&& result.0 matches Verdict::Retry(delay) && is_retry_delay(
                    delay,
                    error,
                    after.failures,
                    retry_initial,
                    retry_max,
                    clock.subsec_nanos,
                )
                &&& result.1 is None
                &&& is_backing_off(state_after, state_before, error)
                &&& after.failures == before.failures.saturating_add(1)
            } else {
                &&& result.0 matches Verdict::Terminal(left) && stacked(left@)
                    == before.outstanding() && left@ == before.pending@.push(
                    before.current.unwrap(),
                )
                &&& is_terminal(state_after, state_before, error, clock.unix_millis, result.1)
            }
        },
    }
}

/// Whether a run, a state, a verdict and a diagnostic are what a reply leaves.
pub open spec fn is_reply<T>(
    before: ExportRun<T>,
    state_before: Shared,
    reply: Reply,
    retry_initial: Duration,
    retry_max: Duration,
    clock: Clock,
    after: ExportRun<T>,
    state_after: Shared,
    result: (Verdict<T>, Option<String>),
) -> bool {
    &&& is_answer(
        before,
        state_before,
        reply,
        retry_initial,
        retry_max,
        clock,
        after,
        state_after,
        result,
    )
    &&& match result.0 {
        Verdict::Retry(_) => after.current == before.current && after.pending@ == before.pending@,
        Verdict::Proceed => {
            &&& after.current is None
            &&& after.requests_left() < before.requests_left()
            &&& if parts(reply) && before.requested().len() > 1 {
                &&& after.outstanding() == before.outstanding()
                &&& is_parted(before.requested(), before.pending@, after.pending@)
            } else {
                &&& after.outstanding() == stacked(before.pending@)
                &&& after.pending@ == before.pending@
            }
        },
        Verdict::Terminal(_) => after.outstanding().len() == 0,
    }
}

impl<T> ExportRun<T> {
    /// No batch is empty.
    pub open spec fn wf(&self) -> bool {
        &&& self.current matches Some(records) ==> records@.len() > 0
        &&& forall|i: int|
            0 <= i < self.pending@.len() ==> (#[trigger] self.pending@[i])@.len() > 0
    }

    /// The records of the request that is out.
    pub open spec fn requested(&self) -> Seq<T> {
        match self.current {
            Some(records) => records@,
            None => Seq::empty(),
        }
    }

    /// The records that are not settled, in the order in which they are exported.
    pub open spec fn outstanding(&self) -> Seq<T> {
        self.requested() + stacked(self.pending@)
    }

    /// The number of requests that suffice where no further request is retried.
    pub open spec fn requests_left(&self) -> int {
        request_bound(self.pending@) + match self.current {
            Some(records) => 2 * records@.len() - 1,
            None => 0,
        }
    }

    /// The export of a batch.
    pub fn new(batch: Vec<T>) -> (run: ExportRun<T>)
        requires
            batch@.len() > 0,
        ensures
            run.wf(),
            run.current is None,
            run.pending@.len() == 1,
            run.pending@[0]@ == batch@,
            run.failures == 0,
            run.outstanding() == batch@,
            run.requests_left() == 2 * batch@.len() - 1,
    {
        let ghost all = batch@;
        let mut pending: Vec<Vec<T>> = Vec::new();
        pending.push(batch);
        proof {
            assert(pending@.drop_last() =~= Seq::<Vec<T>>::empty());
            assert(stacked(pending@.drop_last()) =~= Seq::<T>::empty());
            assert(stacked(pending@) =~= all);
            assert(request_bound(pending@.drop_last()) == 0);
        }
        let run = ExportRun { current: None, pending, failures: 0 };
        assert(run.outstanding() =~= all);
        run
    }

    /// Cuts the export off: of its records only those that are not settled still count as out.
    pub fn cut_off(&self, state: &mut Shared)
        ensures
            *final(state) == (Shared {
                metrics: ExporterMetrics {
                    inflight: time::clamp_u64(self.outstanding().len()),
                    ..old(state).metrics
                },
                ..*old(state)
            }),
    {
        let mut count: u64 = match &self.current {
            Some(records) => records.len() as u64,
            None => 0,
        };
        let mut i: usize = 0;
        while i < self.pending.len()
            invariant
                i <= self.pending@.len(),
                count == time::clamp_u64(
                    self.requested().len() + stacked(self.pending@.take(i as int)).len(),
                ),
            decreases self.pending@.len() - i,
        {
            assert(self.pending@.take(i + 1).drop_last() =~= self.pending@.take(i as int));
            count = count.saturating_add(self.pending[i].len() as u64);
            i = i + 1;
        }
        assert(self.pending@.take(i as int) =~= self.pending@);
        state.metrics.inflight = count;
    }

    /// Makes the records of the next request out. Says whether there is one: there is none once all
    /// records are settled.
    pub fn next_request(&mut self, state: &mut Shared) -> (request: bool)
        requires
            old(self).wf(),
        ensures
            final(self).wf(),
            is_request(*old(self), *old(state), *final(self), *final(state), request),
    {
        if self.current.is_none() {
            let ghost before = self.pending@;
            match self.pending.pop() {
                Some(records) => {
                    let ghost r = records;
                    self.current = Some(records);
                    self.failures = 0;
                    proof {
                        assert(self.pending@ =~= before.drop_last());
                        assert(before.last() == r);
                        assert(self.outstanding() =~= Seq::<T>::empty() + stacked(before));
                    }
                },
                None => {
                    return false;
                },
            }
        }
        state.metrics.export_attempts = state.metrics.export_attempts.wrapping_add(1);
        true
    }

    /// Takes the reply to the request that is out.
    ///
    /// Records that are acknowledged leave the run. A batch that is rejected in part, or whose
    /// payload is invalid, is parted in halves, until single records are rejected. A transient
    /// failure is retried, and a permanent one ends the run.
    pub fn reply(
        &mut self,
        state: &mut Shared,
        reply: Reply,
        retry_initial: Duration,
        retry_max: Duration,
        clock: &Clock,
    ) -> (result: (Verdict<T>, Option<String>))
        requires
            old(self).wf(),
            old(self).current is Some,
        ensures
            final(self).wf(),
            is_reply(
                *old(self),
                *old(state),
                reply,
                retry_initial,
                retry_max,
                *clock,
                *final(self),
                *final(state),
                result,
            ),
    {
        let records = match self.current.take() {
            Some(records) => records,
            None => {
                assert(false);
                return (Verdict::Proceed, None);
            },
        };
        let ghost below = stacked(self.pending@);
        proof {
            assert(Seq::<T>::empty() + below =~= below);
        }
        match reply {
            Reply::Acknowledged(outcome) => {
                if outcome.rejected == 0 {
                    state.metrics.exported = state.metrics.exported.wrapping_add(
                        records.len() as u64,
                    );
                    state.metrics.batches = state.metrics.batches.wrapping_add(1);
                    return (Verdict::Proceed, None);
                }
                state.metrics.partial_rejections = state.metrics.partial_rejections.wrapping_add(1);
                state.metrics.batches = state.metrics.batches.wrapping_add(1);
                if records.len() == 1 {
                    let diagnostic = match outcome.message {
                        Some(message) => reject_record(
                            state,
                            clock.unix_millis,
                            message.as_str(),
                        ),
                        None => reject_record(
                            state,
                            clock.unix_millis,
                            "collector partially rejected an individual record",
                        ),
                    };
                    return (Verdict::Proceed, diagnostic);
                }
                self.part(records);
                (Verdict::Proceed, None)
            },
            Reply::Failed(error) => {
                if error.is_invalid_payload() {
                    if records.len() == 1 {
                        let reason = error.to_string();
                        let diagnostic = reject_record(state, clock.unix_millis, reason.as_str());
                        return (Verdict::Proceed, diagnostic);
                    }
                    self.part(records);
                    return (Verdict::Proceed, None);
                }
                if error.is_retryable() {
                    self.failures = self.failures.saturating_add(1);
                    state.metrics.retries = state.metrics.retries.wrapping_add(1);
                    state.set_status(ExporterStatus::BackingOff);
                    let reason = error.to_string();
                    shared::set_last_error(state, reason);
                    let asked = match error.retry_after {
                        Some(after) => after,
                        None => retry_delay_at(
                            self.failures,
                            retry_initial,
                            retry_max,
                            clock.subsec_nanos,
                        ),
                    };
                    self.current = Some(records);
                    return (Verdict::Retry(asked.min(retry_max)), None);
                }
                let diagnostic = fail(state, &error, clock.unix_millis);
                let mut left: Vec<Vec<T>> = Vec::new();
                std::mem::swap(&mut left, &mut self.pending);
                let ghost before = left@;
                left.push(records);
                proof {
                    assert(left@.drop_last() =~= before);
                    assert(stacked(left@) =~= old(self).outstanding());
                    assert(stacked(self.pending@) =~= Seq::<T>::empty());
                    assert(self.outstanding() =~= Seq::<T>::empty());
                }
                (Verdict::Terminal(left), diagnostic)
            },
        }
    }

    fn part(&mut self, records: Vec<T>)
        requires
            old(self).wf(),
            old(self).current is None,
            records@.len() > 1,
        ensures
            final(self).wf(),
            final(self).current is None,
            is_parted(records@, old(self).pending@, final(self).pending@),
            final(self).outstanding() == records@ + stacked(old(self).pending@),
            final(self).requests_left() == request_bound(old(self).pending@) + 2 * records@.len()
                - 2,
    {
        let ghost before = self.pending@;
        split_records(records, &mut self.pending);
        proof {
            assert forall|i: int| 0 <= i < self.pending@.len() implies (
            #[trigger] self.pending@[i])@.len() > 0 by {
                if i < before.len() {
                    assert(self.pending@[i] == before[i]);
                }
            }
            assert(self.outstanding() =~= stacked(self.pending@));
        }
    }
}

fn fail(state: &mut Shared, error: &OtlpHttpError, now: u64) -> (diagnostic: Option<String>)
    ensures
        is_terminal(*final(state), *old(state), *error, now, diagnostic),
{
    let reason = error.to_string();
    let mut message = "OTLP exporter entered terminal failure: ".to_owned();
    message.append(reason.as_str());
    shared::set_last_error(state, reason);
    state.set_status(ExporterStatus::TerminalFailure);
    let ghost failed = *state;
    let diagnostic = state.emergency(now, message.as_str());
    assert(failed.is_emergency(
        state,
        now,
        "OTLP exporter entered terminal failure: "@ + error.text(),
        diagnostic,
    ));
    diagnostic
}

/// Sets the state of the exporter once a retry delay is over.
pub fn resume(state: &mut Shared)
    ensures
        *final(state) == (Shared {
            metrics: ExporterMetrics {
                status: if old(state).accepting {
                    ExporterStatus::Running
                } else {
                    ExporterStatus::ShuttingDown
                },
                ..old(state).metrics
            },
            ..*old(state)
        }),
{
    if state.accepting {
        state.set_status(ExporterStatus::Running);
    } else {
        state.set_status(ExporterStatus::ShuttingDown);
    }
}

/// Whether the batch on top of a stack is set apart where it is a single record, and is else parted.
pub open spec fn is_parting<T>(
    before: (Seq<T>, Seq<Vec<T>>),
    after: (Seq<T>, Seq<Vec<T>>),
) -> bool {
    let top = before.1.last()@;
    &&& before.1.len() > 0
    &&& if top.len() == 1 {
        after == (before.0 + top, before.1.drop_last())
    } else {
        after.0 == before.0 && is_parted(top, before.1.drop_last(), after.1)
    }
}

/// Parting batches over and over keeps every record, in its order, until each stands alone: those
/// that are set apart, and behind them those that are still stacked, are always the records that were
/// stacked at first.
pub proof fn law_parting_keeps_order_and_identity<T>(stages: Seq<(Seq<T>, Seq<Vec<T>>)>)
    requires
        stages.len() > 0,
        forall|i: int|
            #![trigger stages[i]]
            0 <= i < stages.len() - 1 ==> is_parting(stages[i], stages[i + 1]),
    ensures
        stages.last().0 + stacked(stages.last().1) == stages[0].0 + stacked(stages[0].1),
        stages.last().1.len() == 0 ==> stages.last().0 == stages[0].0 + stacked(stages[0].1),
    decreases stages.len(),
{
    if stages.len() > 1 {
        let front = stages.drop_last();
        assert forall|i: int| #![trigger front[i]] 0 <= i < front.len() - 1 implies is_parting(
            front[i],
            front[i + 1],
        ) by {
            assert(front[i] == stages[i] && front[i + 1] == stages[i + 1]);
        }
        law_parting_keeps_order_and_identity(front);
        let n = stages.len() - 2;
        assert(is_parting(stages[n], stages[n + 1]));
        lemma_parting_keeps_records(stages[n], stages[n + 1]);
    }
    if stages.last().1.len() == 0 {
        assert(stages.last().0 + stacked(stages.last().1) =~= stages.last().0);
    }
}

proof fn lemma_parting_keeps_records<T>(
    before: (Seq<T>, Seq<Vec<T>>),
    after: (Seq<T>, Seq<Vec<T>>),
)
    requires
        is_parting(before, after),
    ensures
        after.0 + stacked(after.1) == before.0 + stacked(before.1),
{
    let top = before.1.last()@;
    let below = before.1.drop_last();
    if top.len() == 1 {
        assert(after.0 + stacked(after.1) =~= before.0 + stacked(before.1));
    } else {
        lemma_parted_stack(top, below, after.1);
    }
}

proof fn lemma_parted_stack<T>(records: Seq<T>, before: Seq<Vec<T>>, after: Seq<Vec<T>>)
    requires
        is_parted(records, before, after),
    ensures
        stacked(after) == records + stacked(before),
{
    let under = after.drop_last();
    assert(under.drop_last() =~= before);
    assert(stacked(under) == under.last()@ + stacked(before));
    assert(stacked(after) == after.last()@ + stacked(under));
    assert(stacked(after) =~= records + stacked(before));
}

/// Whether a run goes on from one state to another: a request is looked for, a reply comes that does
/// not end the run, or others change what is shared, but not what the run counts.
pub open spec fn goes_on<T>(
    before: (ExportRun<T>, Shared),
    after: (ExportRun<T>, Shared),
) -> bool {
    ||| {
        &&& after.0 == before.0
        &&& after.1.metrics.exported == before.1.metrics.exported
        &&& after.1.metrics.rejected == before.1.metrics.rejected
    }
    ||| exists|request: bool| #[trigger]
        is_request(before.0, before.1, after.0, after.1, request)
    ||| before.0.current is Some && exists|
        reply: Reply,
        retry_initial: Duration,
        retry_max: Duration,
        clock: Clock,
        result: (Verdict<T>, Option<String>),
    | #[trigger]
        is_reply(
            before.0,
            before.1,
            reply,
            retry_initial,
            retry_max,
            clock,
            after.0,
            after.1,
            result,
        ) && !(result.0 is Terminal)
}

/// The number of records that were exported or rejected.
pub open spec fn settled(state: Shared) -> int {
    state.metrics.exported + state.metrics.rejected
}

proof fn lemma_going_on_settles<T>(before: (ExportRun<T>, Shared), after: (ExportRun<T>, Shared))
    requires
        goes_on(before, after),
        before.1.metrics.exported + before.0.outstanding().len() <= u64::MAX,
        before.1.metrics.rejected + before.0.outstanding().len() <= u64::MAX,
    ensures
        ({
            let count = settled(after.1) - settled(before.1);
            &&& 0 <= count <= before.0.outstanding().len()
            &&& after.0.outstanding() == before.0.outstanding().skip(count)
            &&& after.1.metrics.exported >= before.1.metrics.exported
            &&& after.1.metrics.rejected >= before.1.metrics.rejected
        }),
{
    let all = before.0.outstanding();
    let requested = before.0.requested();
    assert(all.skip(0) =~= all);
    assert(all.skip(requested.len() as int) =~= stacked(before.0.pending@));
}

/// A run loses no record and takes none twice: at every moment the records that are outstanding are
/// those of its start but for the first ones, and of these each was counted once, as exported or as
/// rejected. Once none is outstanding, all of them were.
pub proof fn law_a_run_settles_every_record_once<T>(stages: Seq<(ExportRun<T>, Shared)>)
    requires
        stages.len() > 0,
        forall|i: int|
            #![trigger stages[i]]
            0 <= i < stages.len() - 1 ==> goes_on(stages[i], stages[i + 1]),
        stages[0].1.metrics.exported + stages[0].0.outstanding().len() <= u64::MAX,
        stages[0].1.metrics.rejected + stages[0].0.outstanding().len() <= u64::MAX,
    ensures
        ({
            let records = stages[0].0.outstanding();
            let count = settled(stages.last().1) - settled(stages[0].1);
            &&& 0 <= count <= records.len()
            &&& stages.last().0.outstanding() == records.skip(count)
            &&& stages.last().1.metrics.exported >= stages[0].1.metrics.exported
            &&& stages.last().1.metrics.rejected >= stages[0].1.metrics.rejected
            &&& stages.last().0.outstanding().len() == 0 ==> count == records.len()
        }),
    decreases stages.len(),
{
    let records = stages[0].0.outstanding();
    if stages.len() == 1 {
        assert(records.skip(0) =~= records);
    } else {
        let front = stages.drop_last();
        assert forall|i: int| #![trigger front[i]] 0 <= i < front.len() - 1 implies goes_on(
            front[i],
            front[i + 1],
        ) by {
            assert(front[i] == stages[i] && front[i + 1] == stages[i + 1]);
        }
        law_a_run_settles_every_record_once(front);
        let n = stages.len() - 2;
        assert(goes_on(stages[n], stages[n + 1]));
        lemma_going_on_settles(stages[n], stages[n + 1]);
        let before = settled(stages[n].1) - settled(stages[0].1);
        let count = settled(stages[n + 1].1) - settled(stages[n].1);
        assert(records.skip(before).skip(count) =~= records.skip(before + count));
    }
}

proof fn lemma_doubled_is_a_power(n: nat)
    ensures
        doubled(n) == power2::pow2(n),
    decreases n,
{
    if n == 0 {
        power2::lemma2_to64();
    } else {
        lemma_doubled_is_a_power((n - 1) as nat);
        power2::lemma_pow2_unfold(n);
    }
}

/// The base of the first delay is the initial delay, and each later one is twice the one before, until
/// the maximum is reached: from then on it is the maximum. After twenty doublings it stays.
pub proof fn law_each_base_delay_is_twice_the_one_before(
    failures: u32,
    initial: Duration,
    maximum: Duration,
)
    requires
        1 <= failures < u32::MAX,
    ensures
        ({
            let most = maximum.millis();
            let this = base_delay_millis(failures, initial, maximum);
            let next = base_delay_millis((failures + 1) as u32, initial, maximum);
            &&& failures == 1 && initial.millis() <= most ==> this == initial.millis()
            &&& failures == 1 && initial.millis() > most ==> this == most
            &&& failures <= 20 && 2 * this <= most ==> next == 2 * this
            &&& failures <= 20 && 2 * this > most ==> next == most
            &&& failures > 20 ==> next == this
        }),
{
    let n = (failures - 1) as nat;
    if failures <= 20 {
        assert(doubled((n + 1) as nat) == 2 * doubled(n));
        let m = initial.millis();
        let d = doubled(n);
        assert(m * (2 * d) == 2 * (m * d)) by (nonlinear_arith);
        assert(doubled(0) == 1);
        assert(m * 1 == m);
    }
}

/// The delay in nanoseconds that a request waits for after the last of `count` failures in a row: the
/// initial delay doubled with each failure but the first, at most twenty times and at most up to the
/// maximum, then 75 to 125 percent of that by the clock, and never more than the maximum.
pub open spec fn delay_after(
    count: nat,
    initial: Duration,
    maximum: Duration,
    subsec_nanos: u32,
) -> int {
    let doublings: nat = if count <= 21 {
        (count - 1) as nat
    } else {
        20
    };
    let grown = initial.millis() * power2::pow2(doublings);
    let base = if grown <= maximum.millis() {
        grown as int
    } else {
        maximum.millis() as int
    };
    let percent = 75 + subsec_nanos as int % 51;
    let millis = base * percent / 100;
    let nanos = if millis <= u64::MAX {
        millis * 1_000_000
    } else {
        u64::MAX * 1_000_000
    };
    if nanos <= maximum.spec_nanos() {
        nanos
    } else {
        maximum.spec_nanos() as int
    }
}

/// A request that fails over and over, in ways after which a retry is safe and without a delay that
/// the collector asks for, is retried after delays that double with each failure: the delay after the
/// last of so many replies is that of so many failures in a row.
pub proof fn law_delays_double_with_each_failure_in_a_row<T>(
    runs: Seq<ExportRun<T>>,
    states: Seq<(Shared, Shared)>,
    errors: Seq<OtlpHttpError>,
    clocks: Seq<Clock>,
    results: Seq<(Verdict<T>, Option<String>)>,
    initial: Duration,
    maximum: Duration,
)
    requires
        runs.len() > 1,
        runs[0].failures == 0,
        forall|i: int|
            #![trigger runs[i]]
            0 <= i < runs.len() - 1 ==> is_reply(
                runs[i],
                states[i].0,
                Reply::Failed(errors[i]),
                initial,
                maximum,
                clocks[i],
                runs[i + 1],
                states[i].1,
                results[i],
            ) && (errors[i].kind == OtlpHttpErrorKind::Transport || errors[i].kind
                == OtlpHttpErrorKind::RetryableStatus) && errors[i].retry_after is None,
    ensures
        ({
            let count = (runs.len() - 1) as nat;
            let last = count - 1;
            &&& results[last].0 matches Verdict::Retry(delay) && delay.spec_nanos() == delay_after(
                count,
                initial,
                maximum,
                clocks[last].subsec_nanos,
            )
            &&& runs.last().requested() == runs[0].requested()
            &&& runs.last().outstanding() == runs[0].outstanding()
            &&& runs.last().failures == if count <= u32::MAX {
                count as u32
            } else {
                u32::MAX
            }
        }),
    decreases runs.len(),
{
    let last = runs.len() - 2;
    assert(runs[last + 1] == runs.last());
    if last > 0 {
        let front = runs.drop_last();
        assert forall|i: int| #![trigger front[i]] 0 <= i < front.len() - 1 implies is_reply(
            front[i],
            states[i].0,
            Reply::Failed(errors[i]),
            initial,
            maximum,
            clocks[i],
            front[i + 1],
            states[i].1,
            results[i],
        ) && (errors[i].kind == OtlpHttpErrorKind::Transport || errors[i].kind
            == OtlpHttpErrorKind::RetryableStatus) && errors[i].retry_after is None by {
            assert(front[i] == runs[i] && front[i + 1] == runs[i + 1]);
        }
        law_delays_double_with_each_failure_in_a_row(
            front,
            states,
            errors,
            clocks,
            results,
            initial,
            maximum,
        );
        assert(front.last() == runs[last]);
    }
    assert(is_reply(
        runs[last],
        states[last].0,
        Reply::Failed(errors[last]),
        initial,
        maximum,
        clocks[last],
        runs[last + 1],
        states[last].1,
        results[last],
    ));
    let failures = runs[last + 1].failures;
    let doublings: nat = if failures - 1 > 20 {
        20
    } else {
        (failures - 1) as nat
    };
    lemma_doubled_is_a_power(doublings);
}

/// What a reply leads to, by its kind: a failure after which a retry is safe is retried, after the
/// delay that the collector asks for where it asks for one, but not beyond the maximum; an invalid
/// payload and an acknowledgement let the run go on; any other failure ends it.
pub proof fn law_the_kind_of_a_reply_decides<T>(
    before: ExportRun<T>,
    state_before: Shared,
    reply: Reply,
    retry_initial: Duration,
    retry_max: Duration,
    clock: Clock,
    after: ExportRun<T>,
    state_after: Shared,
    result: (Verdict<T>, Option<String>),
)
    requires
        is_reply(
            before,
            state_before,
            reply,
            retry_initial,
            retry_max,
            clock,
            after,
            state_after,
            result,
        ),
    ensures
        reply is Acknowledged ==> result.0 is Proceed,
        reply matches Reply::Failed(error) ==> match error.kind {
            OtlpHttpErrorKind::Transport | OtlpHttpErrorKind::RetryableStatus => result.0 is Retry,
            OtlpHttpErrorKind::InvalidPayload => result.0 is Proceed,
            _ => result.0 is Terminal,
        },
        reply matches Reply::Failed(error) ==> result.0 matches Verdict::Retry(delay) ==> {
            &&& delay.spec_nanos() <= retry_max.spec_nanos()
            &&& error.retry_after matches Some(asked) ==> delay.spec_nanos() == asked.spec_nanos()
                || asked.spec_nanos() > retry_max.spec_nanos() && delay.spec_nanos()
                == retry_max.spec_nanos()
        },
{
}

/// What a reply counts: records that are acknowledged in full are exported; a single record that is
/// rejected is rejected; nothing else is either.
pub proof fn law_a_reply_counts_what_became_of_its_records<T>(
    before: ExportRun<T>,
    state_before: Shared,
    reply: Reply,
    retry_initial: Duration,
    retry_max: Duration,
    clock: Clock,
    after: ExportRun<T>,
    state_after: Shared,
    result: (Verdict<T>, Option<String>),
)
    requires
        is_reply(
            before,
            state_before,
            reply,
            retry_initial,
            retry_max,
            clock,
            after,
            state_after,
            result,
        ),
    ensures
        ({
            let m = state_before.metrics;
            let n = state_after.metrics;
            let single = before.requested().len() == 1;
            let full = reply matches Reply::Acknowledged(outcome) && outcome.rejected == 0;
            let partial = reply matches Reply::Acknowledged(outcome) && outcome.rejected > 0;
            let invalid = reply matches Reply::Failed(error) && error.kind
                == OtlpHttpErrorKind::InvalidPayload;
            &&& n.exported == if full {
                m.exported.wrapping_add(before.requested().len() as u64)
            } else {
                m.exported
            }
            &&& n.rejected == if single && (partial || invalid) {
                m.rejected.wrapping_add(1)
            } else {
                m.rejected
            }
            &&& n.partial_rejections == if partial {
                m.partial_rejections.wrapping_add(1)
            } else {
                m.partial_rejections
            }
            &&& n.batches == if reply is Acknowledged {
                m.batches.wrapping_add(1)
            } else {
                m.batches
            }
            &&& n.retries == if result.0 is Retry {
                m.retries.wrapping_add(1)
            } else {
                m.retries
            }
            &&& result.0 is Retry ==> n.status == ExporterStatus::BackingOff
            &&& result.0 is Terminal ==> n.status == ExporterStatus::TerminalFailure
            &&& result.0 is Proceed ==> n.status == m.status
            &&& n.inflight == m.inflight
            &&& n.normal_queue_depth == m.normal_queue_depth
            &&& n.reserved_queue_depth == m.reserved_queue_depth
        }),
{
}

}
