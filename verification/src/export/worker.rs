//! The worker of an exporter: which records it takes, how it fills batches, and how it ends.
//!
//! Waiting and sending are outside of this module. A step takes an event, and says which action
//! follows: to wait for something, to export a batch, or to stop.

use std::collections::VecDeque;

use vstd::prelude::*;

use crate::export::collector;
use crate::export::collector::{LaneView, LogCollector, QueueKind, QueuedLog};
use crate::export::mapper;
use crate::export::mapper::EdenLogOtlpMapper;
use crate::export::metrics::{ExporterMetrics, ExporterMetricsSnapshot, ExporterStatus};
use crate::export::metrics;
use crate::export::record::LogRecord;
use crate::export::shared::Shared;
use crate::export::size;
use crate::export::size::{ExportRequestSizer, SizedRecord};
use crate::fields::RequestFields;
use crate::schema::EdenLog;
use crate::time;
use crate::time::Clock;

verus! {

/// What came of a bounded shutdown.
#[derive(Debug, Clone, Copy, PartialEq, Eq, Structural)]
pub struct ShutdownReport {
    /// Whether the deadline passed before the worker had drained the queues.
    pub timed_out: bool,
    /// Records that were left.
    pub remaining_records: u64,
    /// The last counters and gauges.
    pub metrics: ExporterMetricsSnapshot,
}

/// Where the worker stands.
#[derive(Debug, Clone, Copy, PartialEq, Eq, Structural)]
pub enum Phase {
    /// Between two batches.
    Idle,
    /// Waiting for the first record of a batch.
    Waiting,
    /// Filling a batch.
    Filling,
    /// Waiting for a further record of a batch.
    FillWaiting,
    /// A batch is being exported.
    Exporting,
    /// An export has failed for good; waiting for shutdown.
    Failed,
    /// The end.
    Stopped,
}

/// What the worker is told.
pub enum Event {
    /// Go on.
    Proceed,
    /// A lane has records.
    RecordsReady,
    /// Shutdown was requested.
    ShutdownRequested,
    /// The batch has waited long enough.
    DeadlineReached,
    /// The records of the batch are settled.
    Exported,
    /// The export failed for good, with these records left.
    ExportFailed(Vec<Vec<SizedRecord>>),
}

/// What follows a step.
pub enum Action {
    /// Go on at once.
    Continue,
    /// Wait for records or for shutdown.
    AwaitRecords,
    /// A batch has its first record: its deadline begins to run. Go on at once.
    BatchStarted,
    /// Wait for records, for the deadline or for shutdown.
    AwaitMore,
    /// Export a batch.
    Export(Vec<SizedRecord>),
    /// Wait for shutdown.
    AwaitShutdown,
    /// The worker has ended.
    Stop(ShutdownReport),
}

/// Whether the worker takes an event where it stands.
pub open spec fn expects(phase: Phase, event: Event) -> bool {
    match phase {
        Phase::Idle => event is Proceed,
        Phase::Waiting => event is RecordsReady || event is ShutdownRequested,
        Phase::Filling => event is Proceed,
        Phase::FillWaiting => event is RecordsReady || event is ShutdownRequested
            || event is DeadlineReached,
        Phase::Exporting => event is Exported || event is ExportFailed,
        Phase::Failed => event is ShutdownRequested,
        Phase::Stopped => false,
    }
}

/// The number of records in batches.
pub open spec fn record_count(batches: Seq<Vec<SizedRecord>>) -> nat
    decreases batches.len(),
{
    if batches.len() == 0 {
        0
    } else {
        record_count(batches.drop_last()) + batches.last()@.len()
    }
}

/// The size that records take in a request.
pub open spec fn fields_size(records: Seq<SizedRecord>) -> int
    decreases records.len(),
{
    if records.len() == 0 {
        0
    } else {
        fields_size(records.drop_last()) + records.last().field_len
    }
}

/// The state of the worker, of the queues and of what they share.
#[verifier::ext_equal]
pub struct WorkerState<R: RequestFields> {
    pub lanes: Seq<LaneView<R>>,
    pub first: int,
    pub shared: Shared,
    pub reserved: Seq<QueuedLog<R>>,
    pub normal: Seq<QueuedLog<R>>,
    pub pending: Seq<SizedRecord>,
    pub batch: Seq<SizedRecord>,
    pub encoded_len: int,
    pub shutting_down: bool,
    pub retained: u64,
    pub phase: Phase,
}

/// The limits of a batch.
pub struct BatchLimits {
    pub sizer: ExportRequestSizer,
    pub max_records: usize,
    pub max_bytes: usize,
}

impl BatchLimits {
    /// Whether a request of this record alone is within the limits.
    pub open spec fn admits(&self, record: SizedRecord) -> bool {
        self.sizer.size(record.field_len as int) <= self.max_bytes
    }

    /// Whether a request of records of this size is within the limits.
    pub open spec fn admits_size(&self, encoded_len: int) -> bool {
        self.sizer.size(encoded_len) <= self.max_bytes
    }
}

impl<R: RequestFields> WorkerState<R> {
    /// The state with other gauges.
    pub open spec fn with_metrics(self, metrics: ExporterMetrics) -> Self {
        WorkerState { shared: Shared { metrics, ..self.shared }, ..self }
    }

    /// The state once the lanes are drained.
    pub open spec fn refreshed(self) -> Self {
        WorkerState {
            lanes: collector::emptied_lanes(collector::kept_lanes(self.lanes)),
            first: collector::next_first(self.lanes, self.first),
            reserved: self.reserved + collector::drained_reserved(self.lanes, self.first),
            normal: self.normal + collector::drained_normal(self.lanes, self.first),
            shared: Shared {
                metrics: collector::metrics_after_drain(self.shared.metrics, self.lanes),
                ..self.shared
            },
            ..self
        }
    }

    /// The state in which a record is looked for: the lanes are drained where the worker holds none.
    pub open spec fn supplied(self) -> Self {
        if self.reserved.len() == 0 && self.normal.len() == 0 {
            self.refreshed()
        } else {
            self
        }
    }

    /// The next record: those of the reserved queue come first.
    pub open spec fn next_log(self) -> Option<EdenLog<R>> {
        let s = self.supplied();
        if s.reserved.len() > 0 {
            Some(s.reserved[0].log)
        } else if s.normal.len() > 0 {
            Some(s.normal[0].log)
        } else {
            None
        }
    }

    /// The state once the next record is taken.
    pub open spec fn received(self) -> Self {
        let s = self.supplied();
        if s.reserved.len() > 0 {
            (WorkerState { reserved: s.reserved.skip(1), ..s }).with_metrics(
                collector::released(s.shared.metrics, s.reserved[0].queue),
            )
        } else if s.normal.len() > 0 {
            (WorkerState { normal: s.normal.skip(1), ..s }).with_metrics(
                collector::released(s.shared.metrics, s.normal[0].queue),
            )
        } else {
            s
        }
    }

    /// The state once a batch is out for export.
    pub open spec fn sealed(self) -> Self {
        (WorkerState {
            batch: Seq::empty(),
            encoded_len: 0,
            phase: Phase::Exporting,
            ..self
        }).with_metrics(
            ExporterMetrics { inflight: self.batch.len() as u64, ..self.shared.metrics },
        )
    }

    /// The number of records that the queues and the worker hold, without those that are out for
    /// export.
    pub open spec fn held(self) -> nat {
        collector::total(collector::normals(self.lanes)) + collector::total(
            collector::reserveds(self.lanes),
        ) + self.reserved.len() + self.normal.len() + self.pending.len() + self.batch.len()
    }

    /// The number of records that the worker holds outside the queues: those that are kept for the
    /// next batch, and those of a batch that is being filled.
    pub open spec fn kept(self) -> nat {
        self.pending.len() + self.batch.len()
    }

    /// The gauges of the queues say how many records the lanes and the worker hold of each.
    pub open spec fn gauges_are_right(self) -> bool {
        &&& self.shared.metrics.normal_queue_depth == collector::total(
            collector::normals(self.lanes),
        ) + self.normal.len()
        &&& self.shared.metrics.reserved_queue_depth == collector::total(
            collector::reserveds(self.lanes),
        ) + self.reserved.len()
        &&& forall|i: int|
            0 <= i < self.normal.len() ==> (#[trigger] self.normal[i]).queue == QueueKind::Normal
        &&& forall|i: int|
            0 <= i < self.reserved.len() ==> (#[trigger] self.reserved[i]).queue
                == QueueKind::Reserved
    }
}

/// Whether a record is what a log record maps to at a time, with its size.
pub open spec fn is_sized_mapping<R: RequestFields>(
    record: SizedRecord,
    log: EdenLog<R>,
    observed: u64,
) -> bool {
    record.wf() && mapper::is_mapped(record.record, log, observed, Seq::empty())
}

/// The diagnostic of a record that is too large.
pub open spec fn oversize_text() -> Seq<char> {
    "an encoded log record exceeded max_batch_bytes and was dropped"@
}

/// The counters once a record is dropped as too large.
pub open spec fn oversize_counted(state: Shared) -> Shared {
    Shared {
        metrics: ExporterMetrics {
            dropped_oversize: state.metrics.dropped_oversize.wrapping_add(1),
            rejected: state.metrics.rejected.wrapping_add(1),
            ..state.metrics
        },
        ..state
    }
}

/// Whether a step gives a record of its own to a new batch: a record that is too large is dropped.
pub open spec fn opens<R: RequestFields>(
    limits: BatchLimits,
    before: WorkerState<R>,
    record: SizedRecord,
    now: u64,
    after: WorkerState<R>,
    action: Action,
    diagnostic: Option<String>,
) -> bool {
    if limits.admits(record) {
        &&& after == (WorkerState {
            batch: seq![record],
            encoded_len: record.field_len as int,
            phase: Phase::Filling,
            ..before
        })
        &&& action is BatchStarted
        &&& diagnostic is None
    } else {
        &&& after == (WorkerState { phase: Phase::Idle, shared: after.shared, ..before })
        &&& oversize_counted(before.shared).is_emergency(
            &after.shared,
            now,
            oversize_text(),
            diagnostic,
        )
        &&& action is Continue
    }
}

/// Whether a step puts the batch out for export.
pub open spec fn seals<R: RequestFields>(
    before: WorkerState<R>,
    after: WorkerState<R>,
    action: Action,
    diagnostic: Option<String>,
) -> bool {
    &&& after == before.sealed()
    &&& action matches Action::Export(batch) && batch@ == before.batch
    &&& diagnostic is None
}

/// Whether a step gives a further record to the batch: a record that is too large is dropped, and
/// one that the batch has no room for is kept for the next batch.
pub open spec fn considers<R: RequestFields>(
    limits: BatchLimits,
    before: WorkerState<R>,
    record: SizedRecord,
    now: u64,
    after: WorkerState<R>,
    action: Action,
    diagnostic: Option<String>,
) -> bool {
    let grown = size::clamp(before.encoded_len + record.field_len);
    if !limits.admits(record) {
        &&& after == (WorkerState { phase: Phase::Filling, shared: after.shared, ..before })
        &&& oversize_counted(before.shared).is_emergency(
            &after.shared,
            now,
            oversize_text(),
            diagnostic,
        )
        &&& action is Continue
    } else if !limits.admits_size(grown) {
        seals(
            WorkerState { pending: seq![record] + before.pending, ..before },
            after,
            action,
            diagnostic,
        )
    } else {
        &&& after == (WorkerState {
            batch: before.batch.push(record),
            encoded_len: grown,
            phase: Phase::Filling,
            ..before
        })
        &&& action is Continue
        &&& diagnostic is None
    }
}

/// The report of a worker that stopped.
pub open spec fn report_of(state: Shared, remaining: u64) -> ShutdownReport {
    ShutdownReport {
        timed_out: false,
        remaining_records: remaining,
        metrics: state.metrics.snapshot_with(state.accepted),
    }
}

/// Whether a step looks once more for a record, and stops where there is none.
pub open spec fn finishes<R: RequestFields>(
    before: WorkerState<R>,
    observed: u64,
    after: WorkerState<R>,
    action: Action,
    diagnostic: Option<String>,
) -> bool {
    let s = before.received();
    &&& diagnostic is None
    &&& match before.next_log() {
        Some(log) => {
            &&& action is Continue
            &&& exists|record: SizedRecord| #[trigger]
                is_sized_mapping(record, log, observed) && after == (WorkerState {
                    pending: before.pending.push(record),
                    phase: Phase::Idle,
                    ..s
                })
        },
        None => {
            let stopped = (WorkerState { phase: Phase::Stopped, ..s }).with_metrics(
                ExporterMetrics { status: ExporterStatus::Stopped, ..s.shared.metrics },
            );
            &&& after == stopped
            &&& action == Action::Stop(report_of(stopped.shared, 0))
        },
    }
}

/// The records that are left when a worker that has failed stops: those that the export left, those
/// of the queues, and those that the worker holds outside the queues.
pub open spec fn abandoned<R: RequestFields>(state: WorkerState<R>) -> int {
    metrics::saturating_sum(
        state.retained + state.shared.metrics.normal_queue_depth
            + state.shared.metrics.reserved_queue_depth,
        state.kept() as int,
    )
}

/// Whether a step drops all records and stops.
pub open spec fn abandons<R: RequestFields>(
    before: WorkerState<R>,
    after: WorkerState<R>,
    action: Action,
    diagnostic: Option<String>,
) -> bool {
    let remaining = abandoned(before) as u64;
    let stopped = (WorkerState {
        lanes: Seq::empty(),
        first: 0,
        reserved: Seq::empty(),
        normal: Seq::empty(),
        pending: Seq::empty(),
        batch: Seq::empty(),
        encoded_len: 0,
        phase: Phase::Stopped,
        ..before
    }).with_metrics(
        ExporterMetrics {
            dropped_shutdown: before.shared.metrics.dropped_shutdown.wrapping_add(remaining),
            producer_lanes: 0,
            normal_queue_depth: 0,
            reserved_queue_depth: 0,
            inflight: 0,
            status: ExporterStatus::Stopped,
            ..before.shared.metrics
        },
    );
    &&& after == stopped
    &&& action == Action::Stop(report_of(stopped.shared, remaining))
    &&& diagnostic is None
}

/// Whether a state, an action and a diagnostic are what an event leads to.
pub open spec fn is_step<R: RequestFields>(
    limits: BatchLimits,
    before: WorkerState<R>,
    event: Event,
    clock: Clock,
    after: WorkerState<R>,
    action: Action,
    diagnostic: Option<String>,
) -> bool {
    let now = clock.unix_millis;
    match (before.phase, event) {
        (Phase::Idle, Event::Proceed) => {
            let drained = before.refreshed();
            if drained.pending.len() > 0 {
                opens(
                    limits,
                    WorkerState { pending: drained.pending.skip(1), ..drained },
                    drained.pending[0],
                    now,
                    after,
                    action,
                    diagnostic,
                )
            } else {
                match drained.next_log() {
                    Some(log) => exists|record: SizedRecord| #[trigger]
                        is_sized_mapping(record, log, clock.unix_nanos) && opens(
                            limits,
                            drained.received(),
                            record,
                            now,
                            after,
                            action,
                            diagnostic,
                        ),
                    None => if before.shutting_down {
                        finishes(drained.received(), clock.unix_nanos, after, action, diagnostic)
                    } else {
                        &&& after == (WorkerState { phase: Phase::Waiting, ..drained.received() })
                        &&& action is AwaitRecords
                        &&& diagnostic is None
                    },
                }
            }
        },
        (Phase::Waiting, Event::RecordsReady) => match before.next_log() {
            Some(log) => exists|record: SizedRecord| #[trigger]
                is_sized_mapping(record, log, clock.unix_nanos) && opens(
                    limits,
                    before.received(),
                    record,
                    now,
                    after,
                    action,
                    diagnostic,
                ),
            None => {
                &&& after == before.received()
                &&& action is AwaitRecords
                &&& diagnostic is None
            },
        },
        (Phase::Waiting, Event::ShutdownRequested) => finishes(
            WorkerState { shutting_down: true, ..before },
            clock.unix_nanos,
            after,
            action,
            diagnostic,
        ),
        (Phase::Filling, Event::Proceed) => {
            if before.batch.len() >= limits.max_records {
                seals(before, after, action, diagnostic)
            } else if before.pending.len() > 0 {
                considers(
                    limits,
                    WorkerState { pending: before.pending.skip(1), ..before },
                    before.pending[0],
                    now,
                    after,
                    action,
                    diagnostic,
                )
            } else {
                match before.next_log() {
                    Some(log) => exists|record: SizedRecord| #[trigger]
                        is_sized_mapping(record, log, clock.unix_nanos) && considers(
                            limits,
                            before.received(),
                            record,
                            now,
                            after,
                            action,
                            diagnostic,
                        ),
                    None => if before.shutting_down {
                        seals(before.received(), after, action, diagnostic)
                    } else {
                        &&& after == (WorkerState {
                            phase: Phase::FillWaiting,
                            ..before.received()
                        })
                        &&& action is AwaitMore
                        &&& diagnostic is None
                    },
                }
            }
        },
        (Phase::FillWaiting, Event::ShutdownRequested) => seals(
            WorkerState { shutting_down: true, ..before },
            after,
            action,
            diagnostic,
        ),
        (Phase::FillWaiting, Event::DeadlineReached) => seals(before, after, action, diagnostic),
        (Phase::FillWaiting, Event::RecordsReady) => match before.next_log() {
            Some(log) => exists|record: SizedRecord| #[trigger]
                is_sized_mapping(record, log, clock.unix_nanos) && considers(
                    limits,
                    before.received(),
                    record,
                    now,
                    after,
                    action,
                    diagnostic,
                ),
            None => seals(before.received(), after, action, diagnostic),
        },
        (Phase::Exporting, Event::Exported) => {
            &&& after == (WorkerState { phase: Phase::Idle, ..before }).with_metrics(
                ExporterMetrics {
                    inflight: 0,
                    status: if before.shutting_down {
                        ExporterStatus::ShuttingDown
                    } else {
                        ExporterStatus::Running
                    },
                    ..before.shared.metrics
                },
            )
            &&& action is Continue
            &&& diagnostic is None
        },
        (Phase::Exporting, Event::ExportFailed(left)) => {
            let retained = time::clamp_u64(record_count(left@));
            let failed = (WorkerState { retained, phase: Phase::Failed, ..before }).with_metrics(
                ExporterMetrics { inflight: retained, ..before.shared.metrics },
            );
            if before.shared.accepting {
                &&& after == failed
                &&& action is AwaitShutdown
                &&& diagnostic is None
            } else {
                abandons(failed, after, action, diagnostic)
            }
        },
        (Phase::Failed, Event::ShutdownRequested) => abandons(before, after, action, diagnostic),
        _ => false,
    }
}

/// The records that the worker has drained and not yet taken.
pub struct WorkerInput<R: RequestFields> {
    pub reserved: VecDeque<QueuedLog<R>>,
    pub normal: VecDeque<QueuedLog<R>>,
}

impl<R: RequestFields> WorkerInput<R> {
    pub fn new() -> (input: Self)
        ensures
            input.reserved@.len() == 0,
            input.normal@.len() == 0,
    {
        WorkerInput { reserved: VecDeque::new(), normal: VecDeque::new() }
    }

    /// Drains the lanes.
    pub fn refresh(&mut self, lanes: &mut LogCollector<R>, metrics: &mut ExporterMetrics)
        requires
            old(lanes).wf(),
        ensures
            final(lanes).wf(),
            final(lanes).same_limits(old(lanes)),
            final(lanes).next_number() == old(lanes).next_number(),
            final(lanes).strays() == old(lanes).strays(),
            collector::is_drain(
                old(lanes).lanes(),
                old(lanes).first_turn(),
                final(lanes).lanes(),
                final(lanes).first_turn(),
                old(self).reserved@,
                final(self).reserved@,
                old(self).normal@,
                final(self).normal@,
            ),
            *final(metrics) == collector::metrics_after_drain(*old(metrics), old(lanes).lanes()),
    {
        lanes.drain_into(metrics, &mut self.reserved, &mut self.normal);
    }

    /// Takes the next record: those of the reserved queue come first.
    pub fn pop_front(&mut self) -> (next: Option<QueuedLog<R>>)
        ensures
            old(self).reserved@.len() > 0 ==> next == Some(old(self).reserved@[0])
                && final(self).reserved@ == old(self).reserved@.skip(1) && final(self).normal@
                == old(self).normal@,
            old(self).reserved@.len() == 0 && old(self).normal@.len() > 0 ==> next == Some(
                old(self).normal@[0],
            ) && final(self).normal@ == old(self).normal@.skip(1) && final(self).reserved@
                == old(self).reserved@,
            old(self).reserved@.len() == 0 && old(self).normal@.len() == 0 ==> next is None
                && final(self).reserved@ == old(self).reserved@ && final(self).normal@ == old(
                self,
            ).normal@,
    {
        let ghost reserved = self.reserved@;
        let ghost normal = self.normal@;
        match self.reserved.pop_front() {
            Some(next) => {
                assert(self.reserved@ =~= reserved.skip(1));
                Some(next)
            },
            None => {
                let next = self.normal.pop_front();
                proof {
                    if normal.len() > 0 {
                        assert(self.normal@ =~= normal.skip(1));
                    } else {
                        assert(self.normal@ =~= normal);
                    }
                    assert(self.reserved@ =~= reserved);
                }
                next
            },
        }
    }

    pub fn is_empty(&self) -> (empty: bool)
        ensures
            empty == (self.reserved@.len() == 0 && self.normal@.len() == 0),
    {
        self.reserved.len() == 0 && self.normal.len() == 0
    }

    pub fn clear(&mut self)
        ensures
            final(self).reserved@ == Seq::<QueuedLog<R>>::empty(),
            final(self).normal@ == Seq::<QueuedLog<R>>::empty(),
    {
        self.reserved.clear();
        self.normal.clear();
    }
}

/// The worker of an exporter.
pub struct Worker<R: RequestFields> {
    limits: BatchLimits,
    input: WorkerInput<R>,
    pending: VecDeque<SizedRecord>,
    batch: Vec<SizedRecord>,
    encoded_len: usize,
    shutting_down: bool,
    retained: u64,
    phase: Phase,
}

/// Whether a batch is within limits: it has records, not too many of them, and its request is not
/// too large.
pub open spec fn within_limits(limits: BatchLimits, batch: Seq<SizedRecord>) -> bool {
    &&& 1 <= batch.len() <= limits.max_records
    &&& limits.admits_size(size::clamp(fields_size(batch)))
}

/// Whether the sizes of records are those of their fields.
pub open spec fn all_sized(batch: Seq<SizedRecord>) -> bool {
    forall|i: int| 0 <= i < batch.len() ==> (#[trigger] batch[i]).wf()
}

/// The records of a batch.
pub open spec fn records_of(batch: Seq<SizedRecord>) -> Seq<LogRecord> {
    batch.map_values(|sized: SizedRecord| sized.record)
}

proof fn lemma_sized_fields(batch: Seq<SizedRecord>)
    requires
        all_sized(batch),
    ensures
        fields_size(batch) == size::record_fields_size(records_of(batch)),
    decreases batch.len(),
{
    if batch.len() > 0 {
        lemma_sized_fields(batch.drop_last());
        assert(records_of(batch).drop_last() =~= records_of(batch.drop_last()));
    }
}

/// The request of a batch within its limits is not larger than they allow, for the service and the
/// scope that its sizer is for.
pub proof fn law_a_batch_within_limits_makes_a_request_within_limits(
    limits: BatchLimits,
    batch: Seq<SizedRecord>,
    service_name: Seq<char>,
    attributes: Seq<(Seq<char>, Seq<char>)>,
    scope_name: Seq<char>,
)
    requires
        within_limits(limits, batch),
        all_sized(batch),
        limits.sizer.is_for(service_name, attributes, scope_name),
    ensures
        size::request_size_of(service_name, attributes, scope_name, records_of(batch))
            <= limits.max_bytes,
{
    lemma_sized_fields(batch);
    lemma_fields_size(batch);
    size::lemma_clamped_records(
        limits.sizer.resource_field_len as int,
        limits.sizer.scope_field_len as int,
        fields_size(batch),
    );
}

impl<R: RequestFields> Worker<R> {
    /// The limits of a batch.
    pub closed spec fn bounds(&self) -> BatchLimits {
        self.limits
    }

    /// The state of the worker, of the queues and of what they share.
    pub closed spec fn state(&self, lanes: &LogCollector<R>, shared: &Shared) -> WorkerState<R> {
        WorkerState {
            lanes: lanes.lanes(),
            first: lanes.first_turn(),
            shared: *shared,
            reserved: self.input.reserved@,
            normal: self.input.normal@,
            pending: self.pending@,
            batch: self.batch@,
            encoded_len: self.encoded_len as int,
            shutting_down: self.shutting_down,
            retained: self.retained,
            phase: self.phase,
        }
    }

    /// The state of a worker changes with the queues and with what they share, and with nothing else:
    /// what was submitted or shared between two steps is what the next step finds.
    pub proof fn law_state_follows_what_is_shared(
        &self,
        lanes: &LogCollector<R>,
        shared: &Shared,
        other_lanes: &LogCollector<R>,
        other_shared: &Shared,
    )
        ensures
            self.state(other_lanes, other_shared) == (WorkerState {
                lanes: other_lanes.lanes(),
                first: other_lanes.first_turn(),
                shared: *other_shared,
                ..self.state(lanes, shared)
            }),
            self.state(lanes, shared).lanes == lanes.lanes(),
            self.state(lanes, shared).first == lanes.first_turn(),
            self.state(lanes, shared).shared == *shared,
            self.state(lanes, shared).phase == self.stands(),
    {
    }

    /// A batch is within its limits, and its size is known.
    pub closed spec fn wf(&self) -> bool {
        &&& self.limits.max_records >= 1
        &&& self.encoded_len == size::clamp(fields_size(self.batch@))
        &&& if self.phase == Phase::Filling || self.phase == Phase::FillWaiting {
            within_limits(self.limits, self.batch@)
        } else {
            self.batch@.len() == 0
        }
        &&& self.phase == Phase::FillWaiting ==> self.batch@.len() < self.limits.max_records
        &&& self.phase == Phase::Waiting ==> self.pending@.len() == 0
        &&& all_sized(self.pending@)
        &&& all_sized(self.batch@)
    }

    /// Where the worker stands.
    pub closed spec fn stands(&self) -> Phase {
        self.phase
    }

    /// Where the worker stands.
    pub fn phase(&self) -> (phase: Phase)
        ensures
            phase == self.stands(),
            forall|lanes: LogCollector<R>, shared: Shared|
                phase == (#[trigger] self.state(&lanes, &shared)).phase,
    {
        self.phase
    }

    /// The number of records that the worker holds outside the queues.
    pub fn kept(&self) -> (kept: u64)
        ensures
            forall|lanes: LogCollector<R>, shared: Shared|
                kept == time::clamp_u64((#[trigger] self.state(&lanes, &shared)).kept()),
    {
        (self.pending.len() as u64).saturating_add(self.batch.len() as u64)
    }

    /// A worker at its start.
    pub fn new(limits: BatchLimits) -> (worker: Worker<R>)
        requires
            limits.max_records >= 1,
        ensures
            worker.wf(),
            worker.bounds() == limits,
            worker.stands() == Phase::Idle,
            forall|lanes: LogCollector<R>, shared: Shared| #[trigger]
                worker.state(&lanes, &shared) == (WorkerState {
                    lanes: lanes.lanes(),
                    first: lanes.first_turn(),
                    shared,
                    reserved: Seq::empty(),
                    normal: Seq::empty(),
                    pending: Seq::empty(),
                    batch: Seq::empty(),
                    encoded_len: 0,
                    shutting_down: false,
                    retained: 0,
                    phase: Phase::Idle,
                }),
    {
        let worker = Worker {
            limits,
            input: WorkerInput::new(),
            pending: VecDeque::new(),
            batch: Vec::new(),
            encoded_len: 0,
            shutting_down: false,
            retained: 0,
            phase: Phase::Idle,
        };
        proof {
            assert forall|lanes: LogCollector<R>, shared: Shared| #[trigger]
                worker.state(&lanes, &shared) == (WorkerState::<R> {
                    lanes: lanes.lanes(),
                    first: lanes.first_turn(),
                    shared,
                    reserved: Seq::empty(),
                    normal: Seq::empty(),
                    pending: Seq::empty(),
                    batch: Seq::empty(),
                    encoded_len: 0,
                    shutting_down: false,
                    retained: 0,
                    phase: Phase::Idle,
                }) by {
                assert(worker.input.reserved@ =~= Seq::<QueuedLog<R>>::empty());
                assert(worker.input.normal@ =~= Seq::<QueuedLog<R>>::empty());
                assert(worker.pending@ =~= Seq::<SizedRecord>::empty());
                assert(worker.batch@ =~= Seq::<SizedRecord>::empty());
            }
        }
        worker
    }

    fn refresh(&mut self, lanes: &mut LogCollector<R>, shared: &mut Shared)
        requires
            old(self).wf(),
            old(lanes).wf(),
        ensures
            final(self).wf(),
            final(self).limits == old(self).limits,
            final(lanes).wf(),
            final(lanes).same_limits(old(lanes)),
            final(lanes).next_number() == old(lanes).next_number(),
            final(lanes).strays() == old(lanes).strays(),
            final(self).state(final(lanes), final(shared)) == old(self).state(
                old(lanes),
                old(shared),
            ).refreshed(),
    {
        self.input.refresh(lanes, &mut shared.metrics);
    }

    fn try_receive(&mut self, lanes: &mut LogCollector<R>, shared: &mut Shared) -> (log: Option<
        EdenLog<R>,
    >)
        requires
            old(self).wf(),
            old(lanes).wf(),
        ensures
            final(self).wf(),
            final(self).limits == old(self).limits,
            final(lanes).wf(),
            final(lanes).same_limits(old(lanes)),
            final(lanes).next_number() == old(lanes).next_number(),
            final(lanes).strays() == old(lanes).strays(),
            log == old(self).state(old(lanes), old(shared)).next_log(),
            final(self).state(final(lanes), final(shared)) == old(self).state(
                old(lanes),
                old(shared),
            ).received(),
    {
        if self.input.is_empty() {
            self.refresh(lanes, shared);
        }
        match self.input.pop_front() {
            Some(queued) => {
                lanes.release(&mut shared.metrics, queued.queue);
                Some(queued.log)
            },
            None => None,
        }
    }

    fn reject_oversize(shared: &mut Shared, now: u64) -> (diagnostic: Option<String>)
        ensures
            oversize_counted(*old(shared)).is_emergency(
                final(shared),
                now,
                oversize_text(),
                diagnostic,
            ),
    {
        shared.metrics.dropped_oversize = shared.metrics.dropped_oversize.wrapping_add(1);
        shared.metrics.rejected = shared.metrics.rejected.wrapping_add(1);
        shared.emergency(now, "an encoded log record exceeded max_batch_bytes and was dropped")
    }

    fn map_log(log: &EdenLog<R>, observed: u64) -> (record: SizedRecord)
        ensures
            is_sized_mapping(record, *log, observed),
    {
        let mapper = EdenLogOtlpMapper;
        SizedRecord::new(mapper.map(log, observed))
    }

    fn open(
        &mut self,
        lanes: &LogCollector<R>,
        shared: &mut Shared,
        record: SizedRecord,
        now: u64,
    ) -> (result: (Action, Option<String>))
        requires
            old(self).wf(),
            record.wf(),
            old(self).batch@.len() == 0,
        ensures
            final(self).wf(),
            final(self).limits == old(self).limits,
            opens(
                old(self).limits,
                old(self).state(lanes, old(shared)),
                record,
                now,
                final(self).state(lanes, final(shared)),
                result.0,
                result.1,
            ),
            !(result.0 is Export),
    {
        if self.limits.sizer.encoded_len(record.field_len) > self.limits.max_bytes {
            self.phase = Phase::Idle;
            let diagnostic = Self::reject_oversize(shared, now);
            return (Action::Continue, diagnostic);
        }
        let ghost r = record;
        self.encoded_len = record.field_len;
        self.batch.push(record);
        self.phase = Phase::Filling;
        proof {
            assert(self.batch@ =~= seq![r]);
            assert(self.batch@.drop_last() =~= Seq::<SizedRecord>::empty());
            assert(fields_size(self.batch@.drop_last()) == 0);
            assert(fields_size(self.batch@) == r.field_len);
        }
        (Action::BatchStarted, None)
    }

    fn seal(&mut self, lanes: &LogCollector<R>, shared: &mut Shared) -> (result: (
        Action,
        Option<String>,
    ))
        requires
            old(self).wf(),
            within_limits(old(self).limits, old(self).batch@),
        ensures
            final(self).wf(),
            final(self).limits == old(self).limits,
            seals(
                old(self).state(lanes, old(shared)),
                final(self).state(lanes, final(shared)),
                result.0,
                result.1,
            ),
    {
        shared.metrics.inflight = self.batch.len() as u64;
        let mut batch: Vec<SizedRecord> = Vec::new();
        std::mem::swap(&mut batch, &mut self.batch);
        self.encoded_len = 0;
        self.phase = Phase::Exporting;
        assert(self.batch@ =~= Seq::<SizedRecord>::empty());
        (Action::Export(batch), None)
    }

    fn consider(
        &mut self,
        lanes: &LogCollector<R>,
        shared: &mut Shared,
        record: SizedRecord,
        now: u64,
    ) -> (result: (Action, Option<String>))
        requires
            old(self).wf(),
            record.wf(),
            within_limits(old(self).limits, old(self).batch@),
            old(self).batch@.len() < old(self).limits.max_records,
        ensures
            final(self).wf(),
            final(self).limits == old(self).limits,
            considers(
                old(self).limits,
                old(self).state(lanes, old(shared)),
                record,
                now,
                final(self).state(lanes, final(shared)),
                result.0,
                result.1,
            ),
            result.0 matches Action::Export(batch) ==> batch@ == old(self).batch@,
    {
        if self.limits.sizer.encoded_len(record.field_len) > self.limits.max_bytes {
            self.phase = Phase::Filling;
            let diagnostic = Self::reject_oversize(shared, now);
            return (Action::Continue, diagnostic);
        }
        let ghost r = record;
        let ghost before = self.batch@;
        let grown: usize = self.encoded_len.saturating_add(record.field_len);
        if self.limits.sizer.encoded_len(grown) > self.limits.max_bytes {
            let ghost pending = self.pending@;
            self.pending.push_front(record);
            assert(self.pending@ =~= seq![r] + pending);
            return self.seal(lanes, shared);
        }
        self.encoded_len = grown;
        self.batch.push(record);
        self.phase = Phase::Filling;
        proof {
            assert(self.batch@.drop_last() =~= before);
            assert(fields_size(self.batch@) == fields_size(before) + r.field_len);
            lemma_fields_size(before);
        }
        (Action::Continue, None)
    }

    fn finish(
        &mut self,
        lanes: &mut LogCollector<R>,
        shared: &mut Shared,
        observed: u64,
    ) -> (result: (Action, Option<String>))
        requires
            old(self).wf(),
            old(self).batch@.len() == 0,
            old(lanes).wf(),
        ensures
            final(self).wf(),
            final(self).limits == old(self).limits,
            final(lanes).wf(),
            final(lanes).same_limits(old(lanes)),
            final(lanes).next_number() == old(lanes).next_number(),
            final(lanes).strays() == old(lanes).strays(),
            finishes(
                old(self).state(old(lanes), old(shared)),
                observed,
                final(self).state(final(lanes), final(shared)),
                result.0,
                result.1,
            ),
    {
        match self.try_receive(lanes, shared) {
            Some(log) => {
                let record = Self::map_log(&log, observed);
                let ghost r = record;
                self.pending.push_back(record);
                self.phase = Phase::Idle;
                assert(is_sized_mapping(r, log, observed));
                (Action::Continue, None)
            },
            None => {
                shared.set_status(ExporterStatus::Stopped);
                self.phase = Phase::Stopped;
                let report = ShutdownReport {
                    timed_out: false,
                    remaining_records: 0,
                    metrics: shared.snapshot(),
                };
                (Action::Stop(report), None)
            },
        }
    }

    fn abandon(&mut self, lanes: &mut LogCollector<R>, shared: &mut Shared) -> (result: (
        Action,
        Option<String>,
    ))
        requires
            old(self).wf(),
        ensures
            final(self).wf(),
            final(self).limits == old(self).limits,
            final(lanes).wf(),
            final(lanes).same_limits(old(lanes)),
            final(lanes).next_number() == old(lanes).next_number(),
            final(lanes).strays() == old(lanes).strays(),
            abandons(
                old(self).state(old(lanes), old(shared)),
                final(self).state(final(lanes), final(shared)),
                result.0,
                result.1,
            ),
    {
        let queued: u64 = shared.metrics.normal_queue_depth.saturating_add(
            shared.metrics.reserved_queue_depth,
        );
        let remaining: u64 = self.retained.saturating_add(queued).saturating_add(self.kept());
        shared.metrics.dropped_shutdown = shared.metrics.dropped_shutdown.wrapping_add(remaining);
        lanes.clear(&mut shared.metrics);
        self.input.clear();
        self.pending.clear();
        self.batch.clear();
        self.encoded_len = 0;
        shared.metrics.normal_queue_depth = 0;
        shared.metrics.reserved_queue_depth = 0;
        shared.metrics.inflight = 0;
        shared.set_status(ExporterStatus::Stopped);
        self.phase = Phase::Stopped;
        let report = ShutdownReport {
            timed_out: false,
            remaining_records: remaining,
            metrics: shared.snapshot(),
        };
        (Action::Stop(report), None)
    }

    fn begin(&mut self, lanes: &mut LogCollector<R>, shared: &mut Shared, clock: &Clock) -> (
        result: (Action, Option<String>))
        requires
            old(self).wf(),
            old(lanes).wf(),
            old(self).phase == Phase::Idle,
        ensures
            final(self).wf(),
            final(self).limits == old(self).limits,
            final(lanes).wf(),
            final(lanes).same_limits(old(lanes)),
            final(lanes).next_number() == old(lanes).next_number(),
            final(lanes).strays() == old(lanes).strays(),
            is_step(
                old(self).limits,
                old(self).state(old(lanes), old(shared)),
                Event::Proceed,
                *clock,
                final(self).state(final(lanes), final(shared)),
                result.0,
                result.1,
            ),
            !(result.0 is Export),
    {
        self.refresh(lanes, shared);
        let ghost drained = self.state(lanes, shared);
        match self.pending.pop_front() {
            Some(record) => {
                assert(self.pending@ =~= drained.pending.skip(1));
                self.open(lanes, shared, record, clock.unix_millis)
            },
            None => {
                assert(self.pending@ =~= drained.pending);
                match self.try_receive(lanes, shared) {
                    Some(log) => {
                        let record = Self::map_log(&log, clock.unix_nanos);
                        let ghost r = record;
                        let result = self.open(lanes, shared, record, clock.unix_millis);
                        assert(is_sized_mapping(r, log, clock.unix_nanos));
                        result
                    },
                    None => if self.shutting_down {
                        self.finish(lanes, shared, clock.unix_nanos)
                    } else {
                        self.phase = Phase::Waiting;
                        (Action::AwaitRecords, None)
                    },
                }
            },
        }
    }

    fn fill(&mut self, lanes: &mut LogCollector<R>, shared: &mut Shared, clock: &Clock) -> (
        result: (Action, Option<String>))
        requires
            old(self).wf(),
            old(lanes).wf(),
            old(self).phase == Phase::Filling,
        ensures
            final(self).wf(),
            final(self).limits == old(self).limits,
            final(lanes).wf(),
            final(lanes).same_limits(old(lanes)),
            final(lanes).next_number() == old(lanes).next_number(),
            final(lanes).strays() == old(lanes).strays(),
            is_step(
                old(self).limits,
                old(self).state(old(lanes), old(shared)),
                Event::Proceed,
                *clock,
                final(self).state(final(lanes), final(shared)),
                result.0,
                result.1,
            ),
            result.0 matches Action::Export(batch) ==> {
                &&& within_limits(old(self).limits, batch@)
                &&& all_sized(batch@)
            },
    {
        if self.batch.len() >= self.limits.max_records {
            return self.seal(lanes, shared);
        }
        let ghost before = self.pending@;
        match self.pending.pop_front() {
            Some(record) => {
                assert(self.pending@ =~= before.skip(1));
                self.consider(lanes, shared, record, clock.unix_millis)
            },
            None => {
                assert(self.pending@ =~= before);
                match self.try_receive(lanes, shared) {
                    Some(log) => {
                        let record = Self::map_log(&log, clock.unix_nanos);
                        let ghost r = record;
                        let result = self.consider(lanes, shared, record, clock.unix_millis);
                        assert(is_sized_mapping(r, log, clock.unix_nanos));
                        result
                    },
                    None => if self.shutting_down {
                        self.seal(lanes, shared)
                    } else {
                        self.phase = Phase::FillWaiting;
                        (Action::AwaitMore, None)
                    },
                }
            },
        }
    }

    /// Takes an event, with readings of the clock. Gives the action that follows, and a diagnostic
    /// where one is due.
    pub fn step_at(
        &mut self,
        lanes: &mut LogCollector<R>,
        shared: &mut Shared,
        event: Event,
        clock: &Clock,
    ) -> (result: (Action, Option<String>))
        requires
            old(self).wf(),
            old(lanes).wf(),
            expects(old(self).stands(), event),
        ensures
            final(self).wf(),
            final(self).bounds() == old(self).bounds(),
            final(lanes).wf(),
            final(lanes).same_limits(old(lanes)),
            final(lanes).next_number() == old(lanes).next_number(),
            final(lanes).strays() == old(lanes).strays(),
            is_step(
                old(self).bounds(),
                old(self).state(old(lanes), old(shared)),
                event,
                *clock,
                final(self).state(final(lanes), final(shared)),
                result.0,
                result.1,
            ),
            old(self).stands() == old(self).state(old(lanes), old(shared)).phase,
            final(self).stands() == final(self).state(final(lanes), final(shared)).phase,
            batch_in_place(old(self).state(old(lanes), old(shared))),
            batch_in_place(final(self).state(final(lanes), final(shared))),
            result.0 matches Action::Export(batch) ==> {
                &&& within_limits(old(self).bounds(), batch@)
                &&& all_sized(batch@)
            },
            result.0 is Stop ==> final(self).state(final(lanes), final(shared)).held() == 0,
    {
        proof {
            let before = self.state(lanes, shared);
            lemma_finish_leaves_nothing(before.refreshed());
            lemma_finish_leaves_nothing(before.refreshed().received());
            lemma_finish_leaves_nothing(WorkerState { shutting_down: true, ..before });
        }
        match (self.phase, event) {
            (Phase::Idle, Event::Proceed) => self.begin(lanes, shared, clock),
            (Phase::Filling, Event::Proceed) => self.fill(lanes, shared, clock),
            (Phase::Waiting, Event::RecordsReady) => match self.try_receive(lanes, shared) {
                Some(log) => {
                    let record = Self::map_log(&log, clock.unix_nanos);
                    let ghost r = record;
                    let result = self.open(lanes, shared, record, clock.unix_millis);
                    assert(is_sized_mapping(r, log, clock.unix_nanos));
                    result
                },
                None => (Action::AwaitRecords, None),
            },
            (Phase::Waiting, Event::ShutdownRequested) => {
                self.shutting_down = true;
                self.finish(lanes, shared, clock.unix_nanos)
            },
            (Phase::FillWaiting, Event::ShutdownRequested) => {
                self.shutting_down = true;
                self.seal(lanes, shared)
            },
            (Phase::FillWaiting, Event::DeadlineReached) => self.seal(lanes, shared),
            (Phase::FillWaiting, Event::RecordsReady) => self.fill_waiting(lanes, shared, clock),
            (Phase::Exporting, Event::Exported) => {
                shared.metrics.inflight = 0;
                if self.shutting_down {
                    shared.set_status(ExporterStatus::ShuttingDown);
                } else {
                    shared.set_status(ExporterStatus::Running);
                }
                self.phase = Phase::Idle;
                (Action::Continue, None)
            },
            (Phase::Exporting, Event::ExportFailed(left)) => {
                let retained: u64 = count_records(&left);
                self.retained = retained;
                shared.metrics.inflight = retained;
                self.phase = Phase::Failed;
                if shared.accepting {
                    (Action::AwaitShutdown, None)
                } else {
                    self.abandon(lanes, shared)
                }
            },
            (Phase::Failed, Event::ShutdownRequested) => self.abandon(lanes, shared),
            _ => {
                assert(false);
                (Action::Continue, None)
            },
        }
    }

    fn fill_waiting(&mut self, lanes: &mut LogCollector<R>, shared: &mut Shared, clock: &Clock) -> (
        result: (Action, Option<String>))
        requires
            old(self).wf(),
            old(lanes).wf(),
            old(self).phase == Phase::FillWaiting,
        ensures
            final(self).wf(),
            final(self).limits == old(self).limits,
            final(lanes).wf(),
            final(lanes).same_limits(old(lanes)),
            final(lanes).next_number() == old(lanes).next_number(),
            final(lanes).strays() == old(lanes).strays(),
            is_step(
                old(self).limits,
                old(self).state(old(lanes), old(shared)),
                Event::RecordsReady,
                *clock,
                final(self).state(final(lanes), final(shared)),
                result.0,
                result.1,
            ),
            result.0 matches Action::Export(batch) ==> {
                &&& within_limits(old(self).limits, batch@)
                &&& all_sized(batch@)
            },
    {
        match self.try_receive(lanes, shared) {
            Some(log) => {
                let record = Self::map_log(&log, clock.unix_nanos);
                let ghost r = record;
                let result = self.consider(lanes, shared, record, clock.unix_millis);
                assert(is_sized_mapping(r, log, clock.unix_nanos));
                result
            },
            None => self.seal(lanes, shared),
        }
    }

    /// Takes an event at the current time. Gives the action that follows, and a diagnostic where one
    /// is due.
    pub fn step(
        &mut self,
        lanes: &mut LogCollector<R>,
        shared: &mut Shared,
        event: Event,
    ) -> (result: (Action, Option<String>))
        requires
            old(self).wf(),
            old(lanes).wf(),
            expects(old(self).stands(), event),
        ensures
            final(self).wf(),
            final(self).bounds() == old(self).bounds(),
            final(lanes).wf(),
            final(lanes).same_limits(old(lanes)),
            final(lanes).next_number() == old(lanes).next_number(),
            final(lanes).strays() == old(lanes).strays(),
            exists|clock: Clock|
                call_ensures(Clock::now, (), clock) && #[trigger] is_step(
                    old(self).bounds(),
                    old(self).state(old(lanes), old(shared)),
                    event,
                    clock,
                    final(self).state(final(lanes), final(shared)),
                    result.0,
                    result.1,
                ),
            old(self).stands() == old(self).state(old(lanes), old(shared)).phase,
            final(self).stands() == final(self).state(final(lanes), final(shared)).phase,
            batch_in_place(old(self).state(old(lanes), old(shared))),
            batch_in_place(final(self).state(final(lanes), final(shared))),
            result.0 matches Action::Export(batch) ==> {
                &&& within_limits(old(self).bounds(), batch@)
                &&& all_sized(batch@)
            },
            result.0 is Stop ==> final(self).state(final(lanes), final(shared)).held() == 0,
    {
        let clock = Clock::now();
        self.step_at(lanes, shared, event, &clock)
    }
}

proof fn lemma_fields_size(records: Seq<SizedRecord>)
    ensures
        fields_size(records) >= 0,
    decreases records.len(),
{
    if records.len() > 0 {
        lemma_fields_size(records.drop_last());
    }
}

fn count_records(batches: &Vec<Vec<SizedRecord>>) -> (count: u64)
    ensures
        count == time::clamp_u64(record_count(batches@)),
{
    let mut count: u64 = 0;
    let mut i: usize = 0;
    assert(batches@.take(0) =~= Seq::<Vec<SizedRecord>>::empty());
    while i < batches.len()
        invariant
            i <= batches@.len(),
            count == time::clamp_u64(record_count(batches@.take(i as int))),
        decreases batches@.len() - i,
    {
        assert(batches@.take(i + 1).drop_last() =~= batches@.take(i as int));
        count = count.saturating_add(batches[i].len() as u64);
        i = i + 1;
    }
    assert(batches@.take(i as int) =~= batches@);
    count
}

proof fn lemma_refresh_keeps_records<R: RequestFields>(state: WorkerState<R>)
    ensures
        state.refreshed().held() == state.held(),
        state.gauges_are_right() ==> state.refreshed().gauges_are_right(),
{
    let after = state.refreshed();
    collector::law_drains_move_everything(
        state.lanes,
        state.first,
        after.lanes,
        after.first,
        state.reserved,
        after.reserved,
        state.normal,
        after.normal,
    );
    if state.gauges_are_right() {
        assert forall|i: int| 0 <= i < after.normal.len() implies (#[trigger] after.normal[i]).queue
            == QueueKind::Normal by {
            if i < state.normal.len() {
                assert(after.normal[i] == state.normal[i]);
            }
        }
        assert forall|i: int| 0 <= i < after.reserved.len() implies (
        #[trigger] after.reserved[i]).queue == QueueKind::Reserved by {
            if i < state.reserved.len() {
                assert(after.reserved[i] == state.reserved[i]);
            }
        }
    }
}

proof fn lemma_receive_takes_one<R: RequestFields>(state: WorkerState<R>)
    ensures
        state.next_log() is Some ==> state.received().held() + 1 == state.held(),
        state.next_log() is None ==> state.received().held() == state.held(),
        state.gauges_are_right() ==> state.received().gauges_are_right(),
        state.received().pending == state.pending,
        state.received().batch == state.batch,
        state.received().phase == state.phase,
        state.received().encoded_len == state.encoded_len,
        state.received().shared.metrics.dropped_oversize == state.shared.metrics.dropped_oversize,
        state.received().shared.accepting == state.shared.accepting,
{
    lemma_refresh_keeps_records(state);
    let s = state.supplied();
    let after = state.received();
    if state.gauges_are_right() {
        assert(s.gauges_are_right());
        if s.reserved.len() > 0 {
            assert(s.reserved[0].queue == QueueKind::Reserved);
            assert forall|i: int| 0 <= i < after.reserved.len() implies (
            #[trigger] after.reserved[i]).queue == QueueKind::Reserved by {
                assert(after.reserved[i] == s.reserved[i + 1]);
            }
        } else if s.normal.len() > 0 {
            assert(s.normal[0].queue == QueueKind::Normal);
            assert forall|i: int| 0 <= i < after.normal.len() implies (
            #[trigger] after.normal[i]).queue == QueueKind::Normal by {
                assert(after.normal[i] == s.normal[i + 1]);
            }
        }
    }
}

proof fn lemma_finish_leaves_nothing<R: RequestFields>(state: WorkerState<R>)
    ensures
        state.next_log() is None && state.pending.len() == 0 && state.batch.len() == 0
            ==> state.received().held() == 0,
{
    if state.next_log() is None && state.pending.len() == 0 && state.batch.len() == 0 {
        lemma_receive_takes_one(state);
        let s = state.supplied();
        assert(s.reserved.len() == 0 && s.normal.len() == 0);
        assert(state.reserved.len() == 0 && state.normal.len() == 0) by {
            if state.reserved.len() > 0 || state.normal.len() > 0 {
                assert(s == state);
            }
        }
        let after = state.refreshed();
        assert(s == after);
        collector::law_drains_move_everything(
            state.lanes,
            state.first,
            after.lanes,
            after.first,
            state.reserved,
            after.reserved,
            state.normal,
            after.normal,
        );
    }
}

/// The number of records that an action puts out for export.
pub open spec fn put_out(action: Action) -> nat {
    match action {
        Action::Export(batch) => batch@.len(),
        _ => 0,
    }
}

/// Until an export fails for good, no step loses or invents a record: what the queues and the worker
/// held they still hold, but for a batch that is put out for export and for a record that is dropped
/// as too large and counted as such.
pub proof fn law_steps_account_for_every_record<R: RequestFields>(
    limits: BatchLimits,
    before: WorkerState<R>,
    event: Event,
    clock: Clock,
    after: WorkerState<R>,
    action: Action,
    diagnostic: Option<String>,
)
    requires
        is_step(limits, before, event, clock, after, action, diagnostic),
        !(event is ExportFailed),
        before.phase != Phase::Failed,
        before.phase == Phase::Idle || before.phase == Phase::Waiting ==> before.batch.len() == 0,
    ensures
        after.shared.metrics.dropped_oversize == before.shared.metrics.dropped_oversize
            ==> after.held() + put_out(action) == before.held(),
        after.shared.metrics.dropped_oversize != before.shared.metrics.dropped_oversize
            ==> after.held() + put_out(action) + 1 == before.held()
            && after.shared.metrics.dropped_oversize
            == before.shared.metrics.dropped_oversize.wrapping_add(1),
{
    let drained = before.refreshed();
    lemma_refresh_keeps_records(before);
    match (before.phase, event) {
        (Phase::Idle, Event::Proceed) => {
            if drained.pending.len() > 0 {
                let taken = WorkerState { pending: drained.pending.skip(1), ..drained };
                lemma_opens_accounts(
                    limits,
                    taken,
                    drained.pending[0],
                    clock.unix_millis,
                    after,
                    action,
                    diagnostic,
                );
            } else {
                lemma_receive_takes_one(drained);
                match drained.next_log() {
                    Some(log) => {
                        let record = choose|record: SizedRecord| #[trigger]
                            is_sized_mapping(record, log, clock.unix_nanos) && opens(
                                limits,
                                drained.received(),
                                record,
                                clock.unix_millis,
                                after,
                                action,
                                diagnostic,
                            );
                        lemma_opens_accounts(
                            limits,
                            drained.received(),
                            record,
                            clock.unix_millis,
                            after,
                            action,
                            diagnostic,
                        );
                    },
                    None => {
                        if before.shutting_down {
                            lemma_finishes_accounts(
                                drained.received(),
                                clock.unix_nanos,
                                after,
                                action,
                                diagnostic,
                            );
                        }
                    },
                }
            }
        },
        (Phase::Waiting, Event::RecordsReady) => {
            lemma_receive_takes_one(before);
            if let Some(log) = before.next_log() {
                let record = choose|record: SizedRecord| #[trigger]
                    is_sized_mapping(record, log, clock.unix_nanos) && opens(
                        limits,
                        before.received(),
                        record,
                        clock.unix_millis,
                        after,
                        action,
                        diagnostic,
                    );
                lemma_opens_accounts(
                    limits,
                    before.received(),
                    record,
                    clock.unix_millis,
                    after,
                    action,
                    diagnostic,
                );
            }
        },
        (Phase::Waiting, Event::ShutdownRequested) => {
            let asked = WorkerState { shutting_down: true, ..before };
            lemma_finishes_accounts(asked, clock.unix_nanos, after, action, diagnostic);
        },
        (Phase::Filling, Event::Proceed) => {
            if before.batch.len() >= limits.max_records {
            } else if before.pending.len() > 0 {
                let taken = WorkerState { pending: before.pending.skip(1), ..before };
                lemma_considers_accounts(
                    limits,
                    taken,
                    before.pending[0],
                    clock.unix_millis,
                    after,
                    action,
                    diagnostic,
                );
            } else {
                lemma_receive_takes_one(before);
                if let Some(log) = before.next_log() {
                    let record = choose|record: SizedRecord| #[trigger]
                        is_sized_mapping(record, log, clock.unix_nanos) && considers(
                            limits,
                            before.received(),
                            record,
                            clock.unix_millis,
                            after,
                            action,
                            diagnostic,
                        );
                    lemma_considers_accounts(
                        limits,
                        before.received(),
                        record,
                        clock.unix_millis,
                        after,
                        action,
                        diagnostic,
                    );
                }
            }
        },
        (Phase::FillWaiting, Event::RecordsReady) => {
            lemma_receive_takes_one(before);
            if let Some(log) = before.next_log() {
                let record = choose|record: SizedRecord| #[trigger]
                    is_sized_mapping(record, log, clock.unix_nanos) && considers(
                        limits,
                        before.received(),
                        record,
                        clock.unix_millis,
                        after,
                        action,
                        diagnostic,
                    );
                lemma_considers_accounts(
                    limits,
                    before.received(),
                    record,
                    clock.unix_millis,
                    after,
                    action,
                    diagnostic,
                );
            }
        },
        _ => {},
    }
}

/// Whether a state and an action account for a number of records: those that are dropped as too
/// large are counted.
spec fn accounts<R: RequestFields>(
    records: nat,
    dropped: u64,
    after: WorkerState<R>,
    action: Action,
) -> bool {
    if after.shared.metrics.dropped_oversize == dropped {
        after.held() + put_out(action) == records
    } else {
        after.held() + put_out(action) + 1 == records && after.shared.metrics.dropped_oversize
            == dropped.wrapping_add(1)
    }
}

proof fn lemma_opens_accounts<R: RequestFields>(
    limits: BatchLimits,
    before: WorkerState<R>,
    record: SizedRecord,
    now: u64,
    after: WorkerState<R>,
    action: Action,
    diagnostic: Option<String>,
)
    requires
        opens(limits, before, record, now, after, action, diagnostic),
        before.batch.len() == 0,
    ensures
        accounts(before.held() + 1, before.shared.metrics.dropped_oversize, after, action),
{
}

proof fn lemma_considers_accounts<R: RequestFields>(
    limits: BatchLimits,
    before: WorkerState<R>,
    record: SizedRecord,
    now: u64,
    after: WorkerState<R>,
    action: Action,
    diagnostic: Option<String>,
)
    requires
        considers(limits, before, record, now, after, action, diagnostic),
    ensures
        accounts(before.held() + 1, before.shared.metrics.dropped_oversize, after, action),
{
}

proof fn lemma_finishes_accounts<R: RequestFields>(
    before: WorkerState<R>,
    observed: u64,
    after: WorkerState<R>,
    action: Action,
    diagnostic: Option<String>,
)
    requires
        finishes(before, observed, after, action, diagnostic),
    ensures
        accounts(before.held(), before.shared.metrics.dropped_oversize, after, action),
{
    lemma_receive_takes_one(before);
}

/// The records that an export which failed for good has left, as an event or the state says.
pub open spec fn left_by_failure<R: RequestFields>(before: WorkerState<R>, event: Event) -> nat {
    match event {
        Event::ExportFailed(left) => record_count(left@),
        _ => before.retained as nat,
    }
}

/// A worker that stops after an export failed for good reports, and counts as dropped, exactly the
/// records of that export and those that the queues and the worker still hold, and holds none any
/// more.
pub proof fn law_stopping_after_a_failure_counts_what_is_left<R: RequestFields>(
    limits: BatchLimits,
    before: WorkerState<R>,
    event: Event,
    clock: Clock,
    after: WorkerState<R>,
    report: ShutdownReport,
    diagnostic: Option<String>,
)
    requires
        is_step(limits, before, event, clock, after, Action::Stop(report), diagnostic),
        before.phase == Phase::Exporting || before.phase == Phase::Failed,
        before.gauges_are_right(),
        left_by_failure(before, event) + before.held() <= u64::MAX,
    ensures
        report.remaining_records == left_by_failure(before, event) + before.held(),
        !report.timed_out,
        after.held() == 0,
        after.shared.metrics.dropped_shutdown
            == before.shared.metrics.dropped_shutdown.wrapping_add(report.remaining_records),
        report.metrics == after.shared.metrics.snapshot_with(after.shared.accepted),
{
    assert(collector::normals(after.lanes) =~= Seq::<Seq<EdenLog<R>>>::empty());
    assert(collector::reserveds(after.lanes) =~= Seq::<Seq<EdenLog<R>>>::empty());
}

/// The gauges of the queues always say how many records the queues hold.
pub proof fn law_gauges_stay_right<R: RequestFields>(
    limits: BatchLimits,
    before: WorkerState<R>,
    event: Event,
    clock: Clock,
    after: WorkerState<R>,
    action: Action,
    diagnostic: Option<String>,
)
    requires
        is_step(limits, before, event, clock, after, action, diagnostic),
        before.gauges_are_right(),
    ensures
        after.gauges_are_right(),
{
    let drained = before.refreshed();
    let asked = WorkerState { shutting_down: true, ..before };
    lemma_step_queues(limits, before, event, clock, after, action, diagnostic);
    lemma_refresh_keeps_records(before);
    lemma_receive_takes_one(before);
    lemma_receive_takes_one(drained);
    lemma_receive_takes_one(drained.received());
    lemma_same_queues(asked, before);
    lemma_receive_takes_one(asked);
    if same_queues(after, before) {
        lemma_same_queues(after, before);
    } else if same_queues(after, before.received()) {
        lemma_same_queues(after, before.received());
    } else if same_queues(after, drained) {
        lemma_same_queues(after, drained);
    } else if same_queues(after, drained.received()) {
        lemma_same_queues(after, drained.received());
    } else if same_queues(after, drained.received().received()) {
        lemma_same_queues(after, drained.received().received());
    } else if same_queues(after, asked.received()) {
        lemma_same_queues(after, asked.received());
    } else {
        assert(collector::normals(after.lanes) =~= Seq::<Seq<EdenLog<R>>>::empty());
        assert(collector::reserveds(after.lanes) =~= Seq::<Seq<EdenLog<R>>>::empty());
    }
}

proof fn lemma_same_queues<R: RequestFields>(a: WorkerState<R>, b: WorkerState<R>)
    requires
        same_queues(a, b),
    ensures
        b.gauges_are_right() ==> a.gauges_are_right(),
{
}

/// Whether the queues are empty, and their gauges at zero.
spec fn no_queues<R: RequestFields>(state: WorkerState<R>) -> bool {
    &&& state.lanes.len() == 0
    &&& state.normal.len() == 0
    &&& state.reserved.len() == 0
    &&& state.shared.metrics.normal_queue_depth == 0
    &&& state.shared.metrics.reserved_queue_depth == 0
}

proof fn lemma_step_queues<R: RequestFields>(
    limits: BatchLimits,
    before: WorkerState<R>,
    event: Event,
    clock: Clock,
    after: WorkerState<R>,
    action: Action,
    diagnostic: Option<String>,
)
    requires
        is_step(limits, before, event, clock, after, action, diagnostic),
    ensures
        ({
            let drained = before.refreshed();
            let asked = WorkerState { shutting_down: true, ..before };
            ||| same_queues(after, before)
            ||| same_queues(after, before.received())
            ||| same_queues(after, drained)
            ||| same_queues(after, drained.received())
            ||| same_queues(after, drained.received().received())
            ||| same_queues(after, asked.received())
            ||| no_queues(after)
        }),
{
    let drained = before.refreshed();
    let now = clock.unix_millis;
    match (before.phase, event) {
        (Phase::Idle, Event::Proceed) => {
            if drained.pending.len() > 0 {
                let taken = WorkerState { pending: drained.pending.skip(1), ..drained };
                lemma_opens_queues(
                    limits,
                    taken,
                    drained.pending[0],
                    now,
                    after,
                    action,
                    diagnostic,
                );
            } else {
                match drained.next_log() {
                    Some(log) => {
                        let record = choose|record: SizedRecord| #[trigger]
                            is_sized_mapping(record, log, clock.unix_nanos) && opens(
                                limits,
                                drained.received(),
                                record,
                                now,
                                after,
                                action,
                                diagnostic,
                            );
                        lemma_opens_queues(
                            limits,
                            drained.received(),
                            record,
                            now,
                            after,
                            action,
                            diagnostic,
                        );
                    },
                    None => {
                        if before.shutting_down {
                            lemma_finishes_queues(
                                drained.received(),
                                clock.unix_nanos,
                                after,
                                action,
                                diagnostic,
                            );
                        }
                    },
                }
            }
        },
        (Phase::Waiting, Event::RecordsReady) => {
            if let Some(log) = before.next_log() {
                let record = choose|record: SizedRecord| #[trigger]
                    is_sized_mapping(record, log, clock.unix_nanos) && opens(
                        limits,
                        before.received(),
                        record,
                        now,
                        after,
                        action,
                        diagnostic,
                    );
                lemma_opens_queues(
                    limits,
                    before.received(),
                    record,
                    now,
                    after,
                    action,
                    diagnostic,
                );
            }
        },
        (Phase::Waiting, Event::ShutdownRequested) => {
            let asked = WorkerState { shutting_down: true, ..before };
            lemma_finishes_queues(asked, clock.unix_nanos, after, action, diagnostic);
        },
        (Phase::Filling, Event::Proceed) => {
            if before.batch.len() >= limits.max_records {
            } else if before.pending.len() > 0 {
                let taken = WorkerState { pending: before.pending.skip(1), ..before };
                lemma_considers_queues(
                    limits,
                    taken,
                    before.pending[0],
                    now,
                    after,
                    action,
                    diagnostic,
                );
            } else {
                if let Some(log) = before.next_log() {
                    let record = choose|record: SizedRecord| #[trigger]
                        is_sized_mapping(record, log, clock.unix_nanos) && considers(
                            limits,
                            before.received(),
                            record,
                            now,
                            after,
                            action,
                            diagnostic,
                        );
                    lemma_considers_queues(
                        limits,
                        before.received(),
                        record,
                        now,
                        after,
                        action,
                        diagnostic,
                    );
                }
            }
        },
        (Phase::FillWaiting, Event::RecordsReady) => {
            if let Some(log) = before.next_log() {
                let record = choose|record: SizedRecord| #[trigger]
                    is_sized_mapping(record, log, clock.unix_nanos) && considers(
                        limits,
                        before.received(),
                        record,
                        now,
                        after,
                        action,
                        diagnostic,
                    );
                lemma_considers_queues(
                    limits,
                    before.received(),
                    record,
                    now,
                    after,
                    action,
                    diagnostic,
                );
            }
        },
        _ => {},
    }
}

proof fn lemma_opens_queues<R: RequestFields>(
    limits: BatchLimits,
    before: WorkerState<R>,
    record: SizedRecord,
    now: u64,
    after: WorkerState<R>,
    action: Action,
    diagnostic: Option<String>,
)
    requires
        opens(limits, before, record, now, after, action, diagnostic),
    ensures
        same_queues(after, before),
{
}

proof fn lemma_considers_queues<R: RequestFields>(
    limits: BatchLimits,
    before: WorkerState<R>,
    record: SizedRecord,
    now: u64,
    after: WorkerState<R>,
    action: Action,
    diagnostic: Option<String>,
)
    requires
        considers(limits, before, record, now, after, action, diagnostic),
    ensures
        same_queues(after, before),
{
}

/// Whether two states have the same queues, with the same gauges.
spec fn same_queues<R: RequestFields>(a: WorkerState<R>, b: WorkerState<R>) -> bool {
    &&& a.lanes == b.lanes
    &&& a.normal == b.normal
    &&& a.reserved == b.reserved
    &&& a.shared.metrics.normal_queue_depth == b.shared.metrics.normal_queue_depth
    &&& a.shared.metrics.reserved_queue_depth == b.shared.metrics.reserved_queue_depth
}

proof fn lemma_finishes_queues<R: RequestFields>(
    before: WorkerState<R>,
    observed: u64,
    after: WorkerState<R>,
    action: Action,
    diagnostic: Option<String>,
)
    requires
        finishes(before, observed, after, action, diagnostic),
    ensures
        same_queues(after, before.received()),
{
}

/// A request for shutdown is never forgotten: the step that takes it ends the worker or leaves it
/// shutting down, and every later step keeps it so. A worker that is shutting down waits neither for
/// records nor for the deadline of a batch, and is never left waiting for records.
pub proof fn law_a_request_for_shutdown_is_never_forgotten<R: RequestFields>(
    limits: BatchLimits,
    before: WorkerState<R>,
    event: Event,
    clock: Clock,
    after: WorkerState<R>,
    action: Action,
    diagnostic: Option<String>,
)
    requires
        is_step(limits, before, event, clock, after, action, diagnostic),
        before.shutting_down ==> before.phase != Phase::Waiting,
    ensures
        event is ShutdownRequested ==> after.shutting_down || after.phase == Phase::Stopped,
        before.shutting_down ==> after.shutting_down,
        before.shutting_down ==> !(action is AwaitRecords) && !(action is AwaitMore),
        after.shutting_down ==> after.phase != Phase::Waiting && after.phase
            != Phase::FillWaiting,
{
    let drained = before.refreshed();
    let nanos = clock.unix_nanos;
    let now = clock.unix_millis;
    lemma_receiving_keeps_the_rest(before);
    lemma_receiving_keeps_the_rest(drained);
    match (before.phase, event) {
        (Phase::Idle, Event::Proceed) => {
            if drained.pending.len() > 0 {
                let taken = WorkerState { pending: drained.pending.skip(1), ..drained };
                lemma_opens_keeps(limits, taken, drained.pending[0], now, after, action, diagnostic);
            } else if let Some(log) = drained.next_log() {
                let s = drained.received();
                let record = choose|record: SizedRecord| #[trigger]
                    is_sized_mapping(record, log, nanos) && opens(
                        limits,
                        s,
                        record,
                        now,
                        after,
                        action,
                        diagnostic,
                    );
                lemma_opens_keeps(limits, s, record, now, after, action, diagnostic);
            } else if before.shutting_down {
                lemma_finishes_keeps(drained.received(), nanos, after, action, diagnostic);
            }
        },
        (Phase::Waiting, Event::RecordsReady) => {
            if let Some(log) = before.next_log() {
                let s = before.received();
                let record = choose|record: SizedRecord| #[trigger]
                    is_sized_mapping(record, log, nanos) && opens(
                        limits,
                        s,
                        record,
                        now,
                        after,
                        action,
                        diagnostic,
                    );
                lemma_opens_keeps(limits, s, record, now, after, action, diagnostic);
            }
        },
        (Phase::Waiting, Event::ShutdownRequested) => {
            let asked = WorkerState { shutting_down: true, ..before };
            lemma_finishes_keeps(asked, nanos, after, action, diagnostic);
        },
        (Phase::Filling, Event::Proceed) => {
            if before.batch.len() >= limits.max_records {
            } else if before.pending.len() > 0 {
                let taken = WorkerState { pending: before.pending.skip(1), ..before };
                lemma_considers_keeps(
                    limits,
                    taken,
                    before.pending[0],
                    now,
                    after,
                    action,
                    diagnostic,
                );
            } else if let Some(log) = before.next_log() {
                let s = before.received();
                let record = choose|record: SizedRecord| #[trigger]
                    is_sized_mapping(record, log, nanos) && considers(
                        limits,
                        s,
                        record,
                        now,
                        after,
                        action,
                        diagnostic,
                    );
                lemma_considers_keeps(limits, s, record, now, after, action, diagnostic);
            }
        },
        (Phase::FillWaiting, Event::RecordsReady) => {
            if let Some(log) = before.next_log() {
                let s = before.received();
                let record = choose|record: SizedRecord| #[trigger]
                    is_sized_mapping(record, log, nanos) && considers(
                        limits,
                        s,
                        record,
                        now,
                        after,
                        action,
                        diagnostic,
                    );
                lemma_considers_keeps(limits, s, record, now, after, action, diagnostic);
            }
        },
        _ => {},
    }
}

proof fn lemma_opens_keeps<R: RequestFields>(
    limits: BatchLimits,
    before: WorkerState<R>,
    record: SizedRecord,
    now: u64,
    after: WorkerState<R>,
    action: Action,
    diagnostic: Option<String>,
)
    requires
        opens(limits, before, record, now, after, action, diagnostic),
    ensures
        after.shutting_down == before.shutting_down,
        after.phase == Phase::Idle || after.phase == Phase::Filling,
        action is Continue || action is BatchStarted,
{
}

proof fn lemma_considers_keeps<R: RequestFields>(
    limits: BatchLimits,
    before: WorkerState<R>,
    record: SizedRecord,
    now: u64,
    after: WorkerState<R>,
    action: Action,
    diagnostic: Option<String>,
)
    requires
        considers(limits, before, record, now, after, action, diagnostic),
    ensures
        after.shutting_down == before.shutting_down,
        after.phase == Phase::Exporting || after.phase == Phase::Filling,
        action is Continue || action is Export,
{
}

proof fn lemma_finishes_keeps<R: RequestFields>(
    before: WorkerState<R>,
    observed: u64,
    after: WorkerState<R>,
    action: Action,
    diagnostic: Option<String>,
)
    requires
        finishes(before, observed, after, action, diagnostic),
    ensures
        after.shutting_down == before.shutting_down,
        after.phase == Phase::Idle || after.phase == Phase::Stopped,
        action is Continue || action is Stop,
{
    lemma_receiving_keeps_the_rest(before);
}

proof fn lemma_receiving_keeps_the_rest<R: RequestFields>(state: WorkerState<R>)
    ensures
        state.received().shutting_down == state.shutting_down,
        state.received().retained == state.retained,
        state.received().phase == state.phase,
        state.received().pending == state.pending,
        state.received().batch == state.batch,
{
}

/// A bound on the number of steps in which a worker that is shutting down comes to its end: three
/// for each record that is in no batch yet, and those of the batch at hand.
pub open spec fn steps_left<R: RequestFields>(state: WorkerState<R>) -> int {
    3 * (state.held() - state.batch.len()) + match state.phase {
        Phase::Idle => 1int,
        Phase::Exporting => 2,
        Phase::Waiting => 2,
        Phase::Filling => 3,
        Phase::FillWaiting => 3,
        _ => 0,
    }
}

/// Whether the batch of a state is empty but while it is filled.
pub open spec fn batch_in_place<R: RequestFields>(state: WorkerState<R>) -> bool {
    state.batch.len() > 0 ==> state.phase == Phase::Filling || state.phase == Phase::FillWaiting
}

/// Each step of a worker that is shutting down, as long as exports are settled, stops it or brings it
/// nearer to its end.
#[verifier::rlimit(30)]
pub proof fn law_shutting_down_goes_forward<R: RequestFields>(
    limits: BatchLimits,
    before: WorkerState<R>,
    event: Event,
    clock: Clock,
    after: WorkerState<R>,
    action: Action,
    diagnostic: Option<String>,
)
    requires
        is_step(limits, before, event, clock, after, action, diagnostic),
        before.shutting_down,
        before.phase != Phase::Waiting,
        before.phase != Phase::Failed,
        batch_in_place(before),
        !(event is ExportFailed),
    ensures
        steps_left(after) >= 0,
        action is Stop || steps_left(after) < steps_left(before),
        action is Stop <==> after.phase == Phase::Stopped,
        after.phase != Phase::Failed,
        batch_in_place(after),
{
    let drained = before.refreshed();
    law_a_request_for_shutdown_is_never_forgotten(
        limits,
        before,
        event,
        clock,
        after,
        action,
        diagnostic,
    );
    law_steps_account_for_every_record(limits, before, event, clock, after, action, diagnostic);
    lemma_refresh_keeps_records(before);
    lemma_receive_takes_one(before);
    lemma_receive_takes_one(drained);
    if before.phase == Phase::Idle && drained.pending.len() == 0 && drained.next_log() is None {
        lemma_nothing_follows_a_drain(before);
    }
}

proof fn lemma_nothing_follows_a_drain<R: RequestFields>(state: WorkerState<R>)
    requires
        state.refreshed().next_log() is None,
    ensures
        state.refreshed().received().next_log() is None,
{
    let drained = state.refreshed();
    let empty = drained.received();
    lemma_receive_takes_one(drained);
    lemma_finish_leaves_nothing(WorkerState { pending: Seq::empty(), batch: Seq::empty(), ..drained });
    let bare = WorkerState { pending: Seq::<SizedRecord>::empty(), batch: Seq::<SizedRecord>::empty(), ..empty };
    assert(bare.held() == 0);
    lemma_receive_takes_one(bare);
}

/// Once it shuts down, a worker stops after finitely many steps and without another request, as long
/// as exports are settled: of the steps that do not stop it there are at most as many as the bound
/// says.
pub proof fn law_shutting_down_comes_to_an_end<R: RequestFields>(
    limits: BatchLimits,
    states: Seq<WorkerState<R>>,
    events: Seq<Event>,
    clocks: Seq<Clock>,
    actions: Seq<Action>,
    diagnostics: Seq<Option<String>>,
)
    requires
        states.len() > 0,
        states[0].shutting_down,
        states[0].phase != Phase::Waiting,
        states[0].phase != Phase::Failed,
        batch_in_place(states[0]),
        forall|i: int|
            #![trigger states[i]]
            0 <= i < states.len() - 1 ==> is_step(
                limits,
                states[i],
                events[i],
                clocks[i],
                states[i + 1],
                actions[i],
                diagnostics[i],
            ) && !(events[i] is ExportFailed) && !(actions[i] is Stop),
    ensures
        states.last().shutting_down,
        states.len() - 1 + steps_left(states.last()) <= steps_left(states[0]),
        states.len() > 1 ==> steps_left(states.last()) >= 0,
        states.last().phase != Phase::Waiting,
        states.last().phase != Phase::Failed,
        batch_in_place(states.last()),
    decreases states.len(),
{
    if states.len() > 1 {
        let front = states.drop_last();
        assert forall|i: int| #![trigger front[i]] 0 <= i < front.len() - 1 implies is_step(
            limits,
            front[i],
            events[i],
            clocks[i],
            front[i + 1],
            actions[i],
            diagnostics[i],
        ) && !(events[i] is ExportFailed) && !(actions[i] is Stop) by {
            assert(front[i] == states[i] && front[i + 1] == states[i + 1]);
        }
        law_shutting_down_comes_to_an_end(limits, front, events, clocks, actions, diagnostics);
        let n = states.len() - 2;
        assert(front.last() == states[n]);
        assert(states[n + 1] == states.last());
        law_a_request_for_shutdown_is_never_forgotten(
            limits,
            states[n],
            events[n],
            clocks[n],
            states[n + 1],
            actions[n],
            diagnostics[n],
        );
        law_shutting_down_goes_forward(
            limits,
            states[n],
            events[n],
            clocks[n],
            states[n + 1],
            actions[n],
            diagnostics[n],
        );
    }
}

/// The records of an action that puts a batch out.
pub open spec fn batch_out(action: Action) -> Seq<SizedRecord> {
    match action {
        Action::Export(batch) => batch@,
        _ => Seq::empty(),
    }
}

/// The records that a worker has taken and not put out, in the order in which it is to put them out.
pub open spec fn in_line<R: RequestFields>(state: WorkerState<R>) -> Seq<SizedRecord> {
    state.batch + state.pending
}

/// Whether a line is all of some records, or all but one of them where one was lost.
pub open spec fn line_keeps<T>(line: Seq<T>, all: Seq<T>, lost: bool) -> bool {
    if lost {
        exists|i: int| 0 <= i < all.len() && line == #[trigger] all.remove(i)
    } else {
        line == all
    }
}

/// The next record of the queues: the reserved one that has waited longest, or else the normal one
/// that has waited longest, and with it the queues that are left.
pub open spec fn is_taken_from<R: RequestFields>(
    log: EdenLog<R>,
    before: WorkerState<R>,
    after: WorkerState<R>,
) -> bool {
    ||| before.reserved.len() > 0 && log == before.reserved[0].log && after.reserved
        == before.reserved.subrange(1, before.reserved.len() as int) && after.normal
        == before.normal
    ||| before.reserved.len() == 0 && before.normal.len() > 0 && log == before.normal[0].log
        && after.normal == before.normal.subrange(1, before.normal.len() as int)
        && after.reserved.len() == 0
}

/// Whether a step found a record: in the queues of the worker, or in the lanes, which are drained
/// behind what the worker holds.
pub open spec fn found<R: RequestFields>(
    log: EdenLog<R>,
    before: WorkerState<R>,
    after: WorkerState<R>,
) -> bool {
    is_taken_from(log, before, after) || is_taken_from(log, before.refreshed(), after)
        || is_taken_from(log, before.refreshed().refreshed(), after)
}

proof fn lemma_received_is_found<R: RequestFields>(state: WorkerState<R>)
    ensures
        state.next_log() matches Some(log) ==> is_taken_from(log, state, state.received())
            || is_taken_from(log, state.refreshed(), state.received()),
{
    let s = state.supplied();
    if s.reserved.len() > 0 {
        assert(s.reserved.skip(1) =~= s.reserved.subrange(1, s.reserved.len() as int));
        assert(is_taken_from(s.reserved[0].log, s, state.received()));
    } else if s.normal.len() > 0 {
        assert(s.normal.skip(1) =~= s.normal.subrange(1, s.normal.len() as int));
        assert(is_taken_from(s.normal[0].log, s, state.received()));
    }
}

proof fn lemma_line_opens<R: RequestFields>(
    limits: BatchLimits,
    before: WorkerState<R>,
    record: SizedRecord,
    now: u64,
    after: WorkerState<R>,
    action: Action,
    diagnostic: Option<String>,
)
    requires
        opens(limits, before, record, now, after, action, diagnostic),
        before.batch.len() == 0,
    ensures
        line_keeps(
            batch_out(action) + in_line(after),
            seq![record] + before.pending,
            after.shared.metrics.dropped_oversize != before.shared.metrics.dropped_oversize,
        ),
{
    let all = seq![record] + before.pending;
    let line = batch_out(action) + in_line(after);
    if limits.admits(record) {
        assert(line =~= all);
    } else {
        assert(line =~= all.remove(0));
    }
}

proof fn lemma_line_considers<R: RequestFields>(
    limits: BatchLimits,
    before: WorkerState<R>,
    record: SizedRecord,
    now: u64,
    after: WorkerState<R>,
    action: Action,
    diagnostic: Option<String>,
)
    requires
        considers(limits, before, record, now, after, action, diagnostic),
    ensures
        line_keeps(
            batch_out(action) + in_line(after),
            before.batch + (seq![record] + before.pending),
            after.shared.metrics.dropped_oversize != before.shared.metrics.dropped_oversize,
        ),
{
    let all = before.batch + (seq![record] + before.pending);
    let line = batch_out(action) + in_line(after);
    if limits.admits(record) {
        assert(line =~= all);
    } else {
        assert(line =~= all.remove(before.batch.len() as int));
    }
}

/// Whether the line of a worker is what it was before, with the batch that is put out in front of it,
/// with at most one record more, which is the next one of the queues, and with none less but one that
/// is dropped as too large.
pub open spec fn keeps_its_line<R: RequestFields>(
    before: WorkerState<R>,
    clock: Clock,
    after: WorkerState<R>,
    action: Action,
) -> bool {
    let line = batch_out(action) + in_line(after);
    let lost = after.shared.metrics.dropped_oversize
        != before.shared.metrics.dropped_oversize;
    ||| line_keeps(line, in_line(before), lost)
    ||| exists|log: EdenLog<R>, record: SizedRecord|
        #![trigger is_sized_mapping(record, log, clock.unix_nanos)]
        is_sized_mapping(record, log, clock.unix_nanos) && found(log, before, after)
            && line_keeps(line, in_line(before).push(record), lost)
}

proof fn lemma_line_idle<R: RequestFields>(
    limits: BatchLimits,
    before: WorkerState<R>,
    event: Event,
    clock: Clock,
    after: WorkerState<R>,
    action: Action,
    diagnostic: Option<String>,
)
    requires
        is_step(limits, before, event, clock, after, action, diagnostic),
        batch_in_place(before),
        before.phase == Phase::Waiting || before.phase == Phase::FillWaiting
            ==> before.pending.len() == 0,
        before.phase == Phase::Idle,
    ensures
        keeps_its_line(before, clock, after, action),
{
    let drained = before.refreshed();
    lemma_receive_takes_one(before);
    lemma_receive_takes_one(drained);
    if drained.pending.len() > 0 {
        assert(seq![drained.pending[0]] + drained.pending.skip(1) =~= in_line(before));
        lemma_line_opens(limits, WorkerState { pending: drained.pending.skip(1), ..drained }, drained.pending[0], clock.unix_millis, after, action, diagnostic);
    } else {
        match drained.next_log() {
            Some(log) => {
                let record = choose|record: SizedRecord| #[trigger]
                    is_sized_mapping(record, log, clock.unix_nanos) && opens(limits, drained.received(), record, clock.unix_millis, after, action, diagnostic);
                lemma_received_is_found(drained);
                lemma_line_opens(limits, drained.received(), record, clock.unix_millis, after, action, diagnostic);
                assert(seq![record] + drained.received().pending =~= in_line(before).push(record));
                assert(found(log, before, after));
            },
            None => {
                assert(batch_out(action) + in_line(after) =~= in_line(before)) by {
                    if before.shutting_down { lemma_nothing_follows_a_drain(before); }
                }
            },
        }
    }
}

proof fn lemma_line_waiting<R: RequestFields>(
    limits: BatchLimits,
    before: WorkerState<R>,
    event: Event,
    clock: Clock,
    after: WorkerState<R>,
    action: Action,
    diagnostic: Option<String>,
)
    requires
        is_step(limits, before, event, clock, after, action, diagnostic),
        batch_in_place(before),
        before.phase == Phase::Waiting || before.phase == Phase::FillWaiting
            ==> before.pending.len() == 0,
        before.phase == Phase::Waiting,
        event is RecordsReady,
    ensures
        keeps_its_line(before, clock, after, action),
{
    let drained = before.refreshed();
    lemma_receive_takes_one(before);
    lemma_receive_takes_one(drained);
    match before.next_log() {
        Some(log) => {
            let record = choose|record: SizedRecord| #[trigger]
                is_sized_mapping(record, log, clock.unix_nanos) && opens(limits, before.received(), record, clock.unix_millis, after, action, diagnostic);
            lemma_received_is_found(before);
            lemma_line_opens(limits, before.received(), record, clock.unix_millis, after, action, diagnostic);
            assert(seq![record] + before.pending =~= in_line(before).push(record));
            assert(found(log, before, after));
        },
        None => { assert(batch_out(action) + in_line(after) =~= in_line(before)); },
    }
}

proof fn lemma_line_asked<R: RequestFields>(
    limits: BatchLimits,
    before: WorkerState<R>,
    event: Event,
    clock: Clock,
    after: WorkerState<R>,
    action: Action,
    diagnostic: Option<String>,
)
    requires
        is_step(limits, before, event, clock, after, action, diagnostic),
        batch_in_place(before),
        before.phase == Phase::Waiting || before.phase == Phase::FillWaiting
            ==> before.pending.len() == 0,
        before.phase == Phase::Waiting,
        event is ShutdownRequested,
    ensures
        keeps_its_line(before, clock, after, action),
{
    let drained = before.refreshed();
    lemma_receive_takes_one(before);
    lemma_receive_takes_one(drained);
    let asked = WorkerState { shutting_down: true, ..before };
    lemma_received_is_found(asked);
    match asked.next_log() {
        Some(log) => {
            let s = asked.received();
            let record = choose|record: SizedRecord| #[trigger]
                is_sized_mapping(record, log, clock.unix_nanos) && after == (WorkerState { pending: asked.pending.push(record), phase: Phase::Idle, ..s });
            assert(batch_out(action) + in_line(after) =~= in_line(before).push(record));
            assert(found(log, asked, after));
            assert(found(log, before, after));
        },
        None => { assert(batch_out(action) + in_line(after) =~= in_line(before)); },
    }
}

proof fn lemma_line_filling<R: RequestFields>(
    limits: BatchLimits,
    before: WorkerState<R>,
    event: Event,
    clock: Clock,
    after: WorkerState<R>,
    action: Action,
    diagnostic: Option<String>,
)
    requires
        is_step(limits, before, event, clock, after, action, diagnostic),
        batch_in_place(before),
        before.phase == Phase::Waiting || before.phase == Phase::FillWaiting
            ==> before.pending.len() == 0,
        before.phase == Phase::Filling,
    ensures
        keeps_its_line(before, clock, after, action),
{
    let drained = before.refreshed();
    lemma_receive_takes_one(before);
    lemma_receive_takes_one(drained);
    if before.batch.len() >= limits.max_records {
        assert(batch_out(action) + in_line(after) =~= in_line(before));
    } else if before.pending.len() > 0 {
        assert(before.batch + (seq![before.pending[0]] + before.pending.skip(1)) =~= in_line(before));
        lemma_line_considers(limits, WorkerState { pending: before.pending.skip(1), ..before }, before.pending[0], clock.unix_millis, after, action, diagnostic);
    } else {
        match before.next_log() {
            Some(log) => {
                let record = choose|record: SizedRecord| #[trigger]
                    is_sized_mapping(record, log, clock.unix_nanos) && considers(limits, before.received(), record, clock.unix_millis, after, action, diagnostic);
                lemma_received_is_found(before);
                lemma_line_considers(limits, before.received(), record, clock.unix_millis, after, action, diagnostic);
                assert(before.batch + (seq![record] + before.pending) =~= in_line(before).push(record));
                assert(found(log, before, after));
            },
            None => { assert(batch_out(action) + in_line(after) =~= in_line(before)); },
        }
    }
}

proof fn lemma_line_fill_waiting<R: RequestFields>(
    limits: BatchLimits,
    before: WorkerState<R>,
    event: Event,
    clock: Clock,
    after: WorkerState<R>,
    action: Action,
    diagnostic: Option<String>,
)
    requires
        is_step(limits, before, event, clock, after, action, diagnostic),
        batch_in_place(before),
        before.phase == Phase::Waiting || before.phase == Phase::FillWaiting
            ==> before.pending.len() == 0,
        before.phase == Phase::FillWaiting,
        event is RecordsReady,
    ensures
        keeps_its_line(before, clock, after, action),
{
    let drained = before.refreshed();
    lemma_receive_takes_one(before);
    lemma_receive_takes_one(drained);
    match before.next_log() {
        Some(log) => {
            let record = choose|record: SizedRecord| #[trigger]
                is_sized_mapping(record, log, clock.unix_nanos) && considers(limits, before.received(), record, clock.unix_millis, after, action, diagnostic);
            lemma_received_is_found(before);
            lemma_line_considers(limits, before.received(), record, clock.unix_millis, after, action, diagnostic);
                assert(before.batch + (seq![record] + before.pending) =~= in_line(before).push(record));
            assert(found(log, before, after));
        },
        None => { assert(batch_out(action) + in_line(after) =~= in_line(before)); },
    }
}

/// Records go out in the order in which they were taken, and each is taken in its turn: a step puts
/// out a batch from the front of the line, and what is behind it is what was behind it before, with at
/// most one record more, which is the next one of the queues, and with none less but one that is
/// dropped as too large.
pub proof fn law_records_go_out_in_line<R: RequestFields>(
    limits: BatchLimits,
    before: WorkerState<R>,
    event: Event,
    clock: Clock,
    after: WorkerState<R>,
    action: Action,
    diagnostic: Option<String>,
)
    requires
        is_step(limits, before, event, clock, after, action, diagnostic),
        batch_in_place(before),
        before.phase == Phase::Waiting || before.phase == Phase::FillWaiting
            ==> before.pending.len() == 0,
        before.phase != Phase::Failed,
        !(event is ExportFailed),
    ensures
        keeps_its_line(before, clock, after, action),
{
    match (before.phase, event) {
        (Phase::Idle, Event::Proceed) => lemma_line_idle(limits, before, event, clock, after, action, diagnostic),
        (Phase::Waiting, Event::RecordsReady) => lemma_line_waiting(limits, before, event, clock, after, action, diagnostic),
        (Phase::Waiting, Event::ShutdownRequested) => lemma_line_asked(limits, before, event, clock, after, action, diagnostic),
        (Phase::Filling, Event::Proceed) => lemma_line_filling(limits, before, event, clock, after, action, diagnostic),
        (Phase::FillWaiting, Event::RecordsReady) => lemma_line_fill_waiting(limits, before, event, clock, after, action, diagnostic),
        _ => {
            assert(batch_out(action) + in_line(after) =~= in_line(before));
        },
    }
}

/// Whether the lanes and the queues of the worker are empty.
pub open spec fn nothing_to_take<R: RequestFields>(state: WorkerState<R>) -> bool {
    &&& collector::total(collector::normals(state.lanes)) == 0
    &&& collector::total(collector::reserveds(state.lanes)) == 0
    &&& state.reserved.len() == 0
    &&& state.normal.len() == 0
}

proof fn lemma_nothing_found<R: RequestFields>(state: WorkerState<R>)
    requires
        state.next_log() is None,
    ensures
        nothing_to_take(state.received()),
        state.received().pending == state.pending,
        state.received().batch == state.batch,
        state.received().shutting_down == state.shutting_down,
{
    let after = state.refreshed();
    collector::law_drains_move_everything(
        state.lanes,
        state.first,
        after.lanes,
        after.first,
        state.reserved,
        after.reserved,
        state.normal,
        after.normal,
    );
}

/// A worker waits only where there is nothing to take: no record is left in a lane or in its queues.
/// It waits for a first record only without a batch, and for more only with a batch that has room;
/// and it does neither while it shuts down.
pub proof fn law_a_worker_waits_only_with_nothing_to_take<R: RequestFields>(
    limits: BatchLimits,
    before: WorkerState<R>,
    event: Event,
    clock: Clock,
    after: WorkerState<R>,
    action: Action,
    diagnostic: Option<String>,
)
    requires
        is_step(limits, before, event, clock, after, action, diagnostic),
        batch_in_place(before),
        before.phase == Phase::Waiting ==> before.pending.len() == 0 && !before.shutting_down,
    ensures
        action is AwaitRecords || action is AwaitMore ==> nothing_to_take(after)
            && after.pending.len() == 0 && !after.shutting_down,
        action is AwaitRecords ==> after.phase == Phase::Waiting && after.held() == 0,
        action is AwaitMore ==> after.phase == Phase::FillWaiting && after.batch == before.batch
            && after.batch.len() < limits.max_records,
        action is AwaitShutdown ==> after.phase == Phase::Failed && after.shared.accepting,
        action is Stop <==> after.phase == Phase::Stopped,
{
    match (before.phase, event) {
        (Phase::Idle, Event::Proceed) => {
            let drained = before.refreshed();
            if drained.pending.len() == 0 && drained.next_log() is None {
                lemma_nothing_found(drained);
            }
        },
        (Phase::Waiting, Event::RecordsReady) => {
            if before.next_log() is None {
                lemma_nothing_found(before);
            }
        },
        (Phase::Filling, Event::Proceed) => {
            if before.next_log() is None {
                lemma_nothing_found(before);
            }
        },
        _ => {},
    }
}

/// A batch goes out whole when it is due: when it is full, when its deadline is reached, and when
/// shutdown is requested while it waits for more. The gauge of records that are out is the number of
/// its records as long as it is out, and zero once they are settled. What a failed export left is
/// what is out from then on.
pub proof fn law_a_batch_goes_out_when_it_is_due<R: RequestFields>(
    limits: BatchLimits,
    before: WorkerState<R>,
    event: Event,
    clock: Clock,
    after: WorkerState<R>,
    action: Action,
    diagnostic: Option<String>,
)
    requires
        is_step(limits, before, event, clock, after, action, diagnostic),
        before.batch.len() <= u64::MAX,
    ensures
        before.phase == Phase::Filling && before.batch.len() >= limits.max_records ==> action
            is Export,
        event is DeadlineReached ==> action is Export,
        before.phase == Phase::FillWaiting && event is ShutdownRequested ==> action is Export
            && after.shutting_down,
        action matches Action::Export(batch) ==> batch@ == before.batch && after.batch.len() == 0
            && after.phase == Phase::Exporting && after.shared.metrics.inflight == batch@.len(),
        event is Exported ==> after.shared.metrics.inflight == 0 && after.phase == Phase::Idle
            && after.shared.metrics.status == (if before.shutting_down {
            ExporterStatus::ShuttingDown
        } else {
            ExporterStatus::Running
        }),
        event matches Event::ExportFailed(left) ==> after.retained == time::clamp_u64(
            record_count(left@),
        ) && (before.shared.accepting ==> after.shared.metrics.inflight == after.retained
            && after.phase == Phase::Failed) && (!before.shared.accepting ==> after.phase
            == Phase::Stopped),
{
    match (before.phase, event) {
        (Phase::Idle, Event::Proceed) => {
            lemma_receiving_keeps_the_rest(before.refreshed());
        },
        (Phase::Exporting, _) => {},
        (Phase::Failed, _) => {},
        _ => {
            lemma_receiving_keeps_the_rest(before);
        },
    }
}

/// Whether a step counted what a step may count: nothing but a record that is dropped as too large,
/// which is rejected as well.
pub open spec fn counts_drops_only(before: Shared, after: Shared) -> bool {
    let (was, is) = (before.metrics, after.metrics);
    &&& after.accepted == before.accepted
    &&& after.accepting == before.accepting
    &&& is.filtered == was.filtered
    &&& is.exported == was.exported
    &&& is.export_attempts == was.export_attempts
    &&& is.retries == was.retries
    &&& is.partial_rejections == was.partial_rejections
    &&& is.batches == was.batches
    &&& is.dropped_queue_full == was.dropped_queue_full
    &&& is.dropped_queue_bytes_full == was.dropped_queue_bytes_full
    &&& is.dropped_stopped == was.dropped_stopped
    &&& is.dropped_oversize == was.dropped_oversize && is.rejected == was.rejected || (
    is.dropped_oversize == was.dropped_oversize.wrapping_add(1) && is.rejected
        == was.rejected.wrapping_add(1))
}

proof fn lemma_receiving_counts_nothing<R: RequestFields>(state: WorkerState<R>)
    ensures
        counts_drops_only(state.shared, state.received().shared),
        state.received().shared.metrics.dropped_oversize == state.shared.metrics.dropped_oversize,
        state.received().shared.metrics.rejected == state.shared.metrics.rejected,
        state.received().shared.metrics.dropped_shutdown == state.shared.metrics.dropped_shutdown,
        state.received().shared.last_error == state.shared.last_error,
{
}

proof fn lemma_opens_counts<R: RequestFields>(
    limits: BatchLimits,
    before: WorkerState<R>,
    record: SizedRecord,
    now: u64,
    after: WorkerState<R>,
    action: Action,
    diagnostic: Option<String>,
)
    requires
        opens(limits, before, record, now, after, action, diagnostic),
    ensures
        counts_drops_only(before.shared, after.shared),
        after.shared.metrics.dropped_shutdown == before.shared.metrics.dropped_shutdown,
        after.shared.last_error == before.shared.last_error,
{
}

proof fn lemma_considers_counts<R: RequestFields>(
    limits: BatchLimits,
    before: WorkerState<R>,
    record: SizedRecord,
    now: u64,
    after: WorkerState<R>,
    action: Action,
    diagnostic: Option<String>,
)
    requires
        considers(limits, before, record, now, after, action, diagnostic),
    ensures
        counts_drops_only(before.shared, after.shared),
        after.shared.metrics.dropped_shutdown == before.shared.metrics.dropped_shutdown,
        after.shared.last_error == before.shared.last_error,
{
}

proof fn lemma_finishes_counts<R: RequestFields>(
    before: WorkerState<R>,
    observed: u64,
    after: WorkerState<R>,
    action: Action,
    diagnostic: Option<String>,
)
    requires
        finishes(before, observed, after, action, diagnostic),
    ensures
        counts_drops_only(before.shared, after.shared),
        after.shared.metrics.dropped_shutdown == before.shared.metrics.dropped_shutdown,
        after.shared.last_error == before.shared.last_error,
{
    lemma_receiving_counts_nothing(before);
}

/// A step counts a record that is dropped as too large, and what a worker that has failed leaves when
/// it stops. It counts nothing else: what became of the records of a request is counted by its
/// export.
pub proof fn law_a_step_counts_drops_only<R: RequestFields>(
    limits: BatchLimits,
    before: WorkerState<R>,
    event: Event,
    clock: Clock,
    after: WorkerState<R>,
    action: Action,
    diagnostic: Option<String>,
)
    requires
        is_step(limits, before, event, clock, after, action, diagnostic),
    ensures
        counts_drops_only(before.shared, after.shared),
        after.shared.last_error == before.shared.last_error,
        after.shared.metrics.dropped_shutdown != before.shared.metrics.dropped_shutdown
            ==> after.phase == Phase::Stopped && (before.phase == Phase::Failed || event
            is ExportFailed),
{
    let now = clock.unix_millis;
    match (before.phase, event) {
        (Phase::Idle, Event::Proceed) => {
            let drained = before.refreshed();
            assert(counts_drops_only(before.shared, drained.shared));
            lemma_receiving_counts_nothing(drained);
            let taken = drained.received();
            if drained.pending.len() > 0 {
                lemma_opens_counts(
                    limits,
                    WorkerState { pending: drained.pending.skip(1), ..drained },
                    drained.pending[0],
                    now,
                    after,
                    action,
                    diagnostic,
                );
            } else if drained.next_log() is Some {
                let log = drained.next_log()->0;
                let record = choose|record: SizedRecord| #[trigger]
                    is_sized_mapping(record, log, clock.unix_nanos) && opens(
                        limits,
                        taken,
                        record,
                        now,
                        after,
                        action,
                        diagnostic,
                    );
                lemma_opens_counts(limits, taken, record, now, after, action, diagnostic);
            } else if before.shutting_down {
                lemma_finishes_counts(taken, clock.unix_nanos, after, action, diagnostic);
            }
        },
        (Phase::Waiting, Event::RecordsReady) => {
            lemma_receiving_counts_nothing(before);
            if before.next_log() is Some {
                let log = before.next_log()->0;
                let record = choose|record: SizedRecord| #[trigger]
                    is_sized_mapping(record, log, clock.unix_nanos) && opens(
                        limits,
                        before.received(),
                        record,
                        now,
                        after,
                        action,
                        diagnostic,
                    );
                lemma_opens_counts(
                    limits,
                    before.received(),
                    record,
                    now,
                    after,
                    action,
                    diagnostic,
                );
            }
        },
        (Phase::Waiting, Event::ShutdownRequested) => {
            lemma_finishes_counts(
                WorkerState { shutting_down: true, ..before },
                clock.unix_nanos,
                after,
                action,
                diagnostic,
            );
        },
        (Phase::Filling, Event::Proceed) => {
            lemma_receiving_counts_nothing(before);
            if before.batch.len() >= limits.max_records {
            } else if before.pending.len() > 0 {
                lemma_considers_counts(
                    limits,
                    WorkerState { pending: before.pending.skip(1), ..before },
                    before.pending[0],
                    now,
                    after,
                    action,
                    diagnostic,
                );
            } else if before.next_log() is Some {
                lemma_considers_found_counts(limits, before, clock, after, action, diagnostic);
            }
        },
        (Phase::FillWaiting, Event::RecordsReady) => {
            lemma_receiving_counts_nothing(before);
            if before.next_log() is Some {
                lemma_considers_found_counts(limits, before, clock, after, action, diagnostic);
            }
        },
        _ => {},
    }
}

proof fn lemma_considers_found_counts<R: RequestFields>(
    limits: BatchLimits,
    before: WorkerState<R>,
    clock: Clock,
    after: WorkerState<R>,
    action: Action,
    diagnostic: Option<String>,
)
    requires
        before.next_log() is Some,
        exists|record: SizedRecord| #[trigger]
            is_sized_mapping(record, before.next_log()->0, clock.unix_nanos) && considers(
                limits,
                before.received(),
                record,
                clock.unix_millis,
                after,
                action,
                diagnostic,
            ),
    ensures
        counts_drops_only(before.shared, after.shared),
        after.shared.metrics.dropped_shutdown == before.shared.metrics.dropped_shutdown,
        after.shared.last_error == before.shared.last_error,
{
    lemma_receiving_counts_nothing(before);
    let record = choose|record: SizedRecord| #[trigger]
        is_sized_mapping(record, before.next_log()->0, clock.unix_nanos) && considers(
            limits,
            before.received(),
            record,
            clock.unix_millis,
            after,
            action,
            diagnostic,
        );
    lemma_considers_counts(
        limits,
        before.received(),
        record,
        clock.unix_millis,
        after,
        action,
        diagnostic,
    );
}

}
