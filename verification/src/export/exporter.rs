//! Installing an exporter, the admission of records, and shutdown.

use vstd::prelude::*;

use crate::context;
use crate::context::LogAudience;
use crate::export::collector;
use crate::export::collector::{LocalProducers, LogCollector, SubmitResult};
use crate::export::config;
use crate::export::config::{AudienceFilter, ExporterConfig, InstallError, OtlpHttpError};
use crate::export::mapper;
use crate::export::metrics;
use crate::export::metrics::{ExporterMetrics, ExporterMetricsSnapshot, ExporterStatus};
use crate::export::shared;
use crate::export::shared::Shared;
use crate::export::size::ExportRequestSizer;
use crate::export::worker::{BatchLimits, ShutdownReport, WorkerState};
use crate::fields;
use crate::fields::RequestFields;
use crate::metrics::MetricPoint;
use crate::metrics as log_metrics;
use crate::schema::{EdenLog, LogLevel};
use crate::sink;
use crate::sink::SinkRegistry;
use crate::time;

verus! {

/// Which records the sink of an exporter admits, and which of them have priority.
#[derive(Debug, Clone, Copy, PartialEq, Eq, Structural)]
pub struct Admission {
    pub min_level: LogLevel,
    pub audiences: AudienceFilter,
    pub priority_threshold: LogLevel,
}

impl Admission {
    /// Whether a record passes the filters.
    pub open spec fn passes<R: RequestFields>(self, log: EdenLog<R>) -> bool {
        config::rank(log.level) >= config::rank(self.min_level) && self.audiences.accepts(
            log.audience,
        )
    }

    /// Whether a record may use the reserved queue.
    pub open spec fn has_priority<R: RequestFields>(self, log: EdenLog<R>) -> bool {
        config::rank(log.level) >= config::rank(self.priority_threshold)
    }
}

/// An exporter: its queues, what they share with the worker, and what its sink admits.
pub struct ExporterHandle<R: RequestFields> {
    pub shared: Shared,
    pub collector: LogCollector<R>,
    pub admission: Admission,
    /// Whether there is a worker that shutdown has to wait for.
    pub has_worker: bool,
}

/// How the worker ended, or that it did not.
pub enum WorkerEnd {
    /// There was no worker.
    Missing,
    /// The worker has ended with a report.
    Finished(ShutdownReport),
    /// The worker has failed, for a reason, and held this many records outside the queues.
    Failed(String, u64),
    /// The deadline passed, and the worker was aborted. It held this many records outside the
    /// queues.
    TimedOut(u64),
}

/// Whether an exporter is what a configuration sets up.
pub open spec fn is_fresh<R: RequestFields>(
    exporter: ExporterHandle<R>,
    config: ExporterConfig,
    id: u64,
) -> bool {
    &&& exporter.shared.accepting
    &&& exporter.shared.accepted == 0
    &&& exporter.shared.metrics == metrics::initial_metrics()
    &&& exporter.shared.diagnostic_interval_millis == time::clamp_u64(
        config.diagnostic_interval.millis(),
    )
    &&& exporter.shared.last_diagnostic_millis == 0
    &&& exporter.shared.last_error is None
    &&& exporter.collector.wf()
    &&& exporter.collector.number() == id
    &&& exporter.collector.normal_limit() == config.normal_queue_capacity
    &&& exporter.collector.reserved_limit() == config.reserved_queue_capacity
    &&& exporter.collector.lanes() == Seq::<collector::LaneView<R>>::empty()
    &&& exporter.collector.next_number() == 0
    &&& exporter.admission.min_level == config.min_level
    &&& exporter.admission.audiences == config.audiences
    &&& exporter.admission.priority_threshold == config.priority_threshold
    &&& exporter.has_worker
}

/// Installs an exporter, where a runtime is active.
pub fn install<R: RequestFields>(
    runtime_is_active: bool,
    config: &ExporterConfig,
    client: Result<(), OtlpHttpError>,
    sinks: &mut SinkRegistry,
    key: u64,
    id: u64,
) -> (result: Result<ExporterHandle<R>, InstallError>)
    requires
        old(sinks).wf(),
    ensures
        final(sinks).wf(),
        !runtime_is_active ==> result == Err::<ExporterHandle<R>, InstallError>(
            InstallError::NoTokioRuntime,
        ),
        runtime_is_active ==> is_installation(
            *config,
            client,
            old(sinks).installed(),
            final(sinks).installed(),
            key,
            id,
            result,
        ),
        result is Err ==> *final(sinks) == *old(sinks),
{
    if !runtime_is_active {
        return Err(InstallError::NoTokioRuntime);
    }
    install_on(config, client, sinks, key, id)
}

/// Whether a result is what an installation gives: an invalid configuration comes before a client
/// that cannot be made, and that before a sink that is installed already.
pub open spec fn is_installation<R: RequestFields>(
    config: ExporterConfig,
    client: Result<(), OtlpHttpError>,
    sinks_before: Seq<u64>,
    sinks_after: Seq<u64>,
    key: u64,
    id: u64,
    result: Result<ExporterHandle<R>, InstallError>,
) -> bool {
    match config::config_fault(config) {
        Some(fault) => {
            &&& result matches Err(InstallError::InvalidConfig(message)) && message@ == fault
            &&& sinks_after == sinks_before
        },
        None => match client {
            Err(error) => {
                &&& result == Err::<ExporterHandle<R>, InstallError>(InstallError::Transport(error))
                &&& sinks_after == sinks_before
            },
            Ok(_) => if sinks_before.contains(key) {
                &&& result == Err::<ExporterHandle<R>, InstallError>(
                    InstallError::SinkAlreadyInstalled,
                )
                &&& sinks_after == sinks_before
            } else {
                &&& result matches Ok(exporter) && is_fresh(exporter, config, id)
                &&& sinks_after == sinks_before.push(key)
            },
        },
    }
}

/// Installs an exporter: tests its configuration, takes what came of making its client, and
/// registers its sink.
pub fn install_on<R: RequestFields>(
    config: &ExporterConfig,
    client: Result<(), OtlpHttpError>,
    sinks: &mut SinkRegistry,
    key: u64,
    id: u64,
) -> (result: Result<ExporterHandle<R>, InstallError>)
    requires
        old(sinks).wf(),
    ensures
        final(sinks).wf(),
        is_installation(
            *config,
            client,
            old(sinks).installed(),
            final(sinks).installed(),
            key,
            id,
            result,
        ),
        result is Err ==> *final(sinks) == *old(sinks),
{
    match config.validate() {
        Ok(()) => {},
        Err(error) => {
            return Err(error);
        },
    }
    match client {
        Ok(()) => {},
        Err(error) => {
            return Err(InstallError::from(error));
        },
    }
    match sink::install_sink(sinks, key) {
        Ok(_) => {},
        Err(_) => {
            return Err(InstallError::SinkAlreadyInstalled);
        },
    }
    Ok(
        ExporterHandle {
            shared: Shared::new(time::duration_millis(config.diagnostic_interval)),
            collector: LogCollector::new(
                id,
                config.normal_queue_capacity as u64,
                config.reserved_queue_capacity as u64,
            ),
            admission: Admission {
                min_level: config.min_level,
                audiences: config.audiences,
                priority_threshold: config.priority_threshold,
            },
            has_worker: true,
        },
    )
}

/// The limits of the batches of an exporter.
pub fn batch_limits(config: &ExporterConfig) -> (limits: BatchLimits)
    ensures
        limits.max_records == config.max_batch_records,
        limits.max_bytes == config.max_batch_bytes,
        limits.sizer.is_for(
            config.service_name@,
            fields::text_pairs(config.resource_attributes@),
            config.scope_name@,
        ),
{
    BatchLimits {
        sizer: ExportRequestSizer::new(
            config.service_name.as_str(),
            &config.resource_attributes,
            config.scope_name.as_str(),
        ),
        max_records: config.max_batch_records,
        max_bytes: config.max_batch_bytes,
    }
}

/// The diagnostic of full queues.
pub open spec fn full_text() -> Seq<char> {
    "bounded log queues are full; records are being dropped"@
}

/// The records that the sink has been offered: each is accepted, filtered out or dropped.
pub open spec fn offered(state: Shared) -> int {
    state.accepted + state.metrics.filtered + state.metrics.dropped_stopped
        + state.metrics.dropped_queue_full
}

/// Whether the counters of offered records can grow.
pub open spec fn can_count(state: Shared) -> bool {
    &&& state.accepted < u64::MAX
    &&& state.metrics.filtered < u64::MAX
    &&& state.metrics.dropped_stopped < u64::MAX
    &&& state.metrics.dropped_queue_full < u64::MAX
}

/// The counters once a record is dropped because the queues are full.
pub open spec fn dropped_full(state: Shared) -> Shared {
    Shared {
        metrics: ExporterMetrics {
            dropped_queue_full: state.metrics.dropped_queue_full.wrapping_add(1),
            ..state.metrics
        },
        ..state
    }
}

/// The lane of a thread: the one it has, or a new one.
pub open spec fn lane_for<R: RequestFields>(
    producers: LocalProducers,
    queues: LogCollector<R>,
) -> u64 {
    match producers.entry_of(queues.number()) {
        Some(i) => producers.lanes@[i].1,
        None => queues.next_number(),
    }
}

/// The lanes once a thread has a lane of its own.
pub open spec fn lanes_with_own<R: RequestFields>(
    producers: LocalProducers,
    queues: LogCollector<R>,
) -> Seq<collector::LaneView<R>> {
    match producers.entry_of(queues.number()) {
        Some(_) => queues.lanes(),
        None => queues.lanes().push(collector::new_lane(queues.next_number())),
    }
}

/// The lanes that a thread knows, once it has a lane of its own.
pub open spec fn entries_with_own<R: RequestFields>(
    producers: LocalProducers,
    queues: LogCollector<R>,
) -> Seq<(u64, u64)> {
    match producers.entry_of(queues.number()) {
        Some(_) => producers.lanes@,
        None => producers.lanes@.push((queues.number(), queues.next_number())),
    }
}

/// The number of the next lane, once a thread has a lane of its own.
pub open spec fn next_with_own<R: RequestFields>(
    producers: LocalProducers,
    queues: LogCollector<R>,
) -> int {
    match producers.entry_of(queues.number()) {
        Some(_) => queues.next_number() as int,
        None => queues.next_number() + 1,
    }
}

/// The gauges once a thread has a lane of its own.
pub open spec fn metrics_with_own<R: RequestFields>(
    producers: LocalProducers,
    queues: LogCollector<R>,
    state: ExporterMetrics,
) -> ExporterMetrics {
    match producers.entry_of(queues.number()) {
        Some(_) => state,
        None => ExporterMetrics { producer_lanes: state.producer_lanes.wrapping_add(1), ..state },
    }
}

impl<R: RequestFields> ExporterHandle<R> {
    /// The state of the exporter.
    pub fn status(&self) -> (status: ExporterStatus)
        ensures
            status == self.shared.metrics.status,
    {
        self.shared.metrics.status
    }

    /// The last failure.
    pub fn last_error(&self) -> (error: Option<String>)
        ensures
            error == self.shared.last_error,
    {
        self.shared.last_error.clone()
    }

    /// The counters and gauges as they are.
    pub fn metrics_snapshot(&self) -> (snapshot: ExporterMetricsSnapshot)
        ensures
            snapshot == self.shared.metrics.snapshot_with(self.shared.accepted),
    {
        self.shared.snapshot()
    }

    /// The metrics of the exporter, in the order in which a visitor sees them.
    pub fn visit_metrics(&self) -> (points: Vec<MetricPoint>)
        ensures
            ({
                let snapshot = self.shared.metrics.snapshot_with(self.shared.accepted);
                log_metrics::views(points@) == metrics::counter_views(snapshot)
                    + metrics::gauge_views(snapshot)
            }),
    {
        metrics::visit_exporter_metrics(&self.metrics_snapshot())
    }

    /// Takes a record from the logger: drops it where the exporter no longer accepts records, where
    /// the filters exclude it or where the queues are full; else puts it in the lane of its thread.
    /// Says whether the worker is to be woken, and gives a diagnostic where one is due.
    ///
    /// Every record that is offered is counted once: as accepted, filtered out or dropped.
    pub fn accept(
        &mut self,
        producers: &mut LocalProducers,
        log: EdenLog<R>,
        now: u64,
    ) -> (result: (bool, Option<String>))
        requires
            old(self).collector.wf(),
            old(producers).entry_of(old(self).collector.number()) is None
                ==> old(self).collector.next_number() < u64::MAX,
        ensures
            final(self).collector.wf(),
            final(self).collector.same_limits(&old(self).collector),
            final(self).collector.first_turn() == old(self).collector.first_turn(),
            final(self).admission == old(self).admission,
            final(self).has_worker == old(self).has_worker,
            can_count(old(self).shared) ==> offered(final(self).shared) == offered(
                old(self).shared,
            ) + 1,
            if !old(self).shared.accepting {
                &&& result == (false, None::<String>)
                &&& final(self).collector == old(self).collector
                &&& final(producers).lanes@ == old(producers).lanes@
                &&& final(self).shared == (Shared {
                    metrics: ExporterMetrics {
                        dropped_stopped: old(self).shared.metrics.dropped_stopped.wrapping_add(1),
                        ..old(self).shared.metrics
                    },
                    ..old(self).shared
                })
            } else if !old(self).admission.passes(log) {
                &&& result == (false, None::<String>)
                &&& final(self).collector == old(self).collector
                &&& final(producers).lanes@ == old(producers).lanes@
                &&& final(self).shared == (Shared {
                    metrics: ExporterMetrics {
                        filtered: old(self).shared.metrics.filtered.wrapping_add(1),
                        ..old(self).shared.metrics
                    },
                    ..old(self).shared
                })
            } else {
                let admitting = collector::admitting_queue(
                    old(self).shared.metrics,
                    old(self).collector.normal_limit(),
                    old(self).collector.reserved_limit(),
                    old(self).admission.has_priority(log),
                );
                let own = metrics_with_own(
                    *old(producers),
                    old(self).collector,
                    old(self).shared.metrics,
                );
                &&& final(producers).lanes@ == entries_with_own(
                    *old(producers),
                    old(self).collector,
                )
                &&& final(self).collector.next_number() == next_with_own(
                    *old(producers),
                    old(self).collector,
                )
                &&& match admitting {
                    Some(_) => {
                        &&& result.1 is None
                        &&& final(self).shared == (Shared {
                            accepted: old(self).shared.accepted.wrapping_add(1),
                            metrics: final(self).shared.metrics,
                            ..old(self).shared
                        })
                        &&& collector::is_submission(
                            lanes_with_own(*old(producers), old(self).collector),
                            final(self).collector.lanes(),
                            own,
                            final(self).shared.metrics,
                            old(self).collector.strays(),
                            final(self).collector.strays(),
                            admitting,
                            lane_for(*old(producers), old(self).collector),
                            log,
                            (SubmitResult::Accepted, result.0),
                        )
                    },
                    None => {
                        &&& !result.0
                        &&& final(self).collector.strays() == old(self).collector.strays()
                        &&& final(self).collector.lanes() == lanes_with_own(
                            *old(producers),
                            old(self).collector,
                        )
                        &&& dropped_full(
                            (Shared { metrics: own, ..old(self).shared }),
                        ).is_emergency(&final(self).shared, now, full_text(), result.1)
                    },
                }
            },
    {
        if !self.shared.accepting {
            self.shared.metrics.dropped_stopped =
            self.shared.metrics.dropped_stopped.wrapping_add(1);
            return (false, None);
        }
        if !config::at_least(log.level, self.admission.min_level)
            || !self.admission.audiences.allows(log.audience) {
            self.shared.metrics.filtered = self.shared.metrics.filtered.wrapping_add(1);
            return (false, None);
        }
        let priority = config::at_least(log.level, self.admission.priority_threshold);
        let (outcome, wake) = self.collector.submit(
            &mut self.shared.metrics,
            producers,
            log,
            priority,
        );
        match outcome {
            SubmitResult::Accepted => {
                self.shared.accepted = self.shared.accepted.wrapping_add(1);
                (wake, None)
            },
            SubmitResult::Full => {
                self.shared.metrics.dropped_queue_full =
                self.shared.metrics.dropped_queue_full.wrapping_add(1);
                let diagnostic = self.shared.emergency(
                    now,
                    "bounded log queues are full; records are being dropped",
                );
                (false, diagnostic)
            },
        }
    }

    /// Begins the shutdown: no further records are accepted, and the worker is to be told. Says
    /// whether there is a worker to wait for.
    pub fn begin_shutdown(&mut self) -> (wait: bool)
        ensures
            wait == old(self).has_worker,
            final(self).has_worker == false,
            final(self).collector == old(self).collector,
            final(self).admission == old(self).admission,
            final(self).shared == (Shared {
                accepting: false,
                metrics: ExporterMetrics {
                    status: ExporterStatus::ShuttingDown,
                    ..old(self).shared.metrics
                },
                ..old(self).shared
            }),
    {
        self.shared.accepting = false;
        self.shared.set_status(ExporterStatus::ShuttingDown);
        let wait = self.has_worker;
        self.has_worker = false;
        wait
    }

    /// Ends the shutdown, once the worker has ended, failed or run out of time.
    ///
    /// Where it failed or ran out of time, the records that are left are counted as dropped.
    pub fn shutdown(&mut self, end: WorkerEnd) -> (report: ShutdownReport)
        requires
            old(self).collector.wf(),
        ensures
            final(self).collector.wf(),
            final(self).collector.same_limits(&old(self).collector),
            final(self).collector.next_number() == old(self).collector.next_number(),
            final(self).collector.strays() == old(self).collector.strays(),
            final(self).admission == old(self).admission,
            final(self).has_worker == old(self).has_worker,
            match end {
                WorkerEnd::Missing => {
                    &&& report == (ShutdownReport {
                        timed_out: false,
                        remaining_records: 0,
                        metrics: old(self).shared.metrics.snapshot_with(old(self).shared.accepted),
                    })
                    &&& *final(self) == *old(self)
                },
                WorkerEnd::Finished(finished) => report == finished && *final(self) == *old(self),
                WorkerEnd::Failed(reason, kept) => {
                    &&& final(self).collector.lanes().len() == 0
                    &&& final(self).shared == (Shared {
                        metrics: all_dropped(old(self).shared.metrics, kept),
                        last_error: final(self).shared.last_error,
                        ..old(self).shared
                    })
                    &&& context::text_of(final(self).shared.last_error) == Some(
                        "exporter worker failed: "@ + reason@,
                    )
                    &&& report == (ShutdownReport {
                        timed_out: false,
                        remaining_records: left_in(old(self).shared.metrics, kept),
                        metrics: final(self).shared.metrics.snapshot_with(
                            old(self).shared.accepted,
                        ),
                    })
                },
                WorkerEnd::TimedOut(kept) => {
                    &&& final(self).collector.lanes().len() == 0
                    &&& final(self).shared == (Shared {
                        metrics: all_dropped(old(self).shared.metrics, kept),
                        ..old(self).shared
                    })
                    &&& report == (ShutdownReport {
                        timed_out: true,
                        remaining_records: left_in(old(self).shared.metrics, kept),
                        metrics: final(self).shared.metrics.snapshot_with(
                            old(self).shared.accepted,
                        ),
                    })
                },
            },
    {
        match end {
            WorkerEnd::Missing => ShutdownReport {
                timed_out: false,
                remaining_records: 0,
                metrics: self.shared.snapshot(),
            },
            WorkerEnd::Finished(report) => report,
            WorkerEnd::Failed(reason, kept) => {
                let mut message = "exporter worker failed: ".to_owned();
                message.append(reason.as_str());
                shared::set_last_error(&mut self.shared, message);
                let remaining: u64 = self.drop_all(kept);
                ShutdownReport {
                    timed_out: false,
                    remaining_records: remaining,
                    metrics: self.shared.snapshot(),
                }
            },
            WorkerEnd::TimedOut(kept) => {
                let remaining: u64 = self.drop_all(kept);
                ShutdownReport {
                    timed_out: true,
                    remaining_records: remaining,
                    metrics: self.shared.snapshot(),
                }
            },
        }
    }

    /// Drops the records that are left, and says how many there were.
    fn drop_all(&mut self, kept: u64) -> (remaining: u64)
        requires
            old(self).collector.wf(),
        ensures
            remaining == left_in(old(self).shared.metrics, kept),
            final(self).collector.wf(),
            final(self).collector.same_limits(&old(self).collector),
            final(self).collector.next_number() == old(self).collector.next_number(),
            final(self).collector.strays() == old(self).collector.strays(),
            final(self).collector.lanes().len() == 0,
            final(self).admission == old(self).admission,
            final(self).has_worker == old(self).has_worker,
            final(self).shared == (Shared {
                metrics: all_dropped(old(self).shared.metrics, kept),
                ..old(self).shared
            }),
    {
        let remaining: u64 = shared::remaining_records(&self.shared).saturating_add(kept);
        self.collector.clear(&mut self.shared.metrics);
        self.shared.metrics.dropped_shutdown =
        self.shared.metrics.dropped_shutdown.wrapping_add(remaining);
        self.shared.metrics.normal_queue_depth = 0;
        self.shared.metrics.reserved_queue_depth = 0;
        self.shared.metrics.inflight = 0;
        self.shared.set_status(ExporterStatus::Stopped);
        remaining
    }
}

/// The records that are left: those of the queues and of the batch that is out, by the gauges, and
/// those that the worker kept outside them.
pub open spec fn left_in(state: ExporterMetrics, kept: u64) -> u64 {
    metrics::saturating_sum(
        state.normal_queue_depth + state.reserved_queue_depth + state.inflight,
        kept as int,
    ) as u64
}

/// The gauges and counters once the records that are left are dropped.
pub open spec fn all_dropped(state: ExporterMetrics, kept: u64) -> ExporterMetrics {
    ExporterMetrics {
        producer_lanes: 0,
        dropped_shutdown: state.dropped_shutdown.wrapping_add(left_in(state, kept)),
        normal_queue_depth: 0,
        reserved_queue_depth: 0,
        inflight: 0,
        status: ExporterStatus::Stopped,
        ..state
    }
}

/// A shutdown that does not wait for its worker counts as left every record that the queues and the
/// worker hold, and those of the batch that is out.
pub proof fn law_what_is_left_is_what_is_held<R: RequestFields>(state: WorkerState<R>)
    requires
        state.gauges_are_right(),
        state.held() + state.shared.metrics.inflight <= u64::MAX,
    ensures
        left_in(state.shared.metrics, time::clamp_u64(state.kept())) == state.held()
            + state.shared.metrics.inflight,
{
}

/// The filters of a sink go by severity: a record that passes still passes at a more severe level, a
/// record of the lowest admitted level passes, and one below it does not. Its audience alone decides
/// otherwise. Records of the threshold and above have priority, and no others.
pub proof fn law_severity_decides_admission<R: RequestFields>(
    admission: Admission,
    log: EdenLog<R>,
    other: EdenLog<R>,
)
    requires
        admission.audiences.accepts(log.audience),
        other.audience == log.audience,
    ensures
        ({
            let severity = mapper::level_number(log.level);
            let least = mapper::level_number(admission.min_level);
            let urgent = mapper::level_number(admission.priority_threshold);
            let more_severe = severity > mapper::level_number(other.level);
            &&& admission.min_level == LogLevel::Trace ==> admission.passes(log)
            &&& log.level == LogLevel::Error ==> admission.passes(log) && admission.has_priority(log)
            &&& log.level == admission.min_level ==> admission.passes(log)
            &&& log.level == admission.priority_threshold ==> admission.has_priority(log)
            &&& more_severe && admission.passes(other) ==> admission.passes(log)
            &&& more_severe && admission.has_priority(other) ==> admission.has_priority(log)
            &&& severity < least ==> !admission.passes(log)
            &&& severity < urgent ==> !admission.has_priority(log)
        }),
{
}

/// A record passes only where its audience is accepted: each audience has a switch of its own.
pub proof fn law_audiences_decide_admission<R: RequestFields>(
    admission: Admission,
    log: EdenLog<R>,
)
    requires
        admission.passes(log),
    ensures
        log.audience == LogAudience::Internal ==> admission.audiences.internal,
        log.audience == LogAudience::Client ==> admission.audiences.client,
        log.audience == LogAudience::Both ==> admission.audiences.both,
{
}

/// A shutdown that does not wait for its worker counts what is left as dropped, leaves nothing in the
/// gauges and no lane, and ends in the state `Stopped`. It counts nothing else.
pub proof fn law_a_shutdown_counts_what_is_left(state: ExporterMetrics, kept: u64)
    ensures
        ({
            let after = all_dropped(state, kept);
            let left = state.normal_queue_depth + state.reserved_queue_depth + state.inflight + kept;
            &&& left + state.dropped_shutdown <= u64::MAX ==> after.dropped_shutdown
                == state.dropped_shutdown + left
            &&& after.normal_queue_depth == 0
            &&& after.reserved_queue_depth == 0
            &&& after.inflight == 0
            &&& after.producer_lanes == 0
            &&& after.status == ExporterStatus::Stopped
            &&& after.exported == state.exported
            &&& after.rejected == state.rejected
            &&& after.filtered == state.filtered
            &&& after.dropped_queue_full == state.dropped_queue_full
            &&& after.dropped_stopped == state.dropped_stopped
            &&& after.dropped_oversize == state.dropped_oversize
        }),
{
}

}
