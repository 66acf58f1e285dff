use std::collections::VecDeque;

use eden_logger::context::{LogAudience, LogContext};
use eden_logger::export::batch::{resume, ExportRun, OtlpExportOutcome, Reply, Verdict};
use eden_logger::export::collector::LocalProducers;
use eden_logger::export::config::{
    AudienceFilter, ExporterConfig, InstallError, OtlpHttpError, OtlpHttpErrorKind,
};
use eden_logger::export::exporter::{batch_limits, install, install_on, ExporterHandle, WorkerEnd};
use eden_logger::export::metrics::ExporterStatus;
use eden_logger::export::record::Value;
use eden_logger::export::size::SizedRecord;
use eden_logger::export::worker::{Action, Event, Phase, ShutdownReport, Worker};
use eden_logger::schema::{EdenLog, LogLevel};
use eden_logger::sink::SinkRegistry;
use eden_logger::time::{Clock, Duration};
use eden_logger::trace::TraceSource;

/// An exporter with scripted replies: what would be sent or slept is recorded.
struct Harness {
    exporter: ExporterHandle<()>,
    producers: LocalProducers,
    worker: Worker<()>,
    retry: (Duration, Duration),
    replies: VecDeque<Reply>,
    requests: Vec<Vec<String>>,
    sleeps: Vec<Duration>,
    diagnostics: Vec<String>,
}

enum Halt {
    Idle,
    Filling,
    Failed,
    Stopped(ShutdownReport),
}

fn body(record: &SizedRecord) -> String {
    match record.record.body.as_ref().and_then(|body| body.value.as_ref()) {
        Some(Value::StringValue(text)) => text.clone(),
        _ => panic!("a record has a text as its body"),
    }
}

fn success() -> Reply {
    Reply::Acknowledged(OtlpExportOutcome { accepted: 1, rejected: 0, message: None })
}

fn partial(rejected: u64, message: &str) -> Reply {
    Reply::Acknowledged(OtlpExportOutcome { accepted: 0, rejected, message: Some(message.to_string()) })
}

fn status(kind: OtlpHttpErrorKind, status: u16, retry_after: Option<Duration>) -> Reply {
    Reply::Failed(OtlpHttpError { kind, message: format!("collector returned {status}"), status: Some(status), retry_after })
}

impl Harness {
    fn new(config: ExporterConfig, replies: Vec<Reply>) -> Harness {
        let mut sinks = SinkRegistry::new();
        let exporter = install::<()>(true, &config, Ok(()), &mut sinks, 1, 1).expect("install exporter");
        Harness {
            exporter,
            producers: LocalProducers::new(),
            worker: Worker::new(batch_limits(&config)),
            retry: (config.retry_initial, config.retry_max),
            replies: replies.into(),
            requests: Vec::new(),
            sleeps: Vec::new(),
            diagnostics: Vec::new(),
        }
    }

    fn emit(&mut self, level: LogLevel, message: &str) -> bool {
        let log = EdenLog::new(level, message, &LogContext::empty(), LogAudience::Internal, TraceSource::FastTelemetry);
        let (wake, diagnostic) = self.exporter.accept(&mut self.producers, log, 1_000_000_000);
        self.diagnostics.extend(diagnostic);
        wake
    }

    fn export(&mut self, batch: Vec<SizedRecord>) -> Event {
        let shared = &mut self.exporter.shared;
        let mut run = ExportRun::new(batch);
        while run.next_request(shared) {
            self.requests.push(run.current.as_ref().expect("a request").iter().map(body).collect());
            let reply = self.replies.pop_front().expect("a scripted reply");
            let (verdict, diagnostic) = run.reply(shared, reply, self.retry.0, self.retry.1, &Clock::now());
            self.diagnostics.extend(diagnostic);
            match verdict {
                Verdict::Proceed => {}
                Verdict::Retry(delay) => {
                    self.sleeps.push(delay);
                    resume(shared);
                }
                Verdict::Terminal(left) => return Event::ExportFailed(left),
            }
        }
        Event::Exported
    }

    fn step(&mut self, event: Event) -> Action {
        let (action, diagnostic) = self.worker.step(&mut self.exporter.collector, &mut self.exporter.shared, event);
        self.diagnostics.extend(diagnostic);
        action
    }

    fn run(&mut self, event: Event) -> Halt {
        let mut event = event;
        loop {
            event = match self.step(event) {
                Action::Continue | Action::BatchStarted => Event::Proceed,
                Action::Export(batch) => self.export(batch),
                Action::AwaitRecords => return Halt::Idle,
                Action::AwaitMore => return Halt::Filling,
                Action::AwaitShutdown => return Halt::Failed,
                Action::Stop(report) => return Halt::Stopped(report),
            };
        }
    }

    fn shut_down(mut self, halted: Halt) -> ShutdownReport {
        assert!(self.exporter.begin_shutdown());
        let report = match (halted, self.worker.phase()) {
            (Halt::Stopped(report), _) => report,
            _ => match self.run(Event::ShutdownRequested) {
                Halt::Stopped(report) => report,
                _ => panic!("the worker ends once shutdown is requested"),
            },
        };
        self.exporter.shutdown(WorkerEnd::Finished(report))
    }
}

fn limits(records: usize) -> ExporterConfig {
    ExporterConfig::new("http://127.0.0.1:9", "checkout").with_batch_limits(records, 1024 * 1024, Duration::from_millis(10))
}

#[test]
fn exports_an_acknowledged_otlp_request() {
    let config = limits(1).with_resource_attribute("service.instance.id", "checkout-1").with_header("x-tenant", "tenant-a");
    let mut harness = Harness::new(config, vec![success()]);
    assert!(harness.emit(LogLevel::Info, "ready"));

    let halted = harness.run(Event::Proceed);
    assert!(matches!(halted, Halt::Idle));
    assert_eq!(harness.requests, vec![vec!["ready".to_string()]]);
    assert_eq!(harness.exporter.metrics_snapshot().exported, 1);

    let report = harness.shut_down(halted);
    assert!(!report.timed_out);
    assert_eq!(report.remaining_records, 0);
    assert_eq!(report.metrics.status, ExporterStatus::Stopped);
}

#[test]
fn rejects_an_individually_oversized_encoded_request() {
    let config =
        ExporterConfig::new("http://127.0.0.1:9", "checkout").with_batch_limits(512, 128, Duration::from_millis(10));
    let mut harness = Harness::new(config, vec![]);
    harness.emit(LogLevel::Info, &"x".repeat(256));

    let halted = harness.run(Event::Proceed);
    assert!(matches!(halted, Halt::Idle));
    assert_eq!(harness.exporter.metrics_snapshot().dropped_oversize, 1);
    assert_eq!(harness.exporter.metrics_snapshot().export_attempts, 0);
    assert_eq!(
        harness.diagnostics,
        vec!["[eden_logger_export emergency] an encoded log record exceeded max_batch_bytes and was dropped".to_string()]
    );

    let report = harness.shut_down(halted);
    assert!(!report.timed_out);
}

#[test]
fn bisects_partial_success_until_a_poison_record_is_isolated() {
    let replies = vec![partial(1, "one invalid record"), success(), partial(1, "invalid record")];
    let mut harness = Harness::new(limits(2), replies);
    harness.emit(LogLevel::Info, "valid");
    harness.emit(LogLevel::Info, "invalid");

    let halted = harness.run(Event::Proceed);
    let metrics = harness.exporter.metrics_snapshot();
    assert_eq!(metrics.exported, 1);
    assert_eq!(metrics.rejected, 1);
    assert_eq!(metrics.partial_rejections, 2);
    assert_eq!(metrics.export_attempts, 3);
    let texts = |list: &[&str]| list.iter().map(|text| text.to_string()).collect::<Vec<_>>();
    assert_eq!(harness.requests, vec![texts(&["valid", "invalid"]), texts(&["valid"]), texts(&["invalid"])]);

    let report = harness.shut_down(halted);
    assert!(!report.timed_out);
}

#[test]
fn retries_throttling_and_honors_retry_after() {
    let config = limits(1).with_retry(Duration::from_millis(5), Duration::from_millis(20));
    let replies = vec![status(OtlpHttpErrorKind::RetryableStatus, 429, Some(Duration::zero())), success()];
    let mut harness = Harness::new(config, replies);
    harness.emit(LogLevel::Warn, "throttled");

    let halted = harness.run(Event::Proceed);
    assert_eq!(harness.exporter.metrics_snapshot().exported, 1);
    assert_eq!(harness.exporter.metrics_snapshot().retries, 1);
    assert_eq!(harness.sleeps, vec![Duration::zero()]);

    let report = harness.shut_down(halted);
    assert!(!report.timed_out);
}

#[test]
fn authentication_failure_sets_terminal_health() {
    let mut harness = Harness::new(limits(1), vec![status(OtlpHttpErrorKind::TerminalStatus, 401, None)]);
    harness.emit(LogLevel::Error, "authentication test");

    let halted = harness.run(Event::Proceed);
    assert!(matches!(halted, Halt::Failed));
    assert_eq!(harness.exporter.status(), ExporterStatus::TerminalFailure);
    assert_eq!(harness.exporter.metrics_snapshot().status, ExporterStatus::TerminalFailure);
    assert!(harness.exporter.last_error().is_some_and(|error| error.contains("401")));

    let report = harness.shut_down(halted);
    assert_eq!(report.remaining_records, 1);
    assert_eq!(report.metrics.dropped_shutdown, 1);
}

#[test]
fn stopping_after_a_failure_counts_what_is_left() {
    let mut harness = Harness::new(limits(2), vec![status(OtlpHttpErrorKind::TerminalStatus, 403, None)]);
    for message in ["a", "b", "c", "d", "e"] {
        harness.emit(LogLevel::Info, message);
    }
    let halted = harness.run(Event::Proceed);
    assert!(matches!(halted, Halt::Failed));
    assert_eq!(harness.exporter.metrics_snapshot().inflight, 2);
    assert_eq!(harness.exporter.metrics_snapshot().normal_queue_depth, 3);
    harness.emit(LogLevel::Warn, "f");

    let report = harness.shut_down(halted);
    assert_eq!(report.remaining_records, 6);
    assert_eq!(report.metrics.dropped_shutdown, 6);
    assert_eq!(report.metrics.normal_queue_depth, 0);
    assert_eq!(report.metrics.inflight, 0);
}

#[test]
fn every_record_is_exported_rejected_dropped_or_held() {
    let replies = vec![success(), partial(1, "bad"), success(), success(), success()];
    let mut harness = Harness::new(limits(3).with_queue_capacities(7, 1), replies);
    for i in 0..10 {
        harness.emit(LogLevel::Info, &format!("{i}"));
    }
    let halted = harness.run(Event::Proceed);
    let metrics = harness.exporter.metrics_snapshot();
    assert_eq!(metrics.accepted + metrics.dropped_queue_full, 10);
    assert_eq!(metrics.accepted, 7);
    assert!(matches!(halted, Halt::Filling));
    let report = harness.shut_down(halted);
    assert_eq!(report.metrics.exported + report.metrics.rejected, 7);
    assert_eq!(report.remaining_records, 0);
}

#[test]
fn queue_pressure_preserves_reserved_warn_capacity() {
    let config = limits(1).with_queue_capacities(1, 1);
    let mut harness = Harness::new(config, vec![success(), success(), success()]);
    harness.emit(LogLevel::Info, "in flight");
    let first = loop {
        match harness.step(Event::Proceed) {
            Action::Export(batch) => break batch,
            Action::Continue | Action::BatchStarted => {}
            _ => panic!("a batch is exported"),
        }
    };
    assert_eq!(first.iter().map(body).collect::<Vec<_>>(), vec!["in flight".to_string()]);

    harness.emit(LogLevel::Info, "normal queue");
    harness.emit(LogLevel::Info, "dropped info");
    harness.emit(LogLevel::Warn, "reserved warning");

    let pressured = harness.exporter.metrics_snapshot();
    assert_eq!(pressured.accepted, 3);
    assert_eq!(pressured.dropped_queue_full, 1);
    assert_eq!(pressured.normal_queue_depth, 1);
    assert_eq!(pressured.reserved_queue_depth, 1);
    assert_eq!(
        harness.diagnostics,
        vec!["[eden_logger_export emergency] bounded log queues are full; records are being dropped".to_string()]
    );

    let exported = harness.export(first);
    let halted = harness.run(exported);
    assert_eq!(harness.exporter.metrics_snapshot().exported, 3);
    assert_eq!(harness.requests[1], vec!["reserved warning".to_string()]);
    assert_eq!(harness.requests[2], vec!["normal queue".to_string()]);
    let report = harness.shut_down(halted);
    assert!(!report.timed_out);
}

#[test]
fn a_batch_is_exported_at_its_deadline_or_when_shutdown_begins() {
    let mut harness = Harness::new(limits(10), vec![success(), success(), success()]);
    assert!(matches!(harness.run(Event::Proceed), Halt::Idle));
    harness.emit(LogLevel::Info, "a");
    assert!(matches!(harness.run(Event::RecordsReady), Halt::Filling));
    harness.emit(LogLevel::Info, "b");
    assert!(matches!(harness.run(Event::RecordsReady), Halt::Filling));
    assert_eq!(harness.exporter.metrics_snapshot().inflight, 0);
    assert!(matches!(harness.run(Event::DeadlineReached), Halt::Idle));
    assert_eq!(harness.requests, vec![vec!["a".to_string(), "b".to_string()]]);

    harness.emit(LogLevel::Info, "c");
    let halted = harness.run(Event::RecordsReady);
    assert!(matches!(halted, Halt::Filling));
    harness.emit(LogLevel::Info, "d");
    let report = harness.shut_down(halted);
    assert_eq!(report.metrics.exported, 4);
    assert_eq!(report.metrics.normal_queue_depth, 0);
}

#[test]
fn batches_keep_to_the_limit_on_bytes() {
    let config =
        ExporterConfig::new("http://127.0.0.1:9", "checkout").with_batch_limits(512, 512, Duration::from_millis(10));
    let mut harness = Harness::new(config, vec![success(), success(), success()]);
    for name in ["a", "b", "c"] {
        harness.emit(LogLevel::Info, &name.repeat(200));
    }
    let halted = harness.run(Event::Proceed);
    assert!(matches!(halted, Halt::Filling));
    assert_eq!(harness.requests.len(), 2);
    assert!(harness.requests.iter().all(|request| request.len() == 1));
    let report = harness.shut_down(halted);
    assert_eq!(report.metrics.exported, 3);
}

#[test]
fn no_record_is_admitted_once_shutdown_has_begun() {
    let mut harness = Harness::new(limits(1), vec![]);
    harness.exporter.begin_shutdown();
    assert!(!harness.emit(LogLevel::Error, "late"));
    let metrics = harness.exporter.metrics_snapshot();
    assert_eq!((metrics.dropped_stopped, metrics.accepted), (1, 0));
    assert_eq!(harness.exporter.status(), ExporterStatus::ShuttingDown);
    assert!(!harness.exporter.begin_shutdown());
}

#[test]
fn filters_exclude_levels_and_audiences() {
    let config = limits(1).with_min_level(LogLevel::Warn).with_audiences(AudienceFilter::internal_only());
    let mut harness = Harness::new(config, vec![]);
    harness.emit(LogLevel::Info, "below");
    let log = EdenLog::new(LogLevel::Error, "client", &LogContext::empty(), LogAudience::Client, TraceSource::FastTelemetry);
    harness.exporter.accept(&mut harness.producers, log, 0);
    harness.emit(LogLevel::Warn, "kept");
    let metrics = harness.exporter.metrics_snapshot();
    assert_eq!((metrics.filtered, metrics.accepted), (2, 1));
}

#[test]
fn installation_fails_in_order() {
    let client_error = || {
        Err(OtlpHttpError {
            kind: OtlpHttpErrorKind::Configuration,
            message: "no".to_string(),
            status: None,
            retry_after: None,
        })
    };
    let mut sinks = SinkRegistry::new();
    let good = limits(1);
    let bad = limits(0);
    assert!(matches!(install::<()>(false, &bad, client_error(), &mut sinks, 1, 1), Err(InstallError::NoTokioRuntime)));
    assert!(matches!(install::<()>(true, &bad, client_error(), &mut sinks, 1, 1), Err(InstallError::InvalidConfig(_))));
    assert!(matches!(install_on::<()>(&good, client_error(), &mut sinks, 1, 1), Err(InstallError::Transport(_))));
    assert!(!sinks.any_installed());
    assert!(install_on::<()>(&good, Ok(()), &mut sinks, 1, 1).is_ok());
    assert!(matches!(install_on::<()>(&good, Ok(()), &mut sinks, 1, 2), Err(InstallError::SinkAlreadyInstalled)));
    assert!(install_on::<()>(&good, Ok(()), &mut sinks, 2, 2).is_ok());
}

#[test]
fn shutdown_accounts_for_what_is_left() {
    let mut missing = Harness::new(limits(1), vec![]);
    missing.exporter.begin_shutdown();
    let report = missing.exporter.shutdown(WorkerEnd::Missing);
    assert_eq!((report.timed_out, report.remaining_records), (false, 0));

    let mut late = Harness::new(limits(1), vec![]);
    late.emit(LogLevel::Info, "a");
    late.emit(LogLevel::Info, "b");
    late.exporter.begin_shutdown();
    let report = late.exporter.shutdown(WorkerEnd::TimedOut(late.worker.kept()));
    assert_eq!((report.timed_out, report.remaining_records, report.metrics.dropped_shutdown), (true, 2, 2));
    assert_eq!(report.metrics.normal_queue_depth, 0);
    assert_eq!(late.exporter.status(), ExporterStatus::Stopped);

    let mut crashed = Harness::new(limits(1), vec![]);
    crashed.emit(LogLevel::Info, "a");
    crashed.exporter.begin_shutdown();
    let report = crashed.exporter.shutdown(WorkerEnd::Failed("panicked".to_string(), crashed.worker.kept()));
    assert_eq!((report.timed_out, report.remaining_records, report.metrics.dropped_shutdown), (false, 1, 1));
    assert_eq!((report.metrics.normal_queue_depth, report.metrics.reserved_queue_depth, report.metrics.inflight), (0, 0, 0));
    assert_eq!(crashed.exporter.status(), ExporterStatus::Stopped);
    assert_eq!(crashed.exporter.last_error().as_deref(), Some("exporter worker failed: panicked"));
    let points = crashed.exporter.visit_metrics();
    assert!(points.iter().any(|p| p.name == "eden_logger_export.logs_accepted_total" && p.value == 1));
}

/// Limits under which two equal records fit in a request each, but not together.
fn one_record_for_each_request() -> ExporterConfig {
    let wide = limits(2);
    let mut probe = Harness::new(limits(2), vec![success()]);
    probe.emit(LogLevel::Info, "a");
    probe.step(Event::Proceed);
    let Action::AwaitMore = probe.step(Event::Proceed) else { panic!("a batch of one record waits for more") };
    let Action::Export(batch) = probe.step(Event::DeadlineReached) else { panic!("the deadline puts the batch out") };
    let sizer = batch_limits(&wide).sizer;
    let bytes = sizer.encoded_len(batch[0].field_len) + batch[0].field_len / 2;
    wide.with_batch_limits(2, bytes, Duration::from_millis(10))
}

#[test]
fn a_record_that_is_kept_for_the_next_batch_is_counted_when_the_worker_stops() {
    let config = one_record_for_each_request();
    let mut harness = Harness::new(config, vec![status(OtlpHttpErrorKind::TerminalStatus, 401, None)]);
    harness.emit(LogLevel::Info, "a");
    harness.emit(LogLevel::Info, "b");
    let halted = harness.run(Event::Proceed);
    assert!(matches!(halted, Halt::Failed));
    assert_eq!(harness.requests, vec![vec!["a".to_string()]]);
    let metrics = harness.exporter.metrics_snapshot();
    assert_eq!((metrics.inflight, metrics.normal_queue_depth, harness.worker.kept()), (1, 0, 1));

    let report = harness.shut_down(halted);
    assert!(!report.timed_out);
    assert_eq!((report.remaining_records, report.metrics.dropped_shutdown), (2, 2));
    assert_eq!((report.metrics.normal_queue_depth, report.metrics.reserved_queue_depth, report.metrics.inflight), (0, 0, 0));
    assert_eq!(report.metrics.status, ExporterStatus::Stopped);
}

#[test]
fn a_shutdown_that_is_cut_off_counts_what_the_worker_holds() {
    let mut harness = Harness::new(one_record_for_each_request(), vec![]);
    harness.emit(LogLevel::Info, "a");
    harness.emit(LogLevel::Info, "b");
    harness.emit(LogLevel::Info, "c");
    assert!(matches!(harness.step(Event::Proceed), Action::BatchStarted));
    assert_eq!(harness.worker.kept(), 1);
    assert!(matches!(harness.step(Event::Proceed), Action::Export(_)));
    assert_eq!(harness.worker.kept(), 1);
    harness.exporter.begin_shutdown();
    let report = harness.exporter.shutdown(WorkerEnd::TimedOut(harness.worker.kept()));
    assert_eq!((report.timed_out, report.remaining_records, report.metrics.dropped_shutdown), (true, 3, 3));

    let mut filling = Harness::new(limits(2), vec![]);
    filling.emit(LogLevel::Info, "a");
    assert!(matches!(filling.run(Event::Proceed), Halt::Filling));
    filling.exporter.begin_shutdown();
    let report = filling.exporter.shutdown(WorkerEnd::Failed("aborted".to_string(), filling.worker.kept()));
    assert_eq!((report.timed_out, report.remaining_records, report.metrics.dropped_shutdown), (false, 1, 1));
}

#[test]
fn a_shutdown_that_is_cut_off_does_not_count_what_is_settled() {
    let mut harness = Harness::new(limits(4), vec![]);
    for message in ["a", "b", "c", "d"] {
        harness.emit(LogLevel::Info, message);
    }
    let mut event = Event::Proceed;
    let batch = loop {
        event = match harness.step(event) {
            Action::Export(batch) => break batch,
            _ => Event::Proceed,
        };
    };
    let shared = &mut harness.exporter.shared;
    let mut run = ExportRun::new(batch);
    for reply in [partial(1, "bad"), success()] {
        assert!(run.next_request(shared));
        run.reply(shared, reply, harness.retry.0, harness.retry.1, &Clock::now());
    }
    assert_eq!((shared.metrics.exported, shared.metrics.inflight), (2, 4));
    run.cut_off(shared);
    assert_eq!(shared.metrics.inflight, 2);
    assert!(run.next_request(shared));
    run.cut_off(shared);
    assert_eq!(shared.metrics.inflight, 2);

    harness.exporter.begin_shutdown();
    let report = harness.exporter.shutdown(WorkerEnd::TimedOut(harness.worker.kept()));
    assert_eq!((report.remaining_records, report.metrics.dropped_shutdown), (2, 2));
    assert_eq!(report.metrics.exported + report.metrics.dropped_shutdown, report.metrics.accepted);
}

#[test]
fn the_worker_says_where_it_stands() {
    let mut harness = Harness::new(limits(2), vec![]);
    assert_eq!(harness.worker.phase(), Phase::Idle);
    assert!(matches!(harness.step(Event::Proceed), Action::AwaitRecords));
    assert_eq!(harness.worker.phase(), Phase::Waiting);
    harness.emit(LogLevel::Info, "a");
    assert!(matches!(harness.step(Event::RecordsReady), Action::BatchStarted));
    assert_eq!(harness.worker.phase(), Phase::Filling);
    assert!(matches!(harness.step(Event::Proceed), Action::AwaitMore));
    assert_eq!(harness.worker.phase(), Phase::FillWaiting);
    assert!(matches!(harness.step(Event::DeadlineReached), Action::Export(_)));
    assert_eq!(harness.worker.phase(), Phase::Exporting);
    assert!(matches!(harness.step(Event::Exported), Action::Continue));
    assert_eq!(harness.worker.phase(), Phase::Idle);
}
