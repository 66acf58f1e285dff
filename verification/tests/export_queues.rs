use std::collections::VecDeque;

use eden_logger::context::{LogAudience, LogContext};
use eden_logger::export::collector::{
    claim, LocalProducers, LogCollector, ProducerLane, QueueKind, QueuedLog, SubmitResult,
};
use eden_logger::export::config::{
    at_least, AudienceFilter, ExporterConfig, InstallError, OtlpHttpError, OtlpHttpErrorKind,
};
use eden_logger::export::metrics::{
    visit_exporter_metrics, ExporterMetrics, ExporterMetricsSnapshot, ExporterStatus,
};
use eden_logger::export::shared::{decrement, remaining_records, Shared};
use eden_logger::fields::{FieldWriter, RequestFields};
use eden_logger::metrics::MetricKind;
use eden_logger::schema::{EdenLog, LogLevel};
use eden_logger::time::Duration;
use eden_logger::trace::TraceSource;

#[derive(Default)]
struct TestFields;

impl RequestFields for TestFields {
    fn write_display<W: FieldWriter>(&self, _: &mut W) {}
    fn write_json<W: FieldWriter>(&self, _: &mut W) {}
    fn duplicate(&self) -> Self {
        TestFields
    }
    fn merge(&mut self, _: Self) {}
}

fn log(message: &str) -> EdenLog<TestFields> {
    EdenLog::new(
        LogLevel::Info,
        message,
        &LogContext::<TestFields>::new(),
        LogAudience::Internal,
        TraceSource::FastTelemetry,
    )
}

fn messages(queue: &VecDeque<QueuedLog<TestFields>>) -> Vec<String> {
    queue.iter().map(|record| record.log.message.clone()).collect()
}

#[test]
fn recycles_queue_allocations_between_worker_drains() {
    let mut lane = ProducerLane::new();
    for _ in 0..128 {
        lane.push(log("buffered"), QueueKind::Normal);
    }

    let mut drained = lane.take();
    let grown_capacity = drained.normal.capacity();
    assert!(grown_capacity >= 128);
    drained.normal.clear();
    lane.recycle(drained);

    lane.push(log("next"), QueueKind::Normal);
    let mut next = lane.take();
    assert_eq!(next.normal.len(), 1);
    next.normal.clear();
    lane.recycle(next);

    assert!(lane.queues.normal.capacity() >= grown_capacity);
}

#[test]
fn registers_one_lane_per_thread_and_drains_all_records() {
    let mut metrics = ExporterMetrics::default();
    let mut collector = LogCollector::new(1, 8, 2);
    let mut main_thread = LocalProducers::new();
    assert!(matches!(collector.submit(&mut metrics, &mut main_thread, log("main-1"), false).0, SubmitResult::Accepted));
    assert!(matches!(collector.submit(&mut metrics, &mut main_thread, log("main-2"), false).0, SubmitResult::Accepted));
    assert_eq!(collector.registered_lanes(), 1);

    let mut other_thread = LocalProducers::new();
    assert!(matches!(collector.submit(&mut metrics, &mut other_thread, log("thread"), false).0, SubmitResult::Accepted));
    for (id, lane) in &other_thread.lanes {
        assert_eq!(*id, 1);
        collector.close_lane(*lane);
    }
    assert_eq!(collector.registered_lanes(), 2);
    assert_eq!(metrics.producer_lanes, 2);

    let mut reserved = VecDeque::new();
    let mut normal = VecDeque::new();
    assert_eq!(collector.drain_into(&mut metrics, &mut reserved, &mut normal), 3);
    while let Some(record) = reserved.pop_front().or_else(|| normal.pop_front()) {
        collector.release(&mut metrics, record.queue);
    }
    assert_eq!(metrics.normal_queue_depth, 0);

    collector.drain_into(&mut metrics, &mut reserved, &mut normal);
    assert_eq!(collector.registered_lanes(), 1);
    assert_eq!(metrics.producer_lanes, 1);
}

#[test]
fn enforces_global_normal_and_reserved_capacity() {
    let mut metrics = ExporterMetrics::default();
    let mut collector = LogCollector::new(1, 1, 1);
    let mut producers = LocalProducers::new();

    let mut submit = |collector: &mut LogCollector<TestFields>, metrics: &mut ExporterMetrics, m: &str, priority: bool| {
        collector.submit(metrics, &mut producers, log(m), priority).0
    };
    assert!(matches!(submit(&mut collector, &mut metrics, "normal", false), SubmitResult::Accepted));
    assert!(matches!(submit(&mut collector, &mut metrics, "normal-full", false), SubmitResult::Full));
    assert!(matches!(submit(&mut collector, &mut metrics, "reserved", true), SubmitResult::Accepted));
    assert!(matches!(submit(&mut collector, &mut metrics, "reserved-full", true), SubmitResult::Full));
    assert_eq!(metrics.normal_queue_depth, 1);
    assert_eq!(metrics.reserved_queue_depth, 1);

    let mut reserved = VecDeque::new();
    let mut normal = VecDeque::new();
    collector.drain_into(&mut metrics, &mut reserved, &mut normal);
    assert_eq!(reserved.front().map(|record| record.queue), Some(QueueKind::Reserved));
    while let Some(record) = reserved.pop_front().or_else(|| normal.pop_front()) {
        collector.release(&mut metrics, record.queue);
    }
    assert_eq!(metrics.normal_queue_depth, 0);
    assert_eq!(metrics.reserved_queue_depth, 0);
}

fn admission_sequence(normal_capacity: usize, reserved_capacity: usize, priorities: Vec<bool>) {
    let mut metrics = ExporterMetrics::default();
    let mut collector = LogCollector::new(1, normal_capacity as u64, reserved_capacity as u64);
    let lane = collector.register_lane(&mut metrics);
    let mut expected_normal = Vec::new();
    let mut expected_reserved = Vec::new();

    for (index, priority) in priorities.into_iter().enumerate() {
        let message = index.to_string();
        let expected_accepted = if expected_normal.len() < normal_capacity {
            expected_normal.push(message.clone());
            true
        } else if priority && expected_reserved.len() < reserved_capacity {
            expected_reserved.push(message.clone());
            true
        } else {
            false
        };
        let result = collector.submit_to_lane(&mut metrics, lane, log(&message), priority).0;
        assert_eq!(matches!(result, SubmitResult::Accepted), expected_accepted);
    }

    assert_eq!(metrics.normal_queue_depth as usize, expected_normal.len());
    assert_eq!(metrics.reserved_queue_depth as usize, expected_reserved.len());

    let mut reserved = VecDeque::new();
    let mut normal = VecDeque::new();
    while collector.drain_into(&mut metrics, &mut reserved, &mut normal) > 0 {}

    assert_eq!(messages(&reserved), expected_reserved);
    assert!(reserved.iter().all(|record| record.queue == QueueKind::Reserved));
    assert_eq!(messages(&normal), expected_normal);
    assert!(normal.iter().all(|record| record.queue == QueueKind::Normal));

    while let Some(record) = reserved.pop_front().or_else(|| normal.pop_front()) {
        collector.release(&mut metrics, record.queue);
    }
    assert_eq!(metrics.normal_queue_depth, 0);
    assert_eq!(metrics.reserved_queue_depth, 0);
}

#[test]
fn generated_admission_sequences_preserve_capacity_order_and_identity() {
    let mut state: u64 = 0x9e37_79b9;
    let mut draw = |limit: u64| {
        state = state.wrapping_mul(6_364_136_223_846_793_005).wrapping_add(1_442_695_040_888_963_407);
        (state >> 33) % limit
    };
    for _ in 0..300 {
        let normal_capacity = draw(33) as usize;
        let reserved_capacity = draw(17) as usize;
        let count = draw(129);
        let priorities = (0..count).map(|_| draw(2) == 1).collect();
        admission_sequence(normal_capacity, reserved_capacity, priorities);
    }
}

#[test]
fn lanes_take_turns_of_one_quantum() {
    let mut metrics = ExporterMetrics::default();
    let mut collector = LogCollector::new(1, 1_000, 10);
    let first = collector.register_lane(&mut metrics);
    let second = collector.register_lane(&mut metrics);
    for i in 0..100 {
        collector.submit_to_lane(&mut metrics, first, log(&format!("a{i}")), false);
    }
    for i in 0..70 {
        collector.submit_to_lane(&mut metrics, second, log(&format!("b{i}")), false);
    }
    let mut reserved = VecDeque::new();
    let mut normal = VecDeque::new();
    assert_eq!(collector.drain_into(&mut metrics, &mut reserved, &mut normal), 170);
    let mut expected: Vec<String> = (0..64).map(|i| format!("a{i}")).collect();
    expected.extend((0..64).map(|i| format!("b{i}")));
    expected.extend((64..100).map(|i| format!("a{i}")));
    expected.extend((64..70).map(|i| format!("b{i}")));
    assert_eq!(messages(&normal), expected);

    normal.clear();
    collector.submit_to_lane(&mut metrics, first, log("a"), false);
    collector.submit_to_lane(&mut metrics, second, log("b"), false);
    collector.drain_into(&mut metrics, &mut reserved, &mut normal);
    assert_eq!(messages(&normal), vec!["b".to_string(), "a".to_string()]);
}

#[test]
fn a_lane_that_is_registered_no_longer_wakes_the_worker_for_its_first_record() {
    let mut metrics = ExporterMetrics::default();
    let mut collector = LogCollector::new(1, 8, 2);
    let lane = collector.register_lane(&mut metrics);
    collector.submit_to_lane(&mut metrics, lane, log("a"), false);
    collector.clear(&mut metrics);
    assert!(collector.submit_to_lane(&mut metrics, lane, log("b"), false).1);
    assert!(!collector.submit_to_lane(&mut metrics, lane, log("c"), false).1);
    assert_eq!((metrics.normal_queue_depth, collector.registered_lanes()), (3, 0));

    let mut reserved = VecDeque::new();
    let mut normal = VecDeque::new();
    assert_eq!(collector.drain_into(&mut metrics, &mut reserved, &mut normal), 0);
    assert!(!collector.submit_to_lane(&mut metrics, lane, log("d"), false).1);
    collector.close_lane(lane);
    assert!(collector.submit_to_lane(&mut metrics, lane, log("e"), false).1);
}

#[test]
fn only_the_first_record_of_an_empty_lane_wakes_the_worker() {
    let mut metrics = ExporterMetrics::default();
    let mut collector = LogCollector::new(1, 10, 10);
    let lane = collector.register_lane(&mut metrics);
    assert!(collector.submit_to_lane(&mut metrics, lane, log("a"), false).1);
    assert!(!collector.submit_to_lane(&mut metrics, lane, log("b"), true).1);
    collector.clear(&mut metrics);
    assert_eq!(collector.registered_lanes(), 0);
    assert_eq!(metrics.producer_lanes, 0);
}

#[test]
fn slots_are_claimed_up_to_a_capacity() {
    let mut depth = 1;
    assert!(claim(&mut depth, 2));
    assert!(!claim(&mut depth, 2));
    assert_eq!(depth, 2);
    decrement(&mut depth);
    assert_eq!(depth, 1);
    let mut empty = 0;
    decrement(&mut empty);
    assert_eq!(empty, 0);
}

#[test]
fn validates_every_bounded_exporter_limit() {
    let valid = || ExporterConfig::new("http://localhost:4318", "checkout");
    assert!(valid().validate().is_ok());

    let mut cases = Vec::new();

    let mut config = valid();
    config.service_name.clear();
    cases.push(config);

    let mut config = valid();
    config.scope_name.clear();
    cases.push(config);

    let mut config = valid();
    config.normal_queue_capacity = 0;
    cases.push(config);

    let mut config = valid();
    config.reserved_queue_capacity = 0;
    cases.push(config);

    let mut config = valid();
    config.max_batch_records = 0;
    cases.push(config);

    let mut config = valid();
    config.max_batch_bytes = 0;
    cases.push(config);

    let mut config = valid();
    config.max_batch_delay = Duration::zero();
    cases.push(config);

    let mut config = valid();
    config.retry_initial = Duration::zero();
    cases.push(config);

    let mut config = valid();
    config.retry_initial = Duration::from_millis(config.retry_max.as_millis() as u64 + 1);
    cases.push(config);

    let mut config = valid();
    config.diagnostic_interval = Duration::zero();
    cases.push(config);

    for config in cases {
        assert!(matches!(config.validate(), Err(InstallError::InvalidConfig(_))));
    }
}

#[test]
fn a_configuration_has_the_documented_defaults() {
    let config = ExporterConfig::new("http://localhost:4318", "payments");
    assert_eq!(config.service_name, "payments");
    assert_eq!(config.scope_name, "eden_logger");
    assert_eq!(config.http.endpoint, "http://localhost:4318");
    assert_eq!(config.normal_queue_capacity, 61_440);
    assert_eq!(config.reserved_queue_capacity, 4_096);
    assert_eq!(config.max_batch_records, 512);
    assert_eq!(config.max_batch_bytes, 1024 * 1024);
    assert_eq!(config.max_batch_delay, Duration::from_millis(200));
    assert_eq!(config.retry_initial, Duration::from_millis(250));
    assert_eq!(config.retry_max, Duration::from_secs(30));
    assert_eq!(config.diagnostic_interval, Duration::from_secs(60));
    assert_eq!(config.http.timeout, Duration::from_secs(10));
    assert_eq!((config.http.gzip_threshold, config.http.max_response_bytes), (1024, 65536));
    let copy = config.clone();
    assert_eq!((copy.http.endpoint, copy.http.timeout), (config.http.endpoint.clone(), config.http.timeout));
    assert_eq!((copy.service_name, copy.retry_max), (config.service_name.clone(), config.retry_max));
    assert_eq!(config.priority_threshold, LogLevel::Warn);
    assert_eq!(config.audiences, AudienceFilter::all());

    let config = config
        .with_scope_name("scope")
        .with_resource_attribute("k", "v")
        .with_header("Authorization", "Bearer token")
        .with_timeout(Duration::from_secs(4))
        .with_ca_certificate_pem(vec![1])
        .with_client_identity_pem(vec![2])
        .with_min_level(LogLevel::Info)
        .with_audiences(AudienceFilter::internal_only())
        .with_queue_capacities(3, 4)
        .with_batch_limits(5, 6, Duration::from_millis(7))
        .with_retry(Duration::from_millis(8), Duration::from_millis(9));
    assert_eq!(config.scope_name, "scope");
    assert_eq!(config.resource_attributes, vec![("k".to_string(), "v".to_string())]);
    assert_eq!(config.http.headers, vec![("Authorization".to_string(), "Bearer token".to_string())]);
    assert_eq!(config.http.timeout, Duration::from_secs(4));
    assert_eq!(config.http.tls.ca_certificates_pem, vec![vec![1]]);
    assert_eq!(config.http.tls.client_identity_pem, Some(vec![2]));
    assert_eq!(config.min_level, LogLevel::Info);
    assert!(!config.audiences.allows(LogAudience::Client));
    assert_eq!((config.normal_queue_capacity, config.reserved_queue_capacity), (3, 4));
    assert_eq!((config.max_batch_records, config.max_batch_bytes), (5, 6));
    assert_eq!((config.retry_initial, config.retry_max), (Duration::from_millis(8), Duration::from_millis(9)));
}

#[test]
fn audience_filter_keeps_each_audience_independent() {
    let filter = AudienceFilter { internal: true, client: false, both: true };

    assert!(filter.allows(LogAudience::Internal));
    assert!(!filter.allows(LogAudience::Client));
    assert!(filter.allows(LogAudience::Both));
}

#[test]
fn levels_pass_their_own_threshold_and_lower_ones() {
    assert!(at_least(LogLevel::Warn, LogLevel::Warn));
    assert!(at_least(LogLevel::Error, LogLevel::Warn));
    assert!(!at_least(LogLevel::Info, LogLevel::Warn));
    assert!(at_least(LogLevel::Trace, LogLevel::Trace));
}

fn failure(kind: OtlpHttpErrorKind) -> OtlpHttpError {
    OtlpHttpError { kind, message: "m".to_string(), status: Some(429), retry_after: None }
}

#[test]
fn errors_say_what_they_are() {
    assert!(failure(OtlpHttpErrorKind::Transport).is_retryable());
    assert!(failure(OtlpHttpErrorKind::RetryableStatus).is_retryable());
    assert!(!failure(OtlpHttpErrorKind::TerminalStatus).is_retryable());
    assert!(failure(OtlpHttpErrorKind::InvalidPayload).is_invalid_payload());
    assert!(!failure(OtlpHttpErrorKind::Decode).is_invalid_payload());

    assert_eq!(InstallError::NoTokioRuntime.to_string(), "no Tokio runtime is active");
    assert_eq!(InstallError::InvalidConfig("x".to_string()).to_string(), "invalid exporter config: x");
    assert_eq!(
        InstallError::SinkAlreadyInstalled.to_string(),
        "an eden_logger sink is already installed for this RequestFields type"
    );
    let transport = InstallError::from(failure(OtlpHttpErrorKind::Transport));
    let inner = failure(OtlpHttpErrorKind::Transport).to_string();
    assert_eq!(transport.to_string(), format!("failed to create OTLP client: {inner}"));
}

#[test]
fn error_texts_agree_with_the_transport() {
    let theirs = fast_telemetry_export::otlp::OtlpHttpConfig::new("not a url");
    let error = fast_telemetry_export::otlp::OtlpHttpClient::new(theirs).err().expect("an invalid endpoint");
    let ours = OtlpHttpError {
        kind: OtlpHttpErrorKind::Configuration,
        message: error.message.clone(),
        status: error.status,
        retry_after: None,
    };
    assert_eq!(ours.to_string(), error.to_string());
}

#[test]
fn statuses_have_names_and_numbers() {
    let all = [
        (ExporterStatus::Running, 0, "running"),
        (ExporterStatus::BackingOff, 1, "backing_off"),
        (ExporterStatus::TerminalFailure, 2, "terminal_failure"),
        (ExporterStatus::ShuttingDown, 3, "shutting_down"),
        (ExporterStatus::Stopped, 4, "stopped"),
    ];
    for (status, number, name) in all {
        assert_eq!(status.as_u8(), number);
        assert_eq!(ExporterStatus::from_u8(number), status);
        assert_eq!(status.as_str(), name);
    }
    assert_eq!(ExporterStatus::from_u8(9), ExporterStatus::Running);
}

#[test]
fn diagnostics_are_rate_limited() {
    let mut shared = Shared::new(60_000);
    assert_eq!(
        shared.emergency(100_000, "full").as_deref(),
        Some("[eden_logger_export emergency] full")
    );
    assert_eq!(shared.emergency(159_999, "full"), None);
    assert_eq!(shared.emergency(90_000, "full"), None);
    assert!(shared.emergency(160_000, "full").is_some());
    assert_eq!(shared.last_diagnostic_millis, 160_000);
}

#[test]
fn exporter_metrics_are_listed_in_order() {
    let mut snapshot = ExporterMetricsSnapshot::default();
    snapshot.accepted = 5;
    snapshot.dropped_queue_full = 2;
    snapshot.dropped_oversize = 3;
    snapshot.inflight = 4;
    assert_eq!(snapshot.dropped_total(), 5);
    snapshot.dropped_stopped = u64::MAX;
    assert_eq!(snapshot.dropped_total(), u64::MAX);

    let points = visit_exporter_metrics(&snapshot);
    assert_eq!(points[0].name, "eden_logger_export.logs_accepted_total");
    assert_eq!(points[0].value, 5);
    let full = points.iter().find(|p| p.label == Some(("reason", "queue_full"))).expect("queue_full");
    assert_eq!((full.value, full.kind), (2, MetricKind::Counter));
    let stopped = points.iter().find(|p| p.label == Some(("reason", "stopped"))).expect("stopped");
    assert_eq!(stopped.value, i64::MAX);
    assert!(points.iter().any(|p| p.kind == MetricKind::Gauge && p.value == 4));
}

#[test]
fn remaining_records_are_queued_or_in_flight() {
    let mut shared = Shared::new(1);
    shared.metrics.normal_queue_depth = 2;
    shared.metrics.reserved_queue_depth = 3;
    shared.metrics.inflight = 4;
    assert_eq!(remaining_records(&shared), 9);
    shared.metrics.inflight = u64::MAX;
    assert_eq!(remaining_records(&shared), u64::MAX);
}
