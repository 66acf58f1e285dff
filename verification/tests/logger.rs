use eden_logger::context::{LogAudience, LogContext};
use eden_logger::fields::{FieldWriter, RequestFields};
use eden_logger::filter::enable_levels;
use eden_logger::logger::{emit_direct, emit_direct_at, Logger};
use eden_logger::metrics::{
    log_metrics_snapshot, visit_log_metrics, LogCounters, LogMetricsSnapshot, MetricKind,
};
use eden_logger::schema::{EdenLog, LogLevel, Reading};
use eden_logger::sink::{cached_sink, dispatch, install_sink, SinkCache, SinkRegistry};
use eden_logger::timestamp::Timestamp;
use eden_logger::trace::TraceSource;
use eden_logger::writer::{init, log, log_bytes, LogFormat, LogTarget, WriterConfig, WriterState};

#[derive(Default)]
struct TenantFields {
    tenant: u64,
}

impl RequestFields for TenantFields {
    fn write_display<W: FieldWriter>(&self, w: &mut W) {
        w.write_u64("tenant", self.tenant);
        w.write_bool("cached", true);
        w.write_i64("delta", -3);
        w.write_display("shown", "x y");
    }

    fn write_json<W: FieldWriter>(&self, w: &mut W) {
        w.write_u64("tenant", self.tenant);
        w.write_bool("cached", true);
        w.write_i64("delta", -3);
        w.write_display("shown", "x\"y");
    }

    fn duplicate(&self) -> Self {
        TenantFields { tenant: self.tenant }
    }

    fn merge(&mut self, other: Self) {
        self.tenant = other.tenant;
    }
}

fn configured(target: LogTarget, format: LogFormat) -> Logger {
    let mut logger = Logger::new();
    init(&mut logger.writer, WriterConfig { target, format, trace_source: TraceSource::FastTelemetry });
    logger
}

fn delta(before: LogMetricsSnapshot, after: LogMetricsSnapshot) -> LogMetricsSnapshot {
    let mut d = after;
    d.emitted_total -= before.emitted_total;
    d.by_level.info -= before.by_level.info;
    d.by_level.error -= before.by_level.error;
    d.by_audience.internal -= before.by_audience.internal;
    d.by_audience.both -= before.by_audience.both;
    d
}

#[test]
fn a_call_goes_by_the_source_that_is_configured() {
    let reading = Reading {
        now: Timestamp::from_timestamp(1_735_603_200, 7_000_000).unwrap(),
        entered: (Some([0x11; 16]), Some([0x22; 8])),
        context: (true, [0x33; 16], [0x44; 8]),
    };
    let one = "11111111111111111111111111111111";
    let other = "33333333333333333333333333333333";
    for (source, trace, span) in
        [(TraceSource::FastTelemetry, one, "2222222222222222"), (TraceSource::Otel, other, "4444444444444444")]
    {
        let mut logger = Logger::new();
        init(&mut logger.writer, WriterConfig { target: LogTarget::Stdout, format: LogFormat::Json, trace_source: source });
        install_sink(&mut logger.sinks, 9).expect("a sink");
        let ctx = LogContext::empty();
        let emission = emit_direct_at(
            &mut logger, 9, LogLevel::Info, "m", &ctx, LogAudience::Client, &[("k", "v")], Some("f.rs"), Some(3), &reading,
        );
        let text = format!(
            "{{\"ts\":\"2024-12-31T00:00:00.007Z\",\"level\":\"INFO\",\"audience\":\"CLIENT\",\"trace_id\":\"{trace}\",\
             \"span_id\":\"{span}\",\"k\":\"v\",\"file\":\"f.rs\",\"line\":3,\"msg\":\"m\"}}\n"
        );
        assert_eq!(emission.output.expect("a line").text, text);
        let (slot, log) = emission.delivery.expect("a record");
        assert_eq!((slot, log.trace_id.as_deref(), log.span_id.as_deref()), (0, Some(trace), Some(span)));
        assert_eq!((log.timestamp.timestamp(), log.timestamp.timestamp_subsec_nanos()), (1_735_603_200, 7_000_000));

        let own = LogContext::empty().with_trace_id("t");
        let emission =
            emit_direct_at(&mut logger, 8, LogLevel::Info, "m", &own, LogAudience::Client, &[], None, None, &reading);
        let text = emission.output.expect("a line").text;
        assert!(text.contains("\"trace_id\":\"t\"") && text.contains(&format!("\"span_id\":\"{span}\"")), "{text}");
        assert!(emission.delivery.is_none());
    }
}

#[test]
fn grouped_counters_track_total_level_and_audience() {
    let mut counters = LogCounters::new();
    let before = log_metrics_snapshot(&counters);

    counters.record_emitted(LogLevel::Info, LogAudience::Internal);
    counters.record_emitted(LogLevel::Error, LogAudience::Both);

    let delta = delta(before, log_metrics_snapshot(&counters));
    assert_eq!(delta.emitted_total, 2);
    assert_eq!(delta.by_level.info, 1);
    assert_eq!(delta.by_level.error, 1);
    assert_eq!(delta.by_audience.internal, 1);
    assert_eq!(delta.by_audience.both, 1);
}

#[test]
fn visit_log_metrics_exports_grouped_counter_series() {
    let mut counters = LogCounters::new();
    counters.record_emitted(LogLevel::Warn, LogAudience::Client);

    let points = visit_log_metrics(&counters);

    assert!(points.iter().any(|counter| counter.name == "eden_logger.logs_emitted_total"));
    assert!(points.iter().any(|counter| {
        counter.name == "eden_logger.logs_emitted_by_level_total"
            && counter.label == Some(("level", "warn"))
            && counter.value >= 1
    }));
    assert!(points.iter().any(|counter| {
        counter.name == "eden_logger.logs_emitted_by_audience_total"
            && counter.label == Some(("audience", "client"))
            && counter.value >= 1
    }));
    assert_eq!(points.len(), 9);
    assert!(points.iter().all(|counter| counter.kind == MetricKind::Counter && counter.unit == Some("logs")));
}

#[test]
fn caches_the_typed_sink_pointer_per_thread() {
    let mut registry = SinkRegistry::new();
    let mut cache = SinkCache::new();
    let slot = install_sink(&mut registry, 7).expect("install test sink");

    let first = cached_sink(&mut cache, &registry, 7).expect("first lookup");
    let second = cached_sink(&mut cache, &registry, 7).expect("cached lookup");
    assert_eq!(first, second);
    assert_eq!(first, slot);

    assert_eq!(dispatch(&mut cache, &registry, 7), Some(slot));
    assert_eq!(cache.len(), 1);
}

#[test]
fn one_sink_is_installed_for_each_key_and_keeps_its_slot() {
    let mut registry = SinkRegistry::new();
    let mut cache = SinkCache::new();
    assert!(!registry.any_installed());
    assert_eq!(dispatch(&mut cache, &registry, 1), None);
    assert_eq!(cache.len(), 0);

    assert_eq!(install_sink(&mut registry, 1), Ok(0));
    assert!(install_sink(&mut registry, 1).is_err());
    assert_eq!(cached_sink(&mut cache, &registry, 1), Some(0));
    assert_eq!(install_sink(&mut registry, 2), Ok(1));
    assert_eq!(registry.find(1), Some(0));
    assert_eq!(registry.find(2), Some(1));
    assert_eq!(cached_sink(&mut cache, &registry, 1), Some(0));
    assert_eq!(cached_sink(&mut cache, &registry, 2), Some(1));
    assert_eq!(cached_sink(&mut cache, &registry, 3), None);
    assert!(registry.any_installed());
}

#[test]
fn lines_end_in_one_newline_and_go_to_the_target() {
    let mut state = WriterState::new();
    let output = log(&state, "line");
    assert_eq!(output.text, "line\n");
    assert_eq!(output.target, LogTarget::Stderr);

    init(
        &mut state,
        WriterConfig { target: LogTarget::Stdout, format: LogFormat::Json, trace_source: TraceSource::Otel },
    );
    let output = log_bytes(&state, "line\n".to_string());
    assert_eq!(output.text, "line\n");
    assert_eq!(output.target, LogTarget::Stdout);
}

#[test]
fn a_call_is_counted_formatted_and_delivered() {
    let mut logger = configured(LogTarget::Stdout, LogFormat::Json);
    install_sink(&mut logger.sinks, 5).unwrap();
    let ctx = LogContext::<TenantFields>::new().with_request(TenantFields { tenant: 12 });
    let emission = emit_direct(
        &mut logger,
        5,
        LogLevel::Info,
        "hello",
        &ctx,
        LogAudience::Client,
        &[("k", "v")],
        Some("a.rs"),
        None,
    );
    let output = emission.output.expect("a line");
    assert_eq!(output.target, LogTarget::Stdout);
    assert!(output.text.ends_with("}\n"));
    let parsed: serde_json::Value = serde_json::from_str(&output.text).unwrap();
    assert_eq!(parsed["tenant"].as_u64(), Some(12));
    assert_eq!(parsed["cached"].as_bool(), Some(true));
    assert_eq!(parsed["delta"].as_i64(), Some(-3));
    assert_eq!(parsed["shown"].as_str(), Some("x\"y"));
    assert_eq!(parsed["k"].as_str(), Some("v"));
    assert_eq!(parsed["file"].as_str(), Some("a.rs"));
    assert!(parsed.get("line").is_none());

    let (slot, record) = emission.delivery.expect("a record");
    assert_eq!(slot, 0);
    assert_eq!(record.message, "hello");
    assert_eq!(record.request.tenant, 12);
    assert_eq!(record.additional.get("k").map(|s| s.as_str()), Some("v"));

    let snapshot = log_metrics_snapshot(&logger.counters);
    assert_eq!(snapshot.emitted_total, 1);
    assert_eq!(snapshot.by_level.info, 1);
    assert_eq!(snapshot.by_audience.client, 1);
}

#[test]
fn a_new_logger_is_in_its_default_configuration() {
    let logger = Logger::new();
    assert_eq!(logger.writer.config, WriterConfig::default());
    assert_eq!(logger.writer.config.trace_source, TraceSource::FastTelemetry);
    assert!(!logger.filter.initialized);
    assert_eq!(log_metrics_snapshot(&logger.counters), LogMetricsSnapshot::default());
    assert!(!logger.sinks.any_installed());
    assert_eq!(logger.sink_cache.len(), 0);
}

#[test]
fn a_filtered_call_does_nothing() {
    let mut logger = Logger::new();
    install_sink(&mut logger.sinks, 5).unwrap();
    enable_levels(&mut logger.filter, &[LogLevel::Error]);
    let ctx = LogContext::<()>::new();
    let emission = emit_direct(&mut logger, 5, LogLevel::Warn, "no", &ctx, LogAudience::Both, &[], None, None);
    assert!(emission.output.is_none());
    assert!(emission.delivery.is_none());
    assert_eq!(log_metrics_snapshot(&logger.counters).emitted_total, 0);

    let record = EdenLog::new(LogLevel::Info, "no", &ctx, LogAudience::Both, TraceSource::FastTelemetry);
    let emission = record.emit(&mut logger, 5);
    assert!(emission.output.is_none() && emission.delivery.is_none());
}

#[test]
fn the_structured_sink_gets_records_without_a_line() {
    let mut logger = configured(LogTarget::StructuredSink, LogFormat::Display);
    let ctx = LogContext::<()>::new();
    let emission = emit_direct(&mut logger, 1, LogLevel::Info, "m", &ctx, LogAudience::Internal, &[], None, None);
    assert!(emission.output.is_none());
    assert!(emission.delivery.is_none());

    install_sink(&mut logger.sinks, 1).unwrap();
    let record = EdenLog::new(LogLevel::Info, "m", &ctx, LogAudience::Internal, TraceSource::FastTelemetry);
    let emission = record.emit(&mut logger, 1);
    assert!(emission.output.is_none());
    assert_eq!(emission.delivery.map(|(slot, log)| (slot, log.message)), Some((0, "m".to_string())));
    assert_eq!(log_metrics_snapshot(&logger.counters).emitted_total, 2);
}

#[test]
fn a_record_is_emitted_as_its_display_line() {
    let mut logger = Logger::new();
    let ctx = LogContext::<TenantFields>::new().with_request(TenantFields { tenant: 4 });
    let record = EdenLog::new(LogLevel::Error, "gone", &ctx, LogAudience::Internal, TraceSource::FastTelemetry);
    let emission = record.emit(&mut logger, 1);
    let text = emission.output.expect("a line").text;
    assert_eq!(text, format!("{}\n", record.to_display()));
    assert!(text.ends_with("[INTERNAL] tenant=4 cached=true delta=-3 shown=x y gone\n"));
    assert!(emission.delivery.is_none());
}
