use std::collections::HashMap;

use eden_logger::context::{LogAudience, LogContext};
use eden_logger::export::batch::{
    reject_record, resume, retry_delay, retry_delay_at, split_records, ExportRun, OtlpExportOutcome, Reply, Verdict,
};
use eden_logger::export::config::{OtlpHttpError, OtlpHttpErrorKind};
use eden_logger::export::mapper::{decode_hex_id, severity_number, AttributeWriter, EdenLogOtlpMapper};
use eden_logger::export::metrics::ExporterStatus;
use eden_logger::export::record::{bool_value, int_value, string_value, AttributeValue, KeyValue, LogRecord, Value};
use eden_logger::export::shared::Shared;
use eden_logger::export::size::{
    encoded_request_len, length_delimited_field_len, varint_len, ExportRequestSizer, SizedRecord,
};
use eden_logger::fields::{FieldWriter, RequestFields};
use eden_logger::schema::{EdenLog, LogLevel};
use eden_logger::time::{Clock, Duration};
use eden_logger::timestamp::Timestamp;
use eden_logger::trace::{ids_from_bytes, TraceSource};
use fast_telemetry::otlp::{build_log_export_request, build_resource, pb};
use prost::Message;

const SOURCE: TraceSource = TraceSource::FastTelemetry;

#[derive(Default)]
struct TestRequest {
    tenant: String,
    attempt: u64,
    cached: bool,
}

impl RequestFields for TestRequest {
    fn write_display<W: FieldWriter>(&self, writer: &mut W) {
        self.write_json(writer);
    }

    fn write_json<W: FieldWriter>(&self, writer: &mut W) {
        writer.write_str("tenant.id", &self.tenant);
        writer.write_u64("request.attempt", self.attempt);
        writer.write_bool("cache.hit", self.cached);
    }

    fn duplicate(&self) -> Self {
        TestRequest { tenant: self.tenant.clone(), attempt: self.attempt, cached: self.cached }
    }

    fn merge(&mut self, other: Self) {
        *self = other;
    }
}

fn attributes(record: &LogRecord) -> HashMap<&str, &Value> {
    record
        .attributes
        .iter()
        .filter_map(|attribute| Some((attribute.key.as_str(), attribute.value.as_ref()?.value.as_ref()?)))
        .collect()
}

fn is_text(value: Option<&&Value>, expected: &str) -> bool {
    matches!(value, Some(Value::StringValue(text)) if text == expected)
}

fn is_integer(value: Option<&&Value>, expected: i64) -> bool {
    matches!(value, Some(Value::IntValue(number)) if *number == expected)
}

#[test]
fn maps_all_fields_and_preserves_typed_request_values() {
    let context = LogContext::<TestRequest>::new()
        .with_feature("billing")
        .with_function("charge")
        .with_trace_id("4bf92f3577b34da6a3ce929d0e0e4736")
        .with_span_id("00f067aa0ba902b7")
        .with_error_code("declined")
        .with_error_category("payment")
        .with_request(TestRequest { tenant: "tenant-a".to_string(), attempt: 3, cached: true })
        .with_additional("region", "us-east-1");
    let log = EdenLog::new(LogLevel::Warn, "payment declined", &context, LogAudience::Both, SOURCE)
        .with_location("src/billing.rs", 42);

    let record = EdenLogOtlpMapper.map(&log, 99);
    let attrs = attributes(&record);

    assert_eq!(record.severity_number, 13);
    assert_eq!(record.severity_text, "WARN");
    assert_eq!(record.observed_time_unix_nano, 99);
    assert_eq!(record.trace_id.len(), 16);
    assert_eq!(record.span_id.len(), 8);
    assert!(matches!(
        record.body.as_ref().and_then(|body| body.value.as_ref()),
        Some(Value::StringValue(text)) if text == "payment declined"
    ));
    assert!(is_text(attrs.get("tenant.id"), "tenant-a"));
    assert!(is_integer(attrs.get("request.attempt"), 3));
    assert!(matches!(attrs.get("cache.hit"), Some(Value::BoolValue(true))));
    assert!(is_text(attrs.get("code.file.path"), "src/billing.rs"));
    assert!(is_integer(attrs.get("code.line.number"), 42));
    assert!(is_text(attrs.get("region"), "us-east-1"));
    assert_eq!(record.time_unix_nano, log.timestamp.timestamp_nanos_opt().unwrap() as u64);
    let keys: Vec<&str> = record.attributes.iter().map(|attribute| attribute.key.as_str()).collect();
    let mut sorted = keys.clone();
    sorted.sort();
    sorted.dedup();
    assert_eq!(keys, sorted);
}

#[test]
fn intrinsic_and_extra_attributes_win_collisions() {
    let context = LogContext::new()
        .with_request(TestRequest { tenant: "request-tenant".to_string(), ..TestRequest::default() })
        .with_additional("tenant.id", "additional-tenant")
        .with_additional("eden.audience", "forged");
    let log = EdenLog::new(LogLevel::Info, "hello", &context, LogAudience::Internal, SOURCE);
    let record = EdenLogOtlpMapper.map_with_attributes(
        &log,
        1,
        vec![KeyValue { key: "tenant.id".to_string(), value: Some(string_value("stream-tenant")) }],
    );
    let attrs = attributes(&record);

    assert!(is_text(attrs.get("tenant.id"), "stream-tenant"));
    assert!(is_text(attrs.get("eden.audience"), "INTERNAL"));
}

#[test]
fn malformed_trace_context_is_preserved_as_attributes() {
    let context = LogContext::<()>::new().with_trace_id("bad-trace").with_span_id("bad-span");
    let log = EdenLog::new(LogLevel::Error, "failed", &context, LogAudience::Internal, SOURCE);

    let record = EdenLogOtlpMapper.map(&log, 1);
    let attrs = attributes(&record);

    assert!(record.trace_id.is_empty());
    assert!(record.span_id.is_empty());
    assert!(is_text(attrs.get("eden.trace_id"), "bad-trace"));
    assert!(is_text(attrs.get("eden.span_id"), "bad-span"));
}

#[test]
fn ids_are_decoded_from_digits_in_either_case() {
    let id = |text: &str| Some(text.to_string());
    assert_eq!(decode_hex_id(&id("00f067aa0ba902b7"), 8), Some(vec![0x00, 0xf0, 0x67, 0xaa, 0x0b, 0xa9, 0x02, 0xb7]));
    assert_eq!(decode_hex_id(&id("00F067AA0BA902B7"), 8), Some(vec![0x00, 0xf0, 0x67, 0xaa, 0x0b, 0xa9, 0x02, 0xb7]));
    assert_eq!(decode_hex_id(&id("00f067aa0ba902b"), 8), None);
    assert_eq!(decode_hex_id(&id("00f067aa0ba902bx"), 8), None);
    assert_eq!(decode_hex_id(&None, 8), None);
}

#[test]
fn encoded_ids_decode_to_their_bytes() {
    for seed in 0..50u8 {
        let mut trace = [0u8; 16];
        let mut span = [0u8; 8];
        for i in 0..16 {
            trace[i] = seed.wrapping_mul(37).wrapping_add(i as u8 * 11);
        }
        span.copy_from_slice(&trace[4..12]);
        let (trace_text, span_text) = ids_from_bytes(&trace, &span);
        assert_eq!(decode_hex_id(&trace_text, 16), Some(trace.to_vec()));
        assert_eq!(decode_hex_id(&span_text, 8), Some(span.to_vec()));
        assert_eq!(decode_hex_id(&trace_text, 8), None);
    }
}

#[test]
fn severities_have_the_numbers_of_the_standard() {
    assert_eq!(severity_number(LogLevel::Trace), 1);
    assert_eq!(severity_number(LogLevel::Debug), 5);
    assert_eq!(severity_number(LogLevel::Info), 9);
    assert_eq!(severity_number(LogLevel::Warn), 13);
    assert_eq!(severity_number(LogLevel::Error), 17);
}

#[test]
fn large_numbers_become_texts() {
    let mut writer = AttributeWriter::new();
    writer.write_u64("max", u64::MAX);
    writer.write_i64("min", i64::MIN);
    writer.write_display("shown", "x");
    writer.write_u64("max", 7);
    let listed = writer.finish().into_attributes();
    let record = LogRecord { attributes: listed, ..empty_record() };
    let attrs = attributes(&record);
    assert_eq!(attrs.len(), 3);
    assert!(is_integer(attrs.get("max"), 7));
    assert!(is_integer(attrs.get("min"), i64::MIN));
    assert!(is_text(attrs.get("shown"), "x"));

    let mut writer = AttributeWriter::new();
    writer.write_u64("max", u64::MAX);
    let record = LogRecord { attributes: writer.finish().into_attributes(), ..empty_record() };
    assert!(is_text(attributes(&record).get("max"), "18446744073709551615"));
}

#[test]
fn times_before_the_epoch_and_beyond_the_range_are_clamped() {
    let at = |seconds: i64| {
        let log = EdenLog::new_at(
            LogLevel::Info,
            "m",
            &LogContext::empty(),
            LogAudience::Internal,
            Timestamp::from_timestamp(seconds, 0).unwrap(),
            (None, None),
        );
        EdenLogOtlpMapper.map(&log, 1).time_unix_nano
    };
    assert_eq!(at(1), 1_000_000_000);
    assert_eq!(at(-1), 0);
    assert_eq!(at(20_000_000_000), 0);
}

fn empty_record() -> LogRecord {
    LogRecord {
        time_unix_nano: 0,
        observed_time_unix_nano: 0,
        severity_number: 0,
        severity_text: String::new(),
        body: None,
        attributes: Vec::new(),
        dropped_attributes_count: 0,
        flags: 0,
        trace_id: Vec::new(),
        span_id: Vec::new(),
        event_name: String::new(),
    }
}

fn body_record(body: &str) -> LogRecord {
    LogRecord { body: Some(string_value(body)), ..empty_record() }
}

fn otlp_body_record(body: &str) -> pb::LogRecord {
    pb::LogRecord {
        body: Some(pb::AnyValue { value: Some(pb::any_value::Value::StringValue(body.to_string())) }),
        ..Default::default()
    }
}

#[test]
fn request_size_matches_protobuf_encoding() {
    let attrs = vec![("service.instance.id".to_string(), "checkout-1".to_string())];
    let long = "x".repeat(256);
    let bodies = ["short", long.as_str()];

    let resource = build_resource("checkout", &[("service.instance.id", "checkout-1")]);
    let records: Vec<pb::LogRecord> = bodies.iter().map(|body| otlp_body_record(body)).collect();
    let request = build_log_export_request(&resource, "eden_logger", records);

    let records_encoded_len = bodies.iter().map(|body| SizedRecord::new(body_record(body)).field_len).sum();
    assert_eq!(
        ExportRequestSizer::new("checkout", &attrs, "eden_logger").encoded_len(records_encoded_len),
        request.encoded_len()
    );
    let ours = bodies.iter().map(|body| body_record(body)).collect();
    assert_eq!(encoded_request_len("checkout", &attrs, "eden_logger", &ours), Some(request.encoded_len()));
    assert_eq!(request.encoded_len(), request.encode_to_vec().len());
}

#[test]
fn generated_requests_match_exact_protobuf_size() {
    let mut state: u64 = 42;
    let mut draw = |limit: u64| {
        state = state.wrapping_mul(6_364_136_223_846_793_005).wrapping_add(1_442_695_040_888_963_407);
        ((state >> 33) % limit) as usize
    };
    let attrs = vec![("service.instance.id".to_string(), "instance-1".to_string())];
    for _ in 0..300 {
        let service_name = "s".repeat(draw(64) + 1);
        let scope_name = "o".repeat(draw(65));
        let bodies: Vec<String> = (0..draw(48) + 1).map(|_| "x".repeat(draw(2_049))).collect();

        let resource = build_resource(&service_name, &[("service.instance.id", "instance-1")]);
        let records: Vec<pb::LogRecord> = bodies.iter().map(|body| otlp_body_record(body)).collect();
        let request = build_log_export_request(&resource, &scope_name, records);

        let records_encoded_len = bodies.iter().map(|body| SizedRecord::new(body_record(body)).field_len).sum();
        assert_eq!(
            ExportRequestSizer::new(&service_name, &attrs, &scope_name).encoded_len(records_encoded_len),
            request.encoded_len()
        );
    }
}

#[test]
fn a_request_without_records_has_a_resource_and_a_scope() {
    let empty = build_log_export_request(&build_resource("checkout", &[]), "", Vec::new());
    let len = encoded_request_len("checkout", &Vec::new(), "", &Vec::new());
    assert_eq!(len, Some(empty.encoded_len()));
    assert_eq!(len, Some(ExportRequestSizer::new("checkout", &Vec::new(), "").encoded_len(0)));
    assert_eq!(len, Some(36));
}

#[test]
fn a_resource_has_a_field_for_each_attribute() {
    for (service, attributes) in [
        ("", vec![]),
        ("checkout", vec![("", "")]),
        ("größe", vec![("k", ""), ("", "v"), ("k", "w")]),
        ("s", vec![("service.name", "again")]),
    ] {
        let owned: Vec<(String, String)> = attributes.iter().map(|(k, v)| (k.to_string(), v.to_string())).collect();
        let resource = build_resource(service, &attributes);
        let sizer = ExportRequestSizer::new(service, &owned, "scope");
        assert_eq!(sizer.resource_field_len, length_delimited_field_len(resource.encoded_len()));
    }
    assert_eq!(ExportRequestSizer::new("", &Vec::new(), "").resource_field_len, 22);
}

#[test]
fn every_field_of_a_record_counts() {
    let nested = pb::AnyValue { value: Some(pb::any_value::Value::DoubleValue(1.5)) };
    let ours = LogRecord {
        time_unix_nano: 5,
        observed_time_unix_nano: 6,
        severity_number: 17,
        severity_text: "ERROR".to_string(),
        body: Some(string_value("größe")),
        attributes: vec![
            KeyValue { key: "n".to_string(), value: Some(int_value(-1)) },
            KeyValue { key: "b".to_string(), value: Some(bool_value(false)) },
            KeyValue {
                key: "e".to_string(),
                value: Some(AttributeValue { value: Some(Value::EncodedValue(nested.encode_to_vec())) }),
            },
            KeyValue { key: "none".to_string(), value: None },
        ],
        dropped_attributes_count: 3,
        flags: 1,
        trace_id: vec![7; 16],
        span_id: vec![8; 8],
        event_name: "event".to_string(),
    };
    let value = |value: pb::any_value::Value| Some(pb::AnyValue { value: Some(value) });
    let theirs = pb::LogRecord {
        time_unix_nano: 5,
        observed_time_unix_nano: 6,
        severity_number: 17,
        severity_text: "ERROR".to_string(),
        body: value(pb::any_value::Value::StringValue("größe".to_string())),
        attributes: vec![
            pb::KeyValue { key: "n".to_string(), value: value(pb::any_value::Value::IntValue(-1)) },
            pb::KeyValue { key: "b".to_string(), value: value(pb::any_value::Value::BoolValue(false)) },
            pb::KeyValue { key: "e".to_string(), value: Some(nested) },
            pb::KeyValue { key: "none".to_string(), value: None },
        ],
        dropped_attributes_count: 3,
        flags: 1,
        trace_id: vec![7; 16],
        span_id: vec![8; 8],
        event_name: "event".to_string(),
    };
    assert_eq!(SizedRecord::new(ours).field_len, length_delimited_field_len(theirs.encoded_len()));
}

#[test]
fn numbers_take_seven_bits_a_byte() {
    assert_eq!(varint_len(0), 1);
    assert_eq!(varint_len(127), 1);
    assert_eq!(varint_len(128), 2);
    assert_eq!(varint_len(16_384), 3);
    assert_eq!(varint_len(usize::MAX), 10);
    assert_eq!(length_delimited_field_len(200), 203);
    assert_eq!(length_delimited_field_len(usize::MAX), usize::MAX);
}

#[test]
fn requests_grow_with_their_records() {
    let sizer = ExportRequestSizer::new("checkout", &Vec::new(), "scope");
    let mut last = 0;
    for records in 0..40_000 {
        let size = sizer.encoded_len(records);
        assert!(size >= records && size >= last);
        last = size;
    }
    assert_eq!(sizer.encoded_len(usize::MAX), usize::MAX);
}

#[test]
fn recursive_batch_bisection_preserves_order_and_identity() {
    for count in 1..=128usize {
        let records: Vec<pb::LogRecord> =
            (0..count).map(|index| pb::LogRecord { flags: index as u32, ..Default::default() }).collect();
        let mut pending = vec![records];
        let mut recovered = Vec::with_capacity(count);

        while let Some(records) = pending.pop() {
            if records.len() == 1 {
                recovered.push(records[0].flags as usize);
            } else {
                split_records(records, &mut pending);
            }
        }

        assert_eq!(recovered, (0..count).collect::<Vec<_>>());
    }
}

#[test]
fn retry_is_bounded_and_jittered() {
    let initial = Duration::from_millis(250);
    let maximum = Duration::from_secs(30);
    for failures in 1..30 {
        let delay = retry_delay(failures, initial, maximum);
        assert!(delay <= Duration::from_millis(37_500));
        assert!(!delay.is_zero());
    }
}

#[test]
fn generated_retry_delays_stay_inside_the_jitter_envelope() {
    let mut state: u64 = 7;
    let mut draw = |least: u64, most: u64| {
        state = state.wrapping_mul(6_364_136_223_846_793_005).wrapping_add(1_442_695_040_888_963_407);
        least + (state >> 33) % (most - least + 1)
    };
    for _ in 0..300 {
        let failures = draw(1, 40) as u32;
        let initial_millis = u128::from(draw(4, 2_000));
        let maximum_millis = u128::from(draw(4, 30_000));
        let initial = Duration::from_millis(initial_millis as u64);
        let maximum = Duration::from_millis(maximum_millis as u64);
        let exponent = failures.saturating_sub(1).min(20);
        let base_millis = initial_millis.saturating_mul(1_u128 << exponent).min(maximum_millis);
        let delay_millis = retry_delay(failures, initial, maximum).as_millis();

        assert!(delay_millis >= base_millis.saturating_mul(75) / 100);
        assert!(delay_millis <= base_millis.saturating_mul(125) / 100);
        assert!(delay_millis > 0);
    }
}

#[test]
fn the_delay_is_a_function_of_the_clock() {
    let initial = Duration::from_millis(100);
    let maximum = Duration::from_secs(1);
    assert_eq!(retry_delay_at(1, initial, maximum, 0), Duration::from_millis(75));
    assert_eq!(retry_delay_at(1, initial, maximum, 50), Duration::from_millis(125));
    assert_eq!(retry_delay_at(1, initial, maximum, 51), Duration::from_millis(75));
    assert_eq!(retry_delay_at(3, initial, maximum, 25), Duration::from_millis(400));
    assert_eq!(retry_delay_at(9, initial, maximum, 25), Duration::from_millis(1_000));
    assert_eq!(retry_delay_at(0, initial, maximum, 25), Duration::from_millis(100));
}

fn clock() -> Clock {
    Clock { unix_millis: 1_000_000, unix_nanos: 1_000_000_000_000, subsec_nanos: 25 }
}

fn acknowledged(rejected: u64) -> Reply {
    Reply::Acknowledged(OtlpExportOutcome { accepted: 1, rejected, message: None })
}

fn failed(kind: OtlpHttpErrorKind, retry_after: Option<Duration>) -> Reply {
    Reply::Failed(OtlpHttpError { kind, message: "answer".to_string(), status: None, retry_after })
}

#[test]
fn each_reply_has_its_verdict() {
    let initial = Duration::from_millis(100);
    let maximum = Duration::from_millis(300);

    let mut shared = Shared::new(1);
    let mut run = ExportRun::new(vec![1, 2]);
    assert!(run.next_request(&mut shared));
    assert!(matches!(run.reply(&mut shared, acknowledged(0), initial, maximum, &clock()), (Verdict::Proceed, None)));
    assert!(!run.next_request(&mut shared));
    assert_eq!((shared.metrics.exported, shared.metrics.batches, shared.metrics.export_attempts), (2, 1, 1));

    let mut shared = Shared::new(1);
    let mut run = ExportRun::new(vec![1]);
    assert!(run.next_request(&mut shared));
    let (verdict, _) = run.reply(&mut shared, failed(OtlpHttpErrorKind::Transport, None), initial, maximum, &clock());
    assert!(matches!(verdict, Verdict::Retry(delay) if delay == Duration::from_millis(100)));
    assert_eq!(shared.metrics.status, ExporterStatus::BackingOff);
    assert_eq!(shared.last_error.as_deref(), Some("answer"));
    resume(&mut shared);
    assert_eq!(shared.metrics.status, ExporterStatus::Running);
    assert!(run.next_request(&mut shared));
    let asked = failed(OtlpHttpErrorKind::RetryableStatus, Some(Duration::from_secs(9)));
    let (verdict, _) = run.reply(&mut shared, asked, initial, maximum, &clock());
    assert!(matches!(verdict, Verdict::Retry(delay) if delay == maximum));
    assert_eq!(shared.metrics.retries, 2);
    shared.accepting = false;
    resume(&mut shared);
    assert_eq!(shared.metrics.status, ExporterStatus::ShuttingDown);

    let mut shared = Shared::new(1);
    let mut run = ExportRun::new(vec![1, 2, 3]);
    assert!(run.next_request(&mut shared));
    assert!(matches!(
        run.reply(&mut shared, failed(OtlpHttpErrorKind::InvalidPayload, None), initial, maximum, &clock()),
        (Verdict::Proceed, None)
    ));
    assert!(run.next_request(&mut shared));
    assert_eq!(run.current, Some(vec![1]));
    let (verdict, diagnostic) =
        run.reply(&mut shared, failed(OtlpHttpErrorKind::InvalidPayload, None), initial, maximum, &clock());
    assert!(matches!(verdict, Verdict::Proceed));
    assert_eq!(
        diagnostic.as_deref(),
        Some("[eden_logger_export emergency] collector rejected an individual log record: answer")
    );
    assert!(run.next_request(&mut shared));
    let (verdict, _) = run.reply(&mut shared, failed(OtlpHttpErrorKind::TerminalStatus, None), initial, maximum, &clock());
    assert!(matches!(verdict, Verdict::Terminal(left) if left == vec![vec![2, 3]]));
    assert_eq!(shared.metrics.status, ExporterStatus::TerminalFailure);
    assert_eq!(shared.metrics.rejected, 1);
}

#[test]
fn a_batch_that_is_acknowledged_in_part_counts_as_acknowledged() {
    let mut shared = Shared::new(1);
    let mut run = ExportRun::new(vec![1, 2]);
    assert!(run.next_request(&mut shared));
    run.reply(&mut shared, acknowledged(1), Duration::from_millis(1), Duration::from_millis(1), &clock());
    assert_eq!((shared.metrics.partial_rejections, shared.metrics.batches), (1, 1));
    assert_eq!(run.pending, vec![vec![2], vec![1]]);
}

#[test]
fn a_rejected_record_is_counted_and_reported() {
    let mut shared = Shared::new(1);
    let diagnostic = reject_record(&mut shared, 10, "bad");
    assert_eq!(
        diagnostic.as_deref(),
        Some("[eden_logger_export emergency] collector rejected an individual log record: bad")
    );
    assert_eq!(shared.metrics.rejected, 1);
}
