use std::sync::Arc;

use eden_logger::context::{LogAudience, LogContext};
use eden_logger::json::write_json_escaped;
use eden_logger::schema::{
    resolve_ids, write_display_direct, write_display_stamped, write_json_direct, write_json_stamped, EdenLog,
    LogLevel, Stamp,
};
use eden_logger::timestamp::{Timestamp, TimestampCache};
use eden_logger::trace::{extract_trace_context, TraceSource};

const SOURCE: TraceSource = TraceSource::FastTelemetry;

fn active_fast_trace_ids_for_test() -> (String, String) {
    let (trace_id, span_id) = extract_trace_context(TraceSource::FastTelemetry);
    let Some(trace_id) = trace_id else {
        panic!("expected active fast-telemetry trace id");
    };
    let Some(span_id) = span_id else {
        panic!("expected active fast-telemetry span id");
    };
    (trace_id, span_id)
}

fn json(
    level: LogLevel,
    message: &str,
    ctx: &LogContext<()>,
    audience: LogAudience,
    additional: &[(&str, &str)],
    file: Option<&str>,
    line: Option<u32>,
) -> String {
    let mut buf = String::new();
    let mut cache = TimestampCache::new();
    write_json_direct(&mut buf, level, message, ctx, audience, additional, file, line, &mut cache, SOURCE);
    buf
}

fn parse_json_field(json: &str, field: &str) -> Option<String> {
    let parsed: serde_json::Value = serde_json::from_str(json).ok()?;
    parsed.get(field).and_then(|v| v.as_str()).map(|s| s.to_string())
}

fn parse_json_field_u64(json: &str, field: &str) -> Option<u64> {
    let parsed: serde_json::Value = serde_json::from_str(json).ok()?;
    parsed.get(field).and_then(|v| v.as_u64())
}

fn is_json(text: &str) -> bool {
    serde_json::from_str::<serde_json::Value>(text).is_ok()
}

#[test]
fn test_log_level_display() {
    assert_eq!(LogLevel::Info.to_string(), "INFO");
    assert_eq!(LogLevel::Error.to_string(), "ERROR");
}

#[test]
fn levels_are_ordered_and_colored() {
    assert!(LogLevel::Trace < LogLevel::Debug);
    assert!(LogLevel::Debug < LogLevel::Info);
    assert!(LogLevel::Info < LogLevel::Warn);
    assert!(LogLevel::Warn < LogLevel::Error);
    assert_eq!(LogLevel::Trace.as_colored_str(), "\x1b[35mTRACE\x1b[0m");
    assert_eq!(LogLevel::Debug.as_colored_str(), "\x1b[36mDEBUG\x1b[0m");
    assert_eq!(LogLevel::Info.as_colored_str(), "\x1b[32mINFO\x1b[0m");
    assert_eq!(LogLevel::Warn.as_colored_str(), "\x1b[33mWARN\x1b[0m");
    assert_eq!(LogLevel::Error.as_colored_str(), "\x1b[31mERROR\x1b[0m");
    assert_eq!(LogLevel::Trace.as_str(), "TRACE");
}

#[test]
fn test_log_creation() {
    let ctx = LogContext::<()>::new().with_feature("test");

    let log = EdenLog::<()>::new(LogLevel::Info, "Test message", &ctx, LogAudience::Internal, SOURCE);

    assert_eq!(log.level, LogLevel::Info);
    assert_eq!(log.message, "Test message");
    assert_eq!(log.feature.as_deref(), Some("test"));
}

#[test]
fn test_log_creation_uses_active_trace_context_when_missing() {
    let collector = Arc::new(fast_telemetry::SpanCollector::new(1, 1024));
    let mut span = collector.start_span("log-correlation", fast_telemetry::SpanKind::Server);
    span.enter();
    let (trace_id, span_id) = active_fast_trace_ids_for_test();

    let ctx = LogContext::<()>::new().with_feature("gateway");
    let log = EdenLog::<()>::new(LogLevel::Info, "request handled", &ctx, LogAudience::Internal, SOURCE);

    assert_eq!(log.trace_id.as_deref(), Some(trace_id.as_str()));
    assert_eq!(log.span_id.as_deref(), Some(span_id.as_str()));
}

#[test]
fn test_explicit_log_context_trace_ids_win_over_active_span() {
    let collector = Arc::new(fast_telemetry::SpanCollector::new(1, 1024));
    let mut span = collector.start_span("log-correlation", fast_telemetry::SpanKind::Server);
    span.enter();
    let _ = active_fast_trace_ids_for_test();

    let ctx = LogContext::<()>::new().with_trace_id("upstream-trace-id").with_span_id("upstream-span-id");
    let log = EdenLog::<()>::new(LogLevel::Info, "request handled", &ctx, LogAudience::Internal, SOURCE);

    assert_eq!(log.trace_id.as_deref(), Some("upstream-trace-id"));
    assert_eq!(log.span_id.as_deref(), Some("upstream-span-id"));
}

#[test]
fn test_log_with_additional() {
    let ctx = LogContext::<()>::new();
    let log = EdenLog::<()>::new(LogLevel::Info, "Test", &ctx, LogAudience::Internal, SOURCE)
        .with_additional("key1", "value1")
        .with_additional("key2", "value2");

    assert_eq!(log.additional.get("key1").map(|s| s.as_str()), Some("value1"));
    assert_eq!(log.additional.get("key2").map(|s| s.as_str()), Some("value2"));
}

#[test]
fn test_should_send_to_client() {
    let ctx = LogContext::<()>::new();

    let internal_log = EdenLog::<()>::new(LogLevel::Info, "Internal", &ctx, LogAudience::Internal, SOURCE);
    assert!(!internal_log.should_send_to_client());

    let client_log = EdenLog::<()>::new(LogLevel::Info, "Client", &ctx, LogAudience::Client, SOURCE);
    assert!(client_log.should_send_to_client());

    let both_log = EdenLog::<()>::new(LogLevel::Info, "Both", &ctx, LogAudience::Both, SOURCE);
    assert!(both_log.should_send_to_client());
}

#[test]
fn test_json_escape_no_special_chars() {
    let mut buf = String::new();
    write_json_escaped(&mut buf, "hello world");
    assert_eq!(buf, "hello world");
}

#[test]
fn test_json_escape_quotes() {
    let mut buf = String::new();
    write_json_escaped(&mut buf, r#"say "hello""#);
    assert_eq!(buf, r#"say \"hello\""#);
}

#[test]
fn test_json_escape_backslash() {
    let mut buf = String::new();
    write_json_escaped(&mut buf, r"path\to\file");
    assert_eq!(buf, r"path\\to\\file");
}

#[test]
fn test_json_escape_newlines() {
    let mut buf = String::new();
    write_json_escaped(&mut buf, "line1\nline2\r\nline3");
    assert_eq!(buf, r"line1\nline2\r\nline3");
}

#[test]
fn test_json_escape_tabs() {
    let mut buf = String::new();
    write_json_escaped(&mut buf, "col1\tcol2");
    assert_eq!(buf, r"col1\tcol2");
}

#[test]
fn test_json_escape_control_chars() {
    let mut buf = String::new();
    write_json_escaped(&mut buf, "null:\x00 bell:\x07");
    assert_eq!(buf, r"null:\u0000 bell:\u0007");
}

#[test]
fn test_json_escape_mixed() {
    let mut buf = String::new();
    write_json_escaped(&mut buf, "He said \"hello\"\nand left\\departed");
    assert_eq!(buf, r#"He said \"hello\"\nand left\\departed"#);
}

#[test]
fn escaping_keeps_other_characters_and_appends() {
    let mut buf = String::from("start ");
    write_json_escaped(&mut buf, "größe \"日本\" \u{1f600}\x1f");
    assert_eq!(buf, "start größe \\\"日本\\\" \u{1f600}\\u001f");
    let quoted = format!("\"{}\"", buf);
    let parsed: String = serde_json::from_str(&quoted).unwrap();
    assert_eq!(parsed, "start größe \"日本\" \u{1f600}\x1f");
}

#[test]
fn test_write_display_direct_uses_active_trace_context_when_missing() {
    let collector = Arc::new(fast_telemetry::SpanCollector::new(1, 1024));
    let mut span = collector.start_span("display-log-correlation", fast_telemetry::SpanKind::Server);
    span.enter();
    let (trace_id, span_id) = active_fast_trace_ids_for_test();

    let ctx = LogContext::<()>::new().with_feature("gateway");
    let mut buf = String::new();
    let mut cache = TimestampCache::new();

    write_display_direct(
        &mut buf,
        LogLevel::Info,
        "request handled",
        &ctx,
        LogAudience::Internal,
        &[],
        None,
        None,
        &mut cache,
        SOURCE,
    );

    assert!(buf.contains(&format!("trace_id={trace_id}")));
    assert!(buf.contains(&format!("span_id={span_id}")));
}

#[test]
fn test_write_json_direct_basic() {
    let ctx = LogContext::<()>::new();
    let buf = json(LogLevel::Info, "test message", &ctx, LogAudience::Internal, &[], None, None);

    assert!(is_json(&buf), "Invalid JSON: {}", buf);
    assert_eq!(parse_json_field(&buf, "level"), Some("INFO".to_string()));
    assert_eq!(parse_json_field(&buf, "audience"), Some("INTERNAL".to_string()));
    assert_eq!(parse_json_field(&buf, "msg"), Some("test message".to_string()));
}

#[test]
fn test_write_json_direct_with_context() {
    let ctx = LogContext::<()>::new()
        .with_trace_id("abc123def456")
        .with_span_id("span789")
        .with_feature("auth")
        .with_function("login");

    let buf = json(LogLevel::Error, "Authentication failed", &ctx, LogAudience::Client, &[], None, None);

    assert!(is_json(&buf), "Invalid JSON: {}", buf);
    assert_eq!(parse_json_field(&buf, "trace_id"), Some("abc123def456".to_string()));
    assert_eq!(parse_json_field(&buf, "span_id"), Some("span789".to_string()));
    assert_eq!(parse_json_field(&buf, "feature"), Some("auth".to_string()));
    assert_eq!(parse_json_field(&buf, "fn"), Some("login".to_string()));
}

#[test]
fn test_write_json_direct_uses_active_trace_context_when_missing() {
    let collector = Arc::new(fast_telemetry::SpanCollector::new(1, 1024));
    let mut span = collector.start_span("json-log-correlation", fast_telemetry::SpanKind::Server);
    span.enter();
    let (trace_id, span_id) = active_fast_trace_ids_for_test();

    let ctx = LogContext::<()>::new().with_feature("gateway");
    let buf = json(LogLevel::Info, "request handled", &ctx, LogAudience::Internal, &[], None, None);

    assert_eq!(parse_json_field(&buf, "trace_id"), Some(trace_id));
    assert_eq!(parse_json_field(&buf, "span_id"), Some(span_id));
}

#[test]
fn test_write_json_direct_with_additional() {
    let ctx = LogContext::<()>::new().with_additional("request_id", "req-123").with_additional("method", "POST");

    let status = 200.to_string();
    let buf = json(
        LogLevel::Info,
        "Request processed",
        &ctx,
        LogAudience::Internal,
        &[("status", status.as_str()), ("path", "/api/users")],
        None,
        None,
    );

    assert!(is_json(&buf), "Invalid JSON: {}", buf);
    assert_eq!(parse_json_field(&buf, "request_id"), Some("req-123".to_string()));
    assert_eq!(parse_json_field(&buf, "method"), Some("POST".to_string()));
    assert_eq!(parse_json_field(&buf, "status"), Some("200".to_string()));
    assert_eq!(parse_json_field(&buf, "path"), Some("/api/users".to_string()));
}

#[test]
fn test_write_json_direct_with_file_location() {
    let ctx = LogContext::<()>::new();
    let buf = json(
        LogLevel::Warn,
        "Deprecation warning",
        &ctx,
        LogAudience::Internal,
        &[],
        Some("src/api/handler.rs"),
        Some(42),
    );

    assert!(is_json(&buf), "Invalid JSON: {}", buf);
    assert_eq!(parse_json_field(&buf, "file"), Some("src/api/handler.rs".to_string()));
    assert_eq!(parse_json_field_u64(&buf, "line"), Some(42));
}

#[test]
fn test_write_json_direct_escapes_message() {
    let ctx = LogContext::<()>::new();
    let buf = json(
        LogLevel::Error,
        "Error: \"file not found\"\nPath: C:\\Users\\test",
        &ctx,
        LogAudience::Internal,
        &[],
        None,
        None,
    );

    assert!(is_json(&buf), "Invalid JSON with special chars: {}", buf);
    let msg = parse_json_field(&buf, "msg").unwrap();
    assert_eq!(msg, "Error: \"file not found\"\nPath: C:\\Users\\test");
}

#[test]
fn test_write_json_direct_escapes_context_fields() {
    let ctx = LogContext::<()>::new().with_feature("test\"feature").with_additional("path", "C:\\Program Files\\App");

    let buf = json(LogLevel::Info, "test", &ctx, LogAudience::Internal, &[], None, None);

    assert!(is_json(&buf), "Invalid JSON with escaped context: {}", buf);
    assert_eq!(parse_json_field(&buf, "feature"), Some("test\"feature".to_string()));
    assert_eq!(parse_json_field(&buf, "path"), Some("C:\\Program Files\\App".to_string()));
}

#[test]
fn test_write_json_direct_timestamp_format() {
    let ctx = LogContext::<()>::new();
    let buf = json(LogLevel::Info, "test", &ctx, LogAudience::Internal, &[], None, None);

    let ts = parse_json_field(&buf, "ts").unwrap();
    assert!(ts.len() == 24, "Timestamp wrong length: {} ({})", ts, ts.len());
    assert!(ts.ends_with('Z'), "Timestamp should end with Z: {}", ts);
    assert!(ts.contains('T'), "Timestamp should contain T: {}", ts);

    let parsed = chrono::DateTime::parse_from_rfc3339(&ts);
    assert!(parsed.is_ok(), "Invalid RFC3339 timestamp: {}", ts);
}

#[test]
fn test_write_json_omits_none_fields() {
    let ctx = LogContext::<()>::new();
    let buf = json(LogLevel::Info, "test", &ctx, LogAudience::Internal, &[], None, None);

    assert!(!buf.contains("trace_id"), "Should not contain trace_id when None");
    assert!(!buf.contains("span_id"), "Should not contain span_id when None");
    assert!(!buf.contains("feature"), "Should not contain feature when None");
}

fn fixed_stamp(ctx: &LogContext<()>) -> Stamp {
    let (trace_id, span_id) = resolve_ids(ctx, (None, None));
    Stamp { now: Timestamp::from_timestamp(1_735_603_200, 7_000_000).unwrap(), trace_id, span_id }
}

fn full_context() -> LogContext<()> {
    LogContext::empty()
        .with_trace_id("t1")
        .with_span_id("s1")
        .with_feature("billing")
        .with_function("charge")
        .with_error_code("E7")
        .with_error_category("payment")
        .with_additional("region", "us-east-1")
}

#[test]
fn a_call_has_one_exact_display_line() {
    let ctx = full_context();
    let mut buf = String::from("> ");
    let mut cache = TimestampCache::new();
    write_display_stamped(
        &mut buf,
        LogLevel::Warn,
        "declined",
        &ctx,
        LogAudience::Both,
        &[("attempt", "3")],
        Some("src/pay.rs"),
        Some(42),
        &mut cache,
        &fixed_stamp(&ctx),
    );
    assert_eq!(
        buf,
        "> [2024-12-31T00:00:00.007Z] [\x1b[33mWARN\x1b[0m] [BOTH] trace_id=t1 span_id=s1 feature=billing fn=charge \
         error=E7 region=us-east-1 attempt=3 declined\n   --> src/pay.rs:42"
    );
}

#[test]
fn a_call_has_one_exact_json_line() {
    let ctx = full_context();
    let mut buf = String::new();
    let mut cache = TimestampCache::new();
    write_json_stamped(
        &mut buf,
        LogLevel::Warn,
        "declined",
        &ctx,
        LogAudience::Both,
        &[("attempt", "3")],
        Some("src/pay.rs"),
        Some(42),
        &mut cache,
        &fixed_stamp(&ctx),
    );
    assert_eq!(
        buf,
        concat_lines(&[
            r#"{"ts":"2024-12-31T00:00:00.007Z","level":"WARN","audience":"BOTH","trace_id":"t1","span_id":"s1","#,
            r#""feature":"billing","fn":"charge","error_code":"E7","error_category":"payment","#,
            r#""region":"us-east-1","attempt":"3","file":"src/pay.rs","line":42,"msg":"declined"}"#,
        ])
    );
}

fn concat_lines(parts: &[&str]) -> String {
    parts.iter().map(|part| part.to_string()).collect::<Vec<_>>().join("")
}

#[test]
fn a_record_shows_the_line_of_its_call() {
    let ctx = full_context();
    let stamp = fixed_stamp(&ctx);
    let log = EdenLog::new_at(
        LogLevel::Warn,
        "declined",
        &ctx,
        LogAudience::Both,
        stamp.now,
        (stamp.trace_id.clone(), stamp.span_id.clone()),
    )
    .with_call(&[("attempt", "3")], Some("src/pay.rs"), Some(42));

    let mut line = String::new();
    let mut cache = TimestampCache::new();
    write_display_stamped(
        &mut line,
        LogLevel::Warn,
        "declined",
        &ctx,
        LogAudience::Both,
        &[("attempt", "3")],
        Some("src/pay.rs"),
        Some(42),
        &mut cache,
        &stamp,
    );
    assert_eq!(log.to_display(), line);

    let mut appended = String::from("x");
    log.write_display(&mut appended);
    assert_eq!(appended, format!("x{line}"));
}

#[test]
fn a_record_has_the_values_of_its_call() {
    let ctx = LogContext::empty().with_additional("a", "1").with_additional("b", "2");
    let log = EdenLog::from_direct(
        LogLevel::Error,
        "m",
        &ctx,
        LogAudience::Client,
        &[("b", "3"), ("c", "4")],
        Some("f.rs"),
        Some(9),
        SOURCE,
    );
    assert_eq!(log.additional.len(), 3);
    assert_eq!(log.additional.get("b").map(|s| s.as_str()), Some("3"));
    assert_eq!(log.file.as_deref(), Some("f.rs"));
    assert_eq!(log.line, Some(9));

    let copy = log.clone().with_location("g.rs", 10);
    assert_eq!(copy.message, "m");
    assert_eq!(copy.file.as_deref(), Some("g.rs"));
    assert_eq!(copy.line, Some(10));
}

#[test]
fn each_missing_id_comes_from_the_current_span() {
    let current = || (Some("ct".to_string()), Some("cs".to_string()));
    let both = LogContext::empty().with_trace_id("t").with_span_id("s");
    assert_eq!(resolve_ids(&both, current()), (Some("t".to_string()), Some("s".to_string())));
    let neither = LogContext::empty();
    assert_eq!(resolve_ids(&neither, current()), current());
    assert_eq!(resolve_ids(&neither, (None, None)), (None, None));
}
