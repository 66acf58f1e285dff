use std::sync::Arc;

use eden_logger::context::LogContext;
use eden_logger::trace::{
    extract_trace_context, hex_encode_16, hex_encode_8, ids_from, ids_from_bytes, ids_from_parts, ids_from_span,
    trace_context, with_ids,
    TraceContextExt, TraceSource,
};
use eden_logger::writer::{set_trace_source, trace_source, WriterState};
use opentelemetry::trace::{SpanContext, SpanId, TraceContextExt as OtelContextExt, TraceFlags, TraceId, TraceState};

#[test]
fn test_extract_trace_context_no_span() {
    let (trace_id, span_id) = extract_trace_context(TraceSource::FastTelemetry);
    assert!(trace_id.is_none());
    assert!(span_id.is_none());
}

#[test]
fn test_trace_context_builder() {
    let ctx = trace_context::<()>(TraceSource::FastTelemetry).with_feature("test");
    assert_eq!(ctx.feature.as_deref(), Some("test"));
}

#[test]
fn test_trace_context_ext() {
    let ctx = LogContext::<()>::new().with_feature("test").with_trace_context(TraceSource::FastTelemetry);

    assert_eq!(ctx.feature.as_deref(), Some("test"));
}

#[test]
fn test_trace_source_default_and_set() {
    let mut state = WriterState::new();
    let original = trace_source(&state);
    assert_eq!(original, TraceSource::FastTelemetry);
    set_trace_source(&mut state, TraceSource::Otel);
    assert_eq!(trace_source(&state), TraceSource::Otel);
    set_trace_source(&mut state, TraceSource::FastTelemetry);
    assert_eq!(trace_source(&state), TraceSource::FastTelemetry);
}

#[test]
fn test_hex_encode_roundtrip() {
    let bytes16: [u8; 16] = [
        0x4b, 0xf9, 0x2f, 0x35, 0x77, 0xb3, 0x4d, 0xa6, 0xa3, 0xce, 0x92, 0x9d, 0x0e, 0x0e, 0x47, 0x36,
    ];
    let hex = hex_encode_16(&bytes16);
    assert_eq!(std::str::from_utf8(&hex).expect("valid utf8"), "4bf92f3577b34da6a3ce929d0e0e4736");

    let bytes8: [u8; 8] = [0x00, 0xf0, 0x67, 0xaa, 0x0b, 0xa9, 0x02, 0xb7];
    let hex = hex_encode_8(&bytes8);
    assert_eq!(std::str::from_utf8(&hex).expect("valid utf8"), "00f067aa0ba902b7");
}

#[test]
fn ids_need_both_parts() {
    let trace = [0x11u8; 16];
    let span = [0x22u8; 8];
    let (t, s) = ids_from_bytes(&trace, &span);
    assert_eq!(t.as_deref(), Some("11111111111111111111111111111111"));
    assert_eq!(s.as_deref(), Some("2222222222222222"));

    assert_eq!(ids_from_parts(None, Some(span)), (None, None));
    assert_eq!(ids_from_parts(Some(trace), None), (None, None));

    assert_eq!(ids_from_span(true, &trace, &span), (t, s));
    assert_eq!(ids_from_span(false, &trace, &span), (None, None));
}

#[test]
fn the_source_decides_which_reading_counts() {
    let entered = (Some([0x11u8; 16]), Some([0x22u8; 8]));
    let context = (true, [0x33u8; 16], [0x44u8; 8]);
    let (trace, span) = ids_from(TraceSource::FastTelemetry, entered, context);
    assert_eq!(trace.as_deref(), Some("11111111111111111111111111111111"));
    assert_eq!(span.as_deref(), Some("2222222222222222"));
    let (trace, span) = ids_from(TraceSource::Otel, entered, context);
    assert_eq!(trace.as_deref(), Some("33333333333333333333333333333333"));
    assert_eq!(span.as_deref(), Some("4444444444444444"));

    assert_eq!(ids_from(TraceSource::FastTelemetry, (None, None), context), (None, None));
    assert_eq!(ids_from(TraceSource::Otel, entered, (false, [0x33u8; 16], [0u8; 8])), (None, None));
}

#[test]
fn ids_are_added_to_a_context_where_there_are_some() {
    let ids = (Some("t".to_string()), Some("s".to_string()));
    let ctx = with_ids(LogContext::empty().with_feature("kept"), ids);
    assert_eq!(ctx.trace_id.as_deref(), Some("t"));
    assert_eq!(ctx.span_id.as_deref(), Some("s"));
    assert_eq!(ctx.feature.as_deref(), Some("kept"));

    let unchanged = with_ids(LogContext::empty().with_trace_id("own"), (None, None));
    assert_eq!(unchanged.trace_id.as_deref(), Some("own"));
}

#[test]
fn the_active_span_gives_both_ids() {
    let collector = Arc::new(fast_telemetry::SpanCollector::new(1, 1024));
    let mut span = collector.start_span("operation", fast_telemetry::SpanKind::Server);
    span.enter();

    let (trace_id, span_id) = extract_trace_context(TraceSource::FastTelemetry);
    let trace_id = trace_id.expect("trace id");
    let span_id = span_id.expect("span id");
    assert_eq!(trace_id.len(), 32);
    assert_eq!(span_id.len(), 16);
    assert!(trace_id.chars().chain(span_id.chars()).all(|c| c.is_ascii_digit() || ('a'..='f').contains(&c)));

    let ctx = LogContext::<()>::new().with_trace_context(TraceSource::FastTelemetry);
    assert_eq!(ctx.trace_id.as_deref(), Some(trace_id.as_str()));
    assert_eq!(ctx.span_id.as_deref(), Some(span_id.as_str()));
}

#[test]
fn the_opentelemetry_context_gives_both_ids() {
    assert_eq!(extract_trace_context(TraceSource::Otel), (None, None));
    let span = SpanContext::new(
        TraceId::from_bytes([0x4b; 16]),
        SpanId::from_bytes([0x07; 8]),
        TraceFlags::SAMPLED,
        false,
        TraceState::default(),
    );
    let _guard = opentelemetry::Context::new().with_remote_span_context(span).attach();
    let (trace_id, span_id) = extract_trace_context(TraceSource::Otel);
    assert_eq!(trace_id.as_deref(), Some("4b4b4b4b4b4b4b4b4b4b4b4b4b4b4b4b"));
    assert_eq!(span_id.as_deref(), Some("0707070707070707"));
}
