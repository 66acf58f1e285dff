//! Trace and span IDs of the current span.
//!
//! There are two sources: the span context that fast-telemetry keeps per thread, and the current
//! context of OpenTelemetry.

use opentelemetry::trace::TraceContextExt as OtelContextExt;
use vstd::prelude::*;

use crate::context;
use crate::context::LogContext;
use crate::fields::RequestFields;
use crate::json;

verus! {

/// Where trace and span IDs are read from.
#[derive(Debug, Clone, Copy, PartialEq, Eq, Structural)]
pub enum TraceSource {
    /// The span context that fast-telemetry keeps per thread.
    FastTelemetry,
    /// The current `opentelemetry::Context`.
    Otel,
}

/// Bytes in lower-case hexadecimal: two digits for each byte, the high one first.
pub open spec fn hex_text(bytes: Seq<u8>) -> Seq<char> {
    Seq::new(
        2 * bytes.len(),
        |i: int|
            json::hex_digit(
                if i % 2 == 0 {
                    bytes[i / 2] as int / 16
                } else {
                    bytes[i / 2] as int % 16
                },
            ),
    )
}

/// Whether all bytes are zero, which stands for an ID that is absent.
pub open spec fn all_zero(bytes: Seq<u8>) -> bool {
    forall|i: int| 0 <= i < bytes.len() ==> #[trigger] bytes[i] == 0
}

/// The texts of a pair of IDs.
pub open spec fn id_texts(ids: (Option<String>, Option<String>)) -> (
    Option<Seq<char>>,
    Option<Seq<char>>,
) {
    (context::text_of(ids.0), context::text_of(ids.1))
}

/// Whether IDs are absent, or the hexadecimal texts of a trace ID and a span ID that are not zero.
pub open spec fn is_span_identity(ids: (Option<Seq<char>>, Option<Seq<char>>)) -> bool {
    ids == (None::<Seq<char>>, None::<Seq<char>>) || exists|trace: Seq<u8>, span: Seq<u8>|
        trace.len() == 16 && span.len() == 8 && !all_zero(trace) && !all_zero(span) && ids == (
            Some(#[trigger] hex_text(trace)),
            Some(#[trigger] hex_text(span)),
        )
}

/// `fast_telemetry::current_trace_id` gives the trace ID of the span that is entered on this
/// thread, and nothing where there is none or its ID is all zeros.
#[verifier::external_body]
fn current_trace_id() -> (id: Option<[u8; 16]>)
    ensures
        id matches Some(bytes) ==> !all_zero(bytes@),
{
    fast_telemetry::current_trace_id().map(|id| *id.as_bytes())
}

/// `fast_telemetry::current_span_id` gives the span ID of the span that is entered on this thread,
/// and nothing where there is none or its ID is all zeros.
#[verifier::external_body]
fn current_span_id() -> (id: Option<[u8; 8]>)
    ensures
        id matches Some(bytes) ==> !all_zero(bytes@),
{
    fast_telemetry::current_span_id().map(|id| *id.as_bytes())
}

/// `opentelemetry::Context::current` gives the current context. The span context of its span is
/// valid where neither its trace ID nor its span ID is zero.
#[verifier::external_body]
fn current_otel_span() -> (span: (bool, [u8; 16], [u8; 8]))
    ensures
        span.0 <==> !all_zero(span.1@) && !all_zero(span.2@),
{
    let current = opentelemetry::Context::current();
    let span = OtelContextExt::span(&current);
    let context = span.span_context();
    (context.is_valid(), context.trace_id().to_bytes(), context.span_id().to_bytes())
}

/// Encodes 16 bytes as 32 lower-case hexadecimal digits.
pub fn hex_encode_16(bytes: &[u8; 16]) -> (out: [u8; 32])
    ensures
        forall|i: int| 0 <= i < 32 ==> (#[trigger] out@[i]) as char == hex_text(bytes@)[i],
{
    let mut out: [u8; 32] = [0u8;32];
    let mut i: usize = 0;
    while i < 16
        invariant
            i <= 16,
            forall|j: int|
                0 <= j < 2 * i ==> (#[trigger] out@[j]) as char == hex_text(bytes@)[j],
        decreases 16 - i,
    {
        let b: u8 = bytes[i];
        out[i * 2] = json::hex_char(b / 16) as u8;
        out[i * 2 + 1] = json::hex_char(b % 16) as u8;
        assert((2 * i) as int / 2 == i && (2 * i + 1) as int / 2 == i);
        i = i + 1;
    }
    out
}

/// Encodes 8 bytes as 16 lower-case hexadecimal digits.
pub fn hex_encode_8(bytes: &[u8; 8]) -> (out: [u8; 16])
    ensures
        forall|i: int| 0 <= i < 16 ==> (#[trigger] out@[i]) as char == hex_text(bytes@)[i],
{
    let mut out: [u8; 16] = [0u8;16];
    let mut i: usize = 0;
    while i < 8
        invariant
            i <= 8,
            forall|j: int|
                0 <= j < 2 * i ==> (#[trigger] out@[j]) as char == hex_text(bytes@)[j],
        decreases 8 - i,
    {
        let b: u8 = bytes[i];
        out[i * 2] = json::hex_char(b / 16) as u8;
        out[i * 2 + 1] = json::hex_char(b % 16) as u8;
        assert((2 * i) as int / 2 == i && (2 * i + 1) as int / 2 == i);
        i = i + 1;
    }
    out
}

fn ascii_text(bytes: &[u8]) -> (text: String)
    ensures
        text@ == Seq::new(bytes@.len(), |i: int| bytes@[i] as char),
{
    let mut text = String::new();
    let mut i: usize = 0;
    while i < bytes.len()
        invariant
            i <= bytes@.len(),
            text@ == Seq::new(i as nat, |j: int| bytes@[j] as char),
        decreases bytes@.len() - i,
    {
        text.push(bytes[i] as char);
        i = i + 1;
        assert(text@ =~= Seq::new(i as nat, |j: int| bytes@[j] as char));
    }
    text
}

/// The hexadecimal texts of a trace ID and a span ID.
pub fn ids_from_bytes(trace: &[u8; 16], span: &[u8; 8]) -> (ids: (Option<String>, Option<String>))
    ensures
        id_texts(ids) == (Some(hex_text(trace@)), Some(hex_text(span@))),
{
    let trace_hex = hex_encode_16(trace);
    let span_hex = hex_encode_8(span);
    let trace_text = ascii_text(&trace_hex);
    let span_text = ascii_text(&span_hex);
    assert(trace_text@ =~= hex_text(trace@));
    assert(span_text@ =~= hex_text(span@));
    (Some(trace_text), Some(span_text))
}

/// The IDs of a span, where both of them are present.
pub fn ids_from_parts(trace: Option<[u8; 16]>, span: Option<[u8; 8]>) -> (ids: (
    Option<String>,
    Option<String>,
))
    ensures
        id_texts(ids) == match (trace, span) {
            (Some(t), Some(s)) => (Some(hex_text(t@)), Some(hex_text(s@))),
            _ => (None, None),
        },
{
    match (trace, span) {
        (Some(t), Some(s)) => ids_from_bytes(&t, &s),
        _ => (None, None),
    }
}

/// The IDs of a span context, where it is valid.
pub fn ids_from_span(valid: bool, trace: &[u8; 16], span: &[u8; 8]) -> (ids: (
    Option<String>,
    Option<String>,
))
    ensures
        id_texts(ids) == if valid {
            (Some(hex_text(trace@)), Some(hex_text(span@)))
        } else {
            (None, None)
        },
{
    if !valid {
        return (None, None);
    }
    ids_from_bytes(trace, span)
}

/// The texts of the IDs that a source has: those of the span that `fast_telemetry` has entered, where
/// both are present, or those of the span context of `opentelemetry`, where it is valid.
pub open spec fn texts_from(
    source: TraceSource,
    entered: (Option<[u8; 16]>, Option<[u8; 8]>),
    context: (bool, [u8; 16], [u8; 8]),
) -> (Option<Seq<char>>, Option<Seq<char>>) {
    match source {
        TraceSource::FastTelemetry => match entered {
            (Some(trace), Some(span)) => (Some(hex_text(trace@)), Some(hex_text(span@))),
            _ => (None, None),
        },
        TraceSource::Otel => if context.0 {
            (Some(hex_text(context.1@)), Some(hex_text(context.2@)))
        } else {
            (None, None)
        },
    }
}

/// The IDs that a source has, given what both of them read.
pub fn ids_from(
    source: TraceSource,
    entered: (Option<[u8; 16]>, Option<[u8; 8]>),
    context: (bool, [u8; 16], [u8; 8]),
) -> (ids: (Option<String>, Option<String>))
    ensures
        id_texts(ids) == texts_from(source, entered, context),
{
    match source {
        TraceSource::FastTelemetry => ids_from_parts(entered.0, entered.1),
        TraceSource::Otel => ids_from_span(context.0, &context.1, &context.2),
    }
}

/// What the two sources read on a thread: the IDs of the span that `fast_telemetry` has entered, and
/// the span context of `opentelemetry`, with whether it is valid.
pub(crate) fn read_sources() -> (reading: (
    (Option<[u8; 16]>, Option<[u8; 8]>),
    (bool, [u8; 16], [u8; 8]),
))
    ensures
        is_reading(reading.0, reading.1),
        is_what_sources_gave(reading.0, reading.1),
{
    let entered = (current_trace_id(), current_span_id());
    let context = current_otel_span();
    (entered, context)
}

/// Whether this is what the two sources gave when they were asked: the trace ID and the span ID that
/// `fast_telemetry` has entered, and the span context of `opentelemetry`. It holds of nothing that no
/// source has given.
pub closed spec fn is_what_sources_gave(
    entered: (Option<[u8; 16]>, Option<[u8; 8]>),
    context: (bool, [u8; 16], [u8; 8]),
) -> bool {
    &&& call_ensures(current_trace_id, (), entered.0)
    &&& call_ensures(current_span_id, (), entered.1)
    &&& call_ensures(current_otel_span, (), context)
}

/// Whether the two sources can have read this: no ID that is present is zero.
pub open spec fn is_reading(
    entered: (Option<[u8; 16]>, Option<[u8; 8]>),
    context: (bool, [u8; 16], [u8; 8]),
) -> bool {
    &&& entered.0 matches Some(trace) ==> !all_zero(trace@)
    &&& entered.1 matches Some(span) ==> !all_zero(span@)
    &&& context.0 <==> !all_zero(context.1@) && !all_zero(context.2@)
}

/// The trace ID and the span ID of the current span, read from a source.
///
/// Which span is current depends on what the thread has entered; there may be none. For each reading
/// of the two sources, the IDs are those that [`ids_from`] gives.
pub fn extract_trace_context(source: TraceSource) -> (ids: (Option<String>, Option<String>))
    ensures
        is_span_identity(id_texts(ids)),
        exists|
            entered: (Option<[u8; 16]>, Option<[u8; 8]>),
            context: (bool, [u8; 16], [u8; 8]),
        |
            is_reading(entered, context) && id_texts(ids) == #[trigger] texts_from(
                source,
                entered,
                context,
            ) && is_what_sources_gave(entered, context),
{
    let (entered, context) = read_sources();
    let ids = ids_from(source, entered, context);
    assert(id_texts(ids) == texts_from(source, entered, context));
    ids
}

/// Sets the IDs that are present in a context, and keeps what is absent.
pub fn with_ids<R: RequestFields>(
    context: LogContext<R>,
    ids: (Option<String>, Option<String>),
) -> (result: LogContext<R>)
    ensures
        result == (LogContext {
            trace_id: context::overridden(context.trace_id, ids.0),
            span_id: context::overridden(context.span_id, ids.1),
            ..context
        }),
{
    let mut result = context;
    if ids.0.is_some() {
        result.trace_id = ids.0;
    }
    if ids.1.is_some() {
        result.span_id = ids.1;
    }
    result
}

/// A context with the IDs of the current span.
pub fn trace_context<R: RequestFields>(source: TraceSource) -> (result: LogContext<R>)
    ensures
        is_span_identity((context::text_of(result.trace_id), context::text_of(result.span_id))),
        (LogContext { trace_id: None, span_id: None, ..result }).is_blank(),
        call_ensures(R::default, (), result.request),
        call_ensures(extract_trace_context, (source,), (result.trace_id, result.span_id)),
{
    let ids = extract_trace_context(source);
    let ghost read = ids;
    let result = with_ids(LogContext::<R>::new(), ids);
    assert((result.trace_id, result.span_id) == read);
    result
}

/// Adds the IDs of the current span.
pub trait TraceContextExt: Sized {
    /// Whether `self` is `base` with the IDs of a span, or `base` where there is no span.
    spec fn has_ids_over(&self, base: &Self) -> bool;

    /// Sets the IDs of the current span, where there is one.
    fn with_trace_context(self, source: TraceSource) -> (result: Self)
        ensures
            result.has_ids_over(&self),
    ;
}

impl<R: RequestFields> TraceContextExt for LogContext<R> {
    open spec fn has_ids_over(&self, base: &Self) -> bool {
        *self == *base || {
            &&& *self == (LogContext { trace_id: self.trace_id, span_id: self.span_id, ..*base })
            &&& self.trace_id is Some && self.span_id is Some
            &&& is_span_identity((context::text_of(self.trace_id), context::text_of(self.span_id)))
        }
    }

    fn with_trace_context(self, source: TraceSource) -> (result: Self)
        ensures
            exists|ids: (Option<String>, Option<String>)| #[trigger]
                call_ensures(extract_trace_context, (source,), ids) && result == (LogContext {
                    trace_id: context::overridden(self.trace_id, ids.0),
                    span_id: context::overridden(self.span_id, ids.1),
                    ..self
                }),
    {
        let ids = extract_trace_context(source);
        let ghost read = ids;
        let result = with_ids(self, ids);
        assert(call_ensures(extract_trace_context, (source,), read));
        result
    }
}

/// The value of a lower-case hexadecimal digit, by its place among the digits.
pub open spec fn digit_value(c: char) -> int {
    "0123456789abcdef"@.index_of(c)
}

proof fn lemma_digit_value(d: int)
    requires
        0 <= d < 16,
    ensures
        digit_value(json::hex_digit(d)) == d,
{
    reveal_strlit("0123456789abcdef");
    let digits = "0123456789abcdef"@;
    assert(digits.len() == 16);
    assert(digits[d] == json::hex_digit(d));
    assert(digits.contains(json::hex_digit(d)));
    let found = digits.index_of(json::hex_digit(d));
    assert(0 <= found < 16 && digits[found] == json::hex_digit(d));
    assert(digits[found] == json::hex_digit(found));
}

/// The text of an ID spells each byte by two digits, the higher one first, in the order of the bytes.
pub proof fn law_hex_text_spells_each_byte(bytes: Seq<u8>, i: int)
    requires
        0 <= i < bytes.len(),
    ensures
        hex_text(bytes).len() == 2 * bytes.len(),
        16 * digit_value(hex_text(bytes)[2 * i]) + digit_value(hex_text(bytes)[2 * i + 1])
            == bytes[i],
{
    let byte = bytes[i] as int;
    lemma_digit_value(byte / 16);
    lemma_digit_value(byte % 16);
    assert((2 * i) / 2 == i && (2 * i) % 2 == 0);
    assert((2 * i + 1) / 2 == i && (2 * i + 1) % 2 == 1);
}

}
