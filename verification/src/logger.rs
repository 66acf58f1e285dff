//! The path of a log call: filter, counters, the line, and the structured sink.

use vstd::prelude::*;

use crate::context::{LogAudience, LogContext};
use crate::context;
use crate::fields::RequestFields;
use crate::filter;
use crate::filter::LevelFilter;
use crate::line;
use crate::metrics::LogCounters;
use crate::schema;
use crate::schema::{EdenLog, LogLevel, Reading, Stamp};
use crate::sink;
use crate::sink::{SinkCache, SinkRegistry};
use crate::timestamp::TimestampCache;
use crate::trace::TraceSource;
use crate::writer;
use crate::writer::{LogFormat, LogTarget, Output, WriterState};

verus! {

/// The state that log calls share.
pub struct Logger {
    pub filter: LevelFilter,
    pub writer: WriterState,
    pub counters: LogCounters,
    pub cache: TimestampCache,
    pub sinks: SinkRegistry,
    pub sink_cache: SinkCache,
}

/// What a log call gives: the text to write, and the record for a sink with the sink's slot.
pub struct Emission<R: RequestFields> {
    pub output: Option<Output>,
    pub delivery: Option<(usize, EdenLog<R>)>,
}

/// The line of a log call in a form, and a newline.
pub open spec fn line_text<R: RequestFields>(
    format: LogFormat,
    time: Seq<char>,
    ids: (Option<Seq<char>>, Option<Seq<char>>),
    level: LogLevel,
    message: Seq<char>,
    context: LogContext<R>,
    audience: LogAudience,
    additional: Seq<(&str, &str)>,
    file: Option<&str>,
    line: Option<u32>,
) -> Seq<char> {
    match format {
        LogFormat::Json => line::json_line(
            schema::call_line(
                time,
                ids,
                level,
                message,
                context,
                audience,
                context.request.json_fields(),
                additional,
                file,
                line,
            ),
        ).push('\n'),
        LogFormat::Display => line::display_line(
            schema::call_line(
                time,
                ids,
                level,
                message,
                context,
                audience,
                context.request.display_fields(),
                additional,
                file,
                line,
            ),
        ).push('\n'),
    }
}

impl Logger {
    /// The state is consistent.
    pub open spec fn wf(&self) -> bool {
        &&& self.counters.wf()
        &&& self.cache.wf()
        &&& self.sinks.wf()
        &&& self.sink_cache.fits(&self.sinks)
    }

    /// Whether `self` has the settings and sinks of `other`.
    pub open spec fn same_settings(&self, other: &Self) -> bool {
        &&& self.filter == other.filter
        &&& self.writer == other.writer
        &&& self.sinks == other.sinks
    }

    /// Whether `self` has counted one more record than `other`.
    pub open spec fn counted_one_more(
        &self,
        other: &Self,
        level: LogLevel,
        audience: LogAudience,
    ) -> bool {
        &&& self.counters.emitted() == other.counters.emitted() + 1
        &&& self.counters.emitted_at(level) == other.counters.emitted_at(level) + 1
        &&& self.counters.emitted_for(audience) == other.counters.emitted_for(audience) + 1
        &&& forall|l: LogLevel|
            l != level ==> #[trigger] self.counters.emitted_at(l) == other.counters.emitted_at(l)
        &&& forall|a: LogAudience|
            a != audience ==> #[trigger] self.counters.emitted_for(a)
                == other.counters.emitted_for(a)
    }

    /// Whether an optional slot is that of the sink for a key.
    pub open spec fn is_slot(&self, key: u64, slot: Option<usize>) -> bool {
        match slot {
            Some(i) => sink::slot_of(self.sinks.installed(), key) == Some(i as int),
            None => !self.sinks.installed().contains(key),
        }
    }

    /// A logger without a filter and without sinks, in the default configuration.
    pub fn new() -> (logger: Logger)
        ensures
            logger.wf(),
            !logger.filter.is_set(),
            !logger.filter.initialized,
            logger.counters.emitted() == 0,
            forall|l: LogLevel| #[trigger] logger.counters.emitted_at(l) == 0,
            forall|a: LogAudience| #[trigger] logger.counters.emitted_for(a) == 0,
            logger.sinks.installed() == Seq::<u64>::empty(),
            forall|key: u64| !(#[trigger] logger.sink_cache.holds(key)),
            logger.writer.config.target == LogTarget::Stderr,
            logger.writer.config.format == LogFormat::Display,
            logger.writer.config.trace_source == TraceSource::FastTelemetry,
    {
        Logger {
            filter: LevelFilter::new(),
            writer: WriterState::new(),
            counters: LogCounters::new(),
            cache: TimestampCache::new(),
            sinks: SinkRegistry::new(),
            sink_cache: SinkCache::new(),
        }
    }
}

/// Whether a logger and an emission are what a log call leaves, given what it read. The IDs are those
/// of the source that is configured.
pub open spec fn is_emission<R: RequestFields>(
    before: Logger,
    after: Logger,
    key: u64,
    level: LogLevel,
    message: Seq<char>,
    context: LogContext<R>,
    audience: LogAudience,
    additional: Seq<(&str, &str)>,
    file: Option<&str>,
    line: Option<u32>,
    reading: Reading,
    emission: Emission<R>,
) -> bool {
    let config = before.writer.config;
    let ids = reading.ids(context, config.trace_source);
    if !before.filter.allows(level) {
        emission.output is None && emission.delivery is None && after == before
    } else {
        &&& after.counted_one_more(&before, level, audience)
        &&& emission.output is None <==> config.target == LogTarget::StructuredSink
        &&& emission.output matches Some(output) ==> {
            &&& output.target == config.target
            &&& output.text@ == line_text(
                config.format,
                reading.now.rfc3339(),
                ids,
                level,
                message,
                context,
                audience,
                additional,
                file,
                line,
            )
        }
        &&& emission.delivery is Some <==> before.sinks.installed().contains(key)
        &&& emission.delivery matches Some((slot, log)) ==> {
            &&& before.is_slot(key, Some(slot))
            &&& log.is_made_of_call(level, message, context, audience, additional, file, line)
            &&& log.timestamp == reading.now
            &&& (context::text_of(log.trace_id), context::text_of(log.span_id)) == ids
        }
    }
}

/// Emits the line of a log call, unless its level is filtered out: counts it, formats it in the form
/// that is configured, and makes the record for the sink that is installed for `key`.
///
/// Where the structured sink is the only target, no line is formatted.
pub fn emit_direct<R: RequestFields>(
    logger: &mut Logger,
    key: u64,
    level: LogLevel,
    message: &str,
    context: &LogContext<R>,
    audience: LogAudience,
    additional: &[(&str, &str)],
    file: Option<&str>,
    line: Option<u32>,
) -> (emission: Emission<R>)
    requires
        old(logger).wf(),
        old(logger).counters.emitted() < isize::MAX,
    ensures
        final(logger).wf(),
        final(logger).same_settings(old(logger)),
        !old(logger).filter.allows(level) ==> emission.output is None && emission.delivery is None
            && *final(logger) == *old(logger),
        old(logger).filter.allows(level) ==> exists|reading: Reading|
            {
                &&& reading.possible()
                &&& call_ensures(Reading::take, (), reading)
                &&& #[trigger] is_emission(
                    *old(logger),
                    *final(logger),
                    key,
                    level,
                    message@,
                    *context,
                    audience,
                    additional@,
                    file,
                    line,
                    reading,
                    emission,
                )
            },
{
    if !filter::should_log(&logger.filter, level) {
        return Emission { output: None, delivery: None };
    }
    let reading = Reading::take();
    emit_direct_at(
        logger,
        key,
        level,
        message,
        context,
        audience,
        additional,
        file,
        line,
        &reading,
    )
}

/// Emits the line of a log call, given what the call read.
pub fn emit_direct_at<R: RequestFields>(
    logger: &mut Logger,
    key: u64,
    level: LogLevel,
    message: &str,
    context: &LogContext<R>,
    audience: LogAudience,
    additional: &[(&str, &str)],
    file: Option<&str>,
    line: Option<u32>,
    reading: &Reading,
) -> (emission: Emission<R>)
    requires
        old(logger).wf(),
        old(logger).counters.emitted() < isize::MAX,
        !reading.now.in_leap_second(),
    ensures
        final(logger).wf(),
        final(logger).same_settings(old(logger)),
        is_emission(
            *old(logger),
            *final(logger),
            key,
            level,
            message@,
            *context,
            audience,
            additional@,
            file,
            line,
            *reading,
            emission,
        ),
{
    if !filter::should_log(&logger.filter, level) {
        return Emission { output: None, delivery: None };
    }
    logger.counters.record_emitted(level, audience);
    let stamp = Stamp::of(context, writer::trace_source(&logger.writer), reading);
    let output = match writer::target(&logger.writer) {
        LogTarget::StructuredSink => None,
        _ => {
            let mut text = String::new();
            match writer::format(&logger.writer) {
                LogFormat::Json => {
                    schema::write_json_stamped(
                        &mut text,
                        level,
                        message,
                        context,
                        audience,
                        additional,
                        file,
                        line,
                        &mut logger.cache,
                        &stamp,
                    );
                },
                LogFormat::Display => {
                    schema::write_display_stamped(
                        &mut text,
                        level,
                        message,
                        context,
                        audience,
                        additional,
                        file,
                        line,
                        &mut logger.cache,
                        &stamp,
                    );
                },
            }
            text.push('\n');
            assert(text@ =~= line_text(
                old(logger).writer.config.format,
                stamp.now.rfc3339(),
                stamp.ids(),
                level,
                message@,
                *context,
                audience,
                additional@,
                file,
                line,
            ));
            Some(writer::log_bytes(&logger.writer, text))
        },
    };
    let delivery = match sink::dispatch(&mut logger.sink_cache, &logger.sinks, key) {
        Some(slot) => {
            let log = EdenLog::new_at(
                level,
                message,
                context,
                audience,
                stamp.now,
                (stamp.trace_id, stamp.span_id),
            );
            Some((slot, log.with_call(additional, file, line)))
        },
        None => None,
    };
    Emission { output, delivery }
}

impl<R: RequestFields> EdenLog<R> {
    /// Emits the display line of this record, unless its level is filtered out: counts it, and makes
    /// the copy for the sink that is installed for `key`.
    pub fn emit(&self, logger: &mut Logger, key: u64) -> (emission: Emission<R>)
        requires
            old(logger).wf(),
            old(logger).counters.emitted() < isize::MAX,
        ensures
            final(logger).wf(),
            final(logger).same_settings(old(logger)),
            !old(logger).filter.allows(self.level) ==> emission.output is None
                && emission.delivery is None && *final(logger) == *old(logger),
            old(logger).filter.allows(self.level) ==> {
                &&& final(logger).counted_one_more(old(logger), self.level, self.audience)
                &&& emission.output is None <==> old(logger).writer.config.target
                    == LogTarget::StructuredSink
                &&& emission.output matches Some(output) ==> output.target
                    == old(logger).writer.config.target && output.text@ == line::display_line(
                    self.shown(),
                ).push('\n')
                &&& emission.delivery is Some <==> old(logger).sinks.installed().contains(key)
                &&& emission.delivery matches Some((slot, log)) ==> old(logger).is_slot(
                    key,
                    Some(slot),
                ) && log == (EdenLog { additional: log.additional, ..*self })
                    && log.additional.pairs() == self.additional.pairs()
            },
    {
        if !filter::should_log(&logger.filter, self.level) {
            return Emission { output: None, delivery: None };
        }
        logger.counters.record_emitted(self.level, self.audience);
        let output = match writer::target(&logger.writer) {
            LogTarget::StructuredSink => None,
            _ => {
                let mut text = String::new();
                self.write_display(&mut text);
                text.push('\n');
                assert(text@ =~= line::display_line(self.shown()).push('\n'));
                Some(writer::log_bytes(&logger.writer, text))
            },
        };
        let delivery = match sink::dispatch(&mut logger.sink_cache, &logger.sinks, key) {
            Some(slot) => Some((slot, self.clone())),
            None => None,
        };
        Emission { output, delivery }
    }
}

/// The text of a display line with its newline shows what the line shows.
proof fn lemma_newline_shows(shown: Seq<char>, label: Seq<char>, value: Option<Seq<char>>)
    requires
        line::shows_field(shown, label, value),
    ensures
        line::shows_field(shown.push('\n'), label, value),
{
    if value is Some {
        let part = seq![' '] + label + seq!['='] + value->0;
        let i = choose|i: int|
            0 <= i <= shown.len() - part.len() && #[trigger] shown.subrange(i, i + part.len())
                == part;
        assert(shown.push('\n').subrange(i, i + part.len()) =~= shown.subrange(i, i + part.len()));
    }
}

/// A call that is let through under a current span, with a context that has no IDs of its own, gives
/// the trace ID and the span ID of that span to its line and to the record for its sink.
pub proof fn law_an_emission_carries_the_current_span<R: RequestFields>(
    before: Logger,
    after: Logger,
    key: u64,
    level: LogLevel,
    message: Seq<char>,
    context: LogContext<R>,
    audience: LogAudience,
    additional: Seq<(&str, &str)>,
    file: Option<&str>,
    line: Option<u32>,
    reading: Reading,
    emission: Emission<R>,
    span: (Seq<char>, Seq<char>),
)
    requires
        is_emission(
            before,
            after,
            key,
            level,
            message,
            context,
            audience,
            additional,
            file,
            line,
            reading,
            emission,
        ),
        before.filter.allows(level),
        context.trace_id is None,
        context.span_id is None,
        before.writer.config.trace_source == TraceSource::FastTelemetry ==> reading.entered.0
            is Some && reading.entered.1 is Some && span == (
            crate::trace::hex_text(reading.entered.0->0@),
            crate::trace::hex_text(reading.entered.1->0@),
        ),
        before.writer.config.trace_source == TraceSource::Otel ==> reading.context.0 && span == (
            crate::trace::hex_text(reading.context.1@),
            crate::trace::hex_text(reading.context.2@),
        ),
    ensures
        emission.delivery matches Some((_, log)) ==> context::text_of(log.trace_id) == Some(span.0)
            && context::text_of(log.span_id) == Some(span.1) && log.timestamp == reading.now
            && log.level == level && log.audience == audience && log.message@ == message,
        emission.output is Some && before.writer.config.format == LogFormat::Display ==> {
            &&& line::shows_field(emission.output->0.text@, "trace_id"@, Some(span.0))
            &&& line::shows_field(emission.output->0.text@, "span_id"@, Some(span.1))
            &&& (seq!['['] + reading.now.rfc3339() + seq![']']).is_prefix_of(
                emission.output->0.text@,
            )
            &&& emission.output->0.text@.last() == '\n'
        },
        emission.output is Some && before.writer.config.format == LogFormat::Json ==> {
            let text = emission.output->0.text@;
            let members = crate::json::read_object(text.drop_last());
            &&& text.last() == '\n'
            &&& members is Some
            &&& members->0[0] == ("ts"@, crate::json::JsonValue::Text(reading.now.rfc3339()))
            &&& line::has_member(members->0, "trace_id"@, Some(span.0))
            &&& line::has_member(members->0, "span_id"@, Some(span.1))
        },
        before.sinks.installed().contains(key) ==> emission.delivery is Some,
        before.writer.config.target != LogTarget::StructuredSink ==> emission.output is Some
            && emission.output->0.target == before.writer.config.target,
{
    let config = before.writer.config;
    let ids = reading.ids(context, config.trace_source);
    assert(ids == (Some(span.0), Some(span.1)));
    if emission.output is Some {
        match config.format {
            LogFormat::Display => {
                lemma_display_text_shows(
                    schema::call_line(
                        reading.now.rfc3339(),
                        ids,
                        level,
                        message,
                        context,
                        audience,
                        context.request.display_fields(),
                        additional,
                        file,
                        line,
                    ),
                    emission.output->0.text@,
                );
            },
            LogFormat::Json => {
                lemma_json_text_has(
                    schema::call_line(
                        reading.now.rfc3339(),
                        ids,
                        level,
                        message,
                        context,
                        audience,
                        context.request.json_fields(),
                        additional,
                        file,
                        line,
                    ),
                    emission.output->0.text@,
                );
            },
        }
    }
}

proof fn lemma_display_text_shows(shown: line::Line, text: Seq<char>)
    requires
        text == line::display_line(shown).push('\n'),
    ensures
        line::shows_field(text, "trace_id"@, shown.trace_id),
        line::shows_field(text, "span_id"@, shown.span_id),
        (seq!['['] + shown.time + seq![']']).is_prefix_of(text),
        text.last() == '\n',
{
    line::law_display_line_shows_every_field(shown);
    lemma_newline_shows(line::display_line(shown), "trace_id"@, shown.trace_id);
    lemma_newline_shows(line::display_line(shown), "span_id"@, shown.span_id);
    let head = seq!['['] + shown.time + seq![']'];
    let whole = seq!['['] + shown.time + seq![']', ' ', '['] + shown.level.colored_name() + seq![
        ']',
        ' ',
        '[',
    ] + shown.audience.name() + seq![']'];
    assert(whole.take(head.len() as int) =~= head);
    assert(text.take(head.len() as int) =~= whole.take(head.len() as int));
    assert(text.subrange(0, head.len() as int) =~= text.take(head.len() as int));
}

proof fn lemma_json_text_has(shown: line::Line, text: Seq<char>)
    requires
        text == line::json_line(shown).push('\n'),
    ensures
        text.last() == '\n',
        crate::json::read_object(text.drop_last()) is Some,
        crate::json::read_object(text.drop_last())->0[0] == (
            "ts"@,
            crate::json::JsonValue::Text(shown.time),
        ),
        line::has_member(
            crate::json::read_object(text.drop_last())->0,
            "trace_id"@,
            shown.trace_id,
        ),
        line::has_member(crate::json::read_object(text.drop_last())->0, "span_id"@, shown.span_id),
{
    line::law_json_line_reads_back(shown);
    line::law_json_line_has_every_field(shown, line::line_members(shown));
    assert(text.drop_last() =~= line::json_line(shown));
}

}
