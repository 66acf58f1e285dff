//! Log records, and the lines that are written of them.

use vstd::prelude::*;

use crate::context;
use crate::context::{LogAudience, LogContext};
use crate::fields;
use crate::fields::{FieldMap, RequestFields};
use crate::line;
use crate::line::Line;
use crate::timestamp;
use crate::timestamp::{Timestamp, TimestampCache};
use crate::trace;
use crate::trace::TraceSource;

verus! {

/// How severe a log record is.
#[derive(Debug, Clone, Copy, PartialEq, Eq, PartialOrd, Ord, Structural)]
pub enum LogLevel {
    /// Detailed execution traces.
    Trace,
    /// Debug information.
    Debug,
    /// Informational messages.
    Info,
    /// Warning conditions.
    Warn,
    /// Error conditions.
    Error,
}

impl LogLevel {
    /// The name of the level.
    pub open spec fn name(self) -> Seq<char> {
        match self {
            LogLevel::Trace => "TRACE"@,
            LogLevel::Debug => "DEBUG"@,
            LogLevel::Info => "INFO"@,
            LogLevel::Warn => "WARN"@,
            LogLevel::Error => "ERROR"@,
        }
    }

    /// The name of the level between the ANSI codes that set its color and reset it.
    pub open spec fn colored_name(self) -> Seq<char> {
        match self {
            LogLevel::Trace => "\x1b[35mTRACE\x1b[0m"@,
            LogLevel::Debug => "\x1b[36mDEBUG\x1b[0m"@,
            LogLevel::Info => "\x1b[32mINFO\x1b[0m"@,
            LogLevel::Warn => "\x1b[33mWARN\x1b[0m"@,
            LogLevel::Error => "\x1b[31mERROR\x1b[0m"@,
        }
    }

    /// The name of the level.
    pub fn as_str(&self) -> (name: &'static str)
        ensures
            name@ == self.name(),
    {
        match self {
            LogLevel::Trace => "TRACE",
            LogLevel::Debug => "DEBUG",
            LogLevel::Info => "INFO",
            LogLevel::Warn => "WARN",
            LogLevel::Error => "ERROR",
        }
    }

    /// The name of the level in its color: magenta, cyan, green, yellow or red.
    pub fn as_colored_str(&self) -> (name: &'static str)
        ensures
            name@ == self.colored_name(),
    {
        match self {
            LogLevel::Trace => "\x1b[35mTRACE\x1b[0m",
            LogLevel::Debug => "\x1b[36mDEBUG\x1b[0m",
            LogLevel::Info => "\x1b[32mINFO\x1b[0m",
            LogLevel::Warn => "\x1b[33mWARN\x1b[0m",
            LogLevel::Error => "\x1b[31mERROR\x1b[0m",
        }
    }

    /// The name of the level, as a string of its own.
    pub fn to_string(&self) -> (name: String)
        ensures
            name@ == self.name(),
    {
        self.as_str().to_owned()
    }
}

/// The IDs of a record: those of its context, and those of the current span where the context has
/// none.
pub open spec fn resolved_ids<R: RequestFields>(
    context: LogContext<R>,
    current: (Option<Seq<char>>, Option<Seq<char>>),
) -> (Option<Seq<char>>, Option<Seq<char>>) {
    (
        context::overridden(current.0, context::text_of(context.trace_id)),
        context::overridden(current.1, context::text_of(context.span_id)),
    )
}

/// The IDs of a record whose context, and the IDs of the current span, are given.
pub fn resolve_ids<R: RequestFields>(
    context: &LogContext<R>,
    current: (Option<String>, Option<String>),
) -> (ids: (Option<String>, Option<String>))
    ensures
        trace::id_texts(ids) == resolved_ids(*context, trace::id_texts(current)),
{
    let trace_id = if context.trace_id.is_some() {
        context.trace_id.clone()
    } else {
        current.0
    };
    let span_id = if context.span_id.is_some() {
        context.span_id.clone()
    } else {
        current.1
    };
    (trace_id, span_id)
}

/// What a log call reads: the clock, and both sources of trace and span IDs.
pub struct Reading {
    pub now: Timestamp,
    pub entered: (Option<[u8; 16]>, Option<[u8; 8]>),
    pub context: (bool, [u8; 16], [u8; 8]),
}

impl Reading {
    /// Whether this can have been read.
    pub open spec fn possible(&self) -> bool {
        !self.now.in_leap_second() && trace::is_reading(self.entered, self.context)
    }

    /// The IDs of a record whose context is given, with those of the current span from a source.
    pub open spec fn ids<R: RequestFields>(
        &self,
        context: LogContext<R>,
        source: TraceSource,
    ) -> (Option<Seq<char>>, Option<Seq<char>>) {
        resolved_ids(context, trace::texts_from(source, self.entered, self.context))
    }

    /// Reads the clock and both sources.
    pub fn take() -> (reading: Self)
        ensures
            reading.possible(),
            call_ensures(Timestamp::now, (), reading.now),
            trace::is_what_sources_gave(reading.entered, reading.context),
    {
        let (entered, context) = trace::read_sources();
        Reading { now: Timestamp::now(), entered, context }
    }
}

/// Whether a time and IDs are those of a call whose context is given, and whose IDs come from a
/// source where the context has none, for something that the call can have read.
pub open spec fn was_read<R: RequestFields>(
    context: LogContext<R>,
    source: TraceSource,
    now: Timestamp,
    ids: (Option<Seq<char>>, Option<Seq<char>>),
) -> bool {
    exists|reading: Reading| #[trigger]
        reading.possible() && now == reading.now && ids == reading.ids(context, source)
}

/// Whether a time and IDs are those of a call whose context is given, and whose IDs come from a
/// source where the context has none: of what the clock and the sources gave at a call, and of
/// nothing else.
pub open spec fn is_as_read<R: RequestFields>(
    context: LogContext<R>,
    source: TraceSource,
    now: Timestamp,
    ids: (Option<Seq<char>>, Option<Seq<char>>),
) -> bool {
    exists|reading: Reading| #[trigger]
        call_ensures(Reading::take, (), reading) && now == reading.now && ids == reading.ids(
            context,
            source,
        )
}

/// What a call reads is no leap second, and the IDs are those of the context, and else those of a
/// span, or absent.
pub proof fn law_a_call_reads_a_span_or_none<R: RequestFields>(
    context: LogContext<R>,
    source: TraceSource,
    now: Timestamp,
    ids: (Option<Seq<char>>, Option<Seq<char>>),
)
    requires
        was_read(context, source, now, ids),
    ensures
        !now.in_leap_second(),
        exists|current: (Option<Seq<char>>, Option<Seq<char>>)| #[trigger]
            trace::is_span_identity(current) && ids == resolved_ids(context, current),
{
    let reading = choose|reading: Reading| #[trigger]
        reading.possible() && now == reading.now && ids == reading.ids(context, source);
    let current = trace::texts_from(source, reading.entered, reading.context);
    assert(trace::is_span_identity(current));
}

fn effective_trace_context<R: RequestFields>(
    context: &LogContext<R>,
    source: TraceSource,
    reading: &Reading,
) -> (ids: (Option<String>, Option<String>))
    ensures
        trace::id_texts(ids) == reading.ids(*context, source),
{
    let current = trace::ids_from(source, reading.entered, reading.context);
    resolve_ids(context, current)
}

/// A log record: trace IDs, context fields and audience.
pub struct EdenLog<R: RequestFields = ()> {
    pub timestamp: Timestamp,
    pub level: LogLevel,
    pub audience: LogAudience,
    pub message: String,
    pub trace_id: Option<String>,
    pub span_id: Option<String>,
    pub feature: Option<String>,
    pub function: Option<String>,
    pub file: Option<String>,
    pub line: Option<u32>,
    pub request: R,
    pub error_code: Option<String>,
    pub error_category: Option<String>,
    pub additional: FieldMap,
}

impl<R: RequestFields> EdenLog<R> {
    /// What the display line of this record holds.
    pub open spec fn shown(&self) -> Line {
        Line {
            time: self.timestamp.rfc3339(),
            level: self.level,
            audience: self.audience,
            trace_id: context::text_of(self.trace_id),
            span_id: context::text_of(self.span_id),
            feature: context::text_of(self.feature),
            function: context::text_of(self.function),
            request: self.request.display_fields(),
            error_code: context::text_of(self.error_code),
            error_category: context::text_of(self.error_category),
            additional: self.additional.pairs(),
            message: self.message@,
            file: context::text_of(self.file),
            line: self.line,
        }
    }

    /// Whether this record is made of a level, a message, a context and an audience, without a
    /// location.
    pub open spec fn is_made_of(
        &self,
        level: LogLevel,
        message: Seq<char>,
        context: LogContext<R>,
        audience: LogAudience,
    ) -> bool {
        &&& self.level == level
        &&& self.audience == audience
        &&& self.message@ == message
        &&& self.feature == context.feature
        &&& self.function == context.function
        &&& self.file is None
        &&& self.line is None
        &&& self.request == context.request
        &&& self.error_code == context.error_code
        &&& self.error_category == context.error_category
        &&& self.additional.pairs() == context.additional_pairs()
    }

    /// Makes a record of a context, at the current time and with the IDs of the current span where
    /// the context has none.
    pub fn new(
        level: LogLevel,
        message: &str,
        context: &LogContext<R>,
        audience: LogAudience,
        source: TraceSource,
    ) -> (log: Self)
        ensures
            log.is_made_of(level, message@, *context, audience),
            was_read(
                *context,
                source,
                log.timestamp,
                (context::text_of(log.trace_id), context::text_of(log.span_id)),
            ),
            is_as_read(
                *context,
                source,
                log.timestamp,
                (context::text_of(log.trace_id), context::text_of(log.span_id)),
            ),
    {
        let stamp = Stamp::take(context, source);
        Self::new_at(
            level,
            message,
            context,
            audience,
            stamp.now,
            (stamp.trace_id, stamp.span_id),
        )
    }

    /// Makes a record of a context, with a time and IDs that are given.
    pub fn new_at(
        level: LogLevel,
        message: &str,
        context: &LogContext<R>,
        audience: LogAudience,
        timestamp: Timestamp,
        ids: (Option<String>, Option<String>),
    ) -> (log: Self)
        ensures
            log.is_made_of(level, message@, *context, audience),
            log.timestamp == timestamp,
            log.trace_id == ids.0,
            log.span_id == ids.1,
    {
        EdenLog {
            timestamp,
            level,
            audience,
            message: message.to_owned(),
            trace_id: ids.0,
            span_id: ids.1,
            feature: context.feature.clone(),
            function: context.function.clone(),
            file: None,
            line: None,
            request: context.request.duplicate(),
            error_code: context.error_code.clone(),
            error_category: context.error_category.clone(),
            additional: match &context.additional {
                Some(map) => map.clone(),
                None => FieldMap::new(),
            },
        }
    }

    /// Sets the file and line of the log call.
    pub fn with_location(self, file: &str, line: u32) -> (log: Self)
        ensures
            log == (EdenLog { file: log.file, line: Some(line), ..self }),
            context::text_of(log.file) == Some(file@),
    {
        let mut log = self;
        log.file = Some(file.to_owned());
        log.line = Some(line);
        log
    }

    /// Sets an additional key to a value.
    pub fn with_additional(self, key: &str, value: &str) -> (log: Self)
        ensures
            log == (EdenLog { additional: log.additional, ..self }),
            log.additional.pairs() == fields::pairs_put(self.additional.pairs(), key@, value@),
    {
        let mut log = self;
        let mut additional = log.additional;
        additional.insert(key, value);
        log.additional = additional;
        log
    }

    /// Makes a record of the parts of a log call.
    pub fn from_direct(
        level: LogLevel,
        message: &str,
        context: &LogContext<R>,
        audience: LogAudience,
        additional: &[(&str, &str)],
        file: Option<&str>,
        line: Option<u32>,
        source: TraceSource,
    ) -> (log: Self)
        ensures
            log.is_made_of_call(level, message@, *context, audience, additional@, file, line),
            was_read(
                *context,
                source,
                log.timestamp,
                (context::text_of(log.trace_id), context::text_of(log.span_id)),
            ),
            is_as_read(
                *context,
                source,
                log.timestamp,
                (context::text_of(log.trace_id), context::text_of(log.span_id)),
            ),
    {
        let log = Self::new(level, message, context, audience, source);
        log.with_call(additional, file, line)
    }

    /// Whether this record is made of the parts of a log call.
    pub open spec fn is_made_of_call(
        &self,
        level: LogLevel,
        message: Seq<char>,
        context: LogContext<R>,
        audience: LogAudience,
        additional: Seq<(&str, &str)>,
        file: Option<&str>,
        line: Option<u32>,
    ) -> bool {
        &&& self.level == level
        &&& self.audience == audience
        &&& self.message@ == message
        &&& self.feature == context.feature
        &&& self.function == context.function
        &&& context::text_of(self.file) == line::str_text(file)
        &&& self.line == line
        &&& self.request == context.request
        &&& self.error_code == context.error_code
        &&& self.error_category == context.error_category
        &&& self.additional.pairs() == fields::pairs_put_all(
            context.additional_pairs(),
            line::str_pairs(additional),
        )
    }

    /// Sets the location and the additional pairs of a log call.
    pub fn with_call(
        self,
        additional: &[(&str, &str)],
        file: Option<&str>,
        line: Option<u32>,
    ) -> (log: Self)
        ensures
            log == (EdenLog { file: log.file, line, additional: log.additional, ..self }),
            context::text_of(log.file) == line::str_text(file),
            log.additional.pairs() == fields::pairs_put_all(
                self.additional.pairs(),
                line::str_pairs(additional@),
            ),
    {
        let mut log = self;
        log.file = match file {
            Some(file) => Some(file.to_owned()),
            None => None,
        };
        log.line = line;
        let ghost base = self.additional.pairs();
        let ghost more = line::str_pairs(additional@);
        let mut map = log.additional;
        let mut i: usize = 0;
        assert(more.take(0) =~= Seq::<(Seq<char>, Seq<char>)>::empty());
        while i < additional.len()
            invariant
                i <= additional@.len(),
                more == line::str_pairs(additional@),
                map.pairs() == fields::pairs_put_all(base, more.take(i as int)),
            decreases additional@.len() - i,
        {
            map.insert(additional[i].0, additional[i].1);
            i = i + 1;
            assert(more.take(i as int).drop_last() =~= more.take(i - 1));
        }
        assert(more.take(more.len() as int) =~= more);
        log.additional = map;
        log
    }

    /// The display line of this record.
    pub fn to_display(&self) -> (text: String)
        ensures
            text@ == line::display_line(self.shown()),
    {
        let mut s = String::new();
        self.write_display(&mut s);
        assert(s@ =~= line::display_line(self.shown()));
        s
    }

    /// Appends the display line of this record.
    pub fn write_display(&self, s: &mut String)
        ensures
            final(s)@ == old(s)@ + line::display_line(self.shown()),
    {
        let ghost start = s@;
        let mut time = String::new();
        timestamp::write_timestamp_rfc3339(&mut time, &self.timestamp);
        assert(time@ =~= self.timestamp.rfc3339());
        line::write_header(s, time.as_str(), self.level, self.audience);
        line::write_known_fields(
            s,
            &self.trace_id,
            &self.span_id,
            &self.feature,
            &self.function,
            &self.request,
            &self.error_code,
            Ghost(self.shown()),
        );
        line::write_map_pairs(s, &self.additional);
        let file = match &self.file {
            Some(file) => Some(file.as_str()),
            None => None,
        };
        line::write_message(s, self.message.as_str(), file, self.line);
        assert(s@ =~= start + line::display_line(self.shown()));
    }

    /// Whether the record is for API clients.
    pub fn should_send_to_client(&self) -> (send: bool)
        ensures
            send == (self.audience == LogAudience::Client || self.audience == LogAudience::Both),
    {
        match self.audience {
            LogAudience::Client | LogAudience::Both => true,
            LogAudience::Internal => false,
        }
    }
}

impl<R: RequestFields> Clone for EdenLog<R> {
    fn clone(&self) -> (copy: Self)
        ensures
            copy == (EdenLog { additional: copy.additional, ..*self }),
            copy.additional.pairs() == self.additional.pairs(),
    {
        EdenLog {
            timestamp: self.timestamp,
            level: self.level,
            audience: self.audience,
            message: self.message.clone(),
            trace_id: self.trace_id.clone(),
            span_id: self.span_id.clone(),
            feature: self.feature.clone(),
            function: self.function.clone(),
            file: self.file.clone(),
            line: self.line,
            request: self.request.duplicate(),
            error_code: self.error_code.clone(),
            error_category: self.error_category.clone(),
            additional: self.additional.clone(),
        }
    }
}

/// When a line was written, and the IDs that it holds.
pub struct Stamp {
    pub now: Timestamp,
    pub trace_id: Option<String>,
    pub span_id: Option<String>,
}

impl Stamp {
    /// Whether this is the stamp of a line whose context and whose source of IDs are given, whatever
    /// the clock shows and whatever span is current.
    pub open spec fn fits<R: RequestFields>(
        &self,
        context: LogContext<R>,
        source: TraceSource,
    ) -> bool {
        was_read(context, source, self.now, self.ids())
    }

    /// The texts of the IDs.
    pub open spec fn ids(&self) -> (Option<Seq<char>>, Option<Seq<char>>) {
        (context::text_of(self.trace_id), context::text_of(self.span_id))
    }

    /// The stamp of a line, given what was read.
    pub fn of<R: RequestFields>(
        context: &LogContext<R>,
        source: TraceSource,
        reading: &Reading,
    ) -> (stamp: Self)
        ensures
            stamp.now == reading.now,
            stamp.ids() == reading.ids(*context, source),
            reading.possible() ==> stamp.fits(*context, source),
            call_ensures(Reading::take, (), *reading) ==> is_as_read(
                *context,
                source,
                stamp.now,
                stamp.ids(),
            ),
    {
        let (trace_id, span_id) = effective_trace_context(context, source, reading);
        Stamp { now: reading.now, trace_id, span_id }
    }

    fn take<R: RequestFields>(context: &LogContext<R>, source: TraceSource) -> (stamp: Self)
        ensures
            stamp.fits(*context, source),
            is_as_read(*context, source, stamp.now, stamp.ids()),
    {
        let reading = Reading::take();
        Stamp::of(context, source, &reading)
    }
}

/// What the line of a log call holds. The request fields differ between the forms of a line.
pub open spec fn call_line<R: RequestFields>(
    time: Seq<char>,
    ids: (Option<Seq<char>>, Option<Seq<char>>),
    level: LogLevel,
    message: Seq<char>,
    context: LogContext<R>,
    audience: LogAudience,
    request: Seq<fields::Field>,
    additional: Seq<(&str, &str)>,
    file: Option<&str>,
    line: Option<u32>,
) -> Line {
    Line {
        time,
        level,
        audience,
        trace_id: ids.0,
        span_id: ids.1,
        feature: context::text_of(context.feature),
        function: context::text_of(context.function),
        request,
        error_code: context::text_of(context.error_code),
        error_category: context::text_of(context.error_category),
        additional: context.additional_pairs() + line::str_pairs(additional),
        message,
        file: line::str_text(file),
        line,
    }
}

/// Appends the display line of a log call, at the current time and with the IDs of the current
/// span where the context has none. Gives the time and the IDs that were read.
pub fn write_display_direct<R: RequestFields>(
    s: &mut String,
    level: LogLevel,
    message: &str,
    context: &LogContext<R>,
    audience: LogAudience,
    additional: &[(&str, &str)],
    file: Option<&str>,
    line: Option<u32>,
    cache: &mut TimestampCache,
    source: TraceSource,
) -> (stamp: Stamp)
    requires
        old(cache).wf(),
    ensures
        final(cache).wf(),
        stamp.fits(*context, source),
        is_as_read(*context, source, stamp.now, stamp.ids()),
        final(s)@ == old(s)@ + line::display_line(
            call_line(
                stamp.now.rfc3339(),
                stamp.ids(),
                level,
                message@,
                *context,
                audience,
                context.request.display_fields(),
                additional@,
                file,
                line,
            ),
        ),
{
    let stamp = Stamp::take(context, source);
    write_display_stamped(
        s,
        level,
        message,
        context,
        audience,
        additional,
        file,
        line,
        cache,
        &stamp,
    );
    stamp
}

/// Appends the display line of a log call, with a time and IDs that are given.
pub fn write_display_stamped<R: RequestFields>(
    s: &mut String,
    level: LogLevel,
    message: &str,
    context: &LogContext<R>,
    audience: LogAudience,
    additional: &[(&str, &str)],
    file: Option<&str>,
    line: Option<u32>,
    cache: &mut TimestampCache,
    stamp: &Stamp,
)
    requires
        old(cache).wf(),
        !stamp.now.in_leap_second(),
    ensures
        final(cache).wf(),
        final(s)@ == old(s)@ + line::display_line(
            call_line(
                stamp.now.rfc3339(),
                stamp.ids(),
                level,
                message@,
                *context,
                audience,
                context.request.display_fields(),
                additional@,
                file,
                line,
            ),
        ),
{
    let ghost start = s@;
    let ghost shown = call_line(
        stamp.now.rfc3339(),
        stamp.ids(),
        level,
        message@,
        *context,
        audience,
        context.request.display_fields(),
        additional@,
        file,
        line,
    );
    let mut time = String::new();
    cache.write(&mut time, &stamp.now);
    assert(time@ =~= stamp.now.rfc3339());
    line::write_header(s, time.as_str(), level, audience);
    line::write_known_fields(
        s,
        &stamp.trace_id,
        &stamp.span_id,
        &context.feature,
        &context.function,
        &context.request,
        &context.error_code,
        Ghost(shown),
    );
    let ghost before = s@;
    match &context.additional {
        Some(map) => {
            line::write_map_pairs(s, map);
        },
        None => {
            assert(s@ =~= before + line::pairs_text(context.additional_pairs()));
        },
    }
    line::write_pairs(s, additional);
    proof {
        line::lemma_pairs_text_concat(context.additional_pairs(), line::str_pairs(additional@));
    }
    line::write_message(s, message, file, line);
    proof {
        let header = line::header_text(shown.time, level, audience);
        let known = header + line::known_fields_text(shown);
        let own = context.additional_pairs();
        let more = line::str_pairs(additional@);
        line::lemma_grow(start, header, line::known_fields_text(shown));
        line::lemma_grow(start, known, line::pairs_text(own));
        line::lemma_grow(start, known + line::pairs_text(own), line::pairs_text(more));
        line::lemma_grow(known, line::pairs_text(own), line::pairs_text(more));
        let pairs = known + line::pairs_text(own + more);
        line::lemma_grow(start, pairs, seq![' ']);
        line::lemma_grow(start, pairs + seq![' '], message@);
        line::lemma_grow(
            start,
            pairs + seq![' '] + message@,
            line::location_text(shown.file, shown.line),
        );
    }
}

/// Appends the JSON line of a log call, at the current time and with the IDs of the current span
/// where the context has none. Gives the time and the IDs that were read.
pub fn write_json_direct<R: RequestFields>(
    s: &mut String,
    level: LogLevel,
    message: &str,
    context: &LogContext<R>,
    audience: LogAudience,
    additional: &[(&str, &str)],
    file: Option<&str>,
    line: Option<u32>,
    cache: &mut TimestampCache,
    source: TraceSource,
) -> (stamp: Stamp)
    requires
        old(cache).wf(),
    ensures
        final(cache).wf(),
        stamp.fits(*context, source),
        is_as_read(*context, source, stamp.now, stamp.ids()),
        final(s)@ == old(s)@ + line::json_line(
            call_line(
                stamp.now.rfc3339(),
                stamp.ids(),
                level,
                message@,
                *context,
                audience,
                context.request.json_fields(),
                additional@,
                file,
                line,
            ),
        ),
{
    let stamp = Stamp::take(context, source);
    write_json_stamped(
        s,
        level,
        message,
        context,
        audience,
        additional,
        file,
        line,
        cache,
        &stamp,
    );
    stamp
}

/// Appends the JSON line of a log call, with a time and IDs that are given.
pub fn write_json_stamped<R: RequestFields>(
    s: &mut String,
    level: LogLevel,
    message: &str,
    context: &LogContext<R>,
    audience: LogAudience,
    additional: &[(&str, &str)],
    file: Option<&str>,
    line: Option<u32>,
    cache: &mut TimestampCache,
    stamp: &Stamp,
)
    requires
        old(cache).wf(),
        !stamp.now.in_leap_second(),
    ensures
        final(cache).wf(),
        final(s)@ == old(s)@ + line::json_line(
            call_line(
                stamp.now.rfc3339(),
                stamp.ids(),
                level,
                message@,
                *context,
                audience,
                context.request.json_fields(),
                additional@,
                file,
                line,
            ),
        ),
{
    let ghost start = s@;
    let ghost held = call_line(
        stamp.now.rfc3339(),
        stamp.ids(),
        level,
        message@,
        *context,
        audience,
        context.request.json_fields(),
        additional@,
        file,
        line,
    );
    let mut time = String::new();
    cache.write(&mut time, &stamp.now);
    assert(time@ =~= stamp.now.rfc3339());
    proof {
        timestamp::lemma_rfc3339_is_plain(
            stamp.now.secs(),
            stamp.now.subsec_nanos() / 1_000_000,
        );
    }
    line::write_json_start(s, time.as_str());
    line::write_known_members(
        s,
        level,
        audience,
        &stamp.trace_id,
        &stamp.span_id,
        &context.feature,
        &context.function,
        &context.request,
        &context.error_code,
        &context.error_category,
        Ghost(held),
    );
    let ghost before = s@;
    match &context.additional {
        Some(map) => {
            line::write_map_members(s, map);
        },
        None => {
            assert(line::pair_members(context.additional_pairs())
                =~= Seq::<crate::json::JsonMember>::empty());
            assert(s@ =~= before + crate::json::more_members_text(
                line::pair_members(context.additional_pairs()),
            ));
        },
    }
    line::write_pair_members(s, additional);
    line::write_message_members(s, message, file, line);
    let ghost members = s@;
    s.push('}');
    proof {
        let own = context.additional_pairs();
        let more = line::str_pairs(additional@);
        line::lemma_pair_members_concat(own, more);
        line::lemma_json_line_pieces(held);
        assert(s@ =~= members + seq!['}']);
        line::lemma_regroup_pieces(
            start,
            seq!['{'],
            crate::json::member_text(("ts"@, crate::json::JsonValue::Text(held.time))),
            crate::json::more_members_text(line::known_members(held)),
            crate::json::more_members_text(line::pair_members(own)),
            crate::json::more_members_text(line::pair_members(more)),
            crate::json::more_members_text(
                line::location_members(held.file, held.line) + seq![
                    ("msg"@, crate::json::JsonValue::Text(held.message)),
                ],
            ),
            seq!['}'],
        );
    }
}

/// A record of a log call shows the line that is written of the call directly, at the same time and
/// with the same IDs, where no additional key occurs twice.
pub proof fn law_record_shows_the_line_of_its_call<R: RequestFields>(
    log: EdenLog<R>,
    stamp: Stamp,
    level: LogLevel,
    message: Seq<char>,
    context: LogContext<R>,
    audience: LogAudience,
    additional: Seq<(&str, &str)>,
    file: Option<&str>,
    line: Option<u32>,
)
    requires
        log.is_made_of_call(level, message, context, audience, additional, file, line),
        log.timestamp == stamp.now,
        log.trace_id == stamp.trace_id,
        log.span_id == stamp.span_id,
        fields::distinct_keys(context.additional_pairs() + line::str_pairs(additional)),
    ensures
        log.shown() == call_line(
            stamp.now.rfc3339(),
            stamp.ids(),
            level,
            message,
            context,
            audience,
            context.request.display_fields(),
            additional,
            file,
            line,
        ),
{
    fields::lemma_put_all_appends(context.additional_pairs(), line::str_pairs(additional));
}

/// The name of a level in its color is the name of that level between a code and the code that
/// resets it. The codes are those of magenta, cyan, green, yellow and red, from the least severe
/// level to the most severe one.
pub proof fn law_a_level_has_its_color(level: LogLevel)
    ensures
        level.colored_name() == seq!['\x1b', '[', '3', match level {
            LogLevel::Trace => '5',
            LogLevel::Debug => '6',
            LogLevel::Info => '2',
            LogLevel::Warn => '3',
            LogLevel::Error => '1',
        }, 'm'] + level.name() + seq!['\x1b', '[', '0', 'm'],
{
    reveal_strlit("TRACE");
    reveal_strlit("DEBUG");
    reveal_strlit("INFO");
    reveal_strlit("WARN");
    reveal_strlit("ERROR");
    reveal_strlit("\x1b[35mTRACE\x1b[0m");
    reveal_strlit("\x1b[36mDEBUG\x1b[0m");
    reveal_strlit("\x1b[32mINFO\x1b[0m");
    reveal_strlit("\x1b[33mWARN\x1b[0m");
    reveal_strlit("\x1b[31mERROR\x1b[0m");
}

/// A record has the IDs of its context where the context has them. Where it has none, the record has
/// those of the current span of the source, in hexadecimal, and none where there is no current span;
/// the other source has no part in it.
pub proof fn law_a_record_has_the_ids_of_its_context_or_of_the_span<R: RequestFields>(
    reading: Reading,
    context: LogContext<R>,
    source: TraceSource,
)
    ensures
        ({
            let ids = reading.ids(context, source);
            &&& context.trace_id matches Some(id) ==> ids.0 == Some(id@)
            &&& context.span_id matches Some(id) ==> ids.1 == Some(id@)
            &&& source == TraceSource::FastTelemetry && reading.entered.0 is Some
                && reading.entered.1 is Some ==> {
                &&& context.trace_id is None ==> ids.0 == Some(
                    trace::hex_text(reading.entered.0->0@),
                )
                &&& context.span_id is None ==> ids.1 == Some(
                    trace::hex_text(reading.entered.1->0@),
                )
            }
            &&& source == TraceSource::Otel && reading.context.0 ==> {
                &&& context.trace_id is None ==> ids.0 == Some(trace::hex_text(reading.context.1@))
                &&& context.span_id is None ==> ids.1 == Some(trace::hex_text(reading.context.2@))
            }
            &&& (source == TraceSource::FastTelemetry && (reading.entered.0 is None
                || reading.entered.1 is None)) || (source == TraceSource::Otel
                && !reading.context.0) ==> {
                &&& context.trace_id is None ==> ids.0 is None
                &&& context.span_id is None ==> ids.1 is None
            }
        }),
{
}

/// The record of a call shows each part of the call in the field of that part, and every additional
/// pair of the context and of the call; of those with one key, the last one stays.
pub proof fn law_a_record_shows_each_part_of_its_call<R: RequestFields>(
    log: EdenLog<R>,
    level: LogLevel,
    message: Seq<char>,
    context: LogContext<R>,
    audience: LogAudience,
    additional: Seq<(&str, &str)>,
    file: Option<&str>,
    line: Option<u32>,
)
    requires
        log.is_made_of_call(level, message, context, audience, additional, file, line),
        fields::distinct_keys(context.additional_pairs()),
        fields::distinct_keys(line::str_pairs(additional)),
    ensures
        ({
            let shown = log.shown();
            &&& shown.time == log.timestamp.rfc3339()
            &&& shown.level == level
            &&& shown.audience == audience
            &&& shown.message == message
            &&& shown.trace_id == context::text_of(log.trace_id)
            &&& shown.span_id == context::text_of(log.span_id)
            &&& shown.feature == context::text_of(context.feature)
            &&& shown.function == context::text_of(context.function)
            &&& shown.error_code == context::text_of(context.error_code)
            &&& shown.error_category == context::text_of(context.error_category)
            &&& shown.request == context.request.display_fields()
            &&& shown.file == line::str_text(file)
            &&& shown.line == line
            &&& fields::pairs_map(shown.additional) == fields::pairs_map(
                context.additional_pairs(),
            ).union_prefer_right(fields::pairs_map(line::str_pairs(additional)))
        }),
{
    fields::law_put_all_overrides(context.additional_pairs(), line::str_pairs(additional));
}

/// The line of a call has each part of the call in the field of that part, and the additional pairs
/// of the context before those of the call.
pub proof fn law_a_line_has_each_part_of_its_call<R: RequestFields>(
    time: Seq<char>,
    ids: (Option<Seq<char>>, Option<Seq<char>>),
    level: LogLevel,
    message: Seq<char>,
    context: LogContext<R>,
    audience: LogAudience,
    request: Seq<fields::Field>,
    additional: Seq<(&str, &str)>,
    file: Option<&str>,
    line: Option<u32>,
)
    ensures
        ({
            let shown = call_line(
                time,
                ids,
                level,
                message,
                context,
                audience,
                request,
                additional,
                file,
                line,
            );
            let own = context.additional_pairs().len() as int;
            &&& shown.time == time
            &&& shown.level == level
            &&& shown.audience == audience
            &&& shown.message == message
            &&& shown.trace_id == ids.0
            &&& shown.span_id == ids.1
            &&& shown.feature == context::text_of(context.feature)
            &&& shown.function == context::text_of(context.function)
            &&& shown.error_code == context::text_of(context.error_code)
            &&& shown.error_category == context::text_of(context.error_category)
            &&& shown.request == request
            &&& shown.file == line::str_text(file)
            &&& shown.line == line
            &&& shown.additional.len() == own + additional.len()
            &&& shown.additional.take(own) == context.additional_pairs()
            &&& forall|i: int|
                0 <= i < additional.len() ==> #[trigger] shown.additional[own + i] == (
                    additional[i].0@,
                    additional[i].1@,
                )
        }),
{
    let own = context.additional_pairs();
    assert((own + line::str_pairs(additional)).take(own.len() as int) =~= own);
}

}
