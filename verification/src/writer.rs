//! Where log lines go, and in which form.

use vstd::prelude::*;

use crate::trace::TraceSource;

verus! {

/// Where log lines go.
#[derive(Debug, Clone, Copy, PartialEq, Eq, Structural)]
pub enum LogTarget {
    /// Standard error.
    Stderr,
    /// Standard output.
    Stdout,
    /// Nowhere: lines are formatted and discarded.
    Sink,
    /// The structured sink alone: no line is formatted.
    StructuredSink,
}

impl Default for LogTarget {
    fn default() -> (target: Self)
        ensures
            target == LogTarget::Stderr,
    {
        LogTarget::Stderr
    }
}

/// The form of log lines.
#[derive(Debug, Clone, Copy, PartialEq, Eq, Structural)]
pub enum LogFormat {
    Display,
    Json,
}

impl Default for LogFormat {
    fn default() -> (format: Self)
        ensures
            format == LogFormat::Display,
    {
        LogFormat::Display
    }
}

/// How log lines are written.
#[derive(Debug, Clone, Copy, PartialEq, Eq, Structural)]
pub struct WriterConfig {
    /// Where lines go.
    pub target: LogTarget,
    /// The form of lines.
    pub format: LogFormat,
    /// Where trace and span IDs are read from.
    pub trace_source: TraceSource,
}

impl Default for WriterConfig {
    fn default() -> (config: Self)
        ensures
            config.target == LogTarget::Stderr,
            config.format == LogFormat::Display,
            config.trace_source == TraceSource::FastTelemetry,
    {
        WriterConfig {
            target: LogTarget::Stderr,
            format: LogFormat::Display,
            trace_source: TraceSource::FastTelemetry,
        }
    }
}

/// The configuration that is in force.
#[derive(Debug, Clone, Copy, PartialEq, Eq, Structural)]
pub struct WriterState {
    pub config: WriterConfig,
}

impl WriterState {
    /// The default configuration is in force until another one is set.
    pub fn new() -> (state: WriterState)
        ensures
            state.config.target == LogTarget::Stderr,
            state.config.format == LogFormat::Display,
            state.config.trace_source == TraceSource::FastTelemetry,
    {
        WriterState { config: WriterConfig::default() }
    }
}

/// Puts a configuration in force.
pub fn init(state: &mut WriterState, config: WriterConfig)
    ensures
        final(state).config == config,
{
    state.config = config;
}

/// The form of lines.
pub fn format(state: &WriterState) -> (format: LogFormat)
    ensures
        format == state.config.format,
{
    state.config.format
}

/// Where lines go.
pub fn target(state: &WriterState) -> (target: LogTarget)
    ensures
        target == state.config.target,
{
    state.config.target
}

/// Sets where trace and span IDs are read from.
pub fn set_trace_source(state: &mut WriterState, source: TraceSource)
    ensures
        final(state).config == (WriterConfig { trace_source: source, ..old(state).config }),
{
    state.config.trace_source = source;
}

/// Where trace and span IDs are read from.
pub fn trace_source(state: &WriterState) -> (source: TraceSource)
    ensures
        source == state.config.trace_source,
{
    state.config.trace_source
}

/// A text that is to be written to a target in one piece.
pub struct Output {
    pub target: LogTarget,
    pub text: String,
}

/// The output of a line: the line and a newline.
pub fn log(state: &WriterState, line: &str) -> (output: Output)
    ensures
        output.target == state.config.target,
        output.text@ == line@.push('\n'),
{
    let mut text = line.to_owned();
    text.push('\n');
    Output { target: state.config.target, text }
}

/// The output of text that ends in a newline already.
pub fn log_bytes(state: &WriterState, text: String) -> (output: Output)
    ensures
        output.target == state.config.target,
        output.text == text,
{
    Output { target: state.config.target, text }
}

}
