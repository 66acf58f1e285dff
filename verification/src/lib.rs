//! Structured logging: contexts, records, display and JSON lines, runtime level filtering, sinks and
//! an exporter of OTLP records.
//!
//! The crate decides and formats; it holds no global state and does no I/O. What a logger knows is in
//! [`Logger`], and what is to be written or delivered is handed back to the caller as an
//! [`Emission`].

pub mod context;
pub mod export;
pub mod fields;
pub mod expansion;
pub mod filter;
pub mod json;
pub mod line;
pub mod logger;
pub mod macros;
pub mod metrics;
pub mod schema;
pub mod sink;
pub mod text;
pub mod time;
pub mod timestamp;
pub mod trace;
pub mod writer;

pub use context::{LogAudience, LogContext};
pub use fields::{FieldMap, FieldWriter, RequestFields};
pub use filter::{
    clear_filter, disable_levels, enable_levels, init_from_env, init_from_value, should_log,
    LevelFilter,
};
pub use logger::{emit_direct, Emission, Logger};
pub use metrics::{
    log_metrics_snapshot, visit_log_metrics, LogAudienceMetrics, LogLevelMetrics,
    LogMetricsSnapshot,
};
pub use schema::{write_display_direct, write_json_direct, EdenLog, LogLevel};
pub use sink::install_sink;
pub use timestamp::{Timestamp, TimestampCache};
pub use trace::{extract_trace_context, trace_context, TraceContextExt, TraceSource};
pub use writer::{
    init, set_trace_source, trace_source, LogFormat, LogTarget, WriterConfig, WriterState,
};
