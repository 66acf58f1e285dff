//! Bounded, best-effort export of log records over OTLP/HTTP.
//!
//! The sink filters a record, admits it to a bounded queue of its thread and wakes the worker. The
//! worker drains the queues, maps records, fills batches and exports them, with retries. What waits,
//! sends or sleeps is outside of this module: it decides what is to be done next, and is told what
//! came of it.

pub mod batch;
pub mod collector;
pub mod config;
pub mod exporter;
pub mod mapper;
pub mod metrics;
pub mod record;
pub mod shared;
pub mod size;
pub mod worker;

pub use batch::{ExportRun, OtlpExportOutcome, Reply, Verdict};
pub use collector::{LocalProducers, LogCollector};
pub use config::{
    AudienceFilter, ExporterConfig, InstallError, OtlpHttpConfig, OtlpHttpError,
    OtlpHttpErrorKind, OtlpTlsConfig,
};
pub use exporter::{install, install_on, ExporterHandle, WorkerEnd};
pub use mapper::EdenLogOtlpMapper;
pub use metrics::{visit_exporter_metrics, ExporterMetricsSnapshot, ExporterStatus};
pub use record::{AttributeValue, KeyValue, LogRecord, Value};
pub use shared::Shared;
pub use worker::{Action, Event, ShutdownReport, Worker};
