//! The state of an exporter: its lifecycle, its counters and its gauges.

use vstd::prelude::*;

use crate::metrics;
use crate::metrics::{MetricKind, MetricPoint, MetricView};

verus! {

/// Where an exporter stands in its life.
#[derive(Debug, Clone, Copy, PartialEq, Eq, Structural)]
pub enum ExporterStatus {
    /// Accepting and exporting records.
    Running,
    /// Waiting before a retry.
    BackingOff,
    /// Stopped on a permanent failure.
    TerminalFailure,
    /// No longer accepting records, and draining those that were accepted.
    ShuttingDown,
    /// The worker has ended.
    Stopped,
}

impl Default for ExporterStatus {
    fn default() -> (status: Self)
        ensures
            status == ExporterStatus::Running,
    {
        ExporterStatus::Running
    }
}

impl ExporterStatus {
    /// The name of the state.
    pub open spec fn name(self) -> Seq<char> {
        match self {
            ExporterStatus::Running => "running"@,
            ExporterStatus::BackingOff => "backing_off"@,
            ExporterStatus::TerminalFailure => "terminal_failure"@,
            ExporterStatus::ShuttingDown => "shutting_down"@,
            ExporterStatus::Stopped => "stopped"@,
        }
    }

    /// The number of the state.
    pub open spec fn number(self) -> u8 {
        match self {
            ExporterStatus::Running => 0,
            ExporterStatus::BackingOff => 1,
            ExporterStatus::TerminalFailure => 2,
            ExporterStatus::ShuttingDown => 3,
            ExporterStatus::Stopped => 4,
        }
    }

    /// The name of the state.
    pub fn as_str(self) -> (name: &'static str)
        ensures
            name@ == self.name(),
    {
        match self {
            ExporterStatus::Running => "running",
            ExporterStatus::BackingOff => "backing_off",
            ExporterStatus::TerminalFailure => "terminal_failure",
            ExporterStatus::ShuttingDown => "shutting_down",
            ExporterStatus::Stopped => "stopped",
        }
    }

    /// The number of the state.
    pub fn as_u8(self) -> (number: u8)
        ensures
            number == self.number(),
    {
        match self {
            ExporterStatus::Running => 0,
            ExporterStatus::BackingOff => 1,
            ExporterStatus::TerminalFailure => 2,
            ExporterStatus::ShuttingDown => 3,
            ExporterStatus::Stopped => 4,
        }
    }

    /// The state of a number; numbers beyond the last state stand for `Running`.
    pub fn from_u8(value: u8) -> (status: ExporterStatus)
        ensures
            value <= 4 ==> status.number() == value,
            value > 4 ==> status == ExporterStatus::Running,
    {
        match value {
            1 => ExporterStatus::BackingOff,
            2 => ExporterStatus::TerminalFailure,
            3 => ExporterStatus::ShuttingDown,
            4 => ExporterStatus::Stopped,
            _ => ExporterStatus::Running,
        }
    }
}

/// The counters and gauges that an exporter keeps.
#[derive(Debug, Clone, Copy, PartialEq, Eq, Structural)]
pub struct ExporterMetrics {
    pub filtered: u64,
    pub dropped_queue_full: u64,
    pub dropped_queue_bytes_full: u64,
    pub dropped_stopped: u64,
    pub dropped_oversize: u64,
    pub dropped_shutdown: u64,
    pub exported: u64,
    pub rejected: u64,
    pub export_attempts: u64,
    pub retries: u64,
    pub partial_rejections: u64,
    pub batches: u64,
    pub normal_queue_depth: u64,
    pub reserved_queue_depth: u64,
    pub normal_queue_bytes: u64,
    pub reserved_queue_bytes: u64,
    pub inflight: u64,
    pub producer_lanes: u64,
    pub status: ExporterStatus,
}

/// Counters and gauges at zero, in the state `Running`.
pub open spec fn initial_metrics() -> ExporterMetrics {
    ExporterMetrics {
        filtered: 0,
        dropped_queue_full: 0,
        dropped_queue_bytes_full: 0,
        dropped_stopped: 0,
        dropped_oversize: 0,
        dropped_shutdown: 0,
        exported: 0,
        rejected: 0,
        export_attempts: 0,
        retries: 0,
        partial_rejections: 0,
        batches: 0,
        normal_queue_depth: 0,
        reserved_queue_depth: 0,
        normal_queue_bytes: 0,
        reserved_queue_bytes: 0,
        inflight: 0,
        producer_lanes: 0,
        status: ExporterStatus::Running,
    }
}

impl Default for ExporterMetrics {
    fn default() -> (metrics: Self)
        ensures
            metrics == initial_metrics(),
    {
        ExporterMetrics {
            filtered: 0,
            dropped_queue_full: 0,
            dropped_queue_bytes_full: 0,
            dropped_stopped: 0,
            dropped_oversize: 0,
            dropped_shutdown: 0,
            exported: 0,
            rejected: 0,
            export_attempts: 0,
            retries: 0,
            partial_rejections: 0,
            batches: 0,
            normal_queue_depth: 0,
            reserved_queue_depth: 0,
            normal_queue_bytes: 0,
            reserved_queue_bytes: 0,
            inflight: 0,
            producer_lanes: 0,
            status: ExporterStatus::Running,
        }
    }
}

impl ExporterMetrics {
    /// The counters and gauges as they are, with the number of accepted records.
    pub open spec fn snapshot_with(self, accepted: u64) -> ExporterMetricsSnapshot {
        ExporterMetricsSnapshot {
            accepted,
            filtered: self.filtered,
            dropped_queue_full: self.dropped_queue_full,
            dropped_queue_bytes_full: self.dropped_queue_bytes_full,
            dropped_stopped: self.dropped_stopped,
            dropped_oversize: self.dropped_oversize,
            dropped_shutdown: self.dropped_shutdown,
            exported: self.exported,
            rejected: self.rejected,
            export_attempts: self.export_attempts,
            retries: self.retries,
            partial_rejections: self.partial_rejections,
            batches: self.batches,
            normal_queue_depth: self.normal_queue_depth,
            reserved_queue_depth: self.reserved_queue_depth,
            normal_queue_bytes: self.normal_queue_bytes,
            reserved_queue_bytes: self.reserved_queue_bytes,
            inflight: self.inflight,
            producer_lanes: self.producer_lanes,
            status: self.status,
        }
    }

    /// The counters and gauges as they are, with the number of accepted records.
    pub fn snapshot(&self, accepted: u64) -> (snapshot: ExporterMetricsSnapshot)
        ensures
            snapshot == self.snapshot_with(accepted),
    {
        ExporterMetricsSnapshot {
            accepted,
            filtered: self.filtered,
            dropped_queue_full: self.dropped_queue_full,
            dropped_queue_bytes_full: self.dropped_queue_bytes_full,
            dropped_stopped: self.dropped_stopped,
            dropped_oversize: self.dropped_oversize,
            dropped_shutdown: self.dropped_shutdown,
            exported: self.exported,
            rejected: self.rejected,
            export_attempts: self.export_attempts,
            retries: self.retries,
            partial_rejections: self.partial_rejections,
            batches: self.batches,
            normal_queue_depth: self.normal_queue_depth,
            reserved_queue_depth: self.reserved_queue_depth,
            normal_queue_bytes: self.normal_queue_bytes,
            reserved_queue_bytes: self.reserved_queue_bytes,
            inflight: self.inflight,
            producer_lanes: self.producer_lanes,
            status: self.status,
        }
    }
}

/// Cumulative counters and current gauges of an exporter.
#[derive(Debug, Clone, Copy, PartialEq, Eq, Structural)]
pub struct ExporterMetricsSnapshot {
    /// Records accepted into the queues.
    pub accepted: u64,
    /// Records excluded by level or audience.
    pub filtered: u64,
    /// Records dropped because the queues were full.
    pub dropped_queue_full: u64,
    /// Records dropped because the byte budgets of the queues were used up.
    pub dropped_queue_bytes_full: u64,
    /// Records submitted after acceptance stopped.
    pub dropped_stopped: u64,
    /// Records larger than a batch may be.
    pub dropped_oversize: u64,
    /// Records abandoned when shutdown ended.
    pub dropped_shutdown: u64,
    /// Records acknowledged by the collector.
    pub exported: u64,
    /// Records rejected one by one.
    pub rejected: u64,
    /// Requests attempted.
    pub export_attempts: u64,
    /// Requests retried.
    pub retries: u64,
    /// Responses with a partial success.
    pub partial_rejections: u64,
    /// Batches acknowledged, partial success counted.
    pub batches: u64,
    /// Records in the normal queue.
    pub normal_queue_depth: u64,
    /// Records in the reserved queue.
    pub reserved_queue_depth: u64,
    /// Estimated bytes in the normal queue.
    pub normal_queue_bytes: u64,
    /// Estimated bytes in the reserved queue.
    pub reserved_queue_bytes: u64,
    /// Records of the batch that is being exported.
    pub inflight: u64,
    /// Lanes of producing threads.
    pub producer_lanes: u64,
    /// The state of the exporter.
    pub status: ExporterStatus,
}

impl Default for ExporterMetricsSnapshot {
    fn default() -> (snapshot: Self)
        ensures
            snapshot == initial_metrics().snapshot_with(0),
    {
        ExporterMetrics::default().snapshot(0)
    }
}

/// A sum that stays at the largest value where it would go beyond.
pub open spec fn saturating_sum(a: int, b: int) -> int {
    if a + b <= u64::MAX {
        a + b
    } else {
        u64::MAX as int
    }
}

impl ExporterMetricsSnapshot {
    /// The number of records dropped, for whatever reason.
    pub fn dropped_total(&self) -> (total: u64)
        ensures
            total == saturating_sum(
                self.dropped_queue_full + self.dropped_queue_bytes_full + self.dropped_stopped
                    + self.dropped_oversize,
                self.dropped_shutdown as int,
            ),
    {
        self.dropped_queue_full.saturating_add(self.dropped_queue_bytes_full).saturating_add(
            self.dropped_stopped,
        ).saturating_add(self.dropped_oversize).saturating_add(self.dropped_shutdown)
    }
}

/// What a metric point without a label holds.
pub open spec fn plain_view(
    name: Seq<char>,
    help: Seq<char>,
    unit: Seq<char>,
    kind: MetricKind,
    value: u64,
) -> MetricView {
    MetricView {
        name,
        help,
        unit: Some(unit),
        kind,
        label: None,
        value: metrics::metric_value(value),
    }
}

/// What a metric point with a label holds.
pub open spec fn labelled_view(
    name: Seq<char>,
    help: Seq<char>,
    unit: Option<Seq<char>>,
    kind: MetricKind,
    label: Seq<char>,
    of: Seq<char>,
    value: u64,
) -> MetricView {
    MetricView {
        name,
        help,
        unit,
        kind,
        label: Some((label, of)),
        value: metrics::metric_value(value),
    }
}

pub open spec fn dropped_view(reason: Seq<char>, value: u64) -> MetricView {
    labelled_view(
        "eden_logger_export.logs_dropped_total"@,
        "Log records dropped by the bounded direct exporter."@,
        Some("logs"@),
        MetricKind::Counter,
        "reason"@,
        reason,
        value,
    )
}

pub open spec fn depth_view(queue: Seq<char>, value: u64) -> MetricView {
    labelled_view(
        "eden_logger_export.queue_depth"@,
        "Current records held in an exporter queue."@,
        Some("logs"@),
        MetricKind::Gauge,
        "queue"@,
        queue,
        value,
    )
}

pub open spec fn bytes_view(queue: Seq<char>, value: u64) -> MetricView {
    labelled_view(
        "eden_logger_export.queue_bytes"@,
        "Estimated retained bytes held in an exporter queue."@,
        Some("By"@),
        MetricKind::Gauge,
        "queue"@,
        queue,
        value,
    )
}

/// The counters of a snapshot that have no label.
pub open spec fn counter_views(s: ExporterMetricsSnapshot) -> Seq<MetricView> {
    seq![
        plain_view(
            "eden_logger_export.logs_accepted_total"@,
            "Log records accepted into the in-memory exporter queues."@,
            "logs"@,
            MetricKind::Counter,
            s.accepted,
        ),
        plain_view(
            "eden_logger_export.logs_filtered_total"@,
            "Log records excluded by exporter severity or audience filters."@,
            "logs"@,
            MetricKind::Counter,
            s.filtered,
        ),
        plain_view(
            "eden_logger_export.logs_exported_total"@,
            "Log records acknowledged by the OTLP collector."@,
            "logs"@,
            MetricKind::Counter,
            s.exported,
        ),
        plain_view(
            "eden_logger_export.logs_rejected_total"@,
            "Log records rejected by the collector or invalid-payload isolation."@,
            "logs"@,
            MetricKind::Counter,
            s.rejected,
        ),
        plain_view(
            "eden_logger_export.export_attempts_total"@,
            "OTLP export requests attempted."@,
            "requests"@,
            MetricKind::Counter,
            s.export_attempts,
        ),
        plain_view(
            "eden_logger_export.export_retries_total"@,
            "OTLP export requests retried after transient failures."@,
            "requests"@,
            MetricKind::Counter,
            s.retries,
        ),
        plain_view(
            "eden_logger_export.partial_rejections_total"@,
            "OTLP batches that received a partial-success response."@,
            "batches"@,
            MetricKind::Counter,
            s.partial_rejections,
        ),
        plain_view(
            "eden_logger_export.batches_exported_total"@,
            "OTLP log batches acknowledged, including partial success."@,
            "batches"@,
            MetricKind::Counter,
            s.batches,
        ),
    ]
}

/// The drops of a snapshot, by reason, and its gauges.
pub open spec fn gauge_views(s: ExporterMetricsSnapshot) -> Seq<MetricView> {
    seq![
        dropped_view("queue_full"@, s.dropped_queue_full),
        dropped_view("queue_bytes_full"@, s.dropped_queue_bytes_full),
        dropped_view("stopped"@, s.dropped_stopped),
        dropped_view("oversize"@, s.dropped_oversize),
        dropped_view("shutdown"@, s.dropped_shutdown),
        depth_view("normal"@, s.normal_queue_depth),
        depth_view("reserved"@, s.reserved_queue_depth),
        bytes_view("normal"@, s.normal_queue_bytes),
        bytes_view("reserved"@, s.reserved_queue_bytes),
        plain_view(
            "eden_logger_export.inflight_records"@,
            "Current records in the batch being exported."@,
            "logs"@,
            MetricKind::Gauge,
            s.inflight,
        ),
        plain_view(
            "eden_logger_export.producer_lanes"@,
            "Current thread-local producer lanes registered with the exporter."@,
            "lanes"@,
            MetricKind::Gauge,
            s.producer_lanes,
        ),
        labelled_view(
            "eden_logger_export.exporter_state"@,
            "Current OTLP log exporter lifecycle state."@,
            None,
            MetricKind::Gauge,
            "state"@,
            s.status.name(),
            1,
        ),
    ]
}

fn point(
    name: &'static str,
    help: &'static str,
    unit: &'static str,
    kind: MetricKind,
    value: u64,
) -> (p: MetricPoint)
    ensures
        p@ == plain_view(name@, help@, unit@, kind, value),
{
    MetricPoint {
        name,
        help,
        unit: Some(unit),
        kind,
        label: None,
        value: metrics::counter_i64(value),
    }
}

fn dropped(reason: &'static str, value: u64) -> (p: MetricPoint)
    ensures
        p@ == dropped_view(reason@, value),
{
    MetricPoint {
        name: "eden_logger_export.logs_dropped_total",
        help: "Log records dropped by the bounded direct exporter.",
        unit: Some("logs"),
        kind: MetricKind::Counter,
        label: Some(("reason", reason)),
        value: metrics::counter_i64(value),
    }
}

fn depth(queue: &'static str, value: u64) -> (p: MetricPoint)
    ensures
        p@ == depth_view(queue@, value),
{
    MetricPoint {
        name: "eden_logger_export.queue_depth",
        help: "Current records held in an exporter queue.",
        unit: Some("logs"),
        kind: MetricKind::Gauge,
        label: Some(("queue", queue)),
        value: metrics::counter_i64(value),
    }
}

fn bytes(queue: &'static str, value: u64) -> (p: MetricPoint)
    ensures
        p@ == bytes_view(queue@, value),
{
    MetricPoint {
        name: "eden_logger_export.queue_bytes",
        help: "Estimated retained bytes held in an exporter queue.",
        unit: Some("By"),
        kind: MetricKind::Gauge,
        label: Some(("queue", queue)),
        value: metrics::counter_i64(value),
    }
}

/// The metrics of a snapshot, in the order in which a visitor sees them.
pub fn visit_exporter_metrics(snapshot: &ExporterMetricsSnapshot) -> (points: Vec<MetricPoint>)
    ensures
        metrics::views(points@) == counter_views(*snapshot) + gauge_views(*snapshot),
{
    let mut points: Vec<MetricPoint> = Vec::new();
    points.push(
        point(
            "eden_logger_export.logs_accepted_total",
            "Log records accepted into the in-memory exporter queues.",
            "logs",
            MetricKind::Counter,
            snapshot.accepted,
        ),
    );
    points.push(
        point(
            "eden_logger_export.logs_filtered_total",
            "Log records excluded by exporter severity or audience filters.",
            "logs",
            MetricKind::Counter,
            snapshot.filtered,
        ),
    );
    points.push(
        point(
            "eden_logger_export.logs_exported_total",
            "Log records acknowledged by the OTLP collector.",
            "logs",
            MetricKind::Counter,
            snapshot.exported,
        ),
    );
    points.push(
        point(
            "eden_logger_export.logs_rejected_total",
            "Log records rejected by the collector or invalid-payload isolation.",
            "logs",
            MetricKind::Counter,
            snapshot.rejected,
        ),
    );
    points.push(
        point(
            "eden_logger_export.export_attempts_total",
            "OTLP export requests attempted.",
            "requests",
            MetricKind::Counter,
            snapshot.export_attempts,
        ),
    );
    points.push(
        point(
            "eden_logger_export.export_retries_total",
            "OTLP export requests retried after transient failures.",
            "requests",
            MetricKind::Counter,
            snapshot.retries,
        ),
    );
    points.push(
        point(
            "eden_logger_export.partial_rejections_total",
            "OTLP batches that received a partial-success response.",
            "batches",
            MetricKind::Counter,
            snapshot.partial_rejections,
        ),
    );
    points.push(
        point(
            "eden_logger_export.batches_exported_total",
            "OTLP log batches acknowledged, including partial success.",
            "batches",
            MetricKind::Counter,
            snapshot.batches,
        ),
    );
    assert(metrics::views(points@) =~= counter_views(*snapshot));
    let ghost counters = points@;
    let mut gauges = gauge_points(snapshot);
    let ghost more = gauges@;
    points.append(&mut gauges);
    assert(points@ =~= counters + more);
    assert(metrics::views(points@) =~= counter_views(*snapshot) + gauge_views(*snapshot));
    points
}

fn gauge_points(snapshot: &ExporterMetricsSnapshot) -> (points: Vec<MetricPoint>)
    ensures
        metrics::views(points@) == gauge_views(*snapshot),
{
    let mut points: Vec<MetricPoint> = Vec::new();
    points.push(dropped("queue_full", snapshot.dropped_queue_full));
    points.push(dropped("queue_bytes_full", snapshot.dropped_queue_bytes_full));
    points.push(dropped("stopped", snapshot.dropped_stopped));
    points.push(dropped("oversize", snapshot.dropped_oversize));
    points.push(dropped("shutdown", snapshot.dropped_shutdown));
    points.push(depth("normal", snapshot.normal_queue_depth));
    points.push(depth("reserved", snapshot.reserved_queue_depth));
    points.push(bytes("normal", snapshot.normal_queue_bytes));
    points.push(bytes("reserved", snapshot.reserved_queue_bytes));
    points.push(
        point(
            "eden_logger_export.inflight_records",
            "Current records in the batch being exported.",
            "logs",
            MetricKind::Gauge,
            snapshot.inflight,
        ),
    );
    points.push(
        point(
            "eden_logger_export.producer_lanes",
            "Current thread-local producer lanes registered with the exporter.",
            "lanes",
            MetricKind::Gauge,
            snapshot.producer_lanes,
        ),
    );
    points.push(
        MetricPoint {
            name: "eden_logger_export.exporter_state",
            help: "Current OTLP log exporter lifecycle state.",
            unit: None,
            kind: MetricKind::Gauge,
            label: Some(("state", snapshot.status.as_str())),
            value: metrics::counter_i64(1),
        },
    );
    assert(metrics::views(points@) =~= gauge_views(*snapshot));
    points
}

/// Whether the metrics have a point of a kind under a name and a label that holds a count, or the
/// largest value where the count is beyond it.
pub open spec fn has_point(
    points: Seq<MetricView>,
    kind: MetricKind,
    name: Seq<char>,
    label: Option<(Seq<char>, Seq<char>)>,
    count: int,
) -> bool {
    exists|i: int|
        {
            &&& 0 <= i < points.len()
            &&& (#[trigger] points[i]).name == name
            &&& points[i].kind == kind
            &&& points[i].label == label
            &&& points[i].value == if count <= i64::MAX {
                count
            } else {
                i64::MAX as int
            }
        }
}

/// A snapshot has every counter and every gauge as it was, and its metrics show each of them under
/// its own name, the drops under their reasons and the queues under theirs.
pub proof fn law_metrics_show_every_counter(kept: ExporterMetrics, accepted: u64)
    ensures
        ({
            let s = kept.snapshot_with(accepted);
            let shown = counter_views(s) + gauge_views(s);
            &&& shown.len() == 20
            &&& has_point(
                shown,
                MetricKind::Counter,
                "eden_logger_export.logs_accepted_total"@,
                None,
                accepted as int,
            )
            &&& has_point(
                shown,
                MetricKind::Counter,
                "eden_logger_export.logs_filtered_total"@,
                None,
                kept.filtered as int,
            )
            &&& has_point(
                shown,
                MetricKind::Counter,
                "eden_logger_export.logs_exported_total"@,
                None,
                kept.exported as int,
            )
            &&& has_point(
                shown,
                MetricKind::Counter,
                "eden_logger_export.logs_rejected_total"@,
                None,
                kept.rejected as int,
            )
            &&& has_point(
                shown,
                MetricKind::Counter,
                "eden_logger_export.export_attempts_total"@,
                None,
                kept.export_attempts as int,
            )
            &&& has_point(
                shown,
                MetricKind::Counter,
                "eden_logger_export.export_retries_total"@,
                None,
                kept.retries as int,
            )
            &&& has_point(
                shown,
                MetricKind::Counter,
                "eden_logger_export.partial_rejections_total"@,
                None,
                kept.partial_rejections as int,
            )
            &&& has_point(
                shown,
                MetricKind::Counter,
                "eden_logger_export.batches_exported_total"@,
                None,
                kept.batches as int,
            )
            &&& has_point(
                shown,
                MetricKind::Gauge,
                "eden_logger_export.inflight_records"@,
                None,
                kept.inflight as int,
            )
            &&& has_point(
                shown,
                MetricKind::Gauge,
                "eden_logger_export.producer_lanes"@,
                None,
                kept.producer_lanes as int,
            )
            &&& has_point(
                shown,
                MetricKind::Counter,
                "eden_logger_export.logs_dropped_total"@,
                Some(("reason"@, "queue_full"@)),
                kept.dropped_queue_full as int,
            )
            &&& has_point(
                shown,
                MetricKind::Counter,
                "eden_logger_export.logs_dropped_total"@,
                Some(("reason"@, "queue_bytes_full"@)),
                kept.dropped_queue_bytes_full as int,
            )
            &&& has_point(
                shown,
                MetricKind::Counter,
                "eden_logger_export.logs_dropped_total"@,
                Some(("reason"@, "stopped"@)),
                kept.dropped_stopped as int,
            )
            &&& has_point(
                shown,
                MetricKind::Counter,
                "eden_logger_export.logs_dropped_total"@,
                Some(("reason"@, "oversize"@)),
                kept.dropped_oversize as int,
            )
            &&& has_point(
                shown,
                MetricKind::Counter,
                "eden_logger_export.logs_dropped_total"@,
                Some(("reason"@, "shutdown"@)),
                kept.dropped_shutdown as int,
            )
            &&& has_point(
                shown,
                MetricKind::Gauge,
                "eden_logger_export.queue_depth"@,
                Some(("queue"@, "normal"@)),
                kept.normal_queue_depth as int,
            )
            &&& has_point(
                shown,
                MetricKind::Gauge,
                "eden_logger_export.queue_depth"@,
                Some(("queue"@, "reserved"@)),
                kept.reserved_queue_depth as int,
            )
            &&& has_point(
                shown,
                MetricKind::Gauge,
                "eden_logger_export.queue_bytes"@,
                Some(("queue"@, "normal"@)),
                kept.normal_queue_bytes as int,
            )
            &&& has_point(
                shown,
                MetricKind::Gauge,
                "eden_logger_export.queue_bytes"@,
                Some(("queue"@, "reserved"@)),
                kept.reserved_queue_bytes as int,
            )
            &&& has_point(
                shown,
                MetricKind::Gauge,
                "eden_logger_export.exporter_state"@,
                Some(("state"@, kept.status.name())),
                1,
            )
        }),
{
    let s = kept.snapshot_with(accepted);
    let shown = counter_views(s) + gauge_views(s);
    assert(shown.len() == 20);
    assert(shown[0].name == "eden_logger_export.logs_accepted_total"@);
    assert(shown[1].name == "eden_logger_export.logs_filtered_total"@);
    assert(shown[2].name == "eden_logger_export.logs_exported_total"@);
    assert(shown[3].name == "eden_logger_export.logs_rejected_total"@);
    assert(shown[4].name == "eden_logger_export.export_attempts_total"@);
    assert(shown[5].name == "eden_logger_export.export_retries_total"@);
    assert(shown[6].name == "eden_logger_export.partial_rejections_total"@);
    assert(shown[7].name == "eden_logger_export.batches_exported_total"@);
    assert(shown[17].name == "eden_logger_export.inflight_records"@);
    assert(shown[18].name == "eden_logger_export.producer_lanes"@);
    assert(shown[8].name == "eden_logger_export.logs_dropped_total"@);
    assert(shown[9].name == "eden_logger_export.logs_dropped_total"@);
    assert(shown[10].name == "eden_logger_export.logs_dropped_total"@);
    assert(shown[11].name == "eden_logger_export.logs_dropped_total"@);
    assert(shown[12].name == "eden_logger_export.logs_dropped_total"@);
    assert(shown[13].name == "eden_logger_export.queue_depth"@);
    assert(shown[14].name == "eden_logger_export.queue_depth"@);
    assert(shown[15].name == "eden_logger_export.queue_bytes"@);
    assert(shown[16].name == "eden_logger_export.queue_bytes"@);
    assert(shown[19].name == "eden_logger_export.exporter_state"@);
}

}
