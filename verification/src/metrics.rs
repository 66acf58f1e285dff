//! Counters of emitted log records, in total and by level and audience.

use fast_telemetry::CounterSet;
use vstd::prelude::*;

use crate::context::LogAudience;
use crate::schema::LogLevel;

verus! {

/// `fast_telemetry::CounterSet`: a group of counters, each spread over shards.
#[verifier::external_type_specification]
#[verifier::external_body]
pub struct ExCounterSet(CounterSet);

/// The values of the counters of a set: for each counter the sum over its shards.
pub uninterp spec fn counter_totals(set: CounterSet) -> Seq<int>;

/// `fast_telemetry::CounterSet::new` makes a set whose counters are all zero. It panics where the
/// set has no counter.
#[verifier::external_body]
fn new_counter_set(shards: usize, counters: usize) -> (set: CounterSet)
    requires
        shards <= 1024,
        1 <= counters <= 1024,
    ensures
        counter_totals(set) == Seq::new(counters as nat, |i: int| 0int),
{
    CounterSet::new(shards, counters)
}

/// `fast_telemetry::CounterSet::add_indices` adds a value to each of the counters whose indexes are
/// given, in one shard. It panics where an index is out of bounds. The sum of a counter is exact as
/// long as it stays in the range of `isize`.
#[verifier::external_body]
fn add_indices(set: &mut CounterSet, indexes: &[usize], value: isize)
    requires
        value >= 0,
        forall|i: int|
            0 <= i < indexes@.len() ==> (#[trigger] indexes@[i]) < counter_totals(*old(set)).len(),
        indexes@.no_duplicates(),
        forall|i: int|
            0 <= i < counter_totals(*old(set)).len() ==> 0 <= #[trigger] counter_totals(
                *old(set),
            )[i] && counter_totals(*old(set))[i] + value <= isize::MAX,
    ensures
        counter_totals(*final(set)) == Seq::new(
            counter_totals(*old(set)).len(),
            |i: int|
                counter_totals(*old(set))[i] + if indexes@.contains(i as usize) {
                    value as int
                } else {
                    0
                },
        ),
{
    set.add_indices(indexes, value)
}

/// `fast_telemetry::CounterSet::sum` gives the value of a counter. It panics where the index is out
/// of bounds.
#[verifier::external_body]
fn sum(set: &CounterSet, index: usize) -> (total: isize)
    requires
        index < counter_totals(*set).len(),
        0 <= counter_totals(*set)[index as int] <= isize::MAX,
    ensures
        total == counter_totals(*set)[index as int],
{
    set.sum(index)
}

/// Cumulative counters by severity level.
#[derive(Debug, Clone, Copy, Default, PartialEq, Eq, Structural)]
pub struct LogLevelMetrics {
    pub trace: u64,
    pub debug: u64,
    pub info: u64,
    pub warn: u64,
    pub error: u64,
}

/// Cumulative counters by audience.
#[derive(Debug, Clone, Copy, Default, PartialEq, Eq, Structural)]
pub struct LogAudienceMetrics {
    pub internal: u64,
    pub client: u64,
    pub both: u64,
}

/// Cumulative counters of the logger.
#[derive(Debug, Clone, Copy, Default, PartialEq, Eq, Structural)]
pub struct LogMetricsSnapshot {
    pub emitted_total: u64,
    pub by_level: LogLevelMetrics,
    pub by_audience: LogAudienceMetrics,
}

/// The counter of a level.
pub open spec fn level_index(level: LogLevel) -> int {
    match level {
        LogLevel::Trace => 1,
        LogLevel::Debug => 2,
        LogLevel::Info => 3,
        LogLevel::Warn => 4,
        LogLevel::Error => 5,
    }
}

/// The counter of an audience.
pub open spec fn audience_index(audience: LogAudience) -> int {
    match audience {
        LogAudience::Internal => 6,
        LogAudience::Client => 7,
        LogAudience::Both => 8,
    }
}

fn level_counter_idx(level: LogLevel) -> (index: usize)
    ensures
        index == level_index(level),
{
    match level {
        LogLevel::Trace => 1,
        LogLevel::Debug => 2,
        LogLevel::Info => 3,
        LogLevel::Warn => 4,
        LogLevel::Error => 5,
    }
}

fn audience_counter_idx(audience: LogAudience) -> (index: usize)
    ensures
        index == audience_index(audience),
{
    match audience {
        LogAudience::Internal => 6,
        LogAudience::Client => 7,
        LogAudience::Both => 8,
    }
}

/// Counters of emitted log records.
pub struct LogCounters {
    set: CounterSet,
}

impl LogCounters {
    /// The number of records emitted.
    pub closed spec fn emitted(&self) -> int {
        counter_totals(self.set)[0]
    }

    /// The number of records emitted at a level.
    pub closed spec fn emitted_at(&self, level: LogLevel) -> int {
        counter_totals(self.set)[level_index(level)]
    }

    /// The number of records emitted for an audience.
    pub closed spec fn emitted_for(&self, audience: LogAudience) -> int {
        counter_totals(self.set)[audience_index(audience)]
    }

    /// Every record is counted once in total, once at its level and once for its audience.
    pub closed spec fn wf(&self) -> bool {
        let totals = counter_totals(self.set);
        &&& totals.len() == 9
        &&& forall|i: int| 0 <= i < 9 ==> 0 <= #[trigger] totals[i]
        &&& totals[0] <= isize::MAX
        &&& totals[0] == totals[1] + totals[2] + totals[3] + totals[4] + totals[5]
        &&& totals[0] == totals[6] + totals[7] + totals[8]
    }

    /// Counters at zero.
    pub fn new() -> (counters: LogCounters)
        ensures
            counters.wf(),
            counters.emitted() == 0,
            forall|l: LogLevel| #[trigger] counters.emitted_at(l) == 0,
            forall|a: LogAudience| #[trigger] counters.emitted_for(a) == 0,
    {
        LogCounters { set: new_counter_set(64, 9) }
    }

    /// Counts a record.
    pub fn record_emitted(&mut self, level: LogLevel, audience: LogAudience)
        requires
            old(self).wf(),
            old(self).emitted() < isize::MAX,
        ensures
            final(self).wf(),
            final(self).emitted() == old(self).emitted() + 1,
            forall|l: LogLevel| #[trigger]
                final(self).emitted_at(l) == old(self).emitted_at(l) + (if l == level {
                    1int
                } else {
                    0
                }),
            forall|a: LogAudience| #[trigger]
                final(self).emitted_for(a) == old(self).emitted_for(a) + (if a == audience {
                    1int
                } else {
                    0
                }),
    {
        let indexes: [usize; 3] = [0, level_counter_idx(level), audience_counter_idx(audience)];
        let ghost before = counter_totals(self.set);
        proof {
            let seen = indexes@;
            assert forall|i: int| 0 <= i < 9 implies #[trigger] seen.contains(i as usize) == (i == 0
                || i == level_index(level) || i == audience_index(audience)) by {
                assert(seen[0] == 0 && seen[1] == level_index(level) && seen[2] == audience_index(
                    audience,
                ));
            }
            assert(before[0] >= before[1] && before[0] >= before[2] && before[0] >= before[3]
                && before[0] >= before[4] && before[0] >= before[5] && before[0] >= before[6]
                && before[0] >= before[7] && before[0] >= before[8]);
        }
        add_indices(&mut self.set, &indexes, 1);
        proof {
            let after = counter_totals(self.set);
            assert(forall|i: int|
                0 <= i < 9 ==> #[trigger] after[i] == before[i] + (if i == 0 || i == level_index(
                    level,
                ) || i == audience_index(audience) {
                    1int
                } else {
                    0
                }));
        }
    }

    fn counter_value(&self, index: usize) -> (value: u64)
        requires
            self.wf(),
            index < 9,
        ensures
            value == counter_totals(self.set)[index as int],
    {
        sum(&self.set, index) as u64
    }
}

/// The counters of the logger.
pub fn log_metrics_snapshot(counters: &LogCounters) -> (snapshot: LogMetricsSnapshot)
    requires
        counters.wf(),
    ensures
        snapshot_of(*counters, snapshot),
        snapshot.emitted_total == snapshot.by_level.trace + snapshot.by_level.debug
            + snapshot.by_level.info + snapshot.by_level.warn + snapshot.by_level.error,
        snapshot.emitted_total == snapshot.by_audience.internal + snapshot.by_audience.client
            + snapshot.by_audience.both,
{
    LogMetricsSnapshot {
        emitted_total: counters.counter_value(0),
        by_level: LogLevelMetrics {
            trace: counters.counter_value(1),
            debug: counters.counter_value(2),
            info: counters.counter_value(3),
            warn: counters.counter_value(4),
            error: counters.counter_value(5),
        },
        by_audience: LogAudienceMetrics {
            internal: counters.counter_value(6),
            client: counters.counter_value(7),
            both: counters.counter_value(8),
        },
    }
}

/// Whether a snapshot holds the values of the counters.
pub open spec fn snapshot_of(counters: LogCounters, snapshot: LogMetricsSnapshot) -> bool {
    &&& snapshot.emitted_total == counters.emitted()
    &&& snapshot.by_level.trace == counters.emitted_at(LogLevel::Trace)
    &&& snapshot.by_level.debug == counters.emitted_at(LogLevel::Debug)
    &&& snapshot.by_level.info == counters.emitted_at(LogLevel::Info)
    &&& snapshot.by_level.warn == counters.emitted_at(LogLevel::Warn)
    &&& snapshot.by_level.error == counters.emitted_at(LogLevel::Error)
    &&& snapshot.by_audience.internal == counters.emitted_for(LogAudience::Internal)
    &&& snapshot.by_audience.client == counters.emitted_for(LogAudience::Client)
    &&& snapshot.by_audience.both == counters.emitted_for(LogAudience::Both)
}

/// What kind of series a metric is.
#[derive(Debug, Clone, Copy, PartialEq, Eq, Structural)]
pub enum MetricKind {
    Counter,
    Gauge,
}

/// One value of a metric, with its label where it has one.
pub struct MetricPoint {
    pub name: &'static str,
    pub help: &'static str,
    pub unit: Option<&'static str>,
    pub kind: MetricKind,
    pub label: Option<(&'static str, &'static str)>,
    pub value: i64,
}

/// What a metric point holds.
pub struct MetricView {
    pub name: Seq<char>,
    pub help: Seq<char>,
    pub unit: Option<Seq<char>>,
    pub kind: MetricKind,
    pub label: Option<(Seq<char>, Seq<char>)>,
    pub value: int,
}

impl View for MetricPoint {
    type V = MetricView;

    open spec fn view(&self) -> MetricView {
        MetricView {
            name: self.name@,
            help: self.help@,
            unit: match self.unit {
                Some(unit) => Some(unit@),
                None => None,
            },
            kind: self.kind,
            label: match self.label {
                Some((name, value)) => Some((name@, value@)),
                None => None,
            },
            value: self.value as int,
        }
    }
}

/// What metric points hold.
pub open spec fn views(points: Seq<MetricPoint>) -> Seq<MetricView> {
    points.map_values(|point: MetricPoint| point@)
}

/// A count as the value of a metric: the largest one that fits stands for those beyond.
pub open spec fn metric_value(count: u64) -> int {
    if count <= i64::MAX {
        count as int
    } else {
        i64::MAX as int
    }
}

/// A count as the value of a metric.
pub(crate) fn counter_i64(count: u64) -> (value: i64)
    ensures
        value == metric_value(count),
{
    if count <= i64::MAX as u64 {
        count as i64
    } else {
        i64::MAX
    }
}

pub open spec fn total_view(value: u64) -> MetricView {
    MetricView {
        name: "eden_logger.logs_emitted_total"@,
        help: "Total log records emitted after runtime filtering."@,
        unit: Some("logs"@),
        kind: MetricKind::Counter,
        label: None,
        value: metric_value(value),
    }
}

pub open spec fn level_view(level: Seq<char>, value: u64) -> MetricView {
    MetricView {
        name: "eden_logger.logs_emitted_by_level_total"@,
        help: "Log records emitted after runtime filtering, grouped by severity level."@,
        unit: Some("logs"@),
        kind: MetricKind::Counter,
        label: Some(("level"@, level)),
        value: metric_value(value),
    }
}

pub open spec fn audience_view(audience: Seq<char>, value: u64) -> MetricView {
    MetricView {
        name: "eden_logger.logs_emitted_by_audience_total"@,
        help: "Log records emitted after runtime filtering, grouped by log audience."@,
        unit: Some("logs"@),
        kind: MetricKind::Counter,
        label: Some(("audience"@, audience)),
        value: metric_value(value),
    }
}

/// The metrics of a snapshot: the total, then one series by level and one by audience.
pub open spec fn snapshot_views(snapshot: LogMetricsSnapshot) -> Seq<MetricView> {
    seq![
        total_view(snapshot.emitted_total),
        level_view("trace"@, snapshot.by_level.trace),
        level_view("debug"@, snapshot.by_level.debug),
        level_view("info"@, snapshot.by_level.info),
        level_view("warn"@, snapshot.by_level.warn),
        level_view("error"@, snapshot.by_level.error),
        audience_view("internal"@, snapshot.by_audience.internal),
        audience_view("client"@, snapshot.by_audience.client),
        audience_view("both"@, snapshot.by_audience.both),
    ]
}

fn level_point(level: &'static str, value: u64) -> (point: MetricPoint)
    ensures
        point@ == level_view(level@, value),
{
    MetricPoint {
        name: "eden_logger.logs_emitted_by_level_total",
        help: "Log records emitted after runtime filtering, grouped by severity level.",
        unit: Some("logs"),
        kind: MetricKind::Counter,
        label: Some(("level", level)),
        value: counter_i64(value),
    }
}

fn audience_point(audience: &'static str, value: u64) -> (point: MetricPoint)
    ensures
        point@ == audience_view(audience@, value),
{
    MetricPoint {
        name: "eden_logger.logs_emitted_by_audience_total",
        help: "Log records emitted after runtime filtering, grouped by log audience.",
        unit: Some("logs"),
        kind: MetricKind::Counter,
        label: Some(("audience", audience)),
        value: counter_i64(value),
    }
}

/// The metrics of a snapshot, in the order in which a visitor sees them.
pub fn snapshot_points(snapshot: &LogMetricsSnapshot) -> (points: Vec<MetricPoint>)
    ensures
        views(points@) == snapshot_views(*snapshot),
{
    let mut points: Vec<MetricPoint> = Vec::new();
    points.push(
        MetricPoint {
            name: "eden_logger.logs_emitted_total",
            help: "Total log records emitted after runtime filtering.",
            unit: Some("logs"),
            kind: MetricKind::Counter,
            label: None,
            value: counter_i64(snapshot.emitted_total),
        },
    );
    points.push(level_point("trace", snapshot.by_level.trace));
    points.push(level_point("debug", snapshot.by_level.debug));
    points.push(level_point("info", snapshot.by_level.info));
    points.push(level_point("warn", snapshot.by_level.warn));
    points.push(level_point("error", snapshot.by_level.error));
    points.push(audience_point("internal", snapshot.by_audience.internal));
    points.push(audience_point("client", snapshot.by_audience.client));
    points.push(audience_point("both", snapshot.by_audience.both));
    assert(views(points@) =~= snapshot_views(*snapshot));
    points
}

/// The metrics of the logger, in the order in which a visitor sees them.
pub fn visit_log_metrics(counters: &LogCounters) -> (points: Vec<MetricPoint>)
    requires
        counters.wf(),
    ensures
        exists|snapshot: LogMetricsSnapshot| #[trigger]
            snapshot_of(*counters, snapshot) && views(points@) == snapshot_views(snapshot),
{
    let snapshot = log_metrics_snapshot(counters);
    snapshot_points(&snapshot)
}

/// Each level and each audience has a series of its own, labelled with its name in small letters,
/// and that series holds how many records of that level or for that audience were emitted. The
/// first series holds how many were emitted in all.
pub proof fn law_each_series_has_its_own_counter(
    counters: LogCounters,
    snapshot: LogMetricsSnapshot,
    level: LogLevel,
    audience: LogAudience,
)
    requires
        snapshot_of(counters, snapshot),
    ensures
        snapshot_views(snapshot)[0].label is None,
        counters.emitted() <= i64::MAX ==> snapshot_views(snapshot)[0].value == counters.emitted(),
        exists|i: int|
            {
                &&& 0 <= i < snapshot_views(snapshot).len()
                &&& (#[trigger] snapshot_views(snapshot)[i]).label == Some(
                    ("level"@, small_letters(level.name())),
                )
                &&& counters.emitted_at(level) <= i64::MAX ==> snapshot_views(snapshot)[i].value
                    == counters.emitted_at(level)
            },
        exists|i: int|
            {
                &&& 0 <= i < snapshot_views(snapshot).len()
                &&& (#[trigger] snapshot_views(snapshot)[i]).label == Some(
                    ("audience"@, small_letters(audience.name())),
                )
                &&& counters.emitted_for(audience) <= i64::MAX ==> snapshot_views(
                    snapshot,
                )[i].value == counters.emitted_for(audience)
            },
        forall|i: int|
            0 <= i < snapshot_views(snapshot).len() ==> (#[trigger] snapshot_views(
                snapshot,
            )[i]).kind == MetricKind::Counter,
{
    let shown = snapshot_views(snapshot);
    assert(shown.len() == 9);
    assert(small_letters(level.name()) == match level {
        LogLevel::Trace => "trace"@,
        LogLevel::Debug => "debug"@,
        LogLevel::Info => "info"@,
        LogLevel::Warn => "warn"@,
        LogLevel::Error => "error"@,
    }) by {
        reveal_strlit("TRACE");
        reveal_strlit("DEBUG");
        reveal_strlit("INFO");
        reveal_strlit("WARN");
        reveal_strlit("ERROR");
        reveal_strlit("trace");
        reveal_strlit("debug");
        reveal_strlit("info");
        reveal_strlit("warn");
        reveal_strlit("error");
        match level {
            LogLevel::Trace => {
                assert(small_letters("TRACE"@) =~= "trace"@);
            },
            LogLevel::Debug => {
                assert(small_letters("DEBUG"@) =~= "debug"@);
            },
            LogLevel::Info => {
                assert(small_letters("INFO"@) =~= "info"@);
            },
            LogLevel::Warn => {
                assert(small_letters("WARN"@) =~= "warn"@);
            },
            LogLevel::Error => {
                assert(small_letters("ERROR"@) =~= "error"@);
            },
        }
    }
    assert(small_letters(audience.name()) == match audience {
        LogAudience::Internal => "internal"@,
        LogAudience::Client => "client"@,
        LogAudience::Both => "both"@,
    }) by {
        reveal_strlit("INTERNAL");
        reveal_strlit("CLIENT");
        reveal_strlit("BOTH");
        reveal_strlit("internal");
        reveal_strlit("client");
        reveal_strlit("both");
        match audience {
            LogAudience::Internal => {
                assert(small_letters("INTERNAL"@) =~= "internal"@);
            },
            LogAudience::Client => {
                assert(small_letters("CLIENT"@) =~= "client"@);
            },
            LogAudience::Both => {
                assert(small_letters("BOTH"@) =~= "both"@);
            },
        }
    }
    let at = level_index(level);
    assert(shown[at].label == Some(("level"@, small_letters(level.name()))));
    assert(counters.emitted_at(level) <= i64::MAX ==> shown[at].value == counters.emitted_at(level));
    let to = audience_index(audience);
    assert(shown[to].label == Some(("audience"@, small_letters(audience.name()))));
    assert(counters.emitted_for(audience) <= i64::MAX ==> shown[to].value == counters.emitted_for(
        audience,
    ));
}

/// A text in small letters.
pub open spec fn small_letters(s: Seq<char>) -> Seq<char> {
    s.map_values(|c: char| crate::text::ascii_lower(c))
}

}
