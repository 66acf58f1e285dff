//! The bounded queues of producing threads, and their draining.
//!
//! Each producing thread has a lane with a normal and a reserved queue. The capacities hold over all
//! lanes. The worker drains the lanes in turns, so that one noisy thread does not starve the others.

use std::collections::VecDeque;

use vstd::prelude::*;

use crate::export::metrics::ExporterMetrics;
use crate::export::shared;
use crate::fields::RequestFields;
use crate::schema::EdenLog;

verus! {

/// The most records that a lane contributes before the next lane has its turn.
pub const DRAIN_QUANTUM: usize = 64;

/// Which queue a record is in.
#[derive(Debug, Clone, Copy, PartialEq, Eq, Structural)]
pub enum QueueKind {
    Normal,
    Reserved,
}

/// A record that was drained, and the queue that it was in.
pub struct QueuedLog<R: RequestFields> {
    pub log: EdenLog<R>,
    pub queue: QueueKind,
}

/// What came of a submission.
#[derive(Debug, Clone, Copy, PartialEq, Eq, Structural)]
pub enum SubmitResult {
    Accepted,
    Full,
}

/// The records that a lane contributes in one turn.
pub open spec fn quantum<T>(batch: Seq<T>) -> int {
    if batch.len() < DRAIN_QUANTUM {
        batch.len() as int
    } else {
        DRAIN_QUANTUM as int
    }
}

/// What one turn of all lanes takes.
pub open spec fn turn<T>(batches: Seq<Seq<T>>) -> Seq<T>
    decreases batches.len(),
{
    if batches.len() == 0 {
        Seq::empty()
    } else {
        turn(batches.drop_last()) + batches.last().take(quantum(batches.last()))
    }
}

/// What one turn of all lanes leaves.
pub open spec fn after_turn<T>(batches: Seq<Seq<T>>) -> Seq<Seq<T>> {
    batches.map_values(|batch: Seq<T>| batch.skip(quantum(batch)))
}

/// The number of records of all lanes.
pub open spec fn total<T>(batches: Seq<Seq<T>>) -> nat
    decreases batches.len(),
{
    if batches.len() == 0 {
        0
    } else {
        total(batches.drop_last()) + batches.last().len()
    }
}

/// The records of all lanes, in the order in which turns take them.
pub open spec fn round_robin<T>(batches: Seq<Seq<T>>) -> Seq<T>
    decreases total(batches),
{
    if total(batches) == 0 {
        Seq::empty()
    } else {
        proof {
            lemma_turn_shrinks(batches);
        }
        turn(batches) + round_robin(after_turn(batches))
    }
}

pub proof fn lemma_turn_shrinks<T>(batches: Seq<Seq<T>>)
    ensures
        total(after_turn(batches)) + turn(batches).len() == total(batches),
        total(batches) > 0 ==> turn(batches).len() > 0,
    decreases batches.len(),
{
    if batches.len() > 0 {
        lemma_turn_shrinks(batches.drop_last());
        assert(after_turn(batches).drop_last() =~= after_turn(batches.drop_last()));
        assert(after_turn(batches).last() == batches.last().skip(quantum(batches.last())));
    }
}

proof fn lemma_total_zero<T>(batches: Seq<Seq<T>>)
    ensures
        total(batches) == 0 <==> forall|i: int|
            0 <= i < batches.len() ==> (#[trigger] batches[i]).len() == 0,
    decreases batches.len(),
{
    if batches.len() > 0 {
        let front = batches.drop_last();
        lemma_total_zero(front);
        if total(batches) == 0 {
            assert forall|i: int| 0 <= i < batches.len() implies (#[trigger] batches[i]).len()
                == 0 by {
                if i < front.len() {
                    assert(front[i] == batches[i]);
                }
            }
        }
        if forall|i: int| 0 <= i < batches.len() ==> (#[trigger] batches[i]).len() == 0 {
            assert forall|i: int| 0 <= i < front.len() implies (#[trigger] front[i]).len() == 0 by {
                assert(front[i] == batches[i]);
            }
            assert(batches[batches.len() - 1].len() == 0);
        }
    }
}

/// Turns take every record exactly once, and keep the records of a lane in their order. The lanes
/// are told apart by a tag of their records.
pub proof fn law_turns_keep_each_lane_in_order<T>(
    batches: Seq<Seq<T>>,
    tag: spec_fn(T) -> int,
    lane: int,
)
    requires
        0 <= lane < batches.len(),
        forall|i: int, j: int|
            0 <= i < batches.len() && 0 <= j < batches[i].len() ==> tag(#[trigger] batches[i][j])
                == i,
    ensures
        round_robin(batches).filter(|x: T| tag(x) == lane) == batches[lane],
        round_robin(batches).len() == total(batches),
    decreases total(batches),
{
    let pred = |x: T| tag(x) == lane;
    if total(batches) == 0 {
        lemma_total_zero(batches);
        assert(batches[lane] =~= Seq::<T>::empty());
        assert(round_robin(batches) =~= Seq::<T>::empty());
        reveal(Seq::filter);
    } else {
        let left = after_turn(batches);
        lemma_turn_shrinks(batches);
        assert forall|i: int, j: int| 0 <= i < left.len() && 0 <= j < left[i].len() implies tag(
            #[trigger] left[i][j],
        ) == i by {
            assert(left[i][j] == batches[i][quantum(batches[i]) + j]);
        }
        law_turns_keep_each_lane_in_order(left, tag, lane);
        lemma_turn_filter(batches, tag, lane);
        Seq::filter_distributes_over_add(turn(batches), round_robin(left), pred);
        let batch = batches[lane];
        assert(left[lane] == batch.skip(quantum(batch)));
        assert(batch.take(quantum(batch)) + batch.skip(quantum(batch)) =~= batch);
    }
}

proof fn lemma_turn_filter<T>(batches: Seq<Seq<T>>, tag: spec_fn(T) -> int, lane: int)
    requires
        forall|i: int, j: int|
            0 <= i < batches.len() && 0 <= j < batches[i].len() ==> tag(#[trigger] batches[i][j])
                == i,
    ensures
        0 <= lane < batches.len() ==> turn(batches).filter(|x: T| tag(x) == lane)
            == batches[lane].take(quantum(batches[lane])),
        lane >= batches.len() ==> turn(batches).filter(|x: T| tag(x) == lane)
            == Seq::<T>::empty(),
    decreases batches.len(),
{
    let pred = |x: T| tag(x) == lane;
    if batches.len() == 0 {
        reveal(Seq::filter);
    } else {
        let front = batches.drop_last();
        let last = batches.last().take(quantum(batches.last()));
        assert forall|i: int, j: int| 0 <= i < front.len() && 0 <= j < front[i].len() implies tag(
            #[trigger] front[i][j],
        ) == i by {
            assert(front[i][j] == batches[i][j]);
        }
        lemma_turn_filter(front, tag, lane);
        Seq::filter_distributes_over_add(turn(front), last, pred);
        let n = batches.len() - 1;
        assert forall|j: int| 0 <= j < last.len() implies tag(#[trigger] last[j]) == n by {
            assert(last[j] == batches[n][j]);
        }
        if lane == n {
            lemma_filter_all(last, pred);
            assert(turn(batches).filter(pred) =~= last);
        } else {
            lemma_filter_none(last, pred);
            assert(turn(batches).filter(pred) =~= turn(front).filter(pred));
        }
    }
}

proof fn lemma_filter_all<T>(s: Seq<T>, pred: spec_fn(T) -> bool)
    requires
        forall|i: int| 0 <= i < s.len() ==> pred(#[trigger] s[i]),
    ensures
        s.filter(pred) == s,
    decreases s.len(),
{
    reveal(Seq::filter);
    if s.len() > 0 {
        assert forall|i: int| 0 <= i < s.drop_last().len() implies pred(
            #[trigger] s.drop_last()[i],
        ) by {
            assert(s.drop_last()[i] == s[i]);
        }
        lemma_filter_all(s.drop_last(), pred);
        assert(pred(s[s.len() - 1]));
        assert(s.drop_last().push(s.last()) =~= s);
    }
}

proof fn lemma_filter_none<T>(s: Seq<T>, pred: spec_fn(T) -> bool)
    requires
        forall|i: int| 0 <= i < s.len() ==> !pred(#[trigger] s[i]),
    ensures
        s.filter(pred) == Seq::<T>::empty(),
    decreases s.len(),
{
    reveal(Seq::filter);
    if s.len() > 0 {
        assert forall|i: int| 0 <= i < s.drop_last().len() implies !pred(
            #[trigger] s.drop_last()[i],
        ) by {
            assert(s.drop_last()[i] == s[i]);
        }
        lemma_filter_none(s.drop_last(), pred);
        assert(!pred(s[s.len() - 1]));
    }
}

/// In the first turn every lane contributes its first records before any lane contributes again.
pub proof fn law_every_lane_has_its_turn<T>(batches: Seq<Seq<T>>)
    requires
        total(batches) > 0,
    ensures
        round_robin(batches).take(turn(batches).len() as int) == turn(batches),
        turn(batches).len() <= DRAIN_QUANTUM * batches.len(),
{
    lemma_turn_bound(batches);
    assert(round_robin(batches).take(turn(batches).len() as int) =~= turn(batches));
}

proof fn lemma_turn_bound<T>(batches: Seq<Seq<T>>)
    ensures
        turn(batches).len() <= DRAIN_QUANTUM * batches.len(),
    decreases batches.len(),
{
    if batches.len() > 0 {
        lemma_turn_bound(batches.drop_last());
    }
}

/// The records of queues.
pub open spec fn queue_views<T>(queues: Seq<VecDeque<T>>) -> Seq<Seq<T>> {
    queues.map_values(|queue: VecDeque<T>| queue@)
}

/// Records with the queue that they were in.
pub open spec fn drained_from<R: RequestFields>(
    logs: Seq<EdenLog<R>>,
    queue: QueueKind,
) -> Seq<QueuedLog<R>> {
    logs.map_values(|log: EdenLog<R>| QueuedLog { log, queue })
}

fn drain_lane<R: RequestFields>(
    source: &mut VecDeque<EdenLog<R>>,
    queue: QueueKind,
    output: &mut VecDeque<QueuedLog<R>>,
) -> (moved: bool)
    ensures
        final(source)@ == old(source)@.skip(quantum(old(source)@)),
        final(output)@ == old(output)@ + drained_from(
            old(source)@.take(quantum(old(source)@)),
            queue,
        ),
        moved == (old(source)@.len() > 0),
{
    let ghost all = source@;
    let ghost start = output@;
    let mut taken: usize = 0;
    assert(all.skip(0) =~= all);
    assert(output@ =~= start + drained_from(all.take(0), queue));
    while taken < DRAIN_QUANTUM && source.len() > 0
        invariant
            taken <= DRAIN_QUANTUM,
            taken <= all.len(),
            source@ == all.skip(taken as int),
            output@ == start + drained_from(all.take(taken as int), queue),
        decreases DRAIN_QUANTUM - taken,
    {
        match source.pop_front() {
            Some(log) => {
                output.push_back(QueuedLog { log, queue });
                assert(log == all[taken as int]);
                assert(source@ =~= all.skip(taken + 1));
                assert(drained_from(all.take(taken + 1), queue) =~= drained_from(
                    all.take(taken as int),
                    queue,
                ).push(QueuedLog { log, queue }));
                assert(output@ =~= start + drained_from(all.take(taken + 1), queue));
            },
            None => {},
        }
        taken = taken + 1;
    }
    assert(taken == quantum(all));
    taken > 0
}

fn drain_batches<R: RequestFields>(
    batches: &mut Vec<VecDeque<EdenLog<R>>>,
    queue: QueueKind,
    output: &mut VecDeque<QueuedLog<R>>,
)
    ensures
        final(batches)@.len() == old(batches)@.len(),
        total(queue_views(final(batches)@)) == 0,
        final(output)@ == old(output)@ + drained_from(
            round_robin(queue_views(old(batches)@)),
            queue,
        ),
{
    let ghost first = queue_views(batches@);
    let ghost start = output@;
    let mut more = true;
    assert(start + drained_from(round_robin(first), queue) == output@ + drained_from(
        round_robin(queue_views(batches@)),
        queue,
    ));
    while more
        invariant
            batches@.len() == first.len(),
            start + drained_from(round_robin(first), queue) == output@ + drained_from(
                round_robin(queue_views(batches@)),
                queue,
            ),
            !more ==> total(queue_views(batches@)) == 0,
        decreases total(queue_views(batches@)), (if more { 1int } else { 0int }),
    {
        let ghost before = queue_views(batches@);
        let ghost out0 = output@;
        more = false;
        let mut i: usize = 0;
        assert(before.take(0) =~= Seq::<Seq<EdenLog<R>>>::empty());
        assert(output@ =~= out0 + drained_from(turn(before.take(0)), queue));
        while i < batches.len()
            invariant
                i <= batches@.len(),
                batches@.len() == before.len(),
                before.len() == first.len(),
                forall|j: int|
                    i <= j < before.len() ==> (#[trigger] batches@[j])@ == before[j],
                forall|j: int|
                    0 <= j < i ==> (#[trigger] batches@[j])@ == before[j].skip(quantum(before[j])),
                output@ == out0 + drained_from(turn(before.take(i as int)), queue),
                more <==> exists|j: int| 0 <= j < i && (#[trigger] before[j]).len() > 0,
            decreases batches@.len() - i,
        {
            let moved = drain_lane(&mut batches[i], queue, output);
            proof {
                let prefix = before.take(i + 1);
                assert(prefix.drop_last() =~= before.take(i as int));
                assert(prefix.last() == before[i as int]);
                let a = turn(before.take(i as int));
                let b = before[i as int].take(quantum(before[i as int]));
                assert(drained_from(a + b, queue) =~= drained_from(a, queue) + drained_from(
                    b,
                    queue,
                ));
                assert(output@ =~= out0 + drained_from(turn(prefix), queue));
                if moved {
                    assert(before[i as int].len() > 0);
                }
            }
            more = more || moved;
            i = i + 1;
        }
        proof {
            assert(before.take(i as int) =~= before);
            let after = queue_views(batches@);
            assert(after =~= after_turn(before));
            lemma_turn_shrinks(before);
            lemma_total_zero(before);
            lemma_total_zero(after);
            if total(before) > 0 {
                let a = turn(before);
                let b = round_robin(after);
                assert(drained_from(a + b, queue) =~= drained_from(a, queue) + drained_from(
                    b,
                    queue,
                ));
                assert(out0 + drained_from(a + b, queue) =~= output@ + drained_from(b, queue));
                if !more {
                    assert(false);
                }
            } else {
                assert(!more);
                assert(turn(before).len() == 0);
                assert(output@ =~= out0);
                assert(after =~= before) by {
                    assert forall|j: int| 0 <= j < after.len() implies after[j] == before[j] by {
                        assert(after[j] =~= before[j]);
                    }
                }
            }
        }
    }
    assert(drained_from(round_robin(queue_views(batches@)), queue) =~= Seq::<
        QueuedLog<R>,
    >::empty());
    assert(output@ =~= start + drained_from(round_robin(first), queue));
}

/// The queues of a lane.
pub struct LaneQueues<R: RequestFields> {
    pub normal: VecDeque<EdenLog<R>>,
    pub reserved: VecDeque<EdenLog<R>>,
}

impl<R: RequestFields> LaneQueues<R> {
    /// Whether both queues are empty.
    pub open spec fn empty(&self) -> bool {
        self.normal@.len() == 0 && self.reserved@.len() == 0
    }

    pub fn new() -> (queues: Self)
        ensures
            queues.empty(),
    {
        LaneQueues { normal: VecDeque::new(), reserved: VecDeque::new() }
    }

    /// Whether both queues are empty.
    pub fn is_empty(&self) -> (empty: bool)
        ensures
            empty == self.empty(),
    {
        self.normal.len() == 0 && self.reserved.len() == 0
    }
}

/// The lane of a producing thread.
pub struct ProducerLane<R: RequestFields> {
    /// The queues that the thread fills.
    pub queues: LaneQueues<R>,
    /// Emptied queues, whose memory the next drain puts to use.
    pub worker_spare: Option<LaneQueues<R>>,
    /// Whether the thread has ended.
    pub closed: bool,
}

impl<R: RequestFields> ProducerLane<R> {
    /// Spare queues are empty.
    pub open spec fn wf(&self) -> bool {
        self.worker_spare matches Some(spare) ==> spare.empty()
    }

    pub fn new() -> (lane: Self)
        ensures
            lane.wf(),
            lane.queues.empty(),
            !lane.closed,
            lane.worker_spare is None,
    {
        ProducerLane { queues: LaneQueues::new(), worker_spare: None, closed: false }
    }

    /// Puts a record into a queue. Says whether the lane was empty, so that the worker is to be
    /// woken.
    pub fn push(&mut self, log: EdenLog<R>, queue: QueueKind) -> (was_empty: bool)
        requires
            old(self).wf(),
        ensures
            final(self).wf(),
            was_empty == old(self).queues.empty(),
            final(self).closed == old(self).closed,
            final(self).worker_spare == old(self).worker_spare,
            final(self).queues.normal@ == if queue == QueueKind::Normal {
                old(self).queues.normal@.push(log)
            } else {
                old(self).queues.normal@
            },
            final(self).queues.reserved@ == if queue == QueueKind::Reserved {
                old(self).queues.reserved@.push(log)
            } else {
                old(self).queues.reserved@
            },
    {
        let was_empty = self.queues.is_empty();
        match queue {
            QueueKind::Normal => self.queues.normal.push_back(log),
            QueueKind::Reserved => self.queues.reserved.push_back(log),
        }
        was_empty
    }

    /// Whether the thread has ended and left nothing.
    pub fn is_closed_and_empty(&self) -> (done: bool)
        ensures
            done == (self.closed && self.queues.empty()),
    {
        self.closed && self.queues.is_empty()
    }

    /// Takes the records of the lane.
    pub fn take(&mut self) -> (queues: LaneQueues<R>)
        requires
            old(self).wf(),
        ensures
            final(self).wf(),
            queues == old(self).queues,
            final(self).queues.empty(),
            final(self).worker_spare is None,
            final(self).closed == old(self).closed,
            old(self).worker_spare matches Some(spare) ==> final(self).queues == spare,
    {
        let mut queues = match self.worker_spare.take() {
            Some(spare) => spare,
            None => LaneQueues::new(),
        };
        std::mem::swap(&mut queues, &mut self.queues);
        queues
    }

    /// Gives emptied queues back, for the next drain.
    pub fn recycle(&mut self, queues: LaneQueues<R>)
        requires
            old(self).wf(),
            queues.empty(),
        ensures
            final(self).wf(),
            final(self).queues == old(self).queues,
            final(self).closed == old(self).closed,
            final(self).worker_spare == if old(self).worker_spare is None {
                Some(queues)
            } else {
                old(self).worker_spare
            },
    {
        if self.worker_spare.is_none() {
            self.worker_spare = Some(queues);
        }
    }
}

/// What a lane holds.
pub struct LaneView<R: RequestFields> {
    pub id: u64,
    pub normal: Seq<EdenLog<R>>,
    pub reserved: Seq<EdenLog<R>>,
    pub closed: bool,
    /// Whether the lane has the emptied queues of an earlier drain, to be filled after the next one.
    pub spare: bool,
}

impl<R: RequestFields> LaneView<R> {
    /// Whether the thread has ended and left nothing.
    pub open spec fn is_done(self) -> bool {
        self.closed && self.normal.len() == 0 && self.reserved.len() == 0
    }

    /// The lane once its queues are taken, with those that were spare in their place.
    pub open spec fn taken(self) -> LaneView<R> {
        LaneView { normal: Seq::empty(), reserved: Seq::empty(), spare: false, ..self }
    }

    /// The lane once its queues are taken, emptied and given back.
    pub open spec fn emptied(self) -> LaneView<R> {
        LaneView { normal: Seq::empty(), reserved: Seq::empty(), spare: true, ..self }
    }
}

/// What a lane with its number holds.
pub open spec fn lane_view<R: RequestFields>(lane: (u64, ProducerLane<R>)) -> LaneView<R> {
    LaneView {
        id: lane.0,
        normal: lane.1.queues.normal@,
        reserved: lane.1.queues.reserved@,
        closed: lane.1.closed,
        spare: lane.1.worker_spare is Some,
    }
}

/// A lane with emptied queues to spare, unless it has some already.
pub open spec fn with_spare<R: RequestFields>(
    lane: (u64, ProducerLane<R>),
    normal: VecDeque<EdenLog<R>>,
    reserved: VecDeque<EdenLog<R>>,
) -> (u64, ProducerLane<R>) {
    (
        lane.0,
        ProducerLane {
            worker_spare: match lane.1.worker_spare {
                Some(spare) => Some(spare),
                None => Some(LaneQueues { normal, reserved }),
            },
            ..lane.1
        },
    )
}

/// What lanes hold.
pub open spec fn lane_views<R: RequestFields>(lanes: Seq<(u64, ProducerLane<R>)>) -> Seq<
    LaneView<R>,
> {
    lanes.map_values(|lane: (u64, ProducerLane<R>)| lane_view(lane))
}

/// The normal queues of lanes.
pub open spec fn normals<R: RequestFields>(lanes: Seq<LaneView<R>>) -> Seq<Seq<EdenLog<R>>> {
    lanes.map_values(|lane: LaneView<R>| lane.normal)
}

/// The reserved queues of lanes.
pub open spec fn reserveds<R: RequestFields>(lanes: Seq<LaneView<R>>) -> Seq<Seq<EdenLog<R>>> {
    lanes.map_values(|lane: LaneView<R>| lane.reserved)
}

/// The lanes whose threads go on, or that hold records.
pub open spec fn kept_lanes<R: RequestFields>(lanes: Seq<LaneView<R>>) -> Seq<LaneView<R>>
    decreases lanes.len(),
{
    if lanes.len() == 0 {
        Seq::empty()
    } else if lanes.last().is_done() {
        kept_lanes(lanes.drop_last())
    } else {
        kept_lanes(lanes.drop_last()).push(lanes.last())
    }
}

/// A sequence from an index on, and behind that what comes before the index.
pub open spec fn rotated<T>(s: Seq<T>, start: int) -> Seq<T> {
    s.skip(start) + s.take(start)
}

/// Lanes whose queues are taken.
pub open spec fn taken_lanes<R: RequestFields>(lanes: Seq<LaneView<R>>) -> Seq<LaneView<R>> {
    lanes.map_values(|lane: LaneView<R>| lane.taken())
}

/// Lanes without their records, and with emptied queues to spare.
pub open spec fn emptied_lanes<R: RequestFields>(lanes: Seq<LaneView<R>>) -> Seq<LaneView<R>> {
    lanes.map_values(|lane: LaneView<R>| lane.emptied())
}

/// Whether no two lanes have the same number, and all numbers are below a bound.
pub open spec fn distinct_ids<R: RequestFields>(lanes: Seq<LaneView<R>>, bound: u64) -> bool {
    &&& forall|i: int| 0 <= i < lanes.len() ==> (#[trigger] lanes[i]).id < bound
    &&& forall|i: int, j: int|
        0 <= i < j < lanes.len() ==> (#[trigger] lanes[i]).id != (#[trigger] lanes[j]).id
}

/// Whether a lane has a number.
pub open spec fn has_lane<R: RequestFields>(lanes: Seq<LaneView<R>>, id: u64) -> bool {
    exists|i: int| 0 <= i < lanes.len() && (#[trigger] lanes[i]).id == id
}

/// Lanes with one of them put in the place of the lane with its number.
pub open spec fn with_lane<R: RequestFields>(
    lanes: Seq<LaneView<R>>,
    lane: LaneView<R>,
) -> Seq<LaneView<R>> {
    lanes.map_values(
        |old: LaneView<R>|
            if old.id == lane.id {
                lane
            } else {
                old
            },
    )
}

/// The lane with a number.
pub open spec fn lane_of<R: RequestFields>(lanes: Seq<LaneView<R>>, id: u64) -> LaneView<R> {
    lanes[choose|i: int| 0 <= i < lanes.len() && (#[trigger] lanes[i]).id == id]
}

/// The lane that a thread has with each collector.
pub struct LocalProducers {
    /// Numbers of collectors, and of lanes.
    pub lanes: Vec<(u64, u64)>,
}

impl LocalProducers {
    pub fn new() -> (producers: Self)
        ensures
            producers.lanes@.len() == 0,
    {
        LocalProducers { lanes: Vec::new() }
    }

    /// Where the lane with a collector is: the first entry of the collector.
    pub open spec fn entry_of(&self, collector: u64) -> Option<int> {
        if exists|i: int| self.is_first(collector, i) {
            Some(choose|i: int| self.is_first(collector, i))
        } else {
            None
        }
    }

    /// Whether an entry is the first one of a collector.
    pub open spec fn is_first(&self, collector: u64, i: int) -> bool {
        &&& 0 <= i < self.lanes@.len()
        &&& self.lanes@[i].0 == collector
        &&& forall|j: int| 0 <= j < i ==> (#[trigger] self.lanes@[j]).0 != collector
    }

    fn position(&self, collector: u64) -> (found: Option<usize>)
        ensures
            found matches Some(i) ==> self.entry_of(collector) == Some(i as int)
                && self.is_first(collector, i as int),
            found is None <==> self.entry_of(collector) is None,
    {
        let mut i: usize = 0;
        while i < self.lanes.len()
            invariant
                i <= self.lanes@.len(),
                forall|j: int| 0 <= j < i ==> (#[trigger] self.lanes@[j]).0 != collector,
            decreases self.lanes@.len() - i,
        {
            if self.lanes[i].0 == collector {
                assert(self.is_first(collector, i as int));
                assert forall|j: int| self.is_first(collector, j) implies j == i by {}
                return Some(i);
            }
            i = i + 1;
        }
        None
    }
}

/// The bounded collector: the lanes of all producing threads.
pub struct LogCollector<R: RequestFields> {
    id: u64,
    normal_capacity: u64,
    reserved_capacity: u64,
    lanes: Vec<(u64, ProducerLane<R>)>,
    cursor: usize,
    next_lane: u64,
    stray: Vec<u64>,
}

/// Puts a record in a queue of a lane.
pub open spec fn lane_with<R: RequestFields>(
    lane: LaneView<R>,
    log: EdenLog<R>,
    queue: QueueKind,
) -> LaneView<R> {
    match queue {
        QueueKind::Normal => LaneView { normal: lane.normal.push(log), ..lane },
        QueueKind::Reserved => LaneView { reserved: lane.reserved.push(log), ..lane },
    }
}

/// The queue that admits a record, if there is one: the normal queue while it has room, and the
/// reserved queue for records with priority.
pub open spec fn admitting_queue(
    metrics: ExporterMetrics,
    normal_capacity: u64,
    reserved_capacity: u64,
    priority: bool,
) -> Option<QueueKind> {
    if metrics.normal_queue_depth < normal_capacity {
        Some(QueueKind::Normal)
    } else if priority && metrics.reserved_queue_depth < reserved_capacity {
        Some(QueueKind::Reserved)
    } else {
        None
    }
}

/// The gauges once a queue has admitted a record.
pub open spec fn metrics_with(metrics: ExporterMetrics, queue: QueueKind) -> ExporterMetrics {
    match queue {
        QueueKind::Normal => ExporterMetrics {
            normal_queue_depth: (metrics.normal_queue_depth + 1) as u64,
            ..metrics
        },
        QueueKind::Reserved => ExporterMetrics {
            reserved_queue_depth: (metrics.reserved_queue_depth + 1) as u64,
            ..metrics
        },
    }
}

/// Whether lanes and gauges are what a submission leaves, and the result what it gives. Where no
/// queue admits the record nothing changes. A lane that is registered no longer takes the record, but
/// nobody drains it from there; it strays from the first such record on.
pub open spec fn is_submission<R: RequestFields>(
    before: Seq<LaneView<R>>,
    after: Seq<LaneView<R>>,
    metrics_before: ExporterMetrics,
    metrics_after: ExporterMetrics,
    stray_before: Set<u64>,
    stray_after: Set<u64>,
    admitting: Option<QueueKind>,
    lane: u64,
    log: EdenLog<R>,
    result: (SubmitResult, bool),
) -> bool {
    match admitting {
        Some(queue) => {
            &&& result.0 == SubmitResult::Accepted
            &&& metrics_after == metrics_with(metrics_before, queue)
            &&& if has_lane(before, lane) {
                &&& after == with_lane(before, lane_with(lane_of(before, lane), log, queue))
                &&& result.1 == (lane_of(before, lane).normal.len() == 0 && lane_of(
                    before,
                    lane,
                ).reserved.len() == 0)
                &&& stray_after == stray_before
            } else {
                &&& after == before
                &&& result.1 == !stray_before.contains(lane)
                &&& stray_after == stray_before.insert(lane)
            }
        },
        None => {
            &&& result == (SubmitResult::Full, false)
            &&& metrics_after == metrics_before
            &&& after == before
            &&& stray_after == stray_before
        },
    }
}

/// A lane without records.
pub open spec fn new_lane<R: RequestFields>(id: u64) -> LaneView<R> {
    LaneView { id, normal: Seq::empty(), reserved: Seq::empty(), closed: false, spare: false }
}

/// Claims a place below a capacity.
pub fn claim(depth: &mut u64, capacity: u64) -> (claimed: bool)
    ensures
        claimed == (*old(depth) < capacity),
        *final(depth) == if claimed {
            (*old(depth) + 1) as u64
        } else {
            *old(depth)
        },
{
    if *depth < capacity {
        *depth = *depth + 1;
        true
    } else {
        false
    }
}

impl<R: RequestFields> LogCollector<R> {
    /// What the lanes hold, in the order of their registration.
    pub closed spec fn lanes(&self) -> Seq<LaneView<R>> {
        lane_views(self.lanes@)
    }

    /// The number of the collector.
    pub closed spec fn number(&self) -> u64 {
        self.id
    }

    /// The capacity of the normal queues.
    pub closed spec fn normal_limit(&self) -> u64 {
        self.normal_capacity
    }

    /// The capacity of the reserved queues.
    pub closed spec fn reserved_limit(&self) -> u64 {
        self.reserved_capacity
    }

    /// The lane that has the first turn in the next drain, as far as there are so many lanes.
    pub closed spec fn first_turn(&self) -> int {
        self.cursor as int
    }

    /// The number of the next lane.
    pub closed spec fn next_number(&self) -> u64 {
        self.next_lane
    }

    /// The lanes that are registered no longer and have taken records since, for which their threads
    /// have not ended.
    pub closed spec fn strays(&self) -> Set<u64> {
        self.stray@.to_set()
    }

    /// Whether `self` has the number and the capacities of `other`.
    pub open spec fn same_limits(&self, other: &Self) -> bool {
        &&& self.number() == other.number()
        &&& self.normal_limit() == other.normal_limit()
        &&& self.reserved_limit() == other.reserved_limit()
    }

    /// Each lane has a number of its own, and spare queues are empty.
    pub closed spec fn wf(&self) -> bool {
        &&& distinct_ids(lane_views(self.lanes@), self.next_lane)
        &&& forall|i: int| 0 <= i < self.lanes@.len() ==> (#[trigger] self.lanes@[i]).1.wf()
    }

    /// A collector without lanes.
    pub fn new(id: u64, normal_capacity: u64, reserved_capacity: u64) -> (collector: Self)
        ensures
            collector.wf(),
            collector.lanes() == Seq::<LaneView<R>>::empty(),
            collector.number() == id,
            collector.normal_limit() == normal_capacity,
            collector.reserved_limit() == reserved_capacity,
            collector.first_turn() == 0,
            collector.next_number() == 0,
            collector.strays() == Set::<u64>::empty(),
    {
        let collector = LogCollector {
            id,
            normal_capacity,
            reserved_capacity,
            lanes: Vec::new(),
            cursor: 0,
            next_lane: 0,
            stray: Vec::new(),
        };
        assert(collector.lanes() =~= Seq::<LaneView<R>>::empty());
        assert(collector.strays() =~= Set::<u64>::empty());
        collector
    }

    /// The number of lanes.
    pub fn registered_lanes(&self) -> (count: usize)
        ensures
            count == self.lanes().len(),
    {
        self.lanes.len()
    }

    /// Whether there is a number for a further lane.
    pub fn can_register_lane(&self) -> (can: bool)
        ensures
            can == (self.next_number() < u64::MAX),
    {
        self.next_lane < u64::MAX
    }

    /// Adds a lane for a producing thread, and gives its number.
    pub fn register_lane(&mut self, metrics: &mut ExporterMetrics) -> (lane: u64)
        requires
            old(self).wf(),
            old(self).next_number() < u64::MAX,
        ensures
            final(self).wf(),
            final(self).same_limits(old(self)),
            final(self).first_turn() == old(self).first_turn(),
            lane == old(self).next_number(),
            final(self).next_number() == lane + 1,
            final(self).strays() == old(self).strays(),
            !has_lane(old(self).lanes(), lane),
            final(self).lanes() == old(self).lanes().push(new_lane(lane)),
            *final(metrics) == (ExporterMetrics {
                producer_lanes: old(metrics).producer_lanes.wrapping_add(1),
                ..*old(metrics)
            }),
    {
        let ghost before = self.lanes();
        let lane: u64 = self.next_lane;
        self.lanes.push((lane, ProducerLane::new()));
        self.next_lane = lane + 1;
        metrics.producer_lanes = metrics.producer_lanes.wrapping_add(1);
        proof {
            let new = new_lane::<R>(lane);
            assert(lane_view(self.lanes@[before.len() as int]).normal =~= new.normal);
            assert(lane_view(self.lanes@[before.len() as int]).reserved =~= new.reserved);
            assert(self.lanes() =~= before.push(new));
            assert forall|i: int| 0 <= i < self.lanes().len() implies (#[trigger] self.lanes()[i]).id
                < self.next_lane by {
                if i < before.len() {
                    assert(before[i].id < lane);
                }
            }
        }
        lane
    }

    fn position(&self, lane: u64) -> (found: Option<usize>)
        ensures
            found matches Some(i) ==> i < self.lanes().len() && self.lanes()[i as int].id == lane,
            found is None <==> !has_lane(self.lanes(), lane),
    {
        let mut i: usize = 0;
        while i < self.lanes.len()
            invariant
                i <= self.lanes@.len(),
                self.lanes() == lane_views(self.lanes@),
                forall|j: int| 0 <= j < i ==> (#[trigger] self.lanes()[j]).id != lane,
            decreases self.lanes@.len() - i,
        {
            assert(self.lanes()[i as int].id == self.lanes@[i as int].0);
            if self.lanes[i].0 == lane {
                return Some(i);
            }
            i = i + 1;
        }
        None
    }

    /// Marks the lane of a thread that has ended. The worker is to be woken.
    pub fn close_lane(&mut self, lane: u64)
        requires
            old(self).wf(),
        ensures
            final(self).wf(),
            final(self).same_limits(old(self)),
            final(self).first_turn() == old(self).first_turn(),
            final(self).next_number() == old(self).next_number(),
            final(self).lanes() == if has_lane(old(self).lanes(), lane) {
                with_lane(
                    old(self).lanes(),
                    LaneView { closed: true, ..lane_of(old(self).lanes(), lane) },
                )
            } else {
                old(self).lanes()
            },
            final(self).strays() == if has_lane(old(self).lanes(), lane) {
                old(self).strays()
            } else {
                old(self).strays().remove(lane)
            },
    {
        let ghost before = self.lanes();
        match self.position(lane) {
            Some(i) => {
                let entry = &mut self.lanes[i];
                entry.1.closed = true;
                proof {
                    lemma_lane_of(before, self.next_lane, i as int);
                    lemma_one_lane_changed(
                        before,
                        self.lanes(),
                        self.next_lane,
                        i as int,
                    );
                }
            },
            None => {
                self.forget(lane);
            },
        }
    }

    fn forget(&mut self, lane: u64)
        ensures
            final(self).stray@.to_set() == old(self).stray@.to_set().remove(lane),
            *final(self) == (LogCollector { stray: final(self).stray, ..*old(self) }),
    {
        let ghost all = self.stray@;
        let mut rest: Vec<u64> = Vec::new();
        let mut i: usize = 0;
        while i < self.stray.len()
            invariant
                i <= self.stray@.len(),
                *self == *old(self),
                all == self.stray@,
                forall|n: u64| #[trigger]
                    rest@.contains(n) <==> n != lane && all.take(i as int).contains(n),
            decreases self.stray@.len() - i,
        {
            let number: u64 = self.stray[i];
            let ghost before = rest@;
            if number != lane {
                rest.push(number);
            }
            proof {
                assert(all.take(i + 1) =~= all.take(i as int).push(number));
                lemma_push_contains(all.take(i as int), number);
                lemma_push_contains(before, number);
            }
            i = i + 1;
        }
        self.stray = rest;
        proof {
            assert(all.take(i as int) =~= all);
            assert(self.stray@.to_set() =~= all.to_set().remove(lane));
        }
    }

    fn is_stray(&self, lane: u64) -> (found: bool)
        ensures
            found == self.strays().contains(lane),
    {
        let mut i: usize = 0;
        while i < self.stray.len()
            invariant
                i <= self.stray@.len(),
                forall|j: int| 0 <= j < i ==> self.stray@[j] != lane,
            decreases self.stray@.len() - i,
        {
            if self.stray[i] == lane {
                assert(self.stray@[i as int] == lane);
                return true;
            }
            i = i + 1;
        }
        false
    }

    /// Submits a record to a lane: to its normal queue while there is room, else to its reserved
    /// queue where the record has priority. Says whether the worker is to be woken.
    ///
    /// A lane that is registered no longer takes records that nobody drains: they are dropped here.
    pub fn submit_to_lane(
        &mut self,
        metrics: &mut ExporterMetrics,
        lane: u64,
        log: EdenLog<R>,
        priority: bool,
    ) -> (result: (SubmitResult, bool))
        requires
            old(self).wf(),
        ensures
            final(self).wf(),
            final(self).same_limits(old(self)),
            final(self).first_turn() == old(self).first_turn(),
            final(self).next_number() == old(self).next_number(),
            is_submission(
                old(self).lanes(),
                final(self).lanes(),
                *old(metrics),
                *final(metrics),
                old(self).strays(),
                final(self).strays(),
                admitting_queue(
                    *old(metrics),
                    old(self).normal_limit(),
                    old(self).reserved_limit(),
                    priority,
                ),
                lane,
                log,
                result,
            ),
    {
        let ghost before = self.lanes();
        let queue = if claim(&mut metrics.normal_queue_depth, self.normal_capacity) {
            QueueKind::Normal
        } else if priority && claim(&mut metrics.reserved_queue_depth, self.reserved_capacity) {
            QueueKind::Reserved
        } else {
            return (SubmitResult::Full, false);
        };
        let wake = match self.position(lane) {
            Some(i) => {
                let entry = &mut self.lanes[i];
                let was_empty = entry.1.push(log, queue);
                proof {
                    lemma_lane_of(before, self.next_lane, i as int);
                    lemma_one_lane_changed(
                        before,
                        self.lanes(),
                        self.next_lane,
                        i as int,
                    );
                }
                was_empty
            },
            None => {
                let was_empty = !self.is_stray(lane);
                if was_empty {
                    let ghost strays = self.stray@;
                    self.stray.push(lane);
                    proof {
                        lemma_push_contains(strays, lane);
                    }
                }
                assert(self.strays() =~= old(self).strays().insert(lane));
                was_empty
            },
        };
        (SubmitResult::Accepted, wake)
    }

    /// Submits a record to the lane of a thread, which is added at the thread's first submission.
    /// Says whether the worker is to be woken.
    pub fn submit(
        &mut self,
        metrics: &mut ExporterMetrics,
        producers: &mut LocalProducers,
        log: EdenLog<R>,
        priority: bool,
    ) -> (result: (SubmitResult, bool))
        requires
            old(self).wf(),
            old(producers).entry_of(old(self).number()) is None ==> old(self).next_number()
                < u64::MAX,
        ensures
            final(self).wf(),
            final(self).same_limits(old(self)),
            final(self).first_turn() == old(self).first_turn(),
            match old(producers).entry_of(old(self).number()) {
                Some(i) => {
                    &&& final(producers).lanes@ == old(producers).lanes@
                    &&& final(self).next_number() == old(self).next_number()
                    &&& is_submission(
                        old(self).lanes(),
                        final(self).lanes(),
                        *old(metrics),
                        *final(metrics),
                        old(self).strays(),
                        final(self).strays(),
                        admitting_queue(
                            *old(metrics),
                            old(self).normal_limit(),
                            old(self).reserved_limit(),
                            priority,
                        ),
                        old(producers).lanes@[i].1,
                        log,
                        result,
                    )
                },
                None => {
                    &&& final(producers).lanes@ == old(producers).lanes@.push(
                        (old(self).number(), old(self).next_number()),
                    )
                    &&& final(self).next_number() == old(self).next_number() + 1
                    &&& is_submission(
                        old(self).lanes().push(new_lane(old(self).next_number())),
                        final(self).lanes(),
                        (ExporterMetrics {
                            producer_lanes: old(metrics).producer_lanes.wrapping_add(1),
                            ..*old(metrics)
                        }),
                        *final(metrics),
                        old(self).strays(),
                        final(self).strays(),
                        admitting_queue(
                            *old(metrics),
                            old(self).normal_limit(),
                            old(self).reserved_limit(),
                            priority,
                        ),
                        old(self).next_number(),
                        log,
                        result,
                    )
                },
            },
    {
        let lane: u64 = match producers.position(self.id) {
            Some(i) => producers.lanes[i].1,
            None => {
                let lane: u64 = self.register_lane(metrics);
                producers.lanes.push((self.id, lane));
                lane
            },
        };
        self.submit_to_lane(metrics, lane, log, priority)
    }

    /// Moves all records of the lanes to the outputs of the worker: those of the reserved queues,
    /// and those of the normal ones, each in turns that begin with another lane at every drain.
    /// Lanes of threads that have ended and left nothing are removed. Gives the number of records.
    pub fn drain_into(
        &mut self,
        metrics: &mut ExporterMetrics,
        reserved_output: &mut VecDeque<QueuedLog<R>>,
        normal_output: &mut VecDeque<QueuedLog<R>>,
    ) -> (moved: usize)
        requires
            old(self).wf(),
        ensures
            final(self).wf(),
            final(self).same_limits(old(self)),
            final(self).next_number() == old(self).next_number(),
            final(self).strays() == old(self).strays(),
            is_drain(
                old(self).lanes(),
                old(self).first_turn(),
                final(self).lanes(),
                final(self).first_turn(),
                old(reserved_output)@,
                final(reserved_output)@,
                old(normal_output)@,
                final(normal_output)@,
            ),
            *final(metrics) == metrics_after_drain(*old(metrics), old(self).lanes()),
            final(reserved_output)@.len() + final(normal_output)@.len() <= usize::MAX ==> moved
                == final(reserved_output)@.len() + final(normal_output)@.len() - old(
                reserved_output,
            )@.len() - old(normal_output)@.len(),
            kept_lanes(old(self).lanes()).len() == 0 ==> moved == 0,
    {
        let start_len: usize = reserved_output.len().saturating_add(normal_output.len());
        let removed: usize = self.remove_done_lanes();
        metrics.producer_lanes = metrics.producer_lanes.wrapping_sub(removed as u64);
        let ghost kept = self.lanes();
        let count: usize = self.lanes.len();
        if count == 0 {
            self.cursor = 0;
            proof {
                assert(self.lanes() =~= emptied_lanes(kept));
                assert(reserved_output@ =~= reserved_output@ + Seq::<QueuedLog<R>>::empty());
                assert(normal_output@ =~= normal_output@ + Seq::<QueuedLog<R>>::empty());
            }
            return 0;
        }
        let start: usize = self.cursor % count;
        self.cursor = (start + 1) % count;
        let (mut reserved, mut normal) = self.take_queues();
        rotate(&mut reserved, start);
        rotate(&mut normal, start);
        proof {
            assert(queue_views(reserved@) =~= rotated(reserveds(kept), start as int));
            assert(queue_views(normal@) =~= rotated(normals(kept), start as int));
        }
        drain_batches(&mut reserved, QueueKind::Reserved, reserved_output);
        drain_batches(&mut normal, QueueKind::Normal, normal_output);
        proof {
            lemma_rotated_stays_empty(reserved@, count - start);
            lemma_rotated_stays_empty(normal@, count - start);
        }
        rotate(&mut reserved, count - start);
        rotate(&mut normal, count - start);
        self.recycle_queues(reserved, normal);
        assert(self.lanes() =~= emptied_lanes(kept));
        reserved_output.len().saturating_add(normal_output.len()).saturating_sub(start_len)
    }

    fn remove_done_lanes(&mut self) -> (removed: usize)
        requires
            old(self).wf(),
        ensures
            final(self).wf(),
            final(self).same_limits(old(self)),
            final(self).next_lane == old(self).next_lane,
            final(self).stray == old(self).stray,
            final(self).cursor == old(self).cursor,
            final(self).lanes() == kept_lanes(old(self).lanes()),
            removed == old(self).lanes().len() - kept_lanes(old(self).lanes()).len(),
    {
        let ghost all = self.lanes@;
        let count: usize = self.lanes.len();
        let mut lanes: Vec<(u64, ProducerLane<R>)> = Vec::new();
        std::mem::swap(&mut lanes, &mut self.lanes);
        let mut kept: Vec<(u64, ProducerLane<R>)> = Vec::new();
        assert(all.take(0) =~= Seq::<(u64, ProducerLane<R>)>::empty());
        assert(lane_views(kept@) =~= kept_lanes(lane_views(all.take(0))));
        for lane in it: lanes
            invariant
                it.seq() == all,
                forall|i: int| 0 <= i < all.len() ==> (#[trigger] all[i]).1.wf(),
                forall|i: int| 0 <= i < kept@.len() ==> (#[trigger] kept@[i]).1.wf(),
                kept@.len() <= it.index(),
                lane_views(kept@) == kept_lanes(lane_views(all.take(it.index() as int))),
        {
            let ghost i = it.index() as int;
            assert(lane == all[i]);
            assert(lane_views(all.take(i + 1)).drop_last() =~= lane_views(all.take(i)));
            assert(lane_views(all.take(i + 1)).last() == lane_view(lane));
            let ghost before = lane_views(kept@);
            if !lane.1.is_closed_and_empty() {
                kept.push(lane);
                assert(lane_views(kept@) =~= before.push(lane_view(lane)));
            }
        }
        proof {
            assert(all.take(all.len() as int) =~= all);
            lemma_kept_lanes(lane_views(all), self.next_lane);
        }
        let removed: usize = count - kept.len();
        self.lanes = kept;
        removed
    }

    fn take_queues(&mut self) -> (queues: (Vec<VecDeque<EdenLog<R>>>, Vec<VecDeque<EdenLog<R>>>))
        requires
            old(self).wf(),
        ensures
            final(self).wf(),
            final(self).same_limits(old(self)),
            final(self).next_lane == old(self).next_lane,
            final(self).stray == old(self).stray,
            final(self).cursor == old(self).cursor,
            final(self).lanes() == taken_lanes(old(self).lanes()),
            queues.0@.len() == old(self).lanes().len(),
            queues.1@.len() == old(self).lanes().len(),
            queue_views(queues.0@) == reserveds(old(self).lanes()),
            queue_views(queues.1@) == normals(old(self).lanes()),
    {
        let ghost all = self.lanes@;
        let mut reserved: Vec<VecDeque<EdenLog<R>>> = Vec::new();
        let mut normal: Vec<VecDeque<EdenLog<R>>> = Vec::new();
        let mut i: usize = 0;
        while i < self.lanes.len()
            invariant
                i <= all.len(),
                self.lanes@.len() == all.len(),
                self.same_limits(old(self)),
                self.next_lane == old(self).next_lane,
                self.stray == old(self).stray,
                self.cursor == old(self).cursor,
                reserved@.len() == i,
                normal@.len() == i,
                forall|j: int| 0 <= j < all.len() ==> (#[trigger] all[j]).1.wf(),
                forall|j: int| i <= j < all.len() ==> #[trigger] self.lanes@[j] == all[j],
                forall|j: int|
                    0 <= j < i ==> {
                        &&& (#[trigger] self.lanes@[j]).1.wf()
                        &&& self.lanes@[j].1.worker_spare is None
                        &&& self.lanes@[j].1.queues.empty()
                        &&& self.lanes@[j].0 == all[j].0
                        &&& self.lanes@[j].1.closed == all[j].1.closed
                    },
                forall|j: int|
                    0 <= j < i ==> (#[trigger] reserved@[j])@ == all[j].1.queues.reserved@,
                forall|j: int| 0 <= j < i ==> (#[trigger] normal@[j])@ == all[j].1.queues.normal@,
            decreases all.len() - i,
        {
            let lane = &mut self.lanes[i];
            let queues = lane.1.take();
            let LaneQueues { normal: one, reserved: other } = queues;
            normal.push(one);
            reserved.push(other);
            i = i + 1;
        }
        proof {
            let before = lane_views(all);
            assert forall|j: int| 0 <= j < all.len() implies self.lanes()[j]
                == before[j].taken() by {
                assert(self.lanes()[j].normal =~= before[j].taken().normal);
                assert(self.lanes()[j].reserved =~= before[j].taken().reserved);
            }
            assert(self.lanes() =~= taken_lanes(before));
            assert(queue_views(reserved@) =~= reserveds(before));
            assert(queue_views(normal@) =~= normals(before));
            assert forall|j: int, k: int| 0 <= j < k < self.lanes().len() implies (
            #[trigger] self.lanes()[j]).id != (#[trigger] self.lanes()[k]).id by {
                assert(before[j].id != before[k].id);
            }
            assert forall|j: int| 0 <= j < self.lanes().len() implies (#[trigger] self.lanes()[j]).id
                < self.next_lane by {
                assert(before[j].id < self.next_lane);
            }
        }
        (reserved, normal)
    }

    fn recycle_queues(
        &mut self,
        reserved: Vec<VecDeque<EdenLog<R>>>,
        normal: Vec<VecDeque<EdenLog<R>>>,
    )
        requires
            old(self).wf(),
            reserved@.len() == old(self).lanes().len(),
            normal@.len() == old(self).lanes().len(),
            forall|i: int|
                0 <= i < reserved@.len() ==> (#[trigger] queue_views(reserved@)[i]).len() == 0,
            forall|i: int|
                0 <= i < normal@.len() ==> (#[trigger] queue_views(normal@)[i]).len() == 0,
        ensures
            final(self).wf(),
            final(self).same_limits(old(self)),
            final(self).next_lane == old(self).next_lane,
            final(self).stray == old(self).stray,
            final(self).cursor == old(self).cursor,
            final(self).lanes() == old(self).lanes().map_values(
                |lane: LaneView<R>| LaneView { spare: true, ..lane },
            ),
            final(self).lanes@.len() == old(self).lanes@.len(),
            forall|i: int|
                0 <= i < old(self).lanes@.len() ==> (#[trigger] final(self).lanes@[i])
                    == with_spare(old(self).lanes@[i], normal@[i], reserved@[i]),
    {
        let ghost all_reserved = reserved@;
        let ghost all_normal = normal@;
        let ghost all = self.lanes@;
        let mut reserved = reserved;
        let mut normal = normal;
        let mut i: usize = self.lanes.len();
        while i > 0
            invariant
                i <= all.len(),
                self.lanes@.len() == all.len(),
                self.same_limits(old(self)),
                self.next_lane == old(self).next_lane,
                self.stray == old(self).stray,
                self.cursor == old(self).cursor,
                all_reserved.len() == all.len(),
                all_normal.len() == all.len(),
                reserved@ == all_reserved.take(i as int),
                normal@ == all_normal.take(i as int),
                forall|j: int|
                    0 <= j < i ==> (#[trigger] queue_views(reserved@)[j]).len() == 0,
                forall|j: int| 0 <= j < i ==> (#[trigger] queue_views(normal@)[j]).len() == 0,
                forall|j: int| 0 <= j < all.len() ==> (#[trigger] self.lanes@[j]).1.wf(),
                forall|j: int| 0 <= j < i ==> #[trigger] self.lanes@[j] == all[j],
                forall|j: int|
                    i <= j < all.len() ==> (#[trigger] self.lanes@[j]) == with_spare(
                        all[j],
                        all_normal[j],
                        all_reserved[j],
                    ),
            decreases i,
        {
            let ghost r = queue_views(reserved@);
            let ghost n = queue_views(normal@);
            assert(r[i - 1].len() == 0 && n[i - 1].len() == 0);
            match (reserved.pop(), normal.pop()) {
                (Some(other), Some(one)) => {
                    assert(other@ == r[i - 1]);
                    assert(one@ == n[i - 1]);
                    let lane = &mut self.lanes[i - 1];
                    lane.1.recycle(LaneQueues { normal: one, reserved: other });
                },
                _ => {},
            }
            assert forall|j: int| 0 <= j < i - 1 implies (#[trigger] queue_views(
                reserved@,
            )[j]).len() == 0 by {
                assert(queue_views(reserved@)[j] == r[j]);
            }
            assert forall|j: int| 0 <= j < i - 1 implies (#[trigger] queue_views(normal@)[j]).len()
                == 0 by {
                assert(queue_views(normal@)[j] == n[j]);
            }
            i = i - 1;
        }
        assert(self.lanes() =~= lane_views(all).map_values(
            |lane: LaneView<R>| LaneView { spare: true, ..lane },
        ));
    }

    /// Releases a place in a queue, once the worker has taken its record.
    pub fn release(&self, metrics: &mut ExporterMetrics, queue: QueueKind)
        ensures
            *final(metrics) == released(*old(metrics), queue),
    {
        match queue {
            QueueKind::Normal => shared::decrement(&mut metrics.normal_queue_depth),
            QueueKind::Reserved => shared::decrement(&mut metrics.reserved_queue_depth),
        }
    }

    /// Drops all lanes with their records.
    pub fn clear(&mut self, metrics: &mut ExporterMetrics)
        ensures
            final(self).wf(),
            final(self).same_limits(old(self)),
            final(self).next_number() == old(self).next_number(),
            final(self).strays() == old(self).strays(),
            final(self).lanes() == Seq::<LaneView<R>>::empty(),
            final(self).first_turn() == 0,
            *final(metrics) == (ExporterMetrics { producer_lanes: 0, ..*old(metrics) }),
    {
        self.lanes = Vec::new();
        self.cursor = 0;
        metrics.producer_lanes = 0;
        assert(self.lanes() =~= Seq::<LaneView<R>>::empty());
    }
}

/// The records that a drain takes from the reserved queues, in order.
pub open spec fn drained_reserved<R: RequestFields>(lanes: Seq<LaneView<R>>, first: int) -> Seq<
    QueuedLog<R>,
> {
    let kept = kept_lanes(lanes);
    if kept.len() == 0 {
        Seq::empty()
    } else {
        drained_from(
            round_robin(rotated(reserveds(kept), first % (kept.len() as int))),
            QueueKind::Reserved,
        )
    }
}

/// The records that a drain takes from the normal queues, in order.
pub open spec fn drained_normal<R: RequestFields>(lanes: Seq<LaneView<R>>, first: int) -> Seq<
    QueuedLog<R>,
> {
    let kept = kept_lanes(lanes);
    if kept.len() == 0 {
        Seq::empty()
    } else {
        drained_from(
            round_robin(rotated(normals(kept), first % (kept.len() as int))),
            QueueKind::Normal,
        )
    }
}

/// The lane that has the first turn in the drain that follows a drain.
pub open spec fn next_first<R: RequestFields>(lanes: Seq<LaneView<R>>, first: int) -> int {
    let count = kept_lanes(lanes).len() as int;
    if count == 0 {
        0
    } else {
        (first % count + 1) % count
    }
}

/// The gauges once a drain has removed lanes.
pub open spec fn metrics_after_drain<R: RequestFields>(
    metrics: ExporterMetrics,
    lanes: Seq<LaneView<R>>,
) -> ExporterMetrics {
    ExporterMetrics {
        producer_lanes: metrics.producer_lanes.wrapping_sub(
            (lanes.len() - kept_lanes(lanes).len()) as u64,
        ),
        ..metrics
    }
}

/// Whether lanes and outputs are what a drain leaves.
pub open spec fn is_drain<R: RequestFields>(
    before: Seq<LaneView<R>>,
    first_before: int,
    after: Seq<LaneView<R>>,
    first_after: int,
    reserved_before: Seq<QueuedLog<R>>,
    reserved_after: Seq<QueuedLog<R>>,
    normal_before: Seq<QueuedLog<R>>,
    normal_after: Seq<QueuedLog<R>>,
) -> bool {
    &&& after == emptied_lanes(kept_lanes(before))
    &&& first_after == next_first(before, first_before)
    &&& reserved_after == reserved_before + drained_reserved(before, first_before)
    &&& normal_after == normal_before + drained_normal(before, first_before)
}

fn rotate<T>(queues: &mut Vec<VecDeque<T>>, start: usize)
    requires
        start <= old(queues)@.len(),
    ensures
        final(queues)@ == rotated(old(queues)@, start as int),
{
    let ghost all = queues@;
    let mut tail = queues.split_off(start);
    tail.append(queues);
    std::mem::swap(&mut tail, queues);
    assert(queues@ =~= rotated(all, start as int));
}

proof fn lemma_rotated_stays_empty<T>(queues: Seq<VecDeque<T>>, start: int)
    requires
        total(queue_views(queues)) == 0,
        0 <= start <= queues.len(),
    ensures
        forall|i: int|
            0 <= i < queues.len() ==> (#[trigger] queue_views(rotated(queues, start))[i]).len()
                == 0,
{
    lemma_total_zero(queue_views(queues));
    assert forall|i: int| 0 <= i < queues.len() implies (#[trigger] queue_views(
        rotated(queues, start),
    )[i]).len() == 0 by {
        let j = if i < queues.len() - start {
            i + start
        } else {
            i - (queues.len() - start)
        };
        assert(rotated(queues, start)[i] == queues[j]);
        assert(queue_views(queues)[j].len() == 0);
    }
}

proof fn lemma_kept_lanes<R: RequestFields>(lanes: Seq<LaneView<R>>, bound: u64)
    requires
        distinct_ids(lanes, bound),
    ensures
        distinct_ids(kept_lanes(lanes), bound),
        kept_lanes(lanes).len() <= lanes.len(),
        forall|i: int| #![trigger kept_lanes(lanes)[i]]
            0 <= i < kept_lanes(lanes).len() ==> exists|j: int|
                0 <= j < lanes.len() && #[trigger] lanes[j] == kept_lanes(lanes)[i],
    decreases lanes.len(),
{
    if lanes.len() > 0 {
        let front = lanes.drop_last();
        assert forall|i: int, j: int| 0 <= i < j < front.len() implies (#[trigger] front[i]).id != (
        #[trigger] front[j]).id by {
            assert(front[i] == lanes[i] && front[j] == lanes[j]);
        }
        assert forall|i: int| 0 <= i < front.len() implies (#[trigger] front[i]).id < bound by {
            assert(front[i] == lanes[i]);
        }
        lemma_kept_lanes(front, bound);
        let kept = kept_lanes(lanes);
        let kept_front = kept_lanes(front);
        let n = lanes.len() - 1;
        assert forall|i: int| 0 <= i < kept.len() implies exists|j: int|
            0 <= j < lanes.len() && #[trigger] lanes[j] == #[trigger] kept[i] by {
            if i < kept_front.len() {
                let j = choose|j: int| 0 <= j < front.len() && #[trigger] front[j] == kept_front[i];
                assert(lanes[j] == kept[i]);
            } else {
                assert(lanes[n] == kept[i]);
            }
        }
        assert forall|i: int, j: int| 0 <= i < j < kept.len() implies (#[trigger] kept[i]).id != (
        #[trigger] kept[j]).id by {
            if j < kept_front.len() {
                assert(kept_front[i].id != kept_front[j].id);
            } else {
                let k = choose|k: int| 0 <= k < front.len() && #[trigger] front[k] == kept_front[i];
                assert(lanes[k].id != lanes[n].id);
            }
        }
        assert forall|i: int| 0 <= i < kept.len() implies (#[trigger] kept[i]).id < bound by {
            if i < kept_front.len() {
                assert(kept_front[i].id < bound);
            } else {
                assert(lanes[n].id < bound);
            }
        }
    }
}

/// The gauges once a place in a queue is released.
pub open spec fn released(metrics: ExporterMetrics, queue: QueueKind) -> ExporterMetrics {
    match queue {
        QueueKind::Normal => ExporterMetrics {
            normal_queue_depth: shared::one_less(metrics.normal_queue_depth),
            ..metrics
        },
        QueueKind::Reserved => ExporterMetrics {
            reserved_queue_depth: shared::one_less(metrics.reserved_queue_depth),
            ..metrics
        },
    }
}

proof fn lemma_push_contains(s: Seq<u64>, added: u64)
    ensures
        forall|n: u64| #[trigger] s.push(added).contains(n) <==> n == added || s.contains(n),
{
    assert forall|n: u64| #[trigger]
        s.push(added).contains(n) <==> n == added || s.contains(n) by {
        if s.contains(n) {
            let i = choose|i: int| 0 <= i < s.len() && s[i] == n;
            assert(s.push(added)[i] == n);
        }
        assert(s.push(added)[s.len() as int] == added);
    }
}

proof fn lemma_lane_of<R: RequestFields>(lanes: Seq<LaneView<R>>, bound: u64, i: int)
    requires
        distinct_ids(lanes, bound),
        0 <= i < lanes.len(),
    ensures
        has_lane(lanes, lanes[i].id),
        lane_of(lanes, lanes[i].id) == lanes[i],
{
    assert(lanes[i].id == lanes[i].id);
}

proof fn lemma_one_lane_changed<R: RequestFields>(
    before: Seq<LaneView<R>>,
    after: Seq<LaneView<R>>,
    bound: u64,
    i: int,
)
    requires
        distinct_ids(before, bound),
        0 <= i < before.len(),
        after.len() == before.len(),
        after[i].id == before[i].id,
        forall|j: int| 0 <= j < before.len() && j != i ==> #[trigger] after[j] == before[j],
    ensures
        after == with_lane(before, after[i]),
        distinct_ids(after, bound),
{
    assert forall|j: int| 0 <= j < after.len() implies after[j] == with_lane(before, after[i])[j] by {
        if j != i {
            assert(before[j].id != before[i].id);
        }
    }
    assert(after =~= with_lane(before, after[i]));
}

proof fn lemma_total_update<T>(batches: Seq<Seq<T>>, i: int, batch: Seq<T>)
    requires
        0 <= i < batches.len(),
    ensures
        total(batches.update(i, batch)) == total(batches) - batches[i].len() + batch.len(),
    decreases batches.len(),
{
    let after = batches.update(i, batch);
    if i < batches.len() - 1 {
        lemma_total_update(batches.drop_last(), i, batch);
        assert(after.drop_last() =~= batches.drop_last().update(i, batch));
    } else {
        assert(after.drop_last() =~= batches.drop_last());
    }
}

proof fn lemma_total_concat<T>(a: Seq<Seq<T>>, b: Seq<Seq<T>>)
    ensures
        total(a + b) == total(a) + total(b),
    decreases b.len(),
{
    if b.len() == 0 {
        assert(a + b =~= a);
    } else {
        lemma_total_concat(a, b.drop_last());
        assert((a + b).drop_last() =~= a + b.drop_last());
    }
}

proof fn lemma_rotated_total<T>(batches: Seq<Seq<T>>, start: int)
    requires
        0 <= start <= batches.len(),
    ensures
        total(rotated(batches, start)) == total(batches),
{
    lemma_total_concat(batches.take(start), batches.skip(start));
    lemma_total_concat(batches.skip(start), batches.take(start));
    assert(batches.take(start) + batches.skip(start) =~= batches);
}

proof fn lemma_round_robin_len<T>(batches: Seq<Seq<T>>)
    ensures
        round_robin(batches).len() == total(batches),
    decreases total(batches),
{
    if total(batches) > 0 {
        lemma_turn_shrinks(batches);
        lemma_round_robin_len(after_turn(batches));
    }
}

proof fn lemma_kept_total<R: RequestFields>(lanes: Seq<LaneView<R>>)
    ensures
        total(normals(kept_lanes(lanes))) == total(normals(lanes)),
        total(reserveds(kept_lanes(lanes))) == total(reserveds(lanes)),
    decreases lanes.len(),
{
    if lanes.len() == 0 {
        assert(normals(lanes) =~= normals(kept_lanes(lanes)));
        assert(reserveds(lanes) =~= reserveds(kept_lanes(lanes)));
    } else {
        let front = lanes.drop_last();
        lemma_kept_total(front);
        assert(normals(lanes).drop_last() =~= normals(front));
        assert(reserveds(lanes).drop_last() =~= reserveds(front));
        if !lanes.last().is_done() {
            let kept = kept_lanes(lanes);
            assert(normals(kept).drop_last() =~= normals(kept_lanes(front)));
            assert(reserveds(kept).drop_last() =~= reserveds(kept_lanes(front)));
        }
    }
}

/// A submission to a lane that is registered raises the gauge of the admitting queue by exactly the
/// record that the queues hold more, and never beyond the capacity.
pub proof fn law_submissions_are_counted<R: RequestFields>(
    before: Seq<LaneView<R>>,
    after: Seq<LaneView<R>>,
    metrics_before: ExporterMetrics,
    metrics_after: ExporterMetrics,
    normal_capacity: u64,
    reserved_capacity: u64,
    priority: bool,
    lane: u64,
    log: EdenLog<R>,
    result: (SubmitResult, bool),
    bound: u64,
    stray_before: Set<u64>,
    stray_after: Set<u64>,
)
    requires
        distinct_ids(before, bound),
        has_lane(before, lane),
        is_submission(
            before,
            after,
            metrics_before,
            metrics_after,
            stray_before,
            stray_after,
            admitting_queue(metrics_before, normal_capacity, reserved_capacity, priority),
            lane,
            log,
            result,
        ),
    ensures
        metrics_after.normal_queue_depth - metrics_before.normal_queue_depth == total(
            normals(after),
        ) - total(normals(before)),
        metrics_after.reserved_queue_depth - metrics_before.reserved_queue_depth == total(
            reserveds(after),
        ) - total(reserveds(before)),
        metrics_before.normal_queue_depth <= normal_capacity ==> metrics_after.normal_queue_depth
            <= normal_capacity,
        metrics_before.reserved_queue_depth <= reserved_capacity
            ==> metrics_after.reserved_queue_depth <= reserved_capacity,
        result.0 == SubmitResult::Accepted <==> metrics_before.normal_queue_depth
            < normal_capacity || (priority && metrics_before.reserved_queue_depth
            < reserved_capacity),
{
    match admitting_queue(metrics_before, normal_capacity, reserved_capacity, priority) {
        Some(queue) => {
            let i = choose|i: int| 0 <= i < before.len() && (#[trigger] before[i]).id == lane;
            lemma_lane_of(before, bound, i);
            let grown = lane_with(before[i], log, queue);
            assert forall|j: int| 0 <= j < before.len() implies after[j] == before.update(
                i,
                grown,
            )[j] by {
                if j != i {
                    assert(before[j].id != before[i].id);
                }
            }
            assert(after =~= before.update(i, grown));
            assert(normals(after) =~= normals(before).update(i, grown.normal));
            assert(reserveds(after) =~= reserveds(before).update(i, grown.reserved));
            lemma_total_update(normals(before), i, grown.normal);
            lemma_total_update(reserveds(before), i, grown.reserved);
        },
        None => {},
    }
}

/// A drain moves every record of the lanes to the outputs, behind what they hold, and leaves no
/// record in the lanes.
pub proof fn law_drains_move_everything<R: RequestFields>(
    before: Seq<LaneView<R>>,
    first_before: int,
    after: Seq<LaneView<R>>,
    first_after: int,
    reserved_before: Seq<QueuedLog<R>>,
    reserved_after: Seq<QueuedLog<R>>,
    normal_before: Seq<QueuedLog<R>>,
    normal_after: Seq<QueuedLog<R>>,
)
    requires
        is_drain(
            before,
            first_before,
            after,
            first_after,
            reserved_before,
            reserved_after,
            normal_before,
            normal_after,
        ),
    ensures
        total(normals(after)) == 0,
        total(reserveds(after)) == 0,
        normal_after.len() == normal_before.len() + total(normals(before)),
        reserved_after.len() == reserved_before.len() + total(reserveds(before)),
        normal_after.take(normal_before.len() as int) == normal_before,
        reserved_after.take(reserved_before.len() as int) == reserved_before,
        forall|i: int|
            normal_before.len() <= i < normal_after.len() ==> (#[trigger] normal_after[i]).queue
                == QueueKind::Normal,
        forall|i: int|
            reserved_before.len() <= i < reserved_after.len() ==> (
            #[trigger] reserved_after[i]).queue == QueueKind::Reserved,
{
    let kept = kept_lanes(before);
    lemma_kept_total(before);
    lemma_total_zero(normals(after));
    lemma_total_zero(reserveds(after));
    assert(normal_after.take(normal_before.len() as int) =~= normal_before);
    assert(reserved_after.take(reserved_before.len() as int) =~= reserved_before);
    if kept.len() == 0 {
        assert(normals(kept) =~= Seq::<Seq<EdenLog<R>>>::empty());
        assert(reserveds(kept) =~= Seq::<Seq<EdenLog<R>>>::empty());
    } else {
        let start = first_before % (kept.len() as int);
        lemma_rotated_total(normals(kept), start);
        lemma_rotated_total(reserveds(kept), start);
        lemma_round_robin_len(rotated(normals(kept), start));
        lemma_round_robin_len(rotated(reserveds(kept), start));
    }
}

/// A record that is admitted stands behind the other records of its lane, in the normal queue as long
/// as that has room, and in the reserved queue only where the normal one is full and the record has
/// priority. Every other lane stays as it is, and so does the other queue of its own lane. The worker
/// is to be woken exactly where the lane was empty.
pub proof fn law_an_admitted_record_stands_last_in_its_lane<R: RequestFields>(
    before: Seq<LaneView<R>>,
    after: Seq<LaneView<R>>,
    metrics_before: ExporterMetrics,
    metrics_after: ExporterMetrics,
    normal_capacity: u64,
    reserved_capacity: u64,
    priority: bool,
    own: int,
    log: EdenLog<R>,
    result: (SubmitResult, bool),
    bound: u64,
    stray_before: Set<u64>,
    stray_after: Set<u64>,
)
    requires
        distinct_ids(before, bound),
        0 <= own < before.len(),
        is_submission(
            before,
            after,
            metrics_before,
            metrics_after,
            stray_before,
            stray_after,
            admitting_queue(metrics_before, normal_capacity, reserved_capacity, priority),
            before[own].id,
            log,
            result,
        ),
    ensures
        after.len() == before.len(),
        forall|i: int| 0 <= i < before.len() && i != own ==> #[trigger] after[i] == before[i],
        metrics_before.normal_queue_depth < normal_capacity ==> {
            &&& after[own].normal == before[own].normal.push(log)
            &&& after[own].reserved == before[own].reserved
            &&& metrics_after.reserved_queue_depth == metrics_before.reserved_queue_depth
        },
        metrics_before.normal_queue_depth >= normal_capacity && priority
            && metrics_before.reserved_queue_depth < reserved_capacity ==> {
            &&& after[own].reserved == before[own].reserved.push(log)
            &&& after[own].normal == before[own].normal
            &&& metrics_after.normal_queue_depth == metrics_before.normal_queue_depth
        },
        result.0 == SubmitResult::Full ==> after == before && !result.1,
        result.0 == SubmitResult::Accepted ==> (result.1 <==> before[own].normal.len() == 0
            && before[own].reserved.len() == 0),
        after[own].id == before[own].id && after[own].closed == before[own].closed,
{
    lemma_lane_of(before, bound, own);
    assert(has_lane(before, before[own].id));
    assert forall|i: int| 0 <= i < before.len() && i != own implies #[trigger] after[i]
        == before[i] by {
        assert(before[i].id != before[own].id);
    }
}

/// The first turn moves on from drain to drain: the lane behind the one that had it comes next, and
/// behind the last lane the first one.
pub proof fn law_the_first_turn_moves_on<R: RequestFields>(lanes: Seq<LaneView<R>>, first: int)
    requires
        0 <= first < kept_lanes(lanes).len(),
    ensures
        first + 1 < kept_lanes(lanes).len() ==> next_first(lanes, first) == first + 1,
        first + 1 == kept_lanes(lanes).len() ==> next_first(lanes, first) == 0,
{
    let count = kept_lanes(lanes).len() as int;
    vstd::arithmetic::div_mod::lemma_small_mod(first as nat, count as nat);
    if first + 1 < count {
        vstd::arithmetic::div_mod::lemma_small_mod((first + 1) as nat, count as nat);
    } else {
        vstd::arithmetic::div_mod::lemma_mod_self_0(count);
    }
}

proof fn lemma_turn_starts<T>(batches: Seq<Seq<T>>)
    requires
        batches.len() > 0,
        batches[0].len() > 0,
    ensures
        turn(batches).len() > 0,
        turn(batches)[0] == batches[0][0],
    decreases batches.len(),
{
    if batches.len() == 1 {
        assert(batches.drop_last() =~= Seq::<Seq<T>>::empty());
        assert(turn(batches.drop_last()) =~= Seq::<T>::empty());
    } else {
        assert(batches.drop_last()[0] == batches[0]);
        lemma_turn_starts(batches.drop_last());
    }
}

/// A drain starts with the lane whose turn it is: where that lane has records, the oldest of them
/// comes out first.
pub proof fn law_a_drain_starts_with_the_lane_whose_turn_it_is<R: RequestFields>(
    lanes: Seq<LaneView<R>>,
    first: int,
)
    requires
        0 <= first < kept_lanes(lanes).len(),
    ensures
        kept_lanes(lanes)[first].reserved.len() > 0 ==> drained_reserved(lanes, first).len() > 0
            && drained_reserved(lanes, first)[0].log == kept_lanes(lanes)[first].reserved[0],
        kept_lanes(lanes)[first].normal.len() > 0 ==> drained_normal(lanes, first).len() > 0
            && drained_normal(lanes, first)[0].log == kept_lanes(lanes)[first].normal[0],
{
    let kept = kept_lanes(lanes);
    vstd::arithmetic::div_mod::lemma_small_mod(first as nat, kept.len());
    if kept[first].reserved.len() > 0 {
        let queues = rotated(reserveds(kept), first);
        assert(queues[0] == kept[first].reserved);
        lemma_turn_starts(queues);
        lemma_total_zero(queues);
    }
    if kept[first].normal.len() > 0 {
        let queues = rotated(normals(kept), first);
        assert(queues[0] == kept[first].normal);
        lemma_turn_starts(queues);
        lemma_total_zero(queues);
    }
}

/// A drain removes a lane exactly where its thread has ended and it has no record left.
pub proof fn law_only_ended_lanes_leave<R: RequestFields>(lanes: Seq<LaneView<R>>)
    ensures
        forall|i: int|
            0 <= i < lanes.len() && (!(#[trigger] lanes[i]).closed || lanes[i].normal.len() > 0
                || lanes[i].reserved.len() > 0) ==> kept_lanes(lanes).contains(lanes[i]),
        forall|i: int|
            0 <= i < kept_lanes(lanes).len() ==> {
                let lane = #[trigger] kept_lanes(lanes)[i];
                lanes.contains(lane) && (!lane.closed || lane.normal.len() > 0
                    || lane.reserved.len() > 0)
            },
    decreases lanes.len(),
{
    if lanes.len() > 0 {
        let front = lanes.drop_last();
        law_only_ended_lanes_leave(front);
        let kept = kept_lanes(lanes);
        let before = kept_lanes(front);
        assert forall|i: int|
            0 <= i < lanes.len() && (!(#[trigger] lanes[i]).closed || lanes[i].normal.len() > 0
                || lanes[i].reserved.len() > 0) implies kept.contains(lanes[i]) by {
            if i < front.len() {
                assert(front[i] == lanes[i]);
                let j = choose|j: int| 0 <= j < before.len() && before[j] == lanes[i];
                assert(kept[j] == lanes[i]);
            } else {
                assert(kept[before.len() as int] == lanes[i]);
            }
        }
        assert forall|i: int| 0 <= i < kept.len() implies {
            let lane = #[trigger] kept[i];
            lanes.contains(lane) && (!lane.closed || lane.normal.len() > 0 || lane.reserved.len()
                > 0)
        } by {
            if i < before.len() {
                assert(kept[i] == before[i]);
                let j = choose|j: int| 0 <= j < front.len() && front[j] == before[i];
                assert(lanes[j] == kept[i]);
            } else {
                assert(lanes[lanes.len() - 1] == kept[i]);
            }
        }
    }
}

}
