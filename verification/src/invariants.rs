//! Cheap per-tick invariants.
//!
//! These run on every driver tick, not only at quiesce, so a regression is caught
//! at the tick it happens rather than masked by later progress. The checks are
//! read-only and draw no random numbers, so enabling them leaves a run's trace
//! unchanged.

use crate::cluster::{ClusterReading, IggyNamespace, ReplicaReading};
use crate::state_checker::{
    checked, newly_committed, passed_check_means_replicas_agree, CheckerView, CommitView,
    Divergence, DivergenceView, StateChecker,
};
use crate::text::{
    decimal, halves_are_mentioned, mentions, push_decimal, push_seed_note, seed_note,
    text_mentions_itself,
};
use crate::workload::{
    in_flight_stays_within_queues, sent_by, Workload, WorkloadView, CLIENT_REQUEST_QUEUE_MAX,
};
use std::collections::BTreeMap;
use vstd::prelude::*;
use vstd::string::*;

verus! {

/// A quantity that only ever grows on a correct replica.
#[derive(Debug, Clone, Copy, PartialEq, Eq, Structural)]
pub enum Metric {
    /// A partition's persisted offset.
    CommitOffset,
    /// A group's view; a view change only advances it.
    View,
}

impl Metric {
    /// How messages call the metric.
    pub open spec fn label(self) -> Seq<char> {
        match self {
            Metric::CommitOffset => "commit_offset"@,
            Metric::View => "consensus view"@,
        }
    }

    /// How messages call the metric.
    pub fn name(self) -> (name: &'static str)
        ensures
            name@ == self.label(),
    {
        match self {
            Metric::CommitOffset => "commit_offset",
            Metric::View => "consensus view",
        }
    }
}

/// One metric read of one namespace on one replica.
#[derive(Debug, Clone, Copy, PartialEq, Eq, Structural)]
pub struct Sample {
    pub metric: Metric,
    pub replica: u8,
    pub ns: IggyNamespace,
    pub value: u64,
}

/// Replica and namespace, as a key.
pub type MarkKey = (u8, u32, u32, u32);

/// The key of a replica's namespace.
pub open spec fn mark_key(replica: u8, ns: IggyNamespace) -> MarkKey {
    (replica, ns.stream_id, ns.topic_id, ns.partition_id)
}

/// High-water marks per replica and namespace.
pub ghost struct MarksView {
    pub commit_offset: Map<MarkKey, u64>,
    pub view: Map<MarkKey, u64>,
}

impl MarksView {
    /// The marks of one metric.
    pub open spec fn of(self, metric: Metric) -> Map<MarkKey, u64> {
        match metric {
            Metric::CommitOffset => self.commit_offset,
            Metric::View => self.view,
        }
    }

    /// The last value seen where a sample was read.
    pub open spec fn previous(self, sample: Sample) -> Option<u64> {
        let marks = self.of(sample.metric);
        let key = mark_key(sample.replica, sample.ns);
        if marks.contains_key(key) {
            Some(marks[key])
        } else {
            None
        }
    }

    /// The sample is below the last value seen.
    pub open spec fn regresses(self, sample: Sample) -> bool {
        self.previous(sample) is Some && sample.value < self.previous(sample)->0
    }

    /// The marks with a sample taken over.
    pub open spec fn with(self, sample: Sample) -> MarksView {
        let key = mark_key(sample.replica, sample.ns);
        match sample.metric {
            Metric::CommitOffset => MarksView {
                commit_offset: self.commit_offset.insert(key, sample.value),
                ..self
            },
            Metric::View => MarksView { view: self.view.insert(key, sample.value), ..self },
        }
    }
}

/// The marks with a list of samples taken over, up to the first regression.
pub open spec fn observed(marks: MarksView, samples: Seq<Sample>) -> (MarksView, Option<Sample>)
    decreases samples.len(),
{
    if samples.len() == 0 {
        (marks, None)
    } else {
        let (before, failed) = observed(marks, samples.drop_last());
        if failed is Some {
            (before, failed)
        } else if before.regresses(samples.last()) {
            (before, Some(samples.last()))
        } else {
            (before.with(samples.last()), None)
        }
    }
}

/// The samples of a replica's first `upto` namespaces: offset, then view, where
/// the replica holds them.
pub open spec fn replica_samples(
    reading: ReplicaReading,
    replica: u8,
    namespaces: Seq<IggyNamespace>,
    upto: int,
) -> Seq<Sample>
    decreases upto,
{
    if upto <= 0 {
        Seq::empty()
    } else {
        let ns = namespaces[upto - 1];
        let before = replica_samples(reading, replica, namespaces, upto - 1);
        let with_offset = match reading.offset(ns) {
            Some(value) => before.push(Sample { metric: Metric::CommitOffset, replica, ns, value }),
            None => before,
        };
        match reading.group_view(ns) {
            Some(value) => with_offset.push(Sample { metric: Metric::View, replica, ns, value }),
            None => with_offset,
        }
    }
}

/// The samples of the live replicas below `bound`, replica by replica.
pub open spec fn cluster_samples(
    cluster: ClusterReading,
    namespaces: Seq<IggyNamespace>,
    bound: int,
) -> Seq<Sample>
    decreases bound,
{
    if bound <= 0 {
        Seq::empty()
    } else {
        let before = cluster_samples(cluster, namespaces, bound - 1);
        if cluster.live(bound - 1) {
            before + replica_samples(
                cluster.replicas@[bound - 1],
                (bound - 1) as u8,
                namespaces,
                namespaces.len() as int,
            )
        } else {
            before
        }
    }
}

/// What a per-tick check found.
#[derive(Debug)]
pub enum InvariantFault {
    /// A metric fell.
    Regression { metric: Metric, replica: u8, ns: IggyNamespace, prev: u64, cur: u64 },
    /// More requests in flight than the clients' queues hold.
    InFlightOverflow { in_flight: usize, bound: usize, client_count: u8 },
    /// Replicas' committed histories differ.
    Diverged(Divergence),
}

/// What a per-tick check found.
pub ghost enum InvariantFaultView {
    Regression { metric: Metric, replica: u8, ns: IggyNamespace, prev: u64, cur: u64 },
    InFlightOverflow { in_flight: usize, bound: usize, client_count: u8 },
    Diverged(DivergenceView),
}

impl View for InvariantFault {
    type V = InvariantFaultView;

    open spec fn view(&self) -> InvariantFaultView {
        match *self {
            InvariantFault::Regression { metric, replica, ns, prev, cur } => {
                InvariantFaultView::Regression { metric, replica, ns, prev, cur }
            },
            InvariantFault::InFlightOverflow { in_flight, bound, client_count } => {
                InvariantFaultView::InFlightOverflow { in_flight, bound, client_count }
            },
            InvariantFault::Diverged(found) => InvariantFaultView::Diverged(found@),
        }
    }
}

impl InvariantFaultView {
    /// A fault that a check can report.
    pub open spec fn wf(self) -> bool {
        self is Diverged ==> self->Diverged_0.wf()
    }

    /// The report of the fault, with the seed that replays the run.
    pub open spec fn report(self, seed: u64) -> Seq<char> {
        match self {
            InvariantFaultView::Regression { metric, replica, ns, prev, cur } => {
                regression_report(seed, metric.label(), replica, ns, prev, cur)
            },
            InvariantFaultView::InFlightOverflow { in_flight, bound, client_count } => {
                "in-flight requests "@ + decimal(in_flight as nat) + " exceed bound "@ + decimal(
                    bound as nat,
                ) + " (client_count="@ + decimal(client_count as nat) + ", queue_max="@ + decimal(
                    CLIENT_REQUEST_QUEUE_MAX as nat,
                ) + ")"@ + seed_note(seed)
            },
            InvariantFaultView::Diverged(found) => found.report(seed),
        }
    }
}

impl InvariantFault {
    /// The report of the fault, with the seed that replays the run.
    pub fn message(&self, seed: u64) -> (text: String)
        requires
            self@.wf(),
        ensures
            text@ == self@.report(seed),
    {
        match self {
            InvariantFault::Regression { metric, replica, ns, prev, cur } => {
                regression_message(seed, metric.name(), *replica, *ns, *prev, *cur)
            },
            InvariantFault::InFlightOverflow { in_flight, bound, client_count } => {
                let mut out = String::new();
                out.append("in-flight requests ");
                push_decimal(&mut out, *in_flight as u128);
                out.append(" exceed bound ");
                push_decimal(&mut out, *bound as u128);
                out.append(" (client_count=");
                push_decimal(&mut out, *client_count as u128);
                out.append(", queue_max=");
                push_decimal(&mut out, CLIENT_REQUEST_QUEUE_MAX as u128);
                out.append(")");
                push_seed_note(&mut out, seed);
                assert(out@ =~= self@.report(seed));
                out
            },
            InvariantFault::Diverged(found) => found.message(seed),
        }
    }
}

/// The report of a metric that fell.
pub open spec fn regression_report(
    seed: u64,
    metric: Seq<char>,
    replica: u8,
    ns: IggyNamespace,
    prev: u64,
    cur: u64,
) -> Seq<char> {
    metric + " regressed on replica "@ + decimal(replica as nat) + " ns "@ + ns.label() + ": "@
        + decimal(prev as nat) + " -> "@ + decimal(cur as nat) + seed_note(seed)
}

fn regression_message(
    seed: u64,
    metric: &str,
    replica_idx: u8,
    ns: IggyNamespace,
    prev: u64,
    cur: u64,
) -> (text: String)
    ensures
        text@ == regression_report(seed, metric@, replica_idx, ns, prev, cur),
{
    let mut out = String::new();
    out.append(metric);
    out.append(" regressed on replica ");
    push_decimal(&mut out, replica_idx as u128);
    out.append(" ns ");
    ns.push_label(&mut out);
    out.append(": ");
    push_decimal(&mut out, prev as u128);
    out.append(" -> ");
    push_decimal(&mut out, cur as u128);
    push_seed_note(&mut out, seed);
    assert(out@ =~= regression_report(seed, metric@, replica_idx, ns, prev, cur));
    out
}

/// Fails with a report if `cur < prev`. Shared by the `commit_offset` and `view`
/// checks.
pub fn assert_no_regression(
    seed: u64,
    metric: &str,
    replica_idx: u8,
    ns: IggyNamespace,
    prev: u64,
    cur: u64,
) -> (result: Result<(), String>)
    ensures
        result is Ok <==> cur >= prev,
        result is Err ==> result->Err_0@ == regression_report(
            seed,
            metric@,
            replica_idx,
            ns,
            prev,
            cur,
        ),
{
    if cur >= prev {
        Ok(())
    } else {
        Err(regression_message(seed, metric, replica_idx, ns, prev, cur))
    }
}

/// What the checks carry across ticks.
pub ghost struct InvariantsView {
    pub marks: MarksView,
    pub checker: CheckerView,
}

impl InvariantsView {
    /// Nothing was seen yet.
    pub open spec fn is_blank(self) -> bool {
        &&& self.marks.commit_offset == Map::<MarkKey, u64>::empty()
        &&& self.marks.view == Map::<MarkKey, u64>::empty()
        &&& self.checker.commits == Map::<u64, CommitView>::empty()
        &&& self.checker.verified == Map::<u8, u64>::empty()
    }
}

/// The checks after a pass over a reading, and what it found, if anything: first
/// the samples in order, then the in-flight ceiling, then the committed chain.
pub open spec fn inspected(
    before: InvariantsView,
    cluster: ClusterReading,
    namespaces: Seq<IggyNamespace>,
    in_flight: usize,
    client_count: u8,
) -> (InvariantsView, Option<InvariantFaultView>) {
    let samples = cluster_samples(cluster, namespaces, cluster.replicas@.len() as int);
    let (marks, fallen) = observed(before.marks, samples);
    let bound = (client_count * CLIENT_REQUEST_QUEUE_MAX) as usize;
    let (checker, diverged) = checked(before.checker, cluster);
    if fallen is Some {
        let sample = fallen->0;
        (
            InvariantsView { marks, ..before },
            Some(
                InvariantFaultView::Regression {
                    metric: sample.metric,
                    replica: sample.replica,
                    ns: sample.ns,
                    prev: marks.previous(sample)->0,
                    cur: sample.value,
                },
            ),
        )
    } else if in_flight > bound {
        (
            InvariantsView { marks, ..before },
            Some(InvariantFaultView::InFlightOverflow { in_flight, bound, client_count }),
        )
    } else {
        (
            InvariantsView { marks, checker },
            match diverged {
                Some(found) => Some(InvariantFaultView::Diverged(found)),
                None => None,
            },
        )
    }
}

/// High-water marks carried across ticks so each new reading can be compared
/// against the last.
#[derive(Debug)]
pub struct Invariants {
    commit_offset: BTreeMap<MarkKey, u64>,
    view: BTreeMap<MarkKey, u64>,
    state_checker: StateChecker,
}

impl View for Invariants {
    type V = InvariantsView;

    closed spec fn view(&self) -> InvariantsView {
        InvariantsView {
            marks: MarksView { commit_offset: self.commit_offset@, view: self.view@ },
            checker: self.state_checker@,
        }
    }
}

impl Default for Invariants {
    /// Checks that have seen nothing.
    fn default() -> (invariants: Self)
        ensures
            invariants@.is_blank(),
    {
        Invariants::new()
    }
}

impl Invariants {
    /// Checks that have seen nothing.
    pub fn new() -> (invariants: Self)
        ensures
            invariants@.is_blank(),
    {
        Invariants {
            commit_offset: BTreeMap::new(),
            view: BTreeMap::new(),
            state_checker: StateChecker::new(),
        }
    }

    /// Number of `(replica, namespace)` pairs observed so far, to show that the
    /// checks ran over live state rather than vacuously.
    pub fn tracked_pairs(&self) -> (pairs: usize)
        ensures
            pairs == self@.marks.commit_offset.dom().len(),
    {
        self.commit_offset.len()
    }

    /// The canonical committed chain built so far.
    pub fn state_checker(&self) -> (checker: &StateChecker)
        ensures
            checker@ == self@.checker,
    {
        &self.state_checker
    }

    /// Takes one sample over, or reports that it fell.
    fn observe(&mut self, sample: Sample) -> (result: Result<(), InvariantFault>)
        ensures
            final(self)@.checker == old(self)@.checker,
            if old(self)@.marks.regresses(sample) {
                &&& result is Err
                &&& final(self)@.marks == old(self)@.marks
                &&& result->Err_0@ == (InvariantFaultView::Regression {
                    metric: sample.metric,
                    replica: sample.replica,
                    ns: sample.ns,
                    prev: old(self)@.marks.previous(sample)->0,
                    cur: sample.value,
                })
            } else {
                result is Ok && final(self)@.marks == old(self)@.marks.with(sample)
            },
    {
        let key: MarkKey = (
            sample.replica,
            sample.ns.stream_id,
            sample.ns.topic_id,
            sample.ns.partition_id,
        );
        let seen = match sample.metric {
            Metric::CommitOffset => self.commit_offset.get(&key),
            Metric::View => self.view.get(&key),
        };
        match seen {
            Some(prev) => {
                if sample.value < *prev {
                    return Err(
                        InvariantFault::Regression {
                            metric: sample.metric,
                            replica: sample.replica,
                            ns: sample.ns,
                            prev: *prev,
                            cur: sample.value,
                        },
                    );
                }
            },
            None => {},
        }
        match sample.metric {
            Metric::CommitOffset => {
                self.commit_offset.insert(key, sample.value);
            },
            Metric::View => {
                self.view.insert(key, sample.value);
            },
        }
        Ok(())
    }

    /// Holds every invariant against the cluster's current state.
    ///
    /// Per live `(replica, namespace)`:
    /// - the partition's persisted offset never regresses,
    /// - the group's view never regresses (a view change only advances it).
    ///
    /// Globally:
    /// - total in-flight requests stay within the per-client queue ceiling,
    /// - live replicas agree on every committed metadata op they share, and the
    ///   committed chain stays hash-linked (see [`StateChecker`]).
    ///
    /// Crashed replicas are skipped and their last-seen marks retained, so the
    /// checks hold across a restart.
    pub fn check(&mut self, cluster: &ClusterReading, workload: &Workload) -> (result: Result<
        (),
        InvariantFault,
    >)
        requires
            cluster.wf(),
        ensures
            match inspected(
                old(self)@,
                *cluster,
                workload@.options.namespaces@,
                workload@.outstanding.len() as usize,
                workload@.options.client_count,
            ) {
                (after, fault) => {
                    &&& final(self)@ == after
                    &&& match fault {
                        Some(found) => result is Err && result->Err_0@ == found && found.wf(),
                        None => result is Ok,
                    }
                },
            },
    {
        let samples = collect_samples(cluster, workload.options().namespaces.as_slice());
        let ghost start = self@;
        let mut i: usize = 0;
        assert(samples@.take(0) =~= Seq::empty());
        while i < samples.len()
            invariant
                i <= samples.len(),
                start == old(self)@,
                self@.checker == start.checker,
                observed(start.marks, samples@.take(i as int)) == (self@.marks, None::<Sample>),
                samples@ == cluster_samples(
                    *cluster,
                    workload@.options.namespaces@,
                    cluster.replicas@.len() as int,
                ),
            decreases samples.len() - i,
        {
            assert(samples@.take(i + 1).drop_last() =~= samples@.take(i as int));
            match self.observe(samples[i]) {
                Ok(()) => {},
                Err(fault) => {
                    proof {
                        failed_observation_is_final(start.marks, samples@, i + 1);
                    }
                    return Err(fault);
                },
            }
            i = i + 1;
        }
        assert(samples@.take(i as int) =~= samples@);
        let in_flight: usize = workload.total_in_flight();
        let bound: usize = workload.in_flight_bound();
        if in_flight > bound {
            return Err(
                InvariantFault::InFlightOverflow {
                    in_flight,
                    bound,
                    client_count: workload.options().client_count,
                },
            );
        }
        match self.state_checker.check(cluster) {
            Ok(()) => Ok(()),
            Err(found) => Err(InvariantFault::Diverged(found)),
        }
    }
}

fn collect_samples(cluster: &ClusterReading, namespaces: &[IggyNamespace]) -> (samples: Vec<Sample>)
    requires
        cluster.wf(),
    ensures
        samples@ == cluster_samples(*cluster, namespaces@, cluster.replicas@.len() as int),
{
    let mut samples: Vec<Sample> = Vec::new();
    let mut index: usize = 0;
    while index < cluster.replicas.len()
        invariant
            cluster.wf(),
            index <= cluster.replicas.len(),
            samples@ == cluster_samples(*cluster, namespaces@, index as int),
        decreases cluster.replicas.len() - index,
    {
        let reading = &cluster.replicas[index];
        let replica: u8 = index as u8;
        if !reading.crashed {
            let ghost before = samples@;
            let mut i: usize = 0;
            while i < namespaces.len()
                invariant
                    i <= namespaces.len(),
                    samples@ == before + replica_samples(*reading, replica, namespaces@, i as int),
                decreases namespaces.len() - i,
            {
                let ns = namespaces[i];
                match reading.offsets(ns) {
                    Some(value) => {
                        samples.push(Sample { metric: Metric::CommitOffset, replica, ns, value });
                    },
                    None => {},
                }
                match reading.consensus_view(ns) {
                    Some(value) => {
                        samples.push(Sample { metric: Metric::View, replica, ns, value });
                    },
                    None => {},
                }
                i = i + 1;
                assert(samples@ =~= before + replica_samples(
                    *reading,
                    replica,
                    namespaces@,
                    i as int,
                ));
            }
        }
        index = index + 1;
    }
    samples
}

proof fn failed_observation_is_final(marks: MarksView, samples: Seq<Sample>, upto: int)
    requires
        0 <= upto <= samples.len(),
        observed(marks, samples.take(upto)).1 is Some,
    ensures
        observed(marks, samples) == observed(marks, samples.take(upto)),
    decreases samples.len(),
{
    if upto == samples.len() {
        assert(samples.take(upto) =~= samples);
    } else {
        assert(samples.drop_last().take(upto) =~= samples.take(upto));
        failed_observation_is_final(marks, samples.drop_last(), upto);
    }
}

/// Marks never fall and are never forgotten, whether or not a pass ends in a
/// regression; so an accepted reading is at least every earlier one of the same
/// metric, replica and namespace.
pub proof fn marks_only_rise(
    marks: MarksView,
    samples: Seq<Sample>,
    metric: Metric,
    key: MarkKey,
)
    requires
        marks.of(metric).contains_key(key),
    ensures
        observed(marks, samples).0.of(metric).contains_key(key),
        marks.of(metric)[key] <= observed(marks, samples).0.of(metric)[key],
    decreases samples.len(),
{
    if samples.len() > 0 {
        marks_only_rise(marks, samples.drop_last(), metric, key);
        let before = observed(marks, samples.drop_last()).0;
        let last = samples.last();
        assert(last.metric == metric && mark_key(last.replica, last.ns) == key ==> before.previous(
            last,
        ) == Some(before.of(metric)[key]));
    }
}

/// An accepted sample is taken over: the mark it leaves is at least its value.
pub proof fn accepted_samples_leave_marks(marks: MarksView, samples: Seq<Sample>, index: int)
    requires
        0 <= index < samples.len(),
        observed(marks, samples).1 is None,
    ensures
        observed(marks, samples).0.previous(samples[index]) is Some,
        samples[index].value <= observed(marks, samples).0.previous(samples[index])->0,
    decreases samples.len(),
{
    let shorter = samples.drop_last();
    if index < shorter.len() {
        accepted_samples_leave_marks(marks, shorter, index);
        let before = observed(marks, shorter).0;
        let last = samples.last();
        let key = mark_key(samples[index].replica, samples[index].ns);
        assert(last.metric == samples[index].metric && mark_key(last.replica, last.ns) == key
            ==> before.previous(last) == before.previous(samples[index]));
    }
}

proof fn replica_samples_name_the_replica(
    reading: ReplicaReading,
    replica: u8,
    namespaces: Seq<IggyNamespace>,
    upto: int,
)
    ensures
        forall|i: int|
            0 <= i < replica_samples(reading, replica, namespaces, upto).len() ==> (
            #[trigger] replica_samples(reading, replica, namespaces, upto)[i]).replica == replica,
    decreases upto,
{
    if upto > 0 {
        replica_samples_name_the_replica(reading, replica, namespaces, upto - 1);
    }
}

/// Only live replicas are read: no sample names a crashed one.
pub proof fn samples_name_live_replicas(
    cluster: ClusterReading,
    namespaces: Seq<IggyNamespace>,
    bound: int,
)
    requires
        bound <= cluster.replicas@.len() <= 255,
    ensures
        forall|i: int|
            0 <= i < cluster_samples(cluster, namespaces, bound).len() ==> cluster.live(
                (#[trigger] cluster_samples(cluster, namespaces, bound)[i]).replica as int,
            ),
    decreases bound,
{
    if bound > 0 {
        samples_name_live_replicas(cluster, namespaces, bound - 1);
        replica_samples_name_the_replica(
            cluster.replicas@[bound - 1],
            (bound - 1) as u8,
            namespaces,
            namespaces.len() as int,
        );
        let before = cluster_samples(cluster, namespaces, bound - 1);
        let all = cluster_samples(cluster, namespaces, bound);
        assert forall|i: int| 0 <= i < all.len() implies cluster.live(
            (#[trigger] all[i]).replica as int,
        ) by {
            if i < before.len() {
                assert(all[i] == before[i]);
            } else {
                let own = replica_samples(
                    cluster.replicas@[bound - 1],
                    (bound - 1) as u8,
                    namespaces,
                    namespaces.len() as int,
                );
                assert(all[i] == own[i - before.len()]);
            }
        }
    }
}

proof fn unnamed_marks_stay(
    marks: MarksView,
    samples: Seq<Sample>,
    metric: Metric,
    replica: u8,
    ns: IggyNamespace,
)
    requires
        forall|i: int| 0 <= i < samples.len() ==> (#[trigger] samples[i]).replica != replica,
    ensures
        observed(marks, samples).0.of(metric).contains_key(mark_key(replica, ns)) == marks.of(
            metric,
        ).contains_key(mark_key(replica, ns)),
        observed(marks, samples).0.of(metric)[mark_key(replica, ns)] == marks.of(metric)[mark_key(
            replica,
            ns,
        )],
    decreases samples.len(),
{
    if samples.len() > 0 {
        unnamed_marks_stay(marks, samples.drop_last(), metric, replica, ns);
        assert(samples.last().replica != replica);
    }
}

/// A crashed replica's marks are retained as they were.
pub proof fn crashed_replica_keeps_marks(
    before: InvariantsView,
    cluster: ClusterReading,
    namespaces: Seq<IggyNamespace>,
    in_flight: usize,
    client_count: u8,
    metric: Metric,
    replica: u8,
    ns: IggyNamespace,
)
    requires
        cluster.wf(),
        !cluster.live(replica as int),
    ensures
        ({
            let after = inspected(before, cluster, namespaces, in_flight, client_count).0;
            let key = mark_key(replica, ns);
            &&& after.marks.of(metric).contains_key(key) == before.marks.of(metric).contains_key(
                key,
            )
            &&& after.marks.of(metric)[key] == before.marks.of(metric)[key]
        }),
{
    let count = cluster.replicas@.len() as int;
    samples_name_live_replicas(cluster, namespaces, count);
    unnamed_marks_stay(
        before.marks,
        cluster_samples(cluster, namespaces, count),
        metric,
        replica,
        ns,
    );
}

proof fn accepted_sample_is_not_below_its_mark(marks: MarksView, samples: Seq<Sample>, index: int)
    requires
        0 <= index < samples.len(),
        observed(marks, samples).1 is None,
        marks.previous(samples[index]) is Some,
    ensures
        marks.previous(samples[index])->0 <= samples[index].value,
    decreases samples.len(),
{
    let shorter = samples.drop_last();
    if index < shorter.len() {
        accepted_sample_is_not_below_its_mark(marks, shorter, index);
    } else {
        let last = samples.last();
        marks_only_rise(marks, shorter, last.metric, mark_key(last.replica, last.ns));
    }
}

/// The value a replica reports of a metric in a namespace.
pub open spec fn reported(reading: ReplicaReading, metric: Metric, ns: IggyNamespace) -> Option<
    u64,
> {
    match metric {
        Metric::CommitOffset => reading.offset(ns),
        Metric::View => reading.group_view(ns),
    }
}

proof fn replica_sample_is_read(
    reading: ReplicaReading,
    replica: u8,
    namespaces: Seq<IggyNamespace>,
    upto: int,
    place: int,
    metric: Metric,
) -> (index: int)
    requires
        0 <= place < upto <= namespaces.len(),
        reported(reading, metric, namespaces[place]) is Some,
    ensures
        0 <= index < replica_samples(reading, replica, namespaces, upto).len(),
        replica_samples(reading, replica, namespaces, upto)[index] == (Sample {
            metric,
            replica,
            ns: namespaces[place],
            value: reported(reading, metric, namespaces[place])->0,
        }),
    decreases upto,
{
    let before = replica_samples(reading, replica, namespaces, upto - 1);
    if place < upto - 1 {
        replica_sample_is_read(reading, replica, namespaces, upto - 1, place, metric)
    } else {
        match metric {
            Metric::CommitOffset => before.len() as int,
            Metric::View => if reading.offset(namespaces[place]) is Some {
                before.len() as int + 1
            } else {
                before.len() as int
            },
        }
    }
}

/// Every value a live replica reports of a tracked namespace is sampled, so the
/// checks do not pass vacuously.
pub proof fn live_values_are_sampled(
    cluster: ClusterReading,
    namespaces: Seq<IggyNamespace>,
    bound: int,
    replica: int,
    place: int,
    metric: Metric,
) -> (index: int)
    requires
        cluster.wf(),
        0 <= replica < bound <= cluster.replicas@.len(),
        cluster.live(replica),
        0 <= place < namespaces.len(),
        reported(cluster.replicas@[replica], metric, namespaces[place]) is Some,
    ensures
        0 <= index < cluster_samples(cluster, namespaces, bound).len(),
        cluster_samples(cluster, namespaces, bound)[index] == (Sample {
            metric,
            replica: replica as u8,
            ns: namespaces[place],
            value: reported(cluster.replicas@[replica], metric, namespaces[place])->0,
        }),
    decreases bound,
{
    let before = cluster_samples(cluster, namespaces, bound - 1);
    if replica < bound - 1 {
        live_values_are_sampled(cluster, namespaces, bound - 1, replica, place, metric)
    } else {
        let index = replica_sample_is_read(
            cluster.replicas@[replica],
            replica as u8,
            namespaces,
            namespaces.len() as int,
            place,
            metric,
        );
        before.len() + index
    }
}

/// The marks after a series of readings, and whether every one was accepted.
pub open spec fn marks_after(
    marks: MarksView,
    readings: Seq<ClusterReading>,
    namespaces: Seq<IggyNamespace>,
) -> (MarksView, bool)
    decreases readings.len(),
{
    if readings.len() == 0 {
        (marks, true)
    } else {
        let (before, accepted) = marks_after(marks, readings.drop_last(), namespaces);
        let cluster = readings.last();
        let (after, fallen) = observed(
            before,
            cluster_samples(cluster, namespaces, cluster.replicas@.len() as int),
        );
        (after, accepted && fallen is None)
    }
}

/// A pass that finds nothing accepts its reading's samples and takes them over.
pub proof fn passed_check_accepts_the_reading(
    before: InvariantsView,
    cluster: ClusterReading,
    namespaces: Seq<IggyNamespace>,
    in_flight: usize,
    client_count: u8,
)
    requires
        inspected(before, cluster, namespaces, in_flight, client_count).1 is None,
    ensures
        marks_after(before.marks, seq![cluster], namespaces) == (
            inspected(before, cluster, namespaces, in_flight, client_count).0.marks,
            true,
        ),
{
    reveal_with_fuel(marks_after, 2);
    assert(seq![cluster].drop_last() =~= Seq::empty());
}

proof fn series_leaves_marks(
    marks: MarksView,
    readings: Seq<ClusterReading>,
    namespaces: Seq<IggyNamespace>,
    earlier: int,
    replica: int,
    place: int,
    metric: Metric,
)
    requires
        0 <= earlier < readings.len(),
        forall|i: int| 0 <= i < readings.len() ==> (#[trigger] readings[i]).wf(),
        marks_after(marks, readings, namespaces).1,
        readings[earlier].live(replica),
        0 <= place < namespaces.len(),
        reported(readings[earlier].replicas@[replica], metric, namespaces[place]) is Some,
    ensures
        ({
            let key = mark_key(replica as u8, namespaces[place]);
            let after = marks_after(marks, readings, namespaces).0;
            &&& after.of(metric).contains_key(key)
            &&& reported(readings[earlier].replicas@[replica], metric, namespaces[place])->0
                <= after.of(metric)[key]
        }),
    decreases readings.len(),
{
    let shorter = readings.drop_last();
    let before = marks_after(marks, shorter, namespaces).0;
    let cluster = readings.last();
    let samples = cluster_samples(cluster, namespaces, cluster.replicas@.len() as int);
    let key = mark_key(replica as u8, namespaces[place]);
    if earlier < shorter.len() {
        assert forall|i: int| 0 <= i < shorter.len() implies (#[trigger] shorter[i]).wf() by {
            assert(readings[i].wf());
        }
        series_leaves_marks(marks, shorter, namespaces, earlier, replica, place, metric);
        marks_only_rise(before, samples, metric, key);
    } else {
        assert(readings[earlier].wf());
        let index = live_values_are_sampled(
            cluster,
            namespaces,
            cluster.replicas@.len() as int,
            replica,
            place,
            metric,
        );
        accepted_samples_leave_marks(before, samples, index);
    }
}

/// Over any series of accepted readings, no metric of a replica and namespace ever
/// falls: not between neighbouring readings, and not across readings in which the
/// replica was down.
pub proof fn accepted_metrics_never_fall(
    marks: MarksView,
    readings: Seq<ClusterReading>,
    namespaces: Seq<IggyNamespace>,
    earlier: int,
    replica: int,
    place: int,
    metric: Metric,
)
    requires
        0 <= earlier < readings.len() - 1,
        forall|i: int| 0 <= i < readings.len() ==> (#[trigger] readings[i]).wf(),
        marks_after(marks, readings, namespaces).1,
        readings[earlier].live(replica),
        readings.last().live(replica),
        0 <= place < namespaces.len(),
        reported(readings[earlier].replicas@[replica], metric, namespaces[place]) is Some,
        reported(readings.last().replicas@[replica], metric, namespaces[place]) is Some,
    ensures
        reported(readings[earlier].replicas@[replica], metric, namespaces[place])->0 <= reported(
            readings.last().replicas@[replica],
            metric,
            namespaces[place],
        )->0,
{
    let shorter = readings.drop_last();
    let before = marks_after(marks, shorter, namespaces).0;
    let cluster = readings.last();
    let samples = cluster_samples(cluster, namespaces, cluster.replicas@.len() as int);
    assert forall|i: int| 0 <= i < shorter.len() implies (#[trigger] shorter[i]).wf() by {
        assert(readings[i].wf());
    }
    series_leaves_marks(marks, shorter, namespaces, earlier, replica, place, metric);
    assert(readings[readings.len() - 1].wf());
    let index = live_values_are_sampled(
        cluster,
        namespaces,
        cluster.replicas@.len() as int,
        replica,
        place,
        metric,
    );
    accepted_sample_is_not_below_its_mark(before, samples, index);
}

/// The in-flight ceiling holds by construction: as long as every outstanding
/// request belongs to one of the declared clients, no check reports an overflow.
pub proof fn in_flight_ceiling_is_never_exceeded(
    before: InvariantsView,
    cluster: ClusterReading,
    workload: WorkloadView,
    clients: Seq<u128>,
)
    requires
        workload.wf(),
        sent_by(workload, clients),
        clients.to_set().len() <= workload.options.client_count,
    ensures
        match inspected(
            before,
            cluster,
            workload.options.namespaces@,
            workload.outstanding.len() as usize,
            workload.options.client_count,
        ).1 {
            Some(fault) => fault !is InFlightOverflow,
            None => true,
        },
{
    vstd::seq_lib::seq_to_set_is_finite(clients);
    assert forall|i: int| 0 <= i < workload.outstanding.len() implies clients.to_set().contains(
        (#[trigger] workload.outstanding[i]).client,
    ) by {
        assert(clients.contains(workload.outstanding[i].client));
    }
    in_flight_stays_within_queues(workload, clients.to_set());
}

/// Two replicas, or two namespaces, never share a mark.
pub proof fn marks_are_kept_apart(
    left: u8,
    left_ns: IggyNamespace,
    right: u8,
    right_ns: IggyNamespace,
)
    ensures
        mark_key(left, left_ns) == mark_key(right, right_ns) <==> left == right && left_ns
            == right_ns,
{
}

/// The value last seen of a metric is kept per replica and namespace, and taking a
/// sample over changes that one value alone.
pub proof fn samples_replace_one_mark(marks: MarksView, sample: Sample, other: Sample)
    ensures
        marks.with(sample).previous(sample) == Some(sample.value),
        other.metric != sample.metric || other.replica != sample.replica || other.ns != sample.ns
            ==> marks.with(sample).previous(other) == marks.previous(other),
        marks.regresses(sample) <==> marks.previous(sample) is Some && sample.value
            < marks.previous(sample)->0,
{
}

/// The samples hold one of the given metric, replica and namespace.
spec fn sampled(samples: Seq<Sample>, metric: Metric, replica: u8, ns: IggyNamespace) -> bool {
    exists|i: int|
        0 <= i < samples.len() && (#[trigger] samples[i]).metric == metric && samples[i].replica
            == replica && samples[i].ns == ns
}

proof fn marks_come_from_samples(marks: MarksView, samples: Seq<Sample>, sample: Sample)
    requires
        observed(marks, samples).1 is None,
    ensures
        !sampled(samples, sample.metric, sample.replica, sample.ns) ==> observed(
            marks,
            samples,
        ).0.previous(sample) == marks.previous(sample),
        sampled(samples, sample.metric, sample.replica, sample.ns) ==> exists|i: int|
            0 <= i < samples.len() && (#[trigger] samples[i]).metric == sample.metric
                && samples[i].replica == sample.replica && samples[i].ns == sample.ns && observed(
                marks,
                samples,
            ).0.previous(sample) == Some(samples[i].value),
    decreases samples.len(),
{
    if samples.len() > 0 {
        let shorter = samples.drop_last();
        let last = samples.last();
        marks_come_from_samples(marks, shorter, sample);
        samples_replace_one_mark(observed(marks, shorter).0, last, sample);
        if last.metric == sample.metric && last.replica == sample.replica && last.ns == sample.ns {
            assert(samples[samples.len() - 1] == last);
        } else if sampled(samples, sample.metric, sample.replica, sample.ns) {
            let i = choose|i: int|
                0 <= i < samples.len() && (#[trigger] samples[i]).metric == sample.metric
                    && samples[i].replica == sample.replica && samples[i].ns == sample.ns;
            assert(shorter[i] == samples[i]);
            let k = choose|k: int|
                0 <= k < shorter.len() && (#[trigger] shorter[k]).metric == sample.metric
                    && shorter[k].replica == sample.replica && shorter[k].ns == sample.ns
                    && observed(marks, shorter).0.previous(sample) == Some(shorter[k].value);
            assert(samples[k] == shorter[k]);
        } else {
            if sampled(shorter, sample.metric, sample.replica, sample.ns) {
                let i = choose|i: int|
                    0 <= i < shorter.len() && (#[trigger] shorter[i]).metric == sample.metric
                        && shorter[i].replica == sample.replica && shorter[i].ns == sample.ns;
                assert(samples[i] == shorter[i]);
            }
        }
    }
}

proof fn falls_have_a_place(marks: MarksView, samples: Seq<Sample>) -> (place: int)
    requires
        observed(marks, samples).1 is Some,
    ensures
        0 <= place < samples.len(),
        observed(marks, samples).1 == Some(samples[place]),
        observed(marks, samples.take(place)).1 is None,
        observed(marks, samples).0 == observed(marks, samples.take(place)).0,
        observed(marks, samples.take(place)).0.regresses(samples[place]),
    decreases samples.len(),
{
    let shorter = samples.drop_last();
    if observed(marks, shorter).1 is Some {
        let place = falls_have_a_place(marks, shorter);
        assert(shorter.take(place) =~= samples.take(place));
        place
    } else {
        assert(shorter =~= samples.take(samples.len() - 1));
        samples.len() - 1
    }
}

proof fn replica_samples_are_reported(
    reading: ReplicaReading,
    replica: u8,
    namespaces: Seq<IggyNamespace>,
    upto: int,
)
    requires
        upto <= namespaces.len(),
    ensures
        forall|i: int|
            0 <= i < replica_samples(reading, replica, namespaces, upto).len() ==> {
                let sample = #[trigger] replica_samples(reading, replica, namespaces, upto)[i];
                &&& sample.replica == replica
                &&& namespaces.contains(sample.ns)
                &&& reported(reading, sample.metric, sample.ns) == Some(sample.value)
            },
    decreases upto,
{
    if upto > 0 {
        replica_samples_are_reported(reading, replica, namespaces, upto - 1);
        let before = replica_samples(reading, replica, namespaces, upto - 1);
        let all = replica_samples(reading, replica, namespaces, upto);
        assert forall|i: int| 0 <= i < all.len() implies {
            let sample = #[trigger] all[i];
            &&& sample.replica == replica
            &&& namespaces.contains(sample.ns)
            &&& reported(reading, sample.metric, sample.ns) == Some(sample.value)
        } by {
            if i < before.len() {
                assert(all[i] == before[i]);
            } else {
                assert(all[i].ns == namespaces[upto - 1]);
            }
        }
    }
}

/// Every sample is a value that a live replica reports of a tracked namespace.
pub proof fn samples_are_reported_values(
    cluster: ClusterReading,
    namespaces: Seq<IggyNamespace>,
    bound: int,
)
    requires
        bound <= cluster.replicas@.len() <= 255,
    ensures
        forall|i: int|
            0 <= i < cluster_samples(cluster, namespaces, bound).len() ==> {
                let sample = #[trigger] cluster_samples(cluster, namespaces, bound)[i];
                &&& cluster.live(sample.replica as int)
                &&& namespaces.contains(sample.ns)
                &&& reported(
                    cluster.replicas@[sample.replica as int],
                    sample.metric,
                    sample.ns,
                ) == Some(sample.value)
            },
    decreases bound,
{
    if bound > 0 {
        samples_are_reported_values(cluster, namespaces, bound - 1);
        let reading = cluster.replicas@[bound - 1];
        replica_samples_are_reported(
            reading,
            (bound - 1) as u8,
            namespaces,
            namespaces.len() as int,
        );
        let before = cluster_samples(cluster, namespaces, bound - 1);
        let own = replica_samples(
            reading,
            (bound - 1) as u8,
            namespaces,
            namespaces.len() as int,
        );
        let all = cluster_samples(cluster, namespaces, bound);
        assert forall|i: int| 0 <= i < all.len() implies {
            let sample = #[trigger] all[i];
            &&& cluster.live(sample.replica as int)
            &&& namespaces.contains(sample.ns)
            &&& reported(
                cluster.replicas@[sample.replica as int],
                sample.metric,
                sample.ns,
            ) == Some(sample.value)
        } by {
            if i < before.len() {
                assert(all[i] == before[i]);
            } else {
                assert(all[i] == own[i - before.len()]);
            }
        }
    }
}

/// The mark of a metric of a replica and namespace, if it has one.
pub open spec fn mark_of(marks: MarksView, metric: Metric, replica: u8, ns: IggyNamespace) -> Option<
    u64,
> {
    marks.previous(Sample { metric, replica, ns, value: 0 })
}

/// The marks of the two metrics are kept in two maps, by replica and namespace.
pub proof fn marks_are_looked_up_by_replica_and_namespace(
    marks: MarksView,
    replica: u8,
    ns: IggyNamespace,
)
    ensures
        ({
            let key = (replica, ns.stream_id, ns.topic_id, ns.partition_id);
            &&& mark_of(marks, Metric::CommitOffset, replica, ns) == if marks.commit_offset.dom().contains(
                key,
            ) {
                Some(marks.commit_offset[key])
            } else {
                None
            }
            &&& mark_of(marks, Metric::View, replica, ns) == if marks.view.dom().contains(key) {
                Some(marks.view[key])
            } else {
                None
            }
        }),
{
}

/// A value that fell is reported: if a live replica reports less of a tracked
/// namespace than was last seen, the check ends in a regression.
pub proof fn fallen_values_are_reported(
    before: InvariantsView,
    cluster: ClusterReading,
    namespaces: Seq<IggyNamespace>,
    in_flight: usize,
    client_count: u8,
    replica: int,
    place: int,
    metric: Metric,
)
    requires
        cluster.wf(),
        cluster.live(replica),
        0 <= place < namespaces.len(),
        reported(cluster.replicas@[replica], metric, namespaces[place]) is Some,
        mark_of(before.marks, metric, replica as u8, namespaces[place]) is Some,
        reported(cluster.replicas@[replica], metric, namespaces[place])->0 < mark_of(
            before.marks,
            metric,
            replica as u8,
            namespaces[place],
        )->0,
    ensures
        inspected(before, cluster, namespaces, in_flight, client_count).1 matches Some(
            InvariantFaultView::Regression { .. },
        ),
{
    let count = cluster.replicas@.len() as int;
    let samples = cluster_samples(cluster, namespaces, count);
    if observed(before.marks, samples).1 is None {
        let index = live_values_are_sampled(cluster, namespaces, count, replica, place, metric);
        accepted_sample_is_not_below_its_mark(before.marks, samples, index);
    }
}

/// A reported regression is real: the named replica is live and reports the named
/// value of a tracked namespace, and that is below the named value last seen.
pub proof fn reported_falls_are_real(
    before: InvariantsView,
    cluster: ClusterReading,
    namespaces: Seq<IggyNamespace>,
    in_flight: usize,
    client_count: u8,
)
    requires
        cluster.wf(),
    ensures
        inspected(before, cluster, namespaces, in_flight, client_count).1 matches Some(
            InvariantFaultView::Regression { metric, replica, ns, prev, cur },
        ) ==> {
            &&& cluster.live(replica as int)
            &&& namespaces.contains(ns)
            &&& reported(cluster.replicas@[replica as int], metric, ns) == Some(cur)
            &&& mark_of(before.marks, metric, replica, ns) == Some(prev)
            &&& cur < prev
        },
{
    let count = cluster.replicas@.len() as int;
    let samples = cluster_samples(cluster, namespaces, count);
    samples_are_reported_values(cluster, namespaces, count);
    if observed(before.marks, samples).1 is Some {
        let place = falls_have_a_place(before.marks, samples);
        let earlier = samples.take(place);
        let sample = samples[place];
        marks_come_from_samples(before.marks, earlier, sample);
        if sampled(earlier, sample.metric, sample.replica, sample.ns) {
            let i = choose|i: int|
                0 <= i < earlier.len() && (#[trigger] earlier[i]).metric == sample.metric
                    && earlier[i].replica == sample.replica && earlier[i].ns == sample.ns
                    && observed(before.marks, earlier).0.previous(sample) == Some(
                    earlier[i].value,
                );
            assert(earlier[i] == samples[i]);
            assert(samples[i].value == sample.value);
        }
    }
}

/// After a check that found no fall, what each live replica reports of each tracked
/// namespace is the value last seen; every other mark is as it was.
pub proof fn accepted_values_become_the_marks(
    before: InvariantsView,
    cluster: ClusterReading,
    namespaces: Seq<IggyNamespace>,
    in_flight: usize,
    client_count: u8,
    replica: u8,
    ns: IggyNamespace,
    metric: Metric,
)
    requires
        cluster.wf(),
        !(inspected(before, cluster, namespaces, in_flight, client_count).1 matches Some(
            InvariantFaultView::Regression { .. },
        )),
    ensures
        ({
            let after = inspected(before, cluster, namespaces, in_flight, client_count).0;
            if cluster.live(replica as int) && namespaces.contains(ns) && reported(
                cluster.replicas@[replica as int],
                metric,
                ns,
            ) is Some {
                mark_of(after.marks, metric, replica, ns) == reported(
                    cluster.replicas@[replica as int],
                    metric,
                    ns,
                )
            } else {
                mark_of(after.marks, metric, replica, ns) == mark_of(
                    before.marks,
                    metric,
                    replica,
                    ns,
                )
            }
        }),
{
    let count = cluster.replicas@.len() as int;
    let samples = cluster_samples(cluster, namespaces, count);
    let wanted = Sample { metric, replica, ns, value: 0 };
    samples_are_reported_values(cluster, namespaces, count);
    marks_come_from_samples(before.marks, samples, wanted);
    if cluster.live(replica as int) && namespaces.contains(ns) && reported(
        cluster.replicas@[replica as int],
        metric,
        ns,
    ) is Some {
        let place = choose|place: int| 0 <= place < namespaces.len() && namespaces[place] == ns;
        let index = live_values_are_sampled(
            cluster,
            namespaces,
            count,
            replica as int,
            place,
            metric,
        );
        assert(samples[index].metric == metric);
        assert(sampled(samples, metric, replica, ns));
    }
}

/// A check ends in the first of these that holds: a fall; more requests in flight
/// than there are clients; a divergence of committed histories. It passes if none
/// does. The chain is extended only where neither of the first two holds.
pub proof fn checks_end_in_the_first_violation(
    before: InvariantsView,
    cluster: ClusterReading,
    namespaces: Seq<IggyNamespace>,
    in_flight: usize,
    client_count: u8,
)
    ensures
        ({
            let (after, fault) = inspected(before, cluster, namespaces, in_flight, client_count);
            let fallen = fault matches Some(InvariantFaultView::Regression { .. });
            let (chain, diverged) = checked(before.checker, cluster);
            &&& !fallen && in_flight > client_count ==> fault == Some(
                InvariantFaultView::InFlightOverflow {
                    in_flight,
                    bound: client_count as usize,
                    client_count,
                },
            )
            &&& fallen || in_flight > client_count ==> after.checker == before.checker
            &&& !fallen && in_flight <= client_count ==> {
                &&& after.checker == chain
                &&& match diverged {
                    Some(found) => fault == Some(InvariantFaultView::Diverged(found)),
                    None => fault is None,
                }
            }
        }),
{
}

/// A check that passes has compared the committed chains, however many requests are
/// in flight: the state checker found nothing, its chain was extended, and wherever
/// two live replicas both journaled and newly committed an op they hold the same
/// one, with both among the op's witnesses.
pub proof fn passed_checks_compared_the_chains(
    before: InvariantsView,
    cluster: ClusterReading,
    namespaces: Seq<IggyNamespace>,
    in_flight: usize,
    client_count: u8,
    left: u8,
    right: u8,
    op: u64,
)
    requires
        cluster.wf(),
        inspected(before, cluster, namespaces, in_flight, client_count).1 is None,
    ensures
        checked(before.checker, cluster).1 is None,
        inspected(before, cluster, namespaces, in_flight, client_count).0.checker == checked(
            before.checker,
            cluster,
        ).0,
        in_flight <= client_count,
        ({
            let chain = inspected(
                before,
                cluster,
                namespaces,
                in_flight,
                client_count,
            ).0.checker.commits;
            newly_committed(cluster, before.checker.verified, left, op) && newly_committed(
                cluster,
                before.checker.verified,
                right,
                op,
            ) ==> {
                &&& cluster.replicas@[left as int].journal.at(op)->0.checksum
                    == cluster.replicas@[right as int].journal.at(op)->0.checksum
                &&& chain.contains_key(op)
                &&& chain[op].replicas.contains(left)
                &&& chain[op].replicas.contains(right)
            }
        }),
{
    if newly_committed(cluster, before.checker.verified, left, op) && newly_committed(
        cluster,
        before.checker.verified,
        right,
        op,
    ) {
        passed_check_means_replicas_agree(before.checker, cluster, left, right, op);
    }
}

/// The report of a fall names the metric, the replica, the namespace, both values,
/// the earlier one first, and the seed; it starts with the metric and ends in the seed.
pub proof fn fall_reports_name_everything(
    seed: u64,
    metric: Seq<char>,
    replica: u8,
    ns: IggyNamespace,
    prev: u64,
    cur: u64,
)
    ensures
        ({
            let text = regression_report(seed, metric, replica, ns, prev, cur);
            &&& metric.is_prefix_of(text)
            &&& seed_note(seed).is_suffix_of(text)
            &&& mentions(text, decimal(replica as nat))
            &&& mentions(text, ns.label())
            &&& mentions(text, decimal(prev as nat) + " -> "@ + decimal(cur as nat))
        }),
{
    broadcast use {text_mentions_itself, halves_are_mentioned};

    let change = decimal(prev as nat) + " -> "@ + decimal(cur as nat);
    let start = metric + " regressed on replica "@ + decimal(replica as nat) + " ns "@ + ns.label()
        + ": "@;
    assert(regression_report(seed, metric, replica, ns, prev, cur) =~= start + change + seed_note(
        seed,
    ));
    let text = regression_report(seed, metric, replica, ns, prev, cur);
    assert(metric =~= text.subrange(0, metric.len() as int));
    assert(seed_note(seed) =~= text.subrange(
        text.len() - seed_note(seed).len(),
        text.len() as int,
    ));
}

/// The report of an overfull queue names the requests in flight, the ceiling, the
/// clients and the seed.
pub proof fn overflow_reports_name_everything(
    seed: u64,
    in_flight: usize,
    bound: usize,
    client_count: u8,
)
    ensures
        ({
            let fault = InvariantFaultView::InFlightOverflow { in_flight, bound, client_count };
            &&& mentions(fault.report(seed), decimal(in_flight as nat))
            &&& mentions(fault.report(seed), decimal(bound as nat))
            &&& mentions(fault.report(seed), decimal(client_count as nat))
            &&& mentions(fault.report(seed), seed_note(seed))
        }),
{
    broadcast use {text_mentions_itself, halves_are_mentioned};

}

/// A fall is reported under its metric's name, and the two metrics' names differ.
pub proof fn metrics_are_told_apart(
    seed: u64,
    metric: Metric,
    replica: u8,
    ns: IggyNamespace,
    prev: u64,
    cur: u64,
)
    ensures
        metric.label().is_prefix_of(
            (InvariantFaultView::Regression { metric, replica, ns, prev, cur }).report(seed),
        ),
        Metric::CommitOffset.label() != Metric::View.label(),
{
    fall_reports_name_everything(seed, metric.label(), replica, ns, prev, cur);
    reveal_strlit("commit_offset");
    reveal_strlit("consensus view");
    assert(Metric::CommitOffset.label().len() == 13);
    assert(Metric::View.label().len() == 14);
}

/// Checks that have seen nothing have no mark, no chain and no verified op.
pub proof fn blank_checks_have_seen_nothing(
    checks: InvariantsView,
    metric: Metric,
    replica: u8,
    ns: IggyNamespace,
    op: u64,
)
    requires
        checks.is_blank(),
    ensures
        mark_of(checks.marks, metric, replica, ns) is None,
        !checks.checker.commits.dom().contains(op),
        !checks.checker.verified.dom().contains(replica),
{
}

/// What a check found is known in full.
pub proof fn faults_are_known_in_full(fault: InvariantFault)
    ensures
        fault matches InvariantFault::Regression { metric, replica, ns, prev, cur } ==> fault@ == (
        InvariantFaultView::Regression { metric, replica, ns, prev, cur }),
        fault matches InvariantFault::InFlightOverflow { in_flight, bound, client_count } ==> fault@
            == (InvariantFaultView::InFlightOverflow { in_flight, bound, client_count }),
        fault matches InvariantFault::Diverged(found) ==> fault@ == InvariantFaultView::Diverged(
            found@,
        ),
{
}

} // verus!
