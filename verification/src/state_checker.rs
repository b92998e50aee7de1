//! Cross-replica committed-log equality.
//!
//! The per-tick checks in [`crate::invariants`] catch a single replica
//! contradicting itself, and [`crate::oracle`] compares committed metadata
//! against the workload's shadow. Neither compares replicas to EACH OTHER, which
//! is the actual consensus property: two replicas that both committed op N must
//! have committed the same op N.
//!
//! One canonical commit chain is kept; every replica must agree with it wherever
//! they overlap, and the chain must be hash-linked. Recording which replicas
//! reached each op also makes the check provably non-vacuous.

use crate::cluster::{ClusterReading, JournalWindow, PrepareHeader};
use std::collections::{BTreeMap, BTreeSet};
use crate::text::{
    byte_set, decimal, halves_are_mentioned, hexadecimal, mentions, push_byte_set, push_decimal,
    push_hexadecimal, push_seed_note, seed_note, text_mentions_itself,
};
use vstd::prelude::*;
use vstd::string::*;

verus! {

/// What is known of one op of the canonical chain.
pub ghost struct CommitView {
    /// Identity of the prepare committed at this op.
    pub checksum: u128,
    /// Replicas observed committing this op.
    pub replicas: Set<u8>,
}

/// What the checker has accumulated.
pub ghost struct CheckerView {
    /// The canonical chain.
    pub commits: Map<u64, CommitView>,
    /// Highest op already verified, per replica.
    pub verified: Map<u8, u64>,
}

/// One op of the canonical committed chain.
#[derive(Debug)]
pub struct CanonicalCommit {
    checksum: u128,
    replicas: BTreeSet<u8>,
}

impl View for CanonicalCommit {
    type V = CommitView;

    closed spec fn view(&self) -> CommitView {
        CommitView { checksum: self.checksum, replicas: self.replicas@ }
    }
}

/// A replica's newly committed op with its journaled header.
#[derive(Debug, Clone, Copy, PartialEq, Eq, Structural)]
pub struct CommitEvent {
    pub replica: u8,
    pub op: u64,
    pub header: PrepareHeader,
}

/// A divergence between replicas' committed histories.
#[derive(Debug, Clone)]
pub enum Divergence {
    /// A committed op whose parent is not the canonical previous op: the
    /// replica's history forked below this op.
    BrokenLink { replica: u8, op: u64, parent: u128, canonical: u128 },
    /// Two replicas committed different history at the same log position.
    Disagreement { replica: u8, op: u64, checksum: u128, canonical: u128, committed_by: Vec<u8> },
}

/// A divergence between replicas' committed histories.
pub ghost enum DivergenceView {
    BrokenLink { replica: u8, op: u64, parent: u128, canonical: u128 },
    Disagreement { replica: u8, op: u64, checksum: u128, canonical: u128, committed_by: Seq<u8> },
}

impl View for Divergence {
    type V = DivergenceView;

    open spec fn view(&self) -> DivergenceView {
        match *self {
            Divergence::BrokenLink { replica, op, parent, canonical } => {
                DivergenceView::BrokenLink { replica, op, parent, canonical }
            },
            Divergence::Disagreement { replica, op, checksum, canonical, committed_by } => {
                DivergenceView::Disagreement {
                    replica,
                    op,
                    checksum,
                    canonical,
                    committed_by: committed_by@,
                }
            },
        }
    }
}

impl DivergenceView {
    /// The report of the divergence: both sides, the op, and the replay seed.
    pub open spec fn report(self, seed: u64) -> Seq<char> {
        match self {
            DivergenceView::BrokenLink { replica, op, parent, canonical } => {
                "replica "@ + decimal(replica as nat) + " committed op "@ + decimal(op as nat)
                    + " whose parent "@ + hexadecimal(parent as nat) + " is not the canonical op "@
                    + decimal((op - 1) as nat) + " checksum "@ + hexadecimal(canonical as nat)
                    + ": its committed history forked below this op"@ + seed_note(seed)
            },
            DivergenceView::Disagreement { replica, op, checksum, canonical, committed_by } => {
                "replicas disagree on committed op "@ + decimal(op as nat)
                    + ": canonical checksum "@ + hexadecimal(canonical as nat)
                    + " (committed by "@ + byte_set(committed_by) + ") vs replica "@ + decimal(
                    replica as nat,
                ) + "'s "@ + hexadecimal(checksum as nat)
                    + ". Two replicas committed different history at the same log position"@
                    + seed_note(seed)
            },
        }
    }

    /// A reported op has a predecessor number.
    pub open spec fn wf(self) -> bool {
        self is BrokenLink ==> self->BrokenLink_op > 0
    }
}

impl Divergence {
    /// The report of the divergence: both sides, the op, and the replay seed.
    pub fn message(&self, seed: u64) -> (text: String)
        requires
            self@.wf(),
        ensures
            text@ == self@.report(seed),
    {
        let mut out = String::new();
        match self {
            Divergence::BrokenLink { replica, op, parent, canonical } => {
                out.append("replica ");
                push_decimal(&mut out, *replica as u128);
                out.append(" committed op ");
                push_decimal(&mut out, *op as u128);
                out.append(" whose parent ");
                push_hexadecimal(&mut out, *parent);
                out.append(" is not the canonical op ");
                push_decimal(&mut out, (*op - 1) as u128);
                out.append(" checksum ");
                push_hexadecimal(&mut out, *canonical);
                out.append(": its committed history forked below this op");
            },
            Divergence::Disagreement { replica, op, checksum, canonical, committed_by } => {
                out.append("replicas disagree on committed op ");
                push_decimal(&mut out, *op as u128);
                out.append(": canonical checksum ");
                push_hexadecimal(&mut out, *canonical);
                out.append(" (committed by ");
                push_byte_set(&mut out, committed_by.as_slice());
                out.append(") vs replica ");
                push_decimal(&mut out, *replica as u128);
                out.append("'s ");
                push_hexadecimal(&mut out, *checksum);
                out.append(". Two replicas committed different history at the same log position");
            },
        }
        push_seed_note(&mut out, seed);
        assert(out@ =~= self@.report(seed));
        out
    }
}

/// The members of a set of replicas below `bound`, in ascending order.
pub open spec fn members_below(replicas: Set<u8>, bound: int) -> Seq<u8>
    decreases bound,
{
    if bound <= 0 {
        Seq::empty()
    } else if replicas.contains((bound - 1) as u8) {
        members_below(replicas, bound - 1).push((bound - 1) as u8)
    } else {
        members_below(replicas, bound - 1)
    }
}

/// The members of a set of replicas, in ascending order.
pub open spec fn members(replicas: Set<u8>) -> Seq<u8> {
    members_below(replicas, 256)
}

/// The event's parent is not the canonical previous op.
pub open spec fn breaks_link(commits: Map<u64, CommitView>, event: CommitEvent) -> bool {
    let previous = (event.op - 1) as u64;
    commits.contains_key(previous) && event.header.parent != commits[previous].checksum
}

/// The event's op is already in the chain with other contents.
pub open spec fn disagrees(commits: Map<u64, CommitView>, event: CommitEvent) -> bool {
    commits.contains_key(event.op) && event.header.checksum != commits[event.op].checksum
}

/// What is wrong with an event, given the chain. The link is judged before the
/// identity, so a diverged prefix is reported at the op where the chains part.
pub open spec fn divergence(commits: Map<u64, CommitView>, event: CommitEvent) -> Option<
    DivergenceView,
> {
    if breaks_link(commits, event) {
        Some(
            DivergenceView::BrokenLink {
                replica: event.replica,
                op: event.op,
                parent: event.header.parent,
                canonical: commits[(event.op - 1) as u64].checksum,
            },
        )
    } else if disagrees(commits, event) {
        Some(
            DivergenceView::Disagreement {
                replica: event.replica,
                op: event.op,
                checksum: event.header.checksum,
                canonical: commits[event.op].checksum,
                committed_by: members(commits[event.op].replicas),
            },
        )
    } else {
        None
    }
}

/// The chain with an event folded in.
pub open spec fn recorded(commits: Map<u64, CommitView>, event: CommitEvent) -> Map<
    u64,
    CommitView,
> {
    let witnesses = if commits.contains_key(event.op) {
        commits[event.op].replicas
    } else {
        Set::empty()
    };
    commits.insert(
        event.op,
        CommitView { checksum: event.header.checksum, replicas: witnesses.insert(event.replica) },
    )
}

/// The chain with a list of events folded in, up to the first divergence.
pub open spec fn folded(commits: Map<u64, CommitView>, events: Seq<CommitEvent>) -> (
    Map<u64, CommitView>,
    Option<DivergenceView>,
)
    decreases events.len(),
{
    if events.len() == 0 {
        (commits, None)
    } else {
        let (before, failed) = folded(commits, events.drop_last());
        if failed is Some {
            (before, failed)
        } else {
            match divergence(before, events.last()) {
                Some(found) => (before, Some(found)),
                None => (recorded(before, events.last()), None),
            }
        }
    }
}

/// The journaled ops above `verified`, up to `committed`, in ascending order.
pub open spec fn journal_events(
    journal: JournalWindow,
    replica: u8,
    verified: int,
    committed: int,
) -> Seq<CommitEvent>
    decreases committed - verified,
{
    if committed <= verified {
        Seq::empty()
    } else {
        let before = journal_events(journal, replica, verified, committed - 1);
        match journal.at(committed as u64) {
            Some(header) => before.push(CommitEvent { replica, op: committed as u64, header }),
            None => before,
        }
    }
}

/// Highest op verified for a replica, 0 before its first.
pub open spec fn verified_mark(verified: Map<u8, u64>, replica: u8) -> u64 {
    if verified.contains_key(replica) {
        verified[replica]
    } else {
        0
    }
}

/// What the live replicas below `bound` committed above their marks, replica by
/// replica and op by op.
pub open spec fn new_events(
    cluster: ClusterReading,
    verified: Map<u8, u64>,
    bound: int,
) -> Seq<CommitEvent>
    decreases bound,
{
    if bound <= 0 {
        Seq::empty()
    } else {
        let replica = bound - 1;
        let before = new_events(cluster, verified, replica);
        match cluster.live_metadata(replica) {
            Some(consensus) => before + journal_events(
                cluster.replicas@[replica].journal,
                replica as u8,
                verified_mark(verified, replica as u8) as int,
                consensus.commit_min as int,
            ),
            None => before,
        }
    }
}

/// The marks after a pass: raised to the commit point for every live replica
/// below `bound` that runs the metadata plane, kept for every other.
pub open spec fn raised_marks(
    cluster: ClusterReading,
    verified: Map<u8, u64>,
    bound: int,
) -> Map<u8, u64> {
    Map::new(
        |replica: u8|
            verified.contains_key(replica) || replica < bound && cluster.live_metadata(
                replica as int,
            ) is Some,
        |replica: u8|
            if replica < bound && cluster.live_metadata(replica as int) is Some {
                let committed = cluster.live_metadata(replica as int)->0.commit_min;
                if committed > verified_mark(verified, replica) {
                    committed
                } else {
                    verified_mark(verified, replica)
                }
            } else {
                verified[replica]
            },
    )
}

/// The checker after a pass over a reading, and the divergence it ended in, if
/// any. A pass that ends in one keeps the marks it started from.
pub open spec fn checked(before: CheckerView, cluster: ClusterReading) -> (
    CheckerView,
    Option<DivergenceView>,
) {
    let count = cluster.replicas@.len() as int;
    let (commits, failed) = folded(before.commits, new_events(cluster, before.verified, count));
    let verified = if failed is Some {
        before.verified
    } else {
        raised_marks(cluster, before.verified, count)
    };
    (CheckerView { commits, verified }, failed)
}

/// Canonical committed metadata chain, accumulated across ticks.
#[derive(Debug)]
pub struct StateChecker {
    commits: BTreeMap<u64, CanonicalCommit>,
    /// A high-water mark per replica, never lowered: a restart may report a
    /// smaller commit point than before, and re-verifying that prefix every tick
    /// would gain nothing.
    verified_upto: BTreeMap<u8, u64>,
}

impl View for StateChecker {
    type V = CheckerView;

    closed spec fn view(&self) -> CheckerView {
        CheckerView {
            commits: self.commits@.map_values(|commit: CanonicalCommit| commit@),
            verified: self.verified_upto@,
        }
    }
}

/// The ops of a chain that more than one replica was seen committing.
pub open spec fn compared_ops(commits: Map<u64, CommitView>) -> Set<u64> {
    commits.dom().filter(|op: u64| commits[op].replicas.len() > 1)
}

fn list_members(replicas: &BTreeSet<u8>) -> (list: Vec<u8>)
    ensures
        list@ == members(replicas@),
{
    let mut list: Vec<u8> = Vec::new();
    let mut bound: usize = 0;
    while bound < 256
        invariant
            bound <= 256,
            list@ == members_below(replicas@, bound as int),
        decreases 256 - bound,
    {
        let replica: u8 = bound as u8;
        if replicas.contains(&replica) {
            list.push(replica);
        }
        bound = bound + 1;
    }
    list
}

impl Default for StateChecker {
    /// A checker that has seen nothing.
    fn default() -> (checker: Self)
        ensures
            checker@.commits == Map::<u64, CommitView>::empty(),
            checker@.verified == Map::<u8, u64>::empty(),
    {
        StateChecker::new()
    }
}

impl StateChecker {
    /// A checker that has seen nothing.
    pub fn new() -> (checker: Self)
        ensures
            checker@.commits == Map::<u64, CommitView>::empty(),
            checker@.verified == Map::<u8, u64>::empty(),
    {
        let checker = StateChecker { commits: BTreeMap::new(), verified_upto: BTreeMap::new() };
        assert(checker@.commits =~= Map::<u64, CommitView>::empty());
        checker
    }

    /// Highest op already verified for a replica, 0 before its first. A reading
    /// for [`Self::check`] needs the journal only above this mark.
    pub fn verified_upto(&self, replica_idx: u8) -> (mark: u64)
        ensures
            mark == verified_mark(self@.verified, replica_idx),
    {
        match self.verified_upto.get(&replica_idx) {
            Some(mark) => *mark,
            None => 0,
        }
    }

    /// Number of ops in the canonical chain. Tests assert this is non-zero, so a
    /// green run cannot mean "never compared anything".
    pub fn chain_len(&self) -> (len: usize)
        ensures
            self@.commits.dom().finite(),
            len == self@.commits.dom().len(),
    {
        assert(self@.commits.dom() =~= self.commits@.dom());
        self.commits.len()
    }

    /// Folds one committed op into the chain, or says how it diverges from it.
    fn record(&mut self, replica_idx: u8, op: u64, header: &PrepareHeader) -> (result: Result<
        (),
        Divergence,
    >)
        requires
            op > 0,
        ensures
            final(self)@.verified == old(self)@.verified,
            match divergence(
                old(self)@.commits,
                CommitEvent { replica: replica_idx, op, header: *header },
            ) {
                Some(found) => result is Err && result->Err_0@ == found && found.wf() && final(self)@
                    == old(self)@,
                None => result is Ok && final(self)@.commits == recorded(
                    old(self)@.commits,
                    CommitEvent { replica: replica_idx, op, header: *header },
                ),
            },
    {
        let ghost event = CommitEvent { replica: replica_idx, op, header: *header };
        let ghost before = self@.commits;
        let previous_op: u64 = op - 1;
        match self.commits.get(&previous_op) {
            Some(previous) => {
                if header.parent != previous.checksum {
                    let found = Divergence::BrokenLink {
                        replica: replica_idx,
                        op,
                        parent: header.parent,
                        canonical: previous.checksum,
                    };
                    return Err(found);
                }
            },
            None => {},
        }
        match self.commits.get(&op) {
            Some(canonical) => {
                if canonical.checksum != header.checksum {
                    let found = Divergence::Disagreement {
                        replica: replica_idx,
                        op,
                        checksum: header.checksum,
                        canonical: canonical.checksum,
                        committed_by: list_members(&canonical.replicas),
                    };
                    return Err(found);
                }
            },
            None => {},
        }
        let mut replicas: BTreeSet<u8> = match self.commits.remove(&op) {
            Some(canonical) => canonical.replicas,
            None => BTreeSet::new(),
        };
        replicas.insert(replica_idx);
        self.commits.insert(op, CanonicalCommit { checksum: header.checksum, replicas });
        assert(self@.commits =~= recorded(before, event));
        Ok(())
    }

    /// Ops witnessed by more than one replica. The only ops that actually
    /// exercised the equality property: an op only ever seen on one replica was
    /// recorded, never compared.
    pub fn ops_compared(&self) -> (count: usize)
        ensures
            self@.commits.dom().finite(),
            compared_ops(self@.commits).finite(),
            count == compared_ops(self@.commits).len(),
            count <= self@.commits.dom().len(),
    {
        let total: usize = self.commits.len();
        let mut count: usize = 0;
        let ghost ops = vstd::std_specs::iter::IteratorSpec::remaining(
            &self.commits.keys(),
        ).unref();
        let ghost mut seen: Set<u64> = Set::empty();
        for op in keys: self.commits.keys()
            invariant
                keys.seq().unref() == ops,
                keys.seq().no_duplicates(),
                keys.seq().len() == total,
                ops.to_set() == self.commits@.dom(),
                seen.finite(),
                seen.len() == count,
                count <= keys.index(),
                forall|op: u64| #[trigger]
                    seen.contains(op) <==> (exists|i: int|
                        0 <= i < keys.index() && #[trigger] ops[i] == op)
                        && self.commits@[op]@.replicas.len() > 1,
        {
            proof {
                assert(ops[keys.index()] == *op);
                assert(ops.to_set().contains(*op));
                assert(!seen.contains(*op)) by {
                    if seen.contains(*op) {
                        let i = choose|i: int| 0 <= i < keys.index() && #[trigger] ops[i] == *op;
                        assert(keys.seq()[i] == keys.seq()[keys.index()]);
                    }
                }
            }
            match self.commits.get(op) {
                Some(commit) => {
                    if commit.replicas.len() > 1 {
                        proof {
                            seen = seen.insert(*op);
                        }
                        count = count + 1;
                    }
                },
                None => {},
            }
        }
        proof {
            assert forall|op: u64| self.commits@.contains_key(op) implies exists|i: int|
                0 <= i < ops.len() && #[trigger] ops[i] == op by {
                assert(ops.to_set().contains(op));
            }
            assert forall|op: u64| seen.contains(op) implies self.commits@.contains_key(op) by {
                let i = choose|i: int| 0 <= i < ops.len() && #[trigger] ops[i] == op;
                assert(ops.to_set().contains(ops[i]));
            }
            assert(seen =~= compared_ops(self@.commits));
            assert(self@.commits.dom() =~= self.commits@.dom());
            compared_ops_are_in_chain(self@.commits);
        }
        count
    }

    fn collect_events(&self, cluster: &ClusterReading) -> (events: Vec<CommitEvent>)
        requires
            cluster.wf(),
        ensures
            events@ == new_events(*cluster, self@.verified, cluster.replicas@.len() as int),
            forall|i: int| 0 <= i < events@.len() ==> (#[trigger] events@[i]).op > 0,
    {
        let mut events: Vec<CommitEvent> = Vec::new();
        let mut index: usize = 0;
        while index < cluster.replicas.len()
            invariant
                cluster.wf(),
                index <= cluster.replicas.len(),
                events@ == new_events(*cluster, self@.verified, index as int),
                forall|i: int| 0 <= i < events@.len() ==> (#[trigger] events@[i]).op > 0,
            decreases cluster.replicas.len() - index,
        {
            let replica = &cluster.replicas[index];
            let replica_idx: u8 = index as u8;
            if !replica.crashed {
                match replica.metadata {
                    Some(consensus) => {
                        let verified: u64 = self.verified_upto(replica_idx);
                        let committed: u64 = consensus.commit_min;
                        let ghost before = events@;
                        let mut op: u64 = verified;
                        while op < committed
                            invariant
                                verified <= op,
                                verified <= committed ==> op <= committed,
                                committed < verified ==> op == verified,
                                events@ == before + journal_events(
                                    replica.journal,
                                    replica_idx,
                                    verified as int,
                                    op as int,
                                ),
                                forall|i: int|
                                    0 <= i < events@.len() ==> (#[trigger] events@[i]).op > 0,
                            decreases committed - op,
                        {
                            op = op + 1;
                            // An absent header at a committed op is left to the
                            // journal's own invariants: a recovered replica may
                            // report a commit point one above its head.
                            match replica.journal.journaled_header(op) {
                                Some(header) => {
                                    events.push(CommitEvent { replica: replica_idx, op, header });
                                },
                                None => {},
                            }
                            assert(events@ =~= before + journal_events(
                                replica.journal,
                                replica_idx,
                                verified as int,
                                op as int,
                            ));
                        }
                        assert(events@ =~= before + journal_events(
                            replica.journal,
                            replica_idx,
                            verified as int,
                            committed as int,
                        ));
                    },
                    None => {},
                }
            }
            index = index + 1;
        }
        events
    }

    fn raise_marks(&mut self, cluster: &ClusterReading)
        requires
            cluster.wf(),
        ensures
            final(self)@.commits == old(self)@.commits,
            final(self)@.verified == raised_marks(
                *cluster,
                old(self)@.verified,
                cluster.replicas@.len() as int,
            ),
    {
        let mut index: usize = 0;
        assert(self@.verified =~= raised_marks(*cluster, old(self)@.verified, 0));
        while index < cluster.replicas.len()
            invariant
                cluster.wf(),
                index <= cluster.replicas.len(),
                self@.commits == old(self)@.commits,
                self@.verified == raised_marks(*cluster, old(self)@.verified, index as int),
            decreases cluster.replicas.len() - index,
        {
            let replica = &cluster.replicas[index];
            let replica_idx: u8 = index as u8;
            if !replica.crashed {
                match replica.metadata {
                    Some(consensus) => {
                        let verified: u64 = self.verified_upto(replica_idx);
                        assert(verified == verified_mark(old(self)@.verified, replica_idx));
                        if consensus.commit_min > verified {
                            self.verified_upto.insert(replica_idx, consensus.commit_min);
                        } else {
                            self.verified_upto.insert(replica_idx, verified);
                        }
                    },
                    None => {},
                }
            }
            assert(self@.verified =~= raised_marks(*cluster, old(self)@.verified, index + 1));
            index = index + 1;
        }
    }

    /// Folds every live replica's newly committed metadata ops into the
    /// canonical chain, or reports the first divergence.
    ///
    /// Reads committed state only (ops at or below `commit_min`), so a prepare
    /// still in flight is never compared: replicas are allowed to disagree about
    /// uncommitted tails, and that is what a view change resolves.
    ///
    /// Crashed replicas are skipped rather than dropped: their high-water mark is
    /// kept, so a restart re-verifies only what it commits anew.
    pub fn check(&mut self, cluster: &ClusterReading) -> (result: Result<(), Divergence>)
        requires
            cluster.wf(),
        ensures
            match checked(old(self)@, *cluster) {
                (after, failed) => {
                    &&& final(self)@ == after
                    &&& match failed {
                        Some(found) => result is Err && result->Err_0@ == found && found.wf(),
                        None => result is Ok,
                    }
                },
            },
    {
        let events = self.collect_events(cluster);
        let ghost start = self@.commits;
        let mut i: usize = 0;
        assert(events@.take(0) =~= Seq::empty());
        while i < events.len()
            invariant
                i <= events.len(),
                start == old(self)@.commits,
                self@.verified == old(self)@.verified,
                forall|j: int| 0 <= j < events@.len() ==> (#[trigger] events@[j]).op > 0,
                folded(start, events@.take(i as int)) == (self@.commits, None::<DivergenceView>),
                events@ == new_events(
                    *cluster,
                    old(self)@.verified,
                    cluster.replicas@.len() as int,
                ),
            decreases events.len() - i,
        {
            let event = events[i];
            assert(events@.take(i + 1).drop_last() =~= events@.take(i as int));
            match self.record(event.replica, event.op, &event.header) {
                Ok(()) => {},
                Err(found) => {
                    proof {
                        failed_fold_is_final(start, events@, i + 1);
                    }
                    return Err(found);
                },
            }
            i = i + 1;
        }
        assert(events@.take(i as int) =~= events@);
        self.raise_marks(cluster);
        Ok(())
    }
}

/// The header a live replica journaled at an op it committed.
pub open spec fn committed_header(cluster: ClusterReading, replica: int, op: u64) -> Option<
    PrepareHeader,
> {
    match cluster.live_metadata(replica) {
        Some(consensus) => if 1 <= op <= consensus.commit_min {
            cluster.replicas@[replica].journal.at(op)
        } else {
            None
        },
        None => None,
    }
}

/// Two replicas committed different history at an op.
pub open spec fn prefixes_differ(cluster: ClusterReading, left: int, right: int, op: u64) -> bool {
    &&& committed_header(cluster, left, op) is Some
    &&& committed_header(cluster, right, op) is Some
    &&& committed_header(cluster, left, op)->0.checksum != committed_header(
        cluster,
        right,
        op,
    )->0.checksum
}

/// The replicas below `bound` agree wherever they overlap.
pub open spec fn prefixes_agree_below(cluster: ClusterReading, bound: int) -> bool {
    forall|left: int, right: int, op: u64|
        0 <= left < bound && 0 <= right < bound ==> !#[trigger] prefixes_differ(
            cluster,
            left,
            right,
            op,
        )
}

/// Every live replica's committed prefix agrees with every other's.
pub open spec fn prefixes_agree(cluster: ClusterReading) -> bool {
    prefixes_agree_below(cluster, cluster.replicas@.len() as int)
}

/// `owner` is the first replica that holds a committed header at `op`.
pub open spec fn first_holder(cluster: ClusterReading, op: u64, owner: int) -> bool {
    &&& committed_header(cluster, owner, op) is Some
    &&& forall|earlier: int|
        0 <= earlier < owner ==> #[trigger] committed_header(cluster, earlier, op) is None
}

/// Two replicas found in disagreement at rest.
#[derive(Debug, Clone, Copy, PartialEq, Eq, Structural)]
pub struct PrefixDisagreement {
    pub replica: u8,
    pub owner: u8,
    pub op: u64,
    /// What `replica` committed.
    pub checksum: u128,
    /// What `owner` committed.
    pub canonical: u128,
}

impl PrefixDisagreement {
    /// The report of the disagreement.
    pub open spec fn report(self, seed: u64) -> Seq<char> {
        "at quiesce replica "@ + decimal(self.replica as nat) + " and replica "@ + decimal(
            self.owner as nat,
        ) + " disagree on committed metadata op "@ + decimal(self.op as nat) + ": "@ + hexadecimal(
            self.checksum as nat,
        ) + " vs "@ + hexadecimal(self.canonical as nat) + seed_note(seed)
    }

    /// The report of the disagreement.
    pub fn message(&self, seed: u64) -> (text: String)
        ensures
            text@ == self.report(seed),
    {
        let mut out = String::new();
        out.append("at quiesce replica ");
        push_decimal(&mut out, self.replica as u128);
        out.append(" and replica ");
        push_decimal(&mut out, self.owner as u128);
        out.append(" disagree on committed metadata op ");
        push_decimal(&mut out, self.op as u128);
        out.append(": ");
        push_hexadecimal(&mut out, self.checksum);
        out.append(" vs ");
        push_hexadecimal(&mut out, self.canonical);
        push_seed_note(&mut out, seed);
        assert(out@ =~= self.report(seed));
        out
    }
}

/// The disagreement is the first one met when walking the replicas in order and
/// each replica's ops in order.
pub open spec fn first_disagreement(cluster: ClusterReading, found: PrefixDisagreement) -> bool {
    &&& found.owner < found.replica < cluster.replicas@.len()
    &&& prefixes_differ(cluster, found.owner as int, found.replica as int, found.op)
    &&& first_holder(cluster, found.op, found.owner as int)
    &&& found.checksum == committed_header(
        cluster,
        found.replica as int,
        found.op,
    )->0.checksum
    &&& found.canonical == committed_header(cluster, found.owner as int, found.op)->0.checksum
    &&& prefixes_agree_below(cluster, found.replica as int)
    &&& forall|earlier: int, op: u64|
        0 <= earlier < found.replica && op < found.op ==> !#[trigger] prefixes_differ(
            cluster,
            earlier,
            found.replica as int,
            op,
        )
}

/// Whether every live replica's committed metadata prefix agrees, op for op.
///
/// The quiesce-time counterpart to [`StateChecker::check`]: that one folds ops in
/// as they commit and so compares whatever happened to overlap, while this walks
/// the full committed prefix of every live replica at rest and requires the
/// shorter to be a genuine PREFIX of the longer. A replica may still trail (it
/// may have missed the last commit broadcast), but where it has committed
/// anything it must match.
pub fn assert_committed_prefixes_agree(cluster: &ClusterReading) -> (result: Result<
    (),
    PrefixDisagreement,
>)
    requires
        cluster.wf(),
    ensures
        result is Ok <==> prefixes_agree(*cluster),
        result is Err ==> first_disagreement(*cluster, result->Err_0),
{
    let mut canonical: BTreeMap<u64, (u128, u8)> = BTreeMap::new();
    let mut index: usize = 0;
    while index < cluster.replicas.len()
        invariant
            cluster.wf(),
            index <= cluster.replicas.len(),
            prefixes_agree_below(*cluster, index as int),
            forall|op: u64| #[trigger]
                canonical@.contains_key(op) ==> {
                    &&& canonical@[op].1 < index
                    &&& first_holder(*cluster, op, canonical@[op].1 as int)
                    &&& canonical@[op].0 == committed_header(
                        *cluster,
                        canonical@[op].1 as int,
                        op,
                    )->0.checksum
                },
            forall|replica: int, op: u64|
                0 <= replica < index && (#[trigger] committed_header(*cluster, replica, op)) is Some
                    ==> canonical@.contains_key(op),
        decreases cluster.replicas.len() - index,
    {
        let replica = &cluster.replicas[index];
        let replica_idx: u8 = index as u8;
        let ghost this = index as int;
        if !replica.crashed {
            match replica.metadata {
                Some(consensus) => {
                    let committed: u64 = consensus.commit_min;
                    let mut op: u64 = 0;
                    while op < committed
                        invariant
                            cluster.wf(),
                            this == index,
                            index < cluster.replicas.len(),
                            replica_idx == index,
                            replica == cluster.replicas@[this],
                            cluster.live_metadata(this) == Some(consensus),
                            committed == consensus.commit_min,
                            op <= committed,
                            prefixes_agree_below(*cluster, this),
                            forall|earlier: int, past: u64|
                                0 <= earlier < this && past <= op ==> !#[trigger] prefixes_differ(
                                    *cluster,
                                    earlier,
                                    this,
                                    past,
                                ),
                            forall|known: u64| #[trigger]
                                canonical@.contains_key(known) ==> {
                                    &&& canonical@[known].1 <= index
                                    &&& first_holder(*cluster, known, canonical@[known].1 as int)
                                    &&& canonical@[known].0 == committed_header(
                                        *cluster,
                                        canonical@[known].1 as int,
                                        known,
                                    )->0.checksum
                                    &&& canonical@[known].1 == index ==> known <= op
                                },
                            forall|replica: int, known: u64|
                                0 <= replica < this && (#[trigger] committed_header(
                                    *cluster,
                                    replica,
                                    known,
                                )) is Some ==> canonical@.contains_key(known),
                            forall|known: u64|
                                known <= op && (#[trigger] committed_header(
                                    *cluster,
                                    this,
                                    known,
                                )) is Some ==> canonical@.contains_key(known),
                        decreases committed - op,
                    {
                        op = op + 1;
                        match replica.journal.journaled_header(op) {
                            Some(header) => {
                                assert(committed_header(*cluster, this, op) == Some(header));
                                match canonical.get(&op) {
                                    Some(known) => {
                                        let (checksum, owner) = *known;
                                        if checksum != header.checksum {
                                            let found = PrefixDisagreement {
                                                replica: replica_idx,
                                                owner,
                                                op,
                                                checksum: header.checksum,
                                                canonical: checksum,
                                            };
                                            assert(prefixes_differ(
                                                *cluster,
                                                owner as int,
                                                this,
                                                op,
                                            ));
                                            return Err(found);
                                        }
                                        proof {
                                            assert forall|earlier: int|
                                                0 <= earlier
                                                    < this implies !#[trigger] prefixes_differ(
                                                *cluster,
                                                earlier,
                                                this,
                                                op,
                                            ) by {
                                                assert(!prefixes_differ(
                                                    *cluster,
                                                    earlier,
                                                    owner as int,
                                                    op,
                                                ));
                                            }
                                        }
                                    },
                                    None => {
                                        canonical.insert(op, (header.checksum, replica_idx));
                                    },
                                }
                            },
                            None => {},
                        }
                    }
                },
                None => {},
            }
        }
        proof {
            assert forall|left: int, right: int, op: u64|
                0 <= left < index + 1 && 0 <= right < index
                    + 1 implies !#[trigger] prefixes_differ(*cluster, left, right, op) by {
                if left == this && right < this {
                    assert(!prefixes_differ(*cluster, right, left, op));
                }
            }
        }
        index = index + 1;
    }
    Ok(())
}

proof fn failed_fold_is_final(commits: Map<u64, CommitView>, events: Seq<CommitEvent>, upto: int)
    requires
        0 <= upto <= events.len(),
        folded(commits, events.take(upto)).1 is Some,
    ensures
        folded(commits, events) == folded(commits, events.take(upto)),
    decreases events.len(),
{
    if upto == events.len() {
        assert(events.take(upto) =~= events);
    } else {
        assert(events.drop_last().take(upto) =~= events.take(upto));
        failed_fold_is_final(commits, events.drop_last(), upto);
    }
}

/// Folding keeps what the chain already holds: an op's canonical checksum never
/// changes once recorded, and no witness is forgotten, whether or not the fold
/// ends in a divergence.
pub proof fn canonical_history_is_immutable(
    commits: Map<u64, CommitView>,
    events: Seq<CommitEvent>,
    op: u64,
)
    requires
        commits.contains_key(op),
    ensures
        folded(commits, events).0.contains_key(op),
        folded(commits, events).0[op].checksum == commits[op].checksum,
        commits[op].replicas.subset_of(folded(commits, events).0[op].replicas),
    decreases events.len(),
{
    if events.len() > 0 {
        canonical_history_is_immutable(commits, events.drop_last(), op);
    }
}

proof fn fold_splits(commits: Map<u64, CommitView>, events: Seq<CommitEvent>, at: int)
    requires
        0 <= at <= events.len(),
        folded(commits, events).1 is None,
    ensures
        folded(commits, events.take(at)).1 is None,
        folded(commits, events) == folded(folded(commits, events.take(at)).0, events.skip(at)),
    decreases events.len(),
{
    if at == events.len() {
        assert(events.take(at) =~= events);
        assert(events.skip(at) =~= Seq::empty());
    } else {
        let shorter = events.drop_last();
        fold_splits(commits, shorter, at);
        assert(shorter.take(at) =~= events.take(at));
        assert(shorter.skip(at) =~= events.skip(at).drop_last());
    }
}

/// Every op of an accepted list of events stands in the resulting chain with the
/// event's checksum, the event's replica among its witnesses.
pub proof fn accepted_events_are_canonical(
    commits: Map<u64, CommitView>,
    events: Seq<CommitEvent>,
    index: int,
)
    requires
        0 <= index < events.len(),
        folded(commits, events).1 is None,
    ensures
        folded(commits, events).0.contains_key(events[index].op),
        folded(commits, events).0[events[index].op].checksum == events[index].header.checksum,
        folded(commits, events).0[events[index].op].replicas.contains(events[index].replica),
{
    fold_splits(commits, events, index + 1);
    assert(events.take(index + 1).drop_last() =~= events.take(index));
    canonical_history_is_immutable(
        folded(commits, events.take(index + 1)).0,
        events.skip(index + 1),
        events[index].op,
    );
}

/// The consensus property: two replicas that both committed op N committed the
/// same op N. No accepted run of events holds two identities for one op, nor one
/// that contradicts the chain it started from.
pub proof fn accepted_events_agree(
    commits: Map<u64, CommitView>,
    events: Seq<CommitEvent>,
    left: int,
    right: int,
)
    requires
        0 <= left < events.len(),
        0 <= right < events.len(),
        folded(commits, events).1 is None,
    ensures
        events[left].op == events[right].op ==> events[left].header.checksum
            == events[right].header.checksum,
        commits.contains_key(events[left].op) ==> events[left].header.checksum
            == commits[events[left].op].checksum,
{
    accepted_events_are_canonical(commits, events, left);
    accepted_events_are_canonical(commits, events, right);
    if commits.contains_key(events[left].op) {
        canonical_history_is_immutable(commits, events, events[left].op);
    }
}

/// The consensus property across ticks: what one accepted check recorded, no
/// later accepted check can contradict.
pub proof fn later_checks_agree_with_earlier(
    commits: Map<u64, CommitView>,
    earlier: Seq<CommitEvent>,
    later: Seq<CommitEvent>,
    left: int,
    right: int,
)
    requires
        0 <= left < earlier.len(),
        0 <= right < later.len(),
        folded(commits, earlier).1 is None,
        folded(folded(commits, earlier).0, later).1 is None,
        earlier[left].op == later[right].op,
    ensures
        earlier[left].header.checksum == later[right].header.checksum,
{
    accepted_events_are_canonical(commits, earlier, left);
    accepted_events_agree(folded(commits, earlier).0, later, right, right);
}

/// The committed chain stays hash-linked: an accepted op whose predecessor is in
/// the chain names that predecessor's canonical checksum as its parent.
pub proof fn accepted_events_are_linked(
    commits: Map<u64, CommitView>,
    events: Seq<CommitEvent>,
    index: int,
)
    requires
        0 <= index < events.len(),
        events[index].op > 0,
        folded(commits, events).1 is None,
        folded(commits, events.take(index)).0.contains_key((events[index].op - 1) as u64),
    ensures
        events[index].header.parent == folded(commits, events).0[(events[index].op
            - 1) as u64].checksum,
{
    fold_splits(commits, events, index + 1);
    fold_splits(commits, events, index);
    assert(events.take(index + 1).drop_last() =~= events.take(index));
    canonical_history_is_immutable(
        folded(commits, events.take(index)).0,
        events.skip(index),
        (events[index].op - 1) as u64,
    );
}

proof fn journal_event_present(
    journal: JournalWindow,
    replica: u8,
    verified: int,
    committed: int,
    op: u64,
)
    requires
        verified < op <= committed <= u64::MAX,
        journal.at(op) is Some,
    ensures
        journal_events(journal, replica, verified, committed).contains(
            CommitEvent { replica, op, header: journal.at(op)->0 },
        ),
    decreases committed - verified,
{
    let event = CommitEvent { replica, op, header: journal.at(op)->0 };
    let all = journal_events(journal, replica, verified, committed);
    let before = journal_events(journal, replica, verified, committed - 1);
    if op == committed {
        assert(all[all.len() - 1] == event);
    } else {
        journal_event_present(journal, replica, verified, committed - 1, op);
        let i = choose|i: int| 0 <= i < before.len() && before[i] == event;
        assert(all[i] == event);
    }
}

/// A pass considers every op that a live replica journaled and committed above
/// its mark.
pub proof fn newly_committed_ops_are_checked(
    cluster: ClusterReading,
    verified: Map<u8, u64>,
    bound: int,
    replica: u8,
    op: u64,
)
    requires
        replica < bound <= 256,
        cluster.live_metadata(replica as int) is Some,
        verified_mark(verified, replica) < op <= cluster.live_metadata(
            replica as int,
        )->0.commit_min,
        cluster.replicas@[replica as int].journal.at(op) is Some,
    ensures
        new_events(cluster, verified, bound).contains(
            CommitEvent {
                replica,
                op,
                header: cluster.replicas@[replica as int].journal.at(op)->0,
            },
        ),
    decreases bound,
{
    let journal = cluster.replicas@[replica as int].journal;
    let event = CommitEvent { replica, op, header: journal.at(op)->0 };
    let all = new_events(cluster, verified, bound);
    let before = new_events(cluster, verified, bound - 1);
    if replica == bound - 1 {
        let mark = verified_mark(verified, replica) as int;
        let committed = cluster.live_metadata(replica as int)->0.commit_min as int;
        journal_event_present(journal, replica, mark, committed, op);
        let own = journal_events(journal, replica, mark, committed);
        let i = choose|i: int| 0 <= i < own.len() && own[i] == event;
        assert(all[before.len() + i] == event);
    } else {
        newly_committed_ops_are_checked(cluster, verified, bound - 1, replica, op);
        let i = choose|i: int| 0 <= i < before.len() && before[i] == event;
        assert(all[i] == event);
    }
}

/// A check that passes has compared the replicas with each other: wherever two
/// live replicas both journaled and newly committed an op, they hold the same
/// one, and the chain now counts both as witnesses of it.
pub proof fn passed_check_means_replicas_agree(
    before: CheckerView,
    cluster: ClusterReading,
    left: u8,
    right: u8,
    op: u64,
)
    requires
        cluster.wf(),
        checked(before, cluster).1 is None,
        cluster.live_metadata(left as int) is Some,
        cluster.live_metadata(right as int) is Some,
        verified_mark(before.verified, left) < op <= cluster.live_metadata(
            left as int,
        )->0.commit_min,
        verified_mark(before.verified, right) < op <= cluster.live_metadata(
            right as int,
        )->0.commit_min,
        cluster.replicas@[left as int].journal.at(op) is Some,
        cluster.replicas@[right as int].journal.at(op) is Some,
    ensures
        cluster.replicas@[left as int].journal.at(op)->0.checksum
            == cluster.replicas@[right as int].journal.at(op)->0.checksum,
        ({
            let chain = checked(before, cluster).0.commits;
            chain.contains_key(op) && chain[op].replicas.contains(left)
                && chain[op].replicas.contains(right)
        }),
{
    let count = cluster.replicas@.len() as int;
    let events = new_events(cluster, before.verified, count);
    newly_committed_ops_are_checked(cluster, before.verified, count, left, op);
    newly_committed_ops_are_checked(cluster, before.verified, count, right, op);
    let l = CommitEvent {
        replica: left,
        op,
        header: cluster.replicas@[left as int].journal.at(op)->0,
    };
    let r = CommitEvent {
        replica: right,
        op,
        header: cluster.replicas@[right as int].journal.at(op)->0,
    };
    let i = choose|i: int| 0 <= i < events.len() && events[i] == l;
    let j = choose|j: int| 0 <= j < events.len() && events[j] == r;
    accepted_events_agree(before.commits, events, i, j);
    accepted_events_are_canonical(before.commits, events, i);
    accepted_events_are_canonical(before.commits, events, j);
}

/// High-water marks are never lowered and never dropped, whatever a replica
/// reports after a restart; a replica that is down keeps its mark.
pub proof fn marks_never_fall(cluster: ClusterReading, verified: Map<u8, u64>, replica: u8)
    requires
        cluster.wf(),
    ensures
        verified_mark(verified, replica) <= verified_mark(
            raised_marks(cluster, verified, cluster.replicas@.len() as int),
            replica,
        ),
        verified.contains_key(replica) ==> raised_marks(
            cluster,
            verified,
            cluster.replicas@.len() as int,
        ).contains_key(replica),
        !cluster.live(replica as int) ==> verified_mark(
            raised_marks(cluster, verified, cluster.replicas@.len() as int),
            replica,
        ) == verified_mark(verified, replica),
{
}

/// Compared ops are ops of the chain, so the comparison count never exceeds the
/// chain's length.
pub proof fn compared_ops_are_in_chain(commits: Map<u64, CommitView>)
    requires
        commits.dom().finite(),
    ensures
        compared_ops(commits).subset_of(commits.dom()),
        compared_ops(commits).len() <= commits.dom().len(),
{
    vstd::set_lib::lemma_len_subset(compared_ops(commits), commits.dom());
}

/// A replica may trail: one that has committed less of the same journal breaks no
/// agreement.
pub proof fn trailing_replicas_still_agree(cluster: ClusterReading, trailing: ClusterReading)
    requires
        prefixes_agree(cluster),
        trailing.replicas@.len() == cluster.replicas@.len(),
        forall|r: int|
            (#[trigger] trailing.live_metadata(r)) is Some ==> {
                &&& cluster.live_metadata(r) is Some
                &&& trailing.live_metadata(r)->0.commit_min <= cluster.live_metadata(
                    r,
                )->0.commit_min
                &&& trailing.replicas@[r].journal == cluster.replicas@[r].journal
            },
    ensures
        prefixes_agree(trailing),
{
    let count = cluster.replicas@.len() as int;
    assert forall|left: int, right: int, op: u64|
        0 <= left < count && 0 <= right < count implies !#[trigger] prefixes_differ(
        trailing,
        left,
        right,
        op,
    ) by {
        assert(!prefixes_differ(cluster, left, right, op));
        assert(trailing.live_metadata(left) is Some ==> cluster.live_metadata(left) is Some);
        assert(trailing.live_metadata(right) is Some ==> cluster.live_metadata(right) is Some);
    }
}

proof fn folding_keeps_the_chain_finite(
    commits: Map<u64, CommitView>,
    events: Seq<CommitEvent>,
)
    requires
        commits.dom().finite(),
    ensures
        folded(commits, events).0.dom().finite(),
    decreases events.len(),
{
    if events.len() > 0 {
        folding_keeps_the_chain_finite(commits, events.drop_last());
        let before = folded(commits, events.drop_last()).0;
        assert(recorded(before, events.last()).dom() =~= before.dom().insert(events.last().op));
    }
}

/// Neither count falls over a check, whether or not it ends in a divergence: the
/// chain keeps every op it has, and a compared op stays compared.
pub proof fn counts_never_fall(before: CheckerView, cluster: ClusterReading)
    requires
        before.commits.dom().finite(),
    ensures
        ({
            let after = checked(before, cluster).0;
            &&& after.commits.dom().finite()
            &&& before.commits.dom().subset_of(after.commits.dom())
            &&& before.commits.dom().len() <= after.commits.dom().len()
            &&& compared_ops(before.commits).subset_of(compared_ops(after.commits))
            &&& compared_ops(before.commits).len() <= compared_ops(after.commits).len()
        }),
{
    let events = new_events(cluster, before.verified, cluster.replicas@.len() as int);
    let after = folded(before.commits, events).0;
    folding_keeps_the_chain_finite(before.commits, events);
    assert forall|op: u64| before.commits.contains_key(op) implies after.contains_key(op)
        && before.commits[op].replicas.len() <= #[trigger] after[op].replicas.len() by {
        canonical_history_is_immutable(before.commits, events, op);
        byte_sets_are_finite(after[op].replicas);
        vstd::set_lib::lemma_len_subset(before.commits[op].replicas, after[op].replicas);
    }
    assert forall|op: u64| before.commits.dom().contains(op) implies after.dom().contains(op) by {
        assert(before.commits.contains_key(op));
        canonical_history_is_immutable(before.commits, events, op);
    }
    assert forall|op: u64| compared_ops(before.commits).contains(op) implies compared_ops(
        after,
    ).contains(op) by {
        assert(before.commits.contains_key(op));
        assert(before.commits[op].replicas.len() <= after[op].replicas.len());
    }
    vstd::set_lib::lemma_len_subset(before.commits.dom(), after.dom());
    vstd::set_lib::lemma_len_subset(compared_ops(after), after.dom());
    vstd::set_lib::lemma_len_subset(compared_ops(before.commits), compared_ops(after));
}

proof fn bytes_below_are_finite(bound: int)
    requires
        0 <= bound <= 256,
    ensures
        Set::new(|byte: u8| byte < bound).finite(),
    decreases bound,
{
    let bytes = Set::new(|byte: u8| byte < bound);
    if bound == 0 {
        assert(bytes =~= Set::empty());
    } else {
        bytes_below_are_finite(bound - 1);
        assert(bytes =~= Set::new(|byte: u8| byte < bound - 1).insert((bound - 1) as u8));
    }
}

proof fn byte_sets_are_finite(bytes: Set<u8>)
    ensures
        bytes.finite(),
{
    bytes_below_are_finite(256);
    vstd::set_lib::lemma_len_subset(bytes, Set::new(|byte: u8| byte < 256));
}

/// A second check of an unchanged cluster finds nothing and changes nothing.
pub proof fn repeated_check_changes_nothing(before: CheckerView, cluster: ClusterReading)
    requires
        cluster.wf(),
        checked(before, cluster).1 is None,
    ensures
        checked(checked(before, cluster).0, cluster) == (
            checked(before, cluster).0,
            None::<DivergenceView>,
        ),
{
    let count = cluster.replicas@.len() as int;
    let after = checked(before, cluster).0;
    nothing_new_above_raised_marks(cluster, before.verified, count, count);
    assert(raised_marks(cluster, after.verified, count) =~= after.verified);
}

proof fn nothing_new_above_raised_marks(
    cluster: ClusterReading,
    verified: Map<u8, u64>,
    count: int,
    bound: int,
)
    requires
        bound <= count <= 255,
    ensures
        new_events(cluster, raised_marks(cluster, verified, count), bound) == Seq::<
            CommitEvent,
        >::empty(),
    decreases bound,
{
    if bound > 0 {
        nothing_new_above_raised_marks(cluster, verified, count, bound - 1);
        assert(new_events(cluster, raised_marks(cluster, verified, count), bound) =~= Seq::<
            CommitEvent,
        >::empty());
    }
}

/// The two readings show the same committed history: as many replicas, and for
/// each the same commit point, or none, with the same headers at the ops up to it.
pub open spec fn same_committed_history(left: ClusterReading, right: ClusterReading) -> bool {
    &&& left.replicas@.len() == right.replicas@.len()
    &&& forall|replica: int|
        (#[trigger] left.live_metadata(replica)) is Some <==> right.live_metadata(replica) is Some
    &&& forall|replica: int|
        (#[trigger] left.live_metadata(replica)) is Some ==> left.live_metadata(
            replica,
        )->0.commit_min == right.live_metadata(replica)->0.commit_min
    &&& forall|replica: int, op: u64| #[trigger]
        committed_header(left, replica, op) == committed_header(right, replica, op)
}

proof fn same_committed_ops_same_events(
    left: ClusterReading,
    right: ClusterReading,
    replica: int,
    verified: int,
    committed: int,
)
    requires
        same_committed_history(left, right),
        left.live_metadata(replica) is Some,
        0 <= verified,
        committed <= left.live_metadata(replica)->0.commit_min,
    ensures
        journal_events(left.replicas@[replica].journal, replica as u8, verified, committed)
            == journal_events(
            right.replicas@[replica].journal,
            replica as u8,
            verified,
            committed,
        ),
    decreases committed - verified,
{
    if committed > verified {
        same_committed_ops_same_events(left, right, replica, verified, committed - 1);
        assert(committed_header(left, replica, committed as u64) == committed_header(
            right,
            replica,
            committed as u64,
        ));
    }
}

proof fn same_history_same_events(
    left: ClusterReading,
    right: ClusterReading,
    verified: Map<u8, u64>,
    bound: int,
)
    requires
        same_committed_history(left, right),
    ensures
        new_events(left, verified, bound) == new_events(right, verified, bound),
    decreases bound,
{
    if bound > 0 {
        let replica = bound - 1;
        same_history_same_events(left, right, verified, replica);
        if left.live_metadata(replica) is Some {
            same_committed_ops_same_events(
                left,
                right,
                replica,
                verified_mark(verified, replica as u8) as int,
                left.live_metadata(replica)->0.commit_min as int,
            );
        }
    }
}

/// A check reads committed history alone: headers above a replica's commit point
/// have no influence on it, nor has anything a crashed replica holds.
pub proof fn only_committed_history_is_checked(
    before: CheckerView,
    left: ClusterReading,
    right: ClusterReading,
)
    requires
        same_committed_history(left, right),
    ensures
        checked(before, left) == checked(before, right),
{
    let count = left.replicas@.len() as int;
    same_history_same_events(left, right, before.verified, count);
    assert forall|replica: u8|
        #![trigger left.live_metadata(replica as int)]
        left.live_metadata(replica as int) is Some implies left.live_metadata(
        replica as int,
    )->0.commit_min == right.live_metadata(replica as int)->0.commit_min by {}
    assert(raised_marks(left, before.verified, count) =~= raised_marks(
        right,
        before.verified,
        count,
    ));
}

/// Agreement at rest reads committed history alone, too.
pub proof fn only_committed_history_is_compared(left: ClusterReading, right: ClusterReading)
    requires
        same_committed_history(left, right),
    ensures
        prefixes_agree(left) == prefixes_agree(right),
{
    let count = left.replicas@.len() as int;
    assert forall|a: int, b: int, op: u64|
        0 <= a < count && 0 <= b < count implies #[trigger] prefixes_differ(left, a, b, op)
        == prefixes_differ(right, a, b, op) by {
        assert(committed_header(left, a, op) == committed_header(right, a, op));
        assert(committed_header(left, b, op) == committed_header(right, b, op));
    }
    if prefixes_agree(left) {
        assert forall|a: int, b: int, op: u64|
            0 <= a < count && 0 <= b < count implies !#[trigger] prefixes_differ(
            right,
            a,
            b,
            op,
        ) by {
            assert(!prefixes_differ(left, a, b, op));
        }
    }
    if prefixes_agree(right) {
        assert forall|a: int, b: int, op: u64|
            0 <= a < count && 0 <= b < count implies !#[trigger] prefixes_differ(
            left,
            a,
            b,
            op,
        ) by {
            assert(!prefixes_differ(right, a, b, op));
        }
    }
}

/// A live replica journaled an op and committed it above its mark.
pub open spec fn newly_committed(
    cluster: ClusterReading,
    verified: Map<u8, u64>,
    replica: u8,
    op: u64,
) -> bool {
    &&& replica < cluster.replicas@.len()
    &&& !cluster.replicas@[replica as int].crashed
    &&& cluster.replicas@[replica as int].metadata is Some
    &&& verified_mark(verified, replica) < op
    &&& op <= cluster.replicas@[replica as int].metadata->0.commit_min
    &&& cluster.replicas@[replica as int].journal.at(op) is Some
}

/// The mark of a replica is the op recorded for it, 0 where none is.
pub proof fn marks_start_at_zero(verified: Map<u8, u64>, replica: u8)
    ensures
        verified.dom().contains(replica) ==> verified_mark(verified, replica) == verified[replica],
        !verified.dom().contains(replica) ==> verified_mark(verified, replica) == 0,
{
}

/// A committed header is one that a live replica journaled at an op from 1 to its
/// commit point.
pub proof fn committed_headers_are_journaled(cluster: ClusterReading, replica: int, op: u64)
    ensures
        ({
            let counts = 0 <= replica < cluster.replicas@.len()
                && !cluster.replicas@[replica].crashed && cluster.replicas@[replica].metadata is Some
                && 0 < op <= cluster.replicas@[replica].metadata->0.commit_min;
            &&& counts ==> committed_header(cluster, replica, op)
                == cluster.replicas@[replica].journal.at(op)
            &&& !counts ==> committed_header(cluster, replica, op) is None
        }),
{
}

/// The witnesses of an op are listed each once, in ascending order.
pub proof fn witnesses_are_listed_in_order(replicas: Set<u8>, bound: int)
    requires
        0 <= bound <= 256,
    ensures
        forall|replica: u8| #[trigger]
            members_below(replicas, bound).contains(replica) <==> replicas.contains(replica)
                && replica < bound,
        forall|i: int, j: int|
            0 <= i < j < members_below(replicas, bound).len() ==> #[trigger] members_below(
                replicas,
                bound,
            )[i] < #[trigger] members_below(replicas, bound)[j],
        bound == 256 ==> members(replicas) == members_below(replicas, bound),
    decreases bound,
{
    if bound > 0 {
        witnesses_are_listed_in_order(replicas, bound - 1);
        let before = members_below(replicas, bound - 1);
        let all = members_below(replicas, bound);
        assert forall|i: int| 0 <= i < before.len() implies #[trigger] before[i] < bound - 1 by {
            assert(before.contains(before[i]));
        }
        assert forall|replica: u8| #[trigger] all.contains(replica) <==> replicas.contains(replica)
            && replica < bound by {
            if before.contains(replica) {
                let i = choose|i: int| 0 <= i < before.len() && before[i] == replica;
                assert(all[i] == replica);
            }
            if all.contains(replica) {
                let i = choose|i: int| 0 <= i < all.len() && all[i] == replica;
                if i < before.len() {
                    assert(before[i] == replica);
                    assert(before.contains(replica));
                }
            }
            if replica == bound - 1 && replicas.contains(replica) {
                assert(all[before.len() as int] == replica);
            }
        }
    }
}

/// An op counts as compared exactly if two different replicas witnessed it.
pub proof fn compared_ops_have_two_witnesses(commits: Map<u64, CommitView>, op: u64)
    ensures
        compared_ops(commits).contains(op) <==> commits.dom().contains(op) && exists|
            left: u8,
            right: u8,
        |
            left != right && #[trigger] commits[op].replicas.contains(left)
                && #[trigger] commits[op].replicas.contains(right),
{
    if commits.dom().contains(op) {
        let replicas = commits[op].replicas;
        byte_sets_are_finite(replicas);
        if exists|left: u8, right: u8|
            left != right && #[trigger] replicas.contains(left) && #[trigger] replicas.contains(
                right,
            ) {
            let (left, right) = choose|left: u8, right: u8|
                left != right && #[trigger] replicas.contains(left) && #[trigger] replicas.contains(
                    right,
                );
            assert(replicas.remove(left).contains(right));
            assert(replicas.remove(left).remove(right).len() + 2 == replicas.len());
        }
        if replicas.len() > 1 {
            let left = replicas.choose();
            assert(replicas.contains(left));
            let rest = replicas.remove(left);
            assert(rest.len() > 0);
            let right = rest.choose();
            assert(rest.contains(right));
            assert(replicas.contains(left) && replicas.contains(right));
        }
    }
}

proof fn journal_events_are_journaled(
    journal: JournalWindow,
    replica: u8,
    verified: int,
    committed: int,
)
    requires
        0 <= verified,
        committed <= u64::MAX,
    ensures
        forall|i: int|
            0 <= i < journal_events(journal, replica, verified, committed).len() ==> {
                let event = #[trigger] journal_events(journal, replica, verified, committed)[i];
                &&& event.replica == replica
                &&& verified < event.op <= committed
                &&& journal.at(event.op) == Some(event.header)
            },
        forall|i: int, j: int|
            0 <= i < j < journal_events(journal, replica, verified, committed).len() ==> (
            #[trigger] journal_events(journal, replica, verified, committed)[i]).op < (
            #[trigger] journal_events(journal, replica, verified, committed)[j]).op,
    decreases committed - verified,
{
    if committed > verified {
        journal_events_are_journaled(journal, replica, verified, committed - 1);
    }
}

/// A pass considers only what live replicas journaled and committed above their
/// marks, replica by replica and each replica's ops in ascending order.
pub proof fn only_newly_committed_ops_are_considered(
    cluster: ClusterReading,
    verified: Map<u8, u64>,
    bound: int,
)
    requires
        0 <= bound <= cluster.replicas@.len() <= 255,
    ensures
        forall|i: int|
            0 <= i < new_events(cluster, verified, bound).len() ==> {
                let event = #[trigger] new_events(cluster, verified, bound)[i];
                &&& event.replica < bound
                &&& newly_committed(cluster, verified, event.replica, event.op)
                &&& cluster.replicas@[event.replica as int].journal.at(event.op) == Some(
                    event.header,
                )
            },
        forall|i: int, j: int|
            0 <= i < j < new_events(cluster, verified, bound).len() ==> {
                let earlier = #[trigger] new_events(cluster, verified, bound)[i];
                let later = #[trigger] new_events(cluster, verified, bound)[j];
                earlier.replica < later.replica || earlier.replica == later.replica && earlier.op
                    < later.op
            },
    decreases bound,
{
    if bound > 0 {
        only_newly_committed_ops_are_considered(cluster, verified, bound - 1);
        let before = new_events(cluster, verified, bound - 1);
        let all = new_events(cluster, verified, bound);
        if let Some(consensus) = cluster.live_metadata(bound - 1) {
            let replica = (bound - 1) as u8;
            let mark = verified_mark(verified, replica) as int;
            let journal = cluster.replicas@[bound - 1].journal;
            let own = journal_events(journal, replica, mark, consensus.commit_min as int);
            journal_events_are_journaled(journal, replica, mark, consensus.commit_min as int);
            assert(all == before + own);
            assert forall|i: int| 0 <= i < all.len() implies {
                let event = #[trigger] all[i];
                &&& event.replica < bound
                &&& newly_committed(cluster, verified, event.replica, event.op)
                &&& cluster.replicas@[event.replica as int].journal.at(event.op) == Some(
                    event.header,
                )
            } by {
                if i < before.len() {
                    assert(all[i] == before[i]);
                } else {
                    assert(all[i] == own[i - before.len()]);
                }
            }
            assert forall|i: int, j: int| 0 <= i < j < all.len() implies {
                let earlier = #[trigger] all[i];
                let later = #[trigger] all[j];
                earlier.replica < later.replica || earlier.replica == later.replica && earlier.op
                    < later.op
            } by {
                if i < before.len() {
                    assert(all[i] == before[i]);
                } else {
                    assert(all[i] == own[i - before.len()]);
                }
                if j < before.len() {
                    assert(all[j] == before[j]);
                } else {
                    assert(all[j] == own[j - before.len()]);
                }
            }
        }
    }
}

/// After a pass that found nothing, the mark of a live replica that runs the
/// metadata plane is the higher of its old mark and its commit point; every other
/// mark, and every mark after a divergence, is as it was.
pub proof fn passes_raise_marks_to_the_commit_point(
    before: CheckerView,
    cluster: ClusterReading,
    replica: u8,
)
    requires
        cluster.wf(),
    ensures
        ({
            let (after, diverged) = checked(before, cluster);
            let old_mark = verified_mark(before.verified, replica);
            let new_mark = verified_mark(after.verified, replica);
            let reads = replica < cluster.replicas@.len()
                && !cluster.replicas@[replica as int].crashed
                && cluster.replicas@[replica as int].metadata is Some;
            let committed = cluster.replicas@[replica as int].metadata->0.commit_min;
            &&& diverged is Some ==> after.verified == before.verified
            &&& diverged is None && reads ==> new_mark >= old_mark && new_mark >= committed && (
            new_mark == old_mark || new_mark == committed)
            &&& !reads ==> new_mark == old_mark
        }),
{
}

/// Folding an event in records its checksum and its replica at its op, and leaves
/// every other op as it was.
pub proof fn recording_touches_one_op(
    commits: Map<u64, CommitView>,
    event: CommitEvent,
    op: u64,
    replica: u8,
)
    ensures
        ({
            let after = recorded(commits, event);
            &&& after.dom().contains(event.op)
            &&& after[event.op].checksum == event.header.checksum
            &&& after[event.op].replicas.contains(replica) <==> replica == event.replica
                || commits.dom().contains(event.op) && commits[event.op].replicas.contains(replica)
            &&& op != event.op ==> after.dom().contains(op) == commits.dom().contains(op)
                && after[op] == commits[op]
        }),
{
}

/// An event diverges exactly if the chain holds its predecessor with a checksum
/// other than the event's parent, or its op with a checksum other than the event's.
pub proof fn divergence_is_a_broken_link_or_a_disagreement(
    commits: Map<u64, CommitView>,
    event: CommitEvent,
)
    requires
        event.op > 0,
    ensures
        ({
            let previous = (event.op - 1) as u64;
            let broken = commits.dom().contains(previous) && commits[previous].checksum
                != event.header.parent;
            let differs = commits.dom().contains(event.op) && commits[event.op].checksum
                != event.header.checksum;
            &&& broken ==> divergence(commits, event) == Some(
                DivergenceView::BrokenLink {
                    replica: event.replica,
                    op: event.op,
                    parent: event.header.parent,
                    canonical: commits[previous].checksum,
                },
            )
            &&& !broken && differs ==> divergence(commits, event) == Some(
                DivergenceView::Disagreement {
                    replica: event.replica,
                    op: event.op,
                    checksum: event.header.checksum,
                    canonical: commits[event.op].checksum,
                    committed_by: members(commits[event.op].replicas),
                },
            )
            &&& !broken && !differs ==> divergence(commits, event) is None
        }),
{
}

/// The chain follows one history: every op it holds has that history's checksum.
pub open spec fn follows(commits: Map<u64, CommitView>, history: spec_fn(u64) -> u128) -> bool {
    forall|op: u64| #[trigger]
        commits.dom().contains(op) ==> commits[op].checksum == history(op)
}

proof fn events_of_one_history_are_accepted(
    commits: Map<u64, CommitView>,
    events: Seq<CommitEvent>,
    history: spec_fn(u64) -> u128,
)
    requires
        follows(commits, history),
        forall|i: int|
            0 <= i < events.len() ==> {
                &&& (#[trigger] events[i]).op > 0
                &&& events[i].header.checksum == history(events[i].op)
                &&& events[i].header.parent == history((events[i].op - 1) as u64)
            },
    ensures
        folded(commits, events).1 is None,
        follows(folded(commits, events).0, history),
    decreases events.len(),
{
    if events.len() > 0 {
        let shorter = events.drop_last();
        assert forall|i: int| 0 <= i < shorter.len() implies {
            &&& (#[trigger] shorter[i]).op > 0
            &&& shorter[i].header.checksum == history(shorter[i].op)
            &&& shorter[i].header.parent == history((shorter[i].op - 1) as u64)
        } by {
            assert(shorter[i] == events[i]);
        }
        events_of_one_history_are_accepted(commits, shorter, history);
        let before = folded(commits, shorter).0;
        let last = events.last();
        assert(events[events.len() - 1].op > 0);
        divergence_is_a_broken_link_or_a_disagreement(before, last);
        assert forall|op: u64| #[trigger]
            folded(commits, events).0.dom().contains(op) implies folded(
            commits,
            events,
        ).0[op].checksum == history(op) by {
            recording_touches_one_op(before, last, op, 0);
        }
    }
}

/// A correct cluster passes: where the chain and everything newly committed follow
/// one hash-linked history, the check finds nothing, and the chain follows it on.
pub proof fn replicas_of_one_history_pass(
    before: CheckerView,
    cluster: ClusterReading,
    history: spec_fn(u64) -> u128,
)
    requires
        cluster.wf(),
        follows(before.commits, history),
        forall|replica: u8, op: u64| #[trigger]
            newly_committed(cluster, before.verified, replica, op) ==> {
                let header = cluster.replicas@[replica as int].journal.at(op)->0;
                &&& header.checksum == history(op)
                &&& header.parent == history((op - 1) as u64)
            },
    ensures
        checked(before, cluster).1 is None,
        follows(checked(before, cluster).0.commits, history),
{
    let count = cluster.replicas@.len() as int;
    let events = new_events(cluster, before.verified, count);
    only_newly_committed_ops_are_considered(cluster, before.verified, count);
    assert forall|i: int| 0 <= i < events.len() implies {
        &&& (#[trigger] events[i]).op > 0
        &&& events[i].header.checksum == history(events[i].op)
        &&& events[i].header.parent == history((events[i].op - 1) as u64)
    } by {
        assert(newly_committed(cluster, before.verified, events[i].replica, events[i].op));
    }
    events_of_one_history_are_accepted(before.commits, events, history);
}

/// A check that passes has held every newly committed op against the chain it
/// started from: the op's checksum where the chain had the op, its parent where the
/// chain had its predecessor. Either difference makes the check fail.
pub proof fn newly_committed_ops_are_held_against_the_chain(
    before: CheckerView,
    cluster: ClusterReading,
    replica: u8,
    op: u64,
)
    requires
        cluster.wf(),
        newly_committed(cluster, before.verified, replica, op),
        checked(before, cluster).1 is None,
    ensures
        ({
            let header = cluster.replicas@[replica as int].journal.at(op)->0;
            let chain = checked(before, cluster).0.commits;
            let previous = (op - 1) as u64;
            &&& before.commits.dom().contains(op) ==> before.commits[op].checksum
                == header.checksum
            &&& before.commits.dom().contains(previous) ==> before.commits[previous].checksum
                == header.parent
            &&& chain.dom().contains(op)
            &&& chain[op].checksum == header.checksum
            &&& chain[op].replicas.contains(replica)
        }),
{
    let count = cluster.replicas@.len() as int;
    let events = new_events(cluster, before.verified, count);
    newly_committed_ops_are_checked(cluster, before.verified, count, replica, op);
    let event = CommitEvent {
        replica,
        op,
        header: cluster.replicas@[replica as int].journal.at(op)->0,
    };
    let i = choose|i: int| 0 <= i < events.len() && events[i] == event;
    accepted_events_agree(before.commits, events, i, i);
    accepted_events_are_canonical(before.commits, events, i);
    let previous = (op - 1) as u64;
    if before.commits.dom().contains(previous) {
        assert(before.commits.contains_key(previous));
        canonical_history_is_immutable(before.commits, events.take(i), previous);
        accepted_events_are_linked(before.commits, events, i);
        canonical_history_is_immutable(before.commits, events, previous);
    }
}

proof fn divergences_have_a_place(
    commits: Map<u64, CommitView>,
    events: Seq<CommitEvent>,
) -> (place: int)
    requires
        folded(commits, events).1 is Some,
    ensures
        0 <= place < events.len(),
        folded(commits, events.take(place)).1 is None,
        folded(commits, events).0 == folded(commits, events.take(place)).0,
        divergence(folded(commits, events.take(place)).0, events[place]) == folded(
            commits,
            events,
        ).1,
    decreases events.len(),
{
    let shorter = events.drop_last();
    if folded(commits, shorter).1 is Some {
        let place = divergences_have_a_place(commits, shorter);
        assert(shorter.take(place) =~= events.take(place));
        place
    } else {
        assert(shorter =~= events.take(events.len() - 1));
        events.len() - 1
    }
}

/// A reported divergence is real: the named replica is live and newly committed the
/// named op with the named checksum or parent, and the chain built so far holds the
/// named other value at that op, or at the one before it.
pub proof fn reported_divergences_are_real(before: CheckerView, cluster: ClusterReading)
    requires
        cluster.wf(),
    ensures
        match checked(before, cluster) {
            (after, Some(DivergenceView::BrokenLink { replica, op, parent, canonical })) => {
                &&& newly_committed(cluster, before.verified, replica, op)
                &&& cluster.replicas@[replica as int].journal.at(op)->0.parent == parent
                &&& after.commits.dom().contains((op - 1) as u64)
                &&& after.commits[(op - 1) as u64].checksum == canonical
                &&& canonical != parent
            },
            (
                after,
                Some(
                    DivergenceView::Disagreement { replica, op, checksum, canonical, committed_by },
                ),
            ) => {
                &&& newly_committed(cluster, before.verified, replica, op)
                &&& cluster.replicas@[replica as int].journal.at(op)->0.checksum == checksum
                &&& after.commits.dom().contains(op)
                &&& after.commits[op].checksum == canonical
                &&& canonical != checksum
                &&& committed_by == members(after.commits[op].replicas)
            },
            (after, None) => true,
        },
{
    let count = cluster.replicas@.len() as int;
    let events = new_events(cluster, before.verified, count);
    only_newly_committed_ops_are_considered(cluster, before.verified, count);
    if folded(before.commits, events).1 is Some {
        let place = divergences_have_a_place(before.commits, events);
        divergence_is_a_broken_link_or_a_disagreement(
            folded(before.commits, events.take(place)).0,
            events[place],
        );
    }
}

proof fn fold_witnesses_come_from_events(
    commits: Map<u64, CommitView>,
    events: Seq<CommitEvent>,
    op: u64,
    replica: u8,
)
    ensures
        ({
            let after = folded(commits, events).0;
            after.dom().contains(op) && after[op].replicas.contains(replica) ==> {
                ||| commits.dom().contains(op) && commits[op].replicas.contains(replica)
                ||| exists|i: int|
                    0 <= i < events.len() && (#[trigger] events[i]).op == op && events[i].replica
                        == replica
            }
        }),
    decreases events.len(),
{
    if events.len() > 0 {
        let shorter = events.drop_last();
        fold_witnesses_come_from_events(commits, shorter, op, replica);
        let before = folded(commits, shorter).0;
        recording_touches_one_op(before, events.last(), op, replica);
        if exists|i: int|
            0 <= i < shorter.len() && (#[trigger] shorter[i]).op == op && shorter[i].replica
                == replica {
            let i = choose|i: int|
                0 <= i < shorter.len() && (#[trigger] shorter[i]).op == op && shorter[i].replica
                    == replica;
            assert(events[i] == shorter[i]);
        }
        assert(events[events.len() - 1] == events.last());
    }
}

/// Only replicas that committed an op are its witnesses: one added by a check is
/// live and newly committed it.
pub proof fn witnesses_committed_the_op(
    before: CheckerView,
    cluster: ClusterReading,
    op: u64,
    replica: u8,
)
    requires
        cluster.wf(),
        checked(before, cluster).0.commits.dom().contains(op),
        checked(before, cluster).0.commits[op].replicas.contains(replica),
    ensures
        before.commits.dom().contains(op) && before.commits[op].replicas.contains(replica)
            || newly_committed(cluster, before.verified, replica, op),
{
    let count = cluster.replicas@.len() as int;
    let events = new_events(cluster, before.verified, count);
    only_newly_committed_ops_are_considered(cluster, before.verified, count);
    fold_witnesses_come_from_events(before.commits, events, op, replica);
}

/// Replicas agree at rest exactly if no two live ones journaled different checksums
/// at an op that both have committed.
pub proof fn agreement_is_pairwise(
    cluster: ClusterReading,
    left: int,
    right: int,
    op: u64,
)
    requires
        prefixes_agree(cluster),
        0 <= left < cluster.replicas@.len(),
        0 <= right < cluster.replicas@.len(),
        !cluster.replicas@[left].crashed,
        !cluster.replicas@[right].crashed,
        cluster.replicas@[left].metadata is Some,
        cluster.replicas@[right].metadata is Some,
        0 < op <= cluster.replicas@[left].metadata->0.commit_min,
        op <= cluster.replicas@[right].metadata->0.commit_min,
        cluster.replicas@[left].journal.at(op) is Some,
        cluster.replicas@[right].journal.at(op) is Some,
    ensures
        cluster.replicas@[left].journal.at(op)->0.checksum
            == cluster.replicas@[right].journal.at(op)->0.checksum,
{
    assert(!prefixes_differ(cluster, left, right, op));
}

/// Replicas whose committed headers follow one history agree at rest, however far
/// each has come.
pub proof fn replicas_of_one_history_agree(cluster: ClusterReading, history: spec_fn(u64) -> u128)
    requires
        forall|replica: int, op: u64|
            (#[trigger] committed_header(cluster, replica, op)) is Some ==> committed_header(
                cluster,
                replica,
                op,
            )->0.checksum == history(op),
    ensures
        prefixes_agree(cluster),
{
}

/// A reported disagreement at rest is real and is the first: the two replicas are
/// live and committed the op with the two named checksums, no earlier replica is in
/// any disagreement, and the later one in none at an earlier op.
pub proof fn reported_disagreements_are_first(
    cluster: ClusterReading,
    found: PrefixDisagreement,
    replica: int,
    op: u64,
)
    requires
        first_disagreement(cluster, found),
        0 <= replica < found.replica,
    ensures
        forall|other: int|
            0 <= other < found.replica && committed_header(cluster, replica, op) is Some && (
            #[trigger] committed_header(cluster, other, op)) is Some ==> committed_header(
                cluster,
                replica,
                op,
            )->0.checksum == committed_header(cluster, other, op)->0.checksum,
        committed_header(cluster, found.replica as int, found.op) is Some,
        committed_header(cluster, found.replica as int, found.op)->0.checksum == found.checksum,
        committed_header(cluster, found.owner as int, found.op) is Some,
        committed_header(cluster, found.owner as int, found.op)->0.checksum == found.canonical,
        found.checksum != found.canonical,
        found.owner < found.replica,
        replica < found.owner ==> committed_header(cluster, replica, found.op) is None,
        op < found.op && committed_header(cluster, replica, op) is Some && committed_header(
            cluster,
            found.replica as int,
            op,
        ) is Some ==> committed_header(cluster, replica, op)->0.checksum == committed_header(
            cluster,
            found.replica as int,
            op,
        )->0.checksum,
        !prefixes_agree(cluster),
{
    assert(prefixes_differ(cluster, found.owner as int, found.replica as int, found.op));
    assert(op < found.op ==> !prefixes_differ(cluster, replica, found.replica as int, op));
    assert forall|other: int|
        0 <= other < found.replica && committed_header(cluster, replica, op) is Some && (
        #[trigger] committed_header(cluster, other, op)) is Some implies committed_header(
        cluster,
        replica,
        op,
    )->0.checksum == committed_header(cluster, other, op)->0.checksum by {
        assert(!prefixes_differ(cluster, replica, other, op));
    }
}

/// There is only one first disagreement.
pub proof fn first_disagreement_is_unique(
    cluster: ClusterReading,
    left: PrefixDisagreement,
    right: PrefixDisagreement,
)
    requires
        first_disagreement(cluster, left),
        first_disagreement(cluster, right),
    ensures
        left == right,
{
    if left.replica < right.replica {
        assert(!prefixes_differ(cluster, left.owner as int, left.replica as int, left.op));
    } else if right.replica < left.replica {
        assert(!prefixes_differ(cluster, right.owner as int, right.replica as int, right.op));
    } else if left.op < right.op {
        assert(!prefixes_differ(cluster, left.owner as int, right.replica as int, left.op));
    } else if right.op < left.op {
        assert(!prefixes_differ(cluster, right.owner as int, left.replica as int, right.op));
    } else if left.owner < right.owner {
        assert(committed_header(cluster, left.owner as int, left.op) is None);
    } else if right.owner < left.owner {
        assert(committed_header(cluster, right.owner as int, left.op) is None);
    }
}

/// The report of a divergence names the replica, the op, both values and the seed,
/// and for a disagreement every replica that committed the other history.
pub proof fn divergence_reports_name_everything(
    seed: u64,
    replica: u8,
    op: u64,
    found: u128,
    canonical: u128,
    committed_by: Seq<u8>,
    place: int,
)
    requires
        op > 0,
    ensures
        ({
            let broken = (DivergenceView::BrokenLink { replica, op, parent: found, canonical }).report(
                seed,
            );
            let differs = (DivergenceView::Disagreement {
                replica,
                op,
                checksum: found,
                canonical,
                committed_by,
            }).report(seed);
            &&& mentions(broken, decimal(replica as nat))
            &&& mentions(broken, decimal(op as nat))
            &&& mentions(broken, decimal((op - 1) as nat))
            &&& mentions(broken, hexadecimal(found as nat))
            &&& mentions(broken, hexadecimal(canonical as nat))
            &&& mentions(broken, seed_note(seed))
            &&& mentions(differs, decimal(replica as nat))
            &&& mentions(differs, decimal(op as nat))
            &&& mentions(differs, hexadecimal(found as nat))
            &&& mentions(differs, hexadecimal(canonical as nat))
            &&& mentions(differs, byte_set(committed_by))
            &&& mentions(differs, seed_note(seed))
        }),
{
    broadcast use {text_mentions_itself, halves_are_mentioned};

}

/// The report of a disagreement at rest names both replicas, the op, both checksums
/// and the seed.
pub proof fn disagreement_reports_name_everything(found: PrefixDisagreement, seed: u64)
    ensures
        mentions(found.report(seed), decimal(found.replica as nat)),
        mentions(found.report(seed), decimal(found.owner as nat)),
        mentions(found.report(seed), decimal(found.op as nat)),
        mentions(
            found.report(seed),
            decimal(found.replica as nat) + " and replica "@ + decimal(found.owner as nat),
        ),
        mentions(
            found.report(seed),
            hexadecimal(found.checksum as nat) + " vs "@ + hexadecimal(found.canonical as nat),
        ),
        mentions(found.report(seed), seed_note(seed)),
{
    broadcast use {text_mentions_itself, halves_are_mentioned};

    let both = decimal(found.replica as nat) + " and replica "@ + decimal(found.owner as nat);
    let sums = hexadecimal(found.checksum as nat) + " vs "@ + hexadecimal(found.canonical as nat);
    assert(found.report(seed) =~= "at quiesce replica "@ + both
        + " disagree on committed metadata op "@ + decimal(found.op as nat) + ": "@ + sums
        + seed_note(seed));
}

/// A divergence is known in full.
pub proof fn divergences_are_known_in_full(found: Divergence)
    ensures
        found matches Divergence::BrokenLink { replica, op, parent, canonical } ==> found@ == (
        DivergenceView::BrokenLink { replica, op, parent, canonical }),
        found matches Divergence::Disagreement { replica, op, checksum, canonical, committed_by }
            ==> found@ == (DivergenceView::Disagreement {
            replica,
            op,
            checksum,
            canonical,
            committed_by: committed_by@,
        }),
{
}

} // verus!
