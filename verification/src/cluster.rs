//! Plain readings of a cluster's state.
//!
//! The checks of this library never touch a running cluster: a driver reads what
//! they need into these types and hands them over. A reading that does not apply
//! (no such group on a replica, no metadata plane) is `None`.

use crate::text::{
    decimal, halves_are_mentioned, mentions, push_decimal, text_mentions_itself,
};
use vstd::prelude::*;
use vstd::string::*;

verus! {

/// Identity of one partition group.
#[derive(Debug, Clone, Copy, PartialEq, Eq, Hash, Structural)]
pub struct IggyNamespace {
    pub stream_id: u32,
    pub topic_id: u32,
    pub partition_id: u32,
}

impl IggyNamespace {
    /// The namespace of a partition of a topic of a stream.
    pub fn new(stream_id: u32, topic_id: u32, partition_id: u32) -> (ns: Self)
        ensures
            ns == (IggyNamespace { stream_id, topic_id, partition_id }),
    {
        IggyNamespace { stream_id, topic_id, partition_id }
    }

    /// How reports render the namespace.
    pub open spec fn label(self) -> Seq<char> {
        "IggyNamespace { stream_id: "@ + decimal(self.stream_id as nat) + ", topic_id: "@
            + decimal(self.topic_id as nat) + ", partition_id: "@ + decimal(
            self.partition_id as nat,
        ) + " }"@
    }

    /// Appends the namespace's rendering.
    pub fn push_label(&self, out: &mut String)
        ensures
            final(out)@ == old(out)@ + self.label(),
    {
        out.append("IggyNamespace { stream_id: ");
        push_decimal(out, self.stream_id as u128);
        out.append(", topic_id: ");
        push_decimal(out, self.topic_id as u128);
        out.append(", partition_id: ");
        push_decimal(out, self.partition_id as u128);
        out.append(" }");
        assert(out@ =~= old(out)@ + self.label());
    }
}

/// Phase of a consensus group on one replica.
#[derive(Debug, Clone, Copy, PartialEq, Eq, Structural)]
pub enum Status {
    /// Serving in an established view.
    Normal,
    /// Electing the next view's primary.
    ViewChange,
    /// Restarted, not yet part of a view.
    Recovering,
}

impl Status {
    /// The variant's name.
    pub open spec fn label(self) -> Seq<char> {
        match self {
            Status::Normal => "Normal"@,
            Status::ViewChange => "ViewChange"@,
            Status::Recovering => "Recovering"@,
        }
    }

    /// The variant's name.
    pub fn name(self) -> (name: &'static str)
        ensures
            name@ == self.label(),
    {
        match self {
            Status::Normal => "Normal",
            Status::ViewChange => "ViewChange",
            Status::Recovering => "Recovering",
        }
    }
}

/// Metadata-plane consensus state of one replica.
#[derive(Debug, Clone, Copy, PartialEq, Eq, Structural)]
pub struct MetadataConsensus {
    pub status: Status,
    pub view: u64,
    pub log_view: u64,
    /// Highest op this replica has committed.
    pub commit_min: u64,
    pub is_primary: bool,
}

/// Consensus state of one partition group on one replica.
#[derive(Debug, Clone, Copy, PartialEq, Eq, Structural)]
pub struct PartitionConsensus {
    pub status: Status,
    pub view: u64,
    /// Ops of the group this replica has committed.
    pub commit_min: u64,
    pub is_primary: bool,
}

/// What one replica holds of one namespace.
#[derive(Debug, Clone, Copy, PartialEq, Eq, Structural)]
pub struct PartitionReading {
    pub ns: IggyNamespace,
    /// Highest durably persisted message offset, if the partition exists.
    pub commit_offset: Option<u64>,
    /// View of the namespace's group, if the replica hosts it.
    pub view: Option<u64>,
    pub consensus: Option<PartitionConsensus>,
}

/// The identity of a journaled prepare and of the one before it.
#[derive(Debug, Clone, Copy, PartialEq, Eq, Structural)]
pub struct PrepareHeader {
    pub checksum: u128,
    pub parent: u128,
}

/// A stretch of a replica's metadata journal: the headers of the ops from
/// `first_op` on, `None` where nothing is journaled.
#[derive(Debug, Clone)]
pub struct JournalWindow {
    pub first_op: u64,
    pub headers: Vec<Option<PrepareHeader>>,
}

impl JournalWindow {
    /// The header journaled at `op`, if the window covers it and there is one.
    pub open spec fn at(self, op: u64) -> Option<PrepareHeader> {
        if self.first_op <= op && op - self.first_op < self.headers@.len() {
            self.headers@[op - self.first_op]
        } else {
            None
        }
    }

    /// The header journaled at `op`, if the window covers it and there is one.
    pub fn journaled_header(&self, op: u64) -> (header: Option<PrepareHeader>)
        ensures
            header == self.at(op),
    {
        if self.first_op <= op && op - self.first_op < self.headers.len() as u64 {
            self.headers[(op - self.first_op) as usize]
        } else {
            None
        }
    }
}

/// One client's row of a replica's client table.
#[derive(Debug, Clone, Copy, PartialEq, Eq, Structural)]
pub struct ClientEntry {
    pub client: u128,
    /// Last request number the replica committed for the client.
    pub watermark: Option<u64>,
    pub epoch: Option<u64>,
    /// Request number of the reply kept for replay.
    pub cached_reply_request: Option<u64>,
}

/// One topic of the committed metadata: its name and its consumer groups'.
#[derive(Debug, Clone)]
pub struct TopicRecord {
    pub name: String,
    pub consumer_groups: Vec<String>,
}

/// One stream of the committed metadata.
#[derive(Debug, Clone)]
pub struct StreamRecord {
    pub name: String,
    pub topics: Vec<TopicRecord>,
}

/// Everything the checks read of one replica.
#[derive(Debug, Clone)]
pub struct ReplicaReading {
    pub crashed: bool,
    pub metadata: Option<MetadataConsensus>,
    pub journal: JournalWindow,
    pub partitions: Vec<PartitionReading>,
    pub clients: Vec<ClientEntry>,
    /// Committed streams, in any order.
    pub streams: Vec<StreamRecord>,
    /// Committed user names, in any order.
    pub users: Vec<String>,
}

/// The first reading of a namespace in a list.
pub open spec fn reading_of(
    partitions: Seq<PartitionReading>,
    ns: IggyNamespace,
) -> Option<PartitionReading>
    decreases partitions.len(),
{
    if partitions.len() == 0 {
        None
    } else if partitions[0].ns == ns {
        Some(partitions[0])
    } else {
        reading_of(partitions.drop_first(), ns)
    }
}

impl ReplicaReading {
    /// What the replica holds of a namespace.
    pub open spec fn partition(self, ns: IggyNamespace) -> Option<PartitionReading> {
        reading_of(self.partitions@, ns)
    }

    /// Persisted offset of a namespace.
    pub open spec fn offset(self, ns: IggyNamespace) -> Option<u64> {
        match self.partition(ns) {
            Some(reading) => reading.commit_offset,
            None => None,
        }
    }

    /// View of a namespace's group.
    pub open spec fn group_view(self, ns: IggyNamespace) -> Option<u64> {
        match self.partition(ns) {
            Some(reading) => reading.view,
            None => None,
        }
    }

    /// Consensus state of a namespace's group.
    pub open spec fn group(self, ns: IggyNamespace) -> Option<PartitionConsensus> {
        match self.partition(ns) {
            Some(reading) => reading.consensus,
            None => None,
        }
    }

    fn find_partition(&self, ns: IggyNamespace) -> (reading: Option<PartitionReading>)
        ensures
            reading == self.partition(ns),
    {
        let mut i: usize = 0;
        assert(self.partitions@.skip(0) =~= self.partitions@);
        while i < self.partitions.len()
            invariant
                i <= self.partitions.len(),
                self.partition(ns) == reading_of(self.partitions@.skip(i as int), ns),
            decreases self.partitions.len() - i,
        {
            let reading = self.partitions[i];
            if reading.ns == ns {
                return Some(reading);
            }
            assert(self.partitions@.skip(i as int).drop_first() =~= self.partitions@.skip(i + 1));
            i = i + 1;
        }
        None
    }

    /// Persisted offset of a namespace.
    pub fn offsets(&self, ns: IggyNamespace) -> (offset: Option<u64>)
        ensures
            offset == self.offset(ns),
    {
        match self.find_partition(ns) {
            Some(reading) => reading.commit_offset,
            None => None,
        }
    }

    /// View of a namespace's group.
    pub fn consensus_view(&self, ns: IggyNamespace) -> (view: Option<u64>)
        ensures
            view == self.group_view(ns),
    {
        match self.find_partition(ns) {
            Some(reading) => reading.view,
            None => None,
        }
    }

    /// Consensus state of a namespace's group.
    pub fn partition_consensus_state(&self, ns: IggyNamespace) -> (state: Option<
        PartitionConsensus,
    >)
        ensures
            state == self.group(ns),
    {
        match self.find_partition(ns) {
            Some(reading) => reading.consensus,
            None => None,
        }
    }
}

/// A reading of the whole cluster.
#[derive(Debug, Clone)]
pub struct ClusterReading {
    /// One reading per replica, in replica order.
    pub replicas: Vec<ReplicaReading>,
    /// Primary of each namespace's group, where one is known.
    pub primaries: Vec<(IggyNamespace, u8)>,
}

/// The first primary listed for a namespace.
pub open spec fn primary_of(primaries: Seq<(IggyNamespace, u8)>, ns: IggyNamespace) -> Option<u8>
    decreases primaries.len(),
{
    if primaries.len() == 0 {
        None
    } else if primaries[0].0 == ns {
        Some(primaries[0].1)
    } else {
        primary_of(primaries.drop_first(), ns)
    }
}

impl ClusterReading {
    /// Replicas are numbered by a byte.
    pub open spec fn wf(self) -> bool {
        self.replicas@.len() <= 255
    }

    /// The replica exists and is up.
    pub open spec fn live(self, replica: int) -> bool {
        0 <= replica < self.replicas@.len() && !self.replicas@[replica].crashed
    }

    /// Metadata consensus state of a live replica.
    pub open spec fn live_metadata(self, replica: int) -> Option<MetadataConsensus> {
        if self.live(replica) {
            self.replicas@[replica].metadata
        } else {
            None
        }
    }

    /// State of a namespace's group on a live replica.
    pub open spec fn live_group(self, replica: int, ns: IggyNamespace) -> Option<
        PartitionConsensus,
    > {
        if self.live(replica) {
            self.replicas@[replica].group(ns)
        } else {
            None
        }
    }

    /// Primary of a namespace's group.
    pub open spec fn primary(self, ns: IggyNamespace) -> Option<u8> {
        primary_of(self.primaries@, ns)
    }

    /// Primary of a namespace's group, where one is known.
    pub fn primary_index(&self, ns: IggyNamespace) -> (primary: Option<u8>)
        ensures
            primary == self.primary(ns),
    {
        let mut i: usize = 0;
        assert(self.primaries@.skip(0) =~= self.primaries@);
        while i < self.primaries.len()
            invariant
                i <= self.primaries.len(),
                self.primary(ns) == primary_of(self.primaries@.skip(i as int), ns),
            decreases self.primaries.len() - i,
        {
            let (listed, primary) = self.primaries[i];
            if listed == ns {
                return Some(primary);
            }
            assert(self.primaries@.skip(i as int).drop_first() =~= self.primaries@.skip(i + 1));
            i = i + 1;
        }
        None
    }
}

/// A journal window holds the headers of consecutive ops from its first on, and
/// nothing of any other op.
pub proof fn window_covers_consecutive_ops(window: JournalWindow, place: int, op: u64)
    ensures
        0 <= place < window.headers@.len() && op == window.first_op + place ==> window.at(op)
            == window.headers@[place],
        op < window.first_op || op >= window.first_op + window.headers@.len() ==> window.at(
            op,
        ) is None,
{
}

proof fn listed_namespace_is_read(
    partitions: Seq<PartitionReading>,
    ns: IggyNamespace,
    place: int,
)
    requires
        0 <= place < partitions.len(),
        partitions[place].ns == ns,
        forall|i: int| 0 <= i < place ==> (#[trigger] partitions[i]).ns != ns,
    ensures
        reading_of(partitions, ns) == Some(partitions[place]),
    decreases partitions.len(),
{
    if place > 0 {
        let rest = partitions.drop_first();
        assert forall|i: int| 0 <= i < place - 1 implies (#[trigger] rest[i]).ns != ns by {
            assert(partitions[i + 1].ns != ns);
        }
        assert(partitions[0].ns != ns);
        listed_namespace_is_read(rest, ns, place - 1);
    }
}

proof fn unlisted_namespace_is_not_read(partitions: Seq<PartitionReading>, ns: IggyNamespace)
    requires
        forall|i: int| 0 <= i < partitions.len() ==> (#[trigger] partitions[i]).ns != ns,
    ensures
        reading_of(partitions, ns) is None,
    decreases partitions.len(),
{
    if partitions.len() > 0 {
        let rest = partitions.drop_first();
        assert forall|i: int| 0 <= i < rest.len() implies (#[trigger] rest[i]).ns != ns by {
            assert(partitions[i + 1].ns != ns);
        }
        assert(partitions[0].ns != ns);
        unlisted_namespace_is_not_read(rest, ns);
    }
}

/// What a replica holds of a namespace is what its first entry of that namespace
/// says.
pub proof fn first_entry_is_read(reading: ReplicaReading, ns: IggyNamespace, place: int)
    requires
        0 <= place < reading.partitions@.len(),
        reading.partitions@[place].ns == ns,
        forall|i: int| 0 <= i < place ==> (#[trigger] reading.partitions@[i]).ns != ns,
    ensures
        reading.offset(ns) == reading.partitions@[place].commit_offset,
        reading.group_view(ns) == reading.partitions@[place].view,
        reading.group(ns) == reading.partitions@[place].consensus,
{
    listed_namespace_is_read(reading.partitions@, ns, place);
}

/// A replica without an entry of a namespace holds nothing of it.
pub proof fn unlisted_namespace_is_not_held(reading: ReplicaReading, ns: IggyNamespace)
    requires
        forall|i: int|
            0 <= i < reading.partitions@.len() ==> (#[trigger] reading.partitions@[i]).ns != ns,
    ensures
        reading.offset(ns) is None,
        reading.group_view(ns) is None,
        reading.group(ns) is None,
{
    unlisted_namespace_is_not_read(reading.partitions@, ns);
}

proof fn listed_primary_is_read(primaries: Seq<(IggyNamespace, u8)>, ns: IggyNamespace, place: int)
    requires
        0 <= place < primaries.len(),
        primaries[place].0 == ns,
        forall|i: int| 0 <= i < place ==> (#[trigger] primaries[i]).0 != ns,
    ensures
        primary_of(primaries, ns) == Some(primaries[place].1),
    decreases primaries.len(),
{
    if place > 0 {
        let rest = primaries.drop_first();
        assert forall|i: int| 0 <= i < place - 1 implies (#[trigger] rest[i]).0 != ns by {
            assert(primaries[i + 1].0 != ns);
        }
        assert(primaries[0].0 != ns);
        listed_primary_is_read(rest, ns, place - 1);
    }
}

proof fn unlisted_primary_is_unknown(primaries: Seq<(IggyNamespace, u8)>, ns: IggyNamespace)
    requires
        forall|i: int| 0 <= i < primaries.len() ==> (#[trigger] primaries[i]).0 != ns,
    ensures
        primary_of(primaries, ns) is None,
    decreases primaries.len(),
{
    if primaries.len() > 0 {
        let rest = primaries.drop_first();
        assert forall|i: int| 0 <= i < rest.len() implies (#[trigger] rest[i]).0 != ns by {
            assert(primaries[i + 1].0 != ns);
        }
        assert(primaries[0].0 != ns);
        unlisted_primary_is_unknown(rest, ns);
    }
}

/// The primary of a namespace is the first one listed for it, and unknown where
/// none is.
pub proof fn first_listed_primary_leads(cluster: ClusterReading, ns: IggyNamespace, place: int)
    requires
        0 <= place <= cluster.primaries@.len(),
        forall|i: int| 0 <= i < place ==> (#[trigger] cluster.primaries@[i]).0 != ns,
    ensures
        place == cluster.primaries@.len() ==> cluster.primary(ns) is None,
        place < cluster.primaries@.len() && cluster.primaries@[place].0 == ns ==> cluster.primary(
            ns,
        ) == Some(cluster.primaries@[place].1),
{
    if place == cluster.primaries@.len() {
        unlisted_primary_is_unknown(cluster.primaries@, ns);
    } else if cluster.primaries@[place].0 == ns {
        listed_primary_is_read(cluster.primaries@, ns, place);
    }
}

/// A crashed or missing replica shows nothing; a live one shows what it holds.
pub proof fn only_live_replicas_show(cluster: ClusterReading, replica: int, ns: IggyNamespace)
    ensures
        0 <= replica < cluster.replicas@.len() && !cluster.replicas@[replica].crashed ==> {
            &&& cluster.live(replica)
            &&& cluster.live_metadata(replica) == cluster.replicas@[replica].metadata
            &&& cluster.live_group(replica, ns) == cluster.replicas@[replica].group(ns)
        },
        !(0 <= replica < cluster.replicas@.len()) || cluster.replicas@[replica].crashed ==> {
            &&& !cluster.live(replica)
            &&& cluster.live_metadata(replica) is None
            &&& cluster.live_group(replica, ns) is None
        },
{
}

/// A namespace's rendering names its stream, its topic and its partition.
pub proof fn namespaces_are_named_in_full(ns: IggyNamespace)
    ensures
        mentions(ns.label(), decimal(ns.stream_id as nat)),
        mentions(ns.label(), decimal(ns.topic_id as nat)),
        mentions(ns.label(), decimal(ns.partition_id as nat)),
{
    broadcast use {text_mentions_itself, halves_are_mentioned};

}

/// No two phases are called alike.
pub proof fn phases_are_told_apart(left: Status, right: Status)
    requires
        left != right,
    ensures
        left.label() != right.label(),
{
    reveal_strlit("Normal");
    reveal_strlit("ViewChange");
    reveal_strlit("Recovering");
    assert(Status::Normal.label()[0] == 'N');
    assert(Status::ViewChange.label()[0] == 'V');
    assert(Status::Recovering.label()[0] == 'R');
}

} // verus!
