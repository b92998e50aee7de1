//! Quiesce-time cross-replica oracle.
//!
//! The per-tick checks in [`crate::invariants`] catch a regression on a single
//! replica. The checks here run once a run has drained:
//!
//! - no live replica is ahead of the leader on any namespace (a backup ahead of
//!   the leader is a split-brain),
//! - every live replica agrees with every other on each committed metadata op
//!   they both hold (see [`crate::state_checker`]),
//! - on a serial run, the workload's predicted [`Shadow`] equals the metadata
//!   committed on the leader.
//!
//! Equality is asserted over the committed prefix, not over equal heads: a replica
//! that missed the last commit broadcast, or that rejoined recently, may trail.
//! What it may not do is hold different history at an op it did commit.

use crate::cluster::{
    ClusterReading, IggyNamespace, ReplicaReading, Status, StreamRecord, TopicRecord,
};
use crate::listing::set_text;
use crate::names::{owned_name, owned_path, NameSet};
use crate::shadow::Shadow;
use crate::state_checker::{
    agreement_is_pairwise, assert_committed_prefixes_agree, committed_header, first_disagreement,
    first_disagreement_is_unique, prefixes_agree, replicas_of_one_history_agree,
    reported_disagreements_are_first, PrefixDisagreement,
};
use crate::text::{
    decimal, halves_are_mentioned, hexadecimal, mentions, push_decimal, push_hexadecimal,
    push_seed_note, seed_note, text_mentions_itself, texts,
};
use crate::workload::{Workload, WorkloadView};
use vstd::prelude::*;
use vstd::string::*;

verus! {

/// The entities of a replica's metadata, or of a prediction of it: paths of
/// names.
#[verifier::ext_equal]
pub ghost struct MetadataView {
    pub streams: Set<Seq<Seq<char>>>,
    pub topics: Set<Seq<Seq<char>>>,
    pub users: Set<Seq<Seq<char>>>,
    pub consumer_groups: Set<Seq<Seq<char>>>,
}

impl MetadataView {
    /// The workload-generated entities alone.
    pub open spec fn owned(self) -> MetadataView {
        MetadataView {
            streams: self.streams.filter(|path: Seq<Seq<char>>| owned_path(path)),
            topics: self.topics.filter(|path: Seq<Seq<char>>| owned_path(path)),
            users: self.users.filter(|path: Seq<Seq<char>>| owned_path(path)),
            consumer_groups: self.consumer_groups.filter(
                |path: Seq<Seq<char>>| owned_path(path),
            ),
        }
    }
}

/// How entity sets are rendered.
pub open spec fn metadata_text(metadata: MetadataView) -> Seq<char> {
    "CommittedMetadata { streams: "@ + set_text(metadata.streams) + ", topics: "@ + set_text(
        metadata.topics,
    ) + ", users: "@ + set_text(metadata.users) + ", consumer_groups: "@ + set_text(
        metadata.consumer_groups,
    ) + " }"@
}

/// The names of a list, each a path of its own.
pub open spec fn single_paths(names: Seq<String>) -> Set<Seq<Seq<char>>> {
    Set::new(
        |path: Seq<Seq<char>>|
            exists|i: int| 0 <= i < names.len() && path == seq![(#[trigger] names[i])@],
    )
}

/// The paths of the streams.
pub open spec fn stream_paths(streams: Seq<StreamRecord>) -> Set<Seq<Seq<char>>> {
    Set::new(
        |path: Seq<Seq<char>>|
            exists|s: int| 0 <= s < streams.len() && path == seq![(#[trigger] streams[s]).name@],
    )
}

/// The path names one of a stream's topics.
pub open spec fn topic_of(stream: StreamRecord, path: Seq<Seq<char>>) -> bool {
    exists|t: int|
        0 <= t < stream.topics@.len() && path == seq![
            stream.name@,
            (#[trigger] stream.topics@[t]).name@,
        ]
}

/// The paths of the streams' topics.
pub open spec fn topic_paths(streams: Seq<StreamRecord>) -> Set<Seq<Seq<char>>> {
    Set::new(
        |path: Seq<Seq<char>>|
            exists|s: int| 0 <= s < streams.len() && topic_of(#[trigger] streams[s], path),
    )
}

/// The path names one of a topic's consumer groups.
pub open spec fn group_of(stream: Seq<char>, topic: TopicRecord, path: Seq<Seq<char>>) -> bool {
    exists|g: int|
        0 <= g < topic.consumer_groups@.len() && path == seq![
            stream,
            topic.name@,
            (#[trigger] topic.consumer_groups@[g])@,
        ]
}

/// The path names a consumer group of one of a stream's topics.
pub open spec fn stream_group_of(stream: StreamRecord, path: Seq<Seq<char>>) -> bool {
    exists|t: int|
        0 <= t < stream.topics@.len() && group_of(
            stream.name@,
            #[trigger] stream.topics@[t],
            path,
        )
}

/// The paths of the consumer groups of the streams' topics.
pub open spec fn group_paths(streams: Seq<StreamRecord>) -> Set<Seq<Seq<char>>> {
    Set::new(
        |path: Seq<Seq<char>>|
            exists|s: int| 0 <= s < streams.len() && stream_group_of(#[trigger] streams[s], path),
    )
}

/// The metadata a replica has committed.
pub open spec fn committed(reading: ReplicaReading) -> MetadataView {
    MetadataView {
        streams: stream_paths(reading.streams@),
        topics: topic_paths(reading.streams@),
        users: single_paths(reading.users@),
        consumer_groups: group_paths(reading.streams@),
    }
}

/// The metadata a shadow predicts.
pub open spec fn predicted(shadow: Shadow) -> MetadataView {
    MetadataView {
        streams: single_paths(shadow.stream_names@),
        topics: Set::new(
            |path: Seq<Seq<char>>|
                exists|i: int|
                    0 <= i < shadow.topic_names@.len() && path == seq![
                        (#[trigger] shadow.topic_names@[i]).0@,
                        shadow.topic_names@[i].1@,
                    ],
        ),
        users: single_paths(shadow.user_names@),
        consumer_groups: Set::new(
            |path: Seq<Seq<char>>|
                exists|i: int|
                    0 <= i < shadow.consumer_group_names@.len() && path == seq![
                        (#[trigger] shadow.consumer_group_names@[i]).0@,
                        shadow.consumer_group_names@[i].1@,
                        shadow.consumer_group_names@[i].2@,
                    ],
        ),
    }
}

/// Committed metadata entity sets read from one replica.
#[derive(Debug)]
pub struct CommittedMetadata {
    pub streams: NameSet,
    pub topics: NameSet,
    pub users: NameSet,
    pub consumer_groups: NameSet,
}

impl View for CommittedMetadata {
    type V = MetadataView;

    open spec fn view(&self) -> MetadataView {
        MetadataView {
            streams: self.streams@,
            topics: self.topics@,
            users: self.users@,
            consumer_groups: self.consumer_groups@,
        }
    }
}

impl CommittedMetadata {
    /// The workload-generated entities alone, so that the comparison with the
    /// shadow is of like with like.
    pub fn workload_owned(&self) -> (owned: Self)
        ensures
            owned@ == self@.owned(),
    {
        CommittedMetadata {
            streams: self.streams.workload_owned(),
            topics: self.topics.workload_owned(),
            users: self.users.workload_owned(),
            consumer_groups: self.consumer_groups.workload_owned(),
        }
    }

    /// The two hold the same entities.
    pub fn same(&self, other: &CommittedMetadata) -> (same: bool)
        ensures
            same == (self@ == other@),
    {
        self.streams.same(&other.streams) && self.topics.same(&other.topics) && self.users.same(
            &other.users,
        ) && self.consumer_groups.same(&other.consumer_groups)
    }
}

fn push_metadata(out: &mut String, metadata: &CommittedMetadata)
    ensures
        final(out)@ == old(out)@ + metadata_text(metadata@),
{
    out.append("CommittedMetadata { streams: ");
    metadata.streams.push_text(out);
    out.append(", topics: ");
    metadata.topics.push_text(out);
    out.append(", users: ");
    metadata.users.push_text(out);
    out.append(", consumer_groups: ");
    metadata.consumer_groups.push_text(out);
    out.append(" }");
    assert(out@ =~= old(out)@ + metadata_text(metadata@));
}

fn one(name: &String) -> (path: Vec<String>)
    ensures
        texts(path@) == seq![name@],
{
    let mut path: Vec<String> = Vec::new();
    path.push(name.clone());
    assert(texts(path@) =~= seq![name@]);
    path
}

fn two(first: &String, second: &String) -> (path: Vec<String>)
    ensures
        texts(path@) == seq![first@, second@],
{
    let mut path: Vec<String> = Vec::new();
    path.push(first.clone());
    path.push(second.clone());
    assert(texts(path@) =~= seq![first@, second@]);
    path
}

fn three(first: &String, second: &String, third: &String) -> (path: Vec<String>)
    ensures
        texts(path@) == seq![first@, second@, third@],
{
    let mut path: Vec<String> = Vec::new();
    path.push(first.clone());
    path.push(second.clone());
    path.push(third.clone());
    assert(texts(path@) =~= seq![first@, second@, third@]);
    path
}

fn name_set(names: &[String]) -> (set: NameSet)
    ensures
        set@ == single_paths(names@),
{
    let mut set = NameSet::new();
    let mut i: usize = 0;
    assert(set@ =~= single_paths(names@.take(0)));
    while i < names.len()
        invariant
            i <= names.len(),
            set@ == single_paths(names@.take(i as int)),
        decreases names.len() - i,
    {
        let ghost before = set@;
        set.insert(one(&names[i]));
        proof {
            let shorter = names@.take(i as int);
            let longer = names@.take(i + 1);
            assert(longer[i as int] == names@[i as int]);
            assert forall|path: Seq<Seq<char>>|
                set@.contains(path) == single_paths(longer).contains(path) by {
                if before.contains(path) {
                    let k = choose|k: int|
                        0 <= k < shorter.len() && path == seq![(#[trigger] shorter[k])@];
                    assert(longer[k] == shorter[k]);
                }
                if single_paths(longer).contains(path) {
                    let k = choose|k: int|
                        0 <= k < longer.len() && path == seq![(#[trigger] longer[k])@];
                    if k < i {
                        assert(shorter[k] == longer[k]);
                    }
                }
            }
            assert(set@ =~= single_paths(longer));
        }
        i = i + 1;
    }
    assert(names@.take(i as int) =~= names@);
    set
}

fn add_groups(set: &mut NameSet, stream: &String, topic: &TopicRecord)
    ensures
        forall|path: Seq<Seq<char>>| #[trigger]
            final(set)@.contains(path) <==> old(set)@.contains(path) || group_of(
                stream@,
                *topic,
                path,
            ),
{
    let ghost start = set@;
    let mut i: usize = 0;
    while i < topic.consumer_groups.len()
        invariant
            i <= topic.consumer_groups.len(),
            forall|path: Seq<Seq<char>>| #[trigger]
                set@.contains(path) <==> start.contains(path) || exists|g: int|
                    0 <= g < i && path == seq![
                        stream@,
                        topic.name@,
                        (#[trigger] topic.consumer_groups@[g])@,
                    ],
        decreases topic.consumer_groups.len() - i,
    {
        let group = &topic.consumer_groups[i];
        set.insert(three(stream, &topic.name, group));
        assert(group == topic.consumer_groups@[i as int]);
        i = i + 1;
    }
}

fn add_topics(topics: &mut NameSet, groups: &mut NameSet, stream: &StreamRecord)
    ensures
        forall|path: Seq<Seq<char>>| #[trigger]
            final(topics)@.contains(path) <==> old(topics)@.contains(path) || topic_of(
                *stream,
                path,
            ),
        forall|path: Seq<Seq<char>>| #[trigger]
            final(groups)@.contains(path) <==> old(groups)@.contains(path) || stream_group_of(
                *stream,
                path,
            ),
{
    let ghost start_topics = topics@;
    let ghost start_groups = groups@;
    let mut i: usize = 0;
    while i < stream.topics.len()
        invariant
            i <= stream.topics.len(),
            forall|path: Seq<Seq<char>>| #[trigger]
                topics@.contains(path) <==> start_topics.contains(path) || exists|t: int|
                    0 <= t < i && path == seq![
                        stream.name@,
                        (#[trigger] stream.topics@[t]).name@,
                    ],
            forall|path: Seq<Seq<char>>| #[trigger]
                groups@.contains(path) <==> start_groups.contains(path) || exists|t: int|
                    0 <= t < i && group_of(stream.name@, #[trigger] stream.topics@[t], path),
        decreases stream.topics.len() - i,
    {
        let topic = &stream.topics[i];
        assert(topic == stream.topics@[i as int]);
        add_groups(groups, &stream.name, topic);
        topics.insert(two(&stream.name, &topic.name));
        i = i + 1;
    }
}

/// One replica's committed metadata.
pub fn read_committed_metadata(reading: &ReplicaReading) -> (metadata: CommittedMetadata)
    ensures
        metadata@ == committed(*reading),
{
    let mut streams = NameSet::new();
    let mut topics = NameSet::new();
    let mut consumer_groups = NameSet::new();
    let mut i: usize = 0;
    while i < reading.streams.len()
        invariant
            i <= reading.streams.len(),
            forall|path: Seq<Seq<char>>| #[trigger]
                streams@.contains(path) <==> exists|s: int|
                    0 <= s < i && path == seq![(#[trigger] reading.streams@[s]).name@],
            forall|path: Seq<Seq<char>>| #[trigger]
                topics@.contains(path) <==> exists|s: int|
                    0 <= s < i && topic_of(#[trigger] reading.streams@[s], path),
            forall|path: Seq<Seq<char>>| #[trigger]
                consumer_groups@.contains(path) <==> exists|s: int|
                    0 <= s < i && stream_group_of(#[trigger] reading.streams@[s], path),
        decreases reading.streams.len() - i,
    {
        let stream = &reading.streams[i];
        assert(stream == reading.streams@[i as int]);
        add_topics(&mut topics, &mut consumer_groups, stream);
        streams.insert(one(&stream.name));
        i = i + 1;
    }
    assert(streams@ =~= stream_paths(reading.streams@));
    assert(topics@ =~= topic_paths(reading.streams@));
    assert(consumer_groups@ =~= group_paths(reading.streams@));
    CommittedMetadata {
        streams,
        topics,
        users: name_set(reading.users.as_slice()),
        consumer_groups,
    }
}

/// A shadow's predicted entity sets in the comparable shape.
pub fn shadow_metadata(shadow: &Shadow) -> (metadata: CommittedMetadata)
    ensures
        metadata@ == predicted(*shadow),
{
    let mut topics = NameSet::new();
    let mut i: usize = 0;
    while i < shadow.topic_names.len()
        invariant
            i <= shadow.topic_names.len(),
            forall|path: Seq<Seq<char>>| #[trigger]
                topics@.contains(path) <==> exists|k: int|
                    0 <= k < i && path == seq![
                        (#[trigger] shadow.topic_names@[k]).0@,
                        shadow.topic_names@[k].1@,
                    ],
        decreases shadow.topic_names.len() - i,
    {
        let (stream, topic) = &shadow.topic_names[i];
        topics.insert(two(stream, topic));
        assert(shadow.topic_names@[i as int].0@ == stream@);
        i = i + 1;
    }
    let mut consumer_groups = NameSet::new();
    let mut j: usize = 0;
    while j < shadow.consumer_group_names.len()
        invariant
            j <= shadow.consumer_group_names.len(),
            forall|path: Seq<Seq<char>>| #[trigger]
                consumer_groups@.contains(path) <==> exists|k: int|
                    0 <= k < j && path == seq![
                        (#[trigger] shadow.consumer_group_names@[k]).0@,
                        shadow.consumer_group_names@[k].1@,
                        shadow.consumer_group_names@[k].2@,
                    ],
        decreases shadow.consumer_group_names.len() - j,
    {
        let (stream, topic, group) = &shadow.consumer_group_names[j];
        consumer_groups.insert(three(stream, topic, group));
        assert(shadow.consumer_group_names@[j as int].0@ == stream@);
        j = j + 1;
    }
    assert(topics@ =~= predicted(*shadow).topics);
    assert(consumer_groups@ =~= predicted(*shadow).consumer_groups);
    CommittedMetadata {
        streams: name_set(shadow.stream_names.as_slice()),
        topics,
        users: name_set(shadow.user_names.as_slice()),
        consumer_groups,
    }
}

/// The live replica claims to be the metadata plane's primary.
pub open spec fn leads_metadata(cluster: ClusterReading, replica: int) -> bool {
    cluster.live_metadata(replica) is Some && cluster.live_metadata(replica)->0.is_primary
}

/// Every live replica's metadata consensus is `Normal`, in one shared view, and
/// exactly one of them claims to be primary.
pub open spec fn metadata_settled(cluster: ClusterReading) -> bool {
    &&& forall|r: int| (#[trigger] cluster.live_metadata(r)) is Some ==> cluster.live_metadata(
        r,
    )->0.status == Status::Normal
    &&& forall|a: int, b: int|
        (#[trigger] cluster.live_metadata(a)) is Some && (#[trigger] cluster.live_metadata(
            b,
        )) is Some ==> cluster.live_metadata(a)->0.view == cluster.live_metadata(b)->0.view
    &&& exists|leader: int| #[trigger]
        leads_metadata(cluster, leader) && forall|r: int| #[trigger]
            leads_metadata(cluster, r) ==> r == leader
}

/// The live replica claims to be the primary of a namespace's group.
pub open spec fn leads_group(cluster: ClusterReading, ns: IggyNamespace, replica: int) -> bool {
    cluster.live_group(replica, ns) is Some && cluster.live_group(replica, ns)->0.is_primary
}

/// Every live replica hosting the namespace has its group `Normal`, in one shared
/// view, and exactly one of them claims to be primary; or none hosts it.
pub open spec fn group_settled(cluster: ClusterReading, ns: IggyNamespace) -> bool {
    &&& forall|r: int| (#[trigger] cluster.live_group(r, ns)) is Some ==> cluster.live_group(
        r,
        ns,
    )->0.status == Status::Normal
    &&& forall|a: int, b: int|
        (#[trigger] cluster.live_group(a, ns)) is Some && (#[trigger] cluster.live_group(
            b,
            ns,
        )) is Some ==> cluster.live_group(a, ns)->0.view == cluster.live_group(b, ns)->0.view
    &&& {
        ||| forall|r: int| (#[trigger] cluster.live_group(r, ns)) is None
        ||| exists|leader: int| #[trigger]
            leads_group(cluster, ns, leader) && forall|r: int| #[trigger]
                leads_group(cluster, ns, r) ==> r == leader
    }
}

/// Both planes are settled.
pub open spec fn views_settled(cluster: ClusterReading, namespaces: Seq<IggyNamespace>) -> bool {
    &&& metadata_settled(cluster)
    &&& forall|i: int|
        0 <= i < namespaces.len() ==> group_settled(cluster, #[trigger] namespaces[i])
}

/// True when every live replica's metadata consensus is `Normal` in the same view
/// and exactly one of them claims to be primary.
pub fn metadata_view_is_settled(cluster: &ClusterReading) -> (settled: bool)
    ensures
        settled == metadata_settled(*cluster),
{
    let mut view: Option<u64> = None;
    let mut primaries: usize = 0;
    let mut live: usize = 0;
    let ghost mut witness: int = 0;
    let ghost mut first: int = 0;
    let ghost mut second: int = 0;
    let mut index: usize = 0;
    while index < cluster.replicas.len()
        invariant
            index <= cluster.replicas.len(),
            primaries <= live <= index,
            forall|r: int| 0 <= r < index && (#[trigger] cluster.live_metadata(r)) is Some ==> {
                &&& cluster.live_metadata(r)->0.status == Status::Normal
                &&& view == Some(cluster.live_metadata(r)->0.view)
            },
            (live > 0) == (view is Some),
            view is Some ==> 0 <= witness < index && cluster.live_metadata(witness) is Some,
            primaries == 0 ==> forall|r: int| 0 <= r < index ==> !#[trigger] leads_metadata(*cluster, r),
            primaries >= 1 ==> 0 <= first < index && leads_metadata(*cluster, first),
            primaries == 1 ==> forall|r: int|
                0 <= r < index && #[trigger] leads_metadata(*cluster, r) ==> r == first,
            primaries >= 2 ==> 0 <= second < index && leads_metadata(*cluster, second) && first
                != second,
        decreases cluster.replicas.len() - index,
    {
        let reading = &cluster.replicas[index];
        let ghost this = index as int;
        if !reading.crashed {
            match reading.metadata {
                Some(state) => {
                    assert(cluster.live_metadata(this) == Some(state));
                    live = live + 1;
                    if state.status != Status::Normal {
                        return false;
                    }
                    match view {
                        Some(agreed) => {
                            if agreed != state.view {
                                assert(cluster.live_metadata(witness)->0.view
                                    != cluster.live_metadata(this)->0.view);
                                return false;
                            }
                        },
                        None => {
                            view = Some(state.view);
                            proof {
                                witness = this;
                            }
                        },
                    }
                    if state.is_primary {
                        proof {
                            if primaries == 0 {
                                first = this;
                            } else {
                                second = this;
                            }
                        }
                        primaries = primaries + 1;
                    }
                },
                None => {},
            }
        }
        index = index + 1;
    }
    let settled = live > 0 && primaries == 1;
    proof {
        if primaries == 1 {
            assert(leads_metadata(*cluster, first));
        } else if primaries >= 2 {
            assert(leads_metadata(*cluster, first) && leads_metadata(*cluster, second));
        }
        assert(settled == metadata_settled(*cluster));
    }
    settled
}

/// True when every live replica hosting `ns` has that group `Normal` in one shared
/// view with exactly one primary.
///
/// A replica that does not host the namespace is skipped rather than treated as
/// disagreement. No live host is settled by default: there is no leader for the
/// offset check to resolve either, and it skips the namespace for the same reason.
pub fn partition_view_is_settled(cluster: &ClusterReading, ns: IggyNamespace) -> (settled: bool)
    ensures
        settled == group_settled(*cluster, ns),
{
    let mut view: Option<u64> = None;
    let mut primaries: usize = 0;
    let mut hosts: usize = 0;
    let ghost mut witness: int = 0;
    let ghost mut first: int = 0;
    let ghost mut second: int = 0;
    let mut index: usize = 0;
    while index < cluster.replicas.len()
        invariant
            index <= cluster.replicas.len(),
            primaries <= hosts <= index,
            forall|r: int| 0 <= r < index && (#[trigger] cluster.live_group(r, ns)) is Some ==> {
                &&& cluster.live_group(r, ns)->0.status == Status::Normal
                &&& view == Some(cluster.live_group(r, ns)->0.view)
            },
            (hosts > 0) == (view is Some),
            view is Some ==> 0 <= witness < index && cluster.live_group(witness, ns) is Some,
            primaries == 0 ==> forall|r: int| 0 <= r < index ==> !#[trigger] leads_group(*cluster, ns, r),
            primaries >= 1 ==> 0 <= first < index && leads_group(*cluster, ns, first),
            primaries == 1 ==> forall|r: int|
                0 <= r < index && #[trigger] leads_group(*cluster, ns, r) ==> r == first,
            primaries >= 2 ==> 0 <= second < index && leads_group(*cluster, ns, second) && first
                != second,
        decreases cluster.replicas.len() - index,
    {
        let reading = &cluster.replicas[index];
        let ghost this = index as int;
        if !reading.crashed {
            match reading.partition_consensus_state(ns) {
                Some(state) => {
                    assert(cluster.live_group(this, ns) == Some(state));
                    hosts = hosts + 1;
                    if state.status != Status::Normal {
                        return false;
                    }
                    match view {
                        Some(agreed) => {
                            if agreed != state.view {
                                assert(cluster.live_group(witness, ns)->0.view
                                    != cluster.live_group(this, ns)->0.view);
                                return false;
                            }
                        },
                        None => {
                            view = Some(state.view);
                            proof {
                                witness = this;
                            }
                        },
                    }
                    if state.is_primary {
                        proof {
                            if primaries == 0 {
                                first = this;
                            } else {
                                second = this;
                            }
                        }
                        primaries = primaries + 1;
                    }
                },
                None => {},
            }
        }
        index = index + 1;
    }
    let settled = hosts == 0 || primaries == 1;
    proof {
        if primaries == 1 {
            assert(leads_group(*cluster, ns, first));
        } else if primaries >= 2 {
            assert(leads_group(*cluster, ns, first) && leads_group(*cluster, ns, second));
        }
        assert(settled == group_settled(*cluster, ns));
    }
    settled
}

/// Both planes settled: the metadata group and every tracked partition group.
///
/// Each partition group runs its own view change, so settling only the metadata
/// plane would leave [`assert_converged`] holding offsets against a deposed
/// partition leader.
pub fn views_are_settled(cluster: &ClusterReading, namespaces: &[IggyNamespace]) -> (settled: bool)
    ensures
        settled == views_settled(*cluster, namespaces@),
{
    if !metadata_view_is_settled(cluster) {
        return false;
    }
    let mut i: usize = 0;
    while i < namespaces.len()
        invariant
            i <= namespaces.len(),
            metadata_settled(*cluster),
            forall|j: int| 0 <= j < i ==> group_settled(*cluster, #[trigger] namespaces@[j]),
        decreases namespaces.len() - i,
    {
        if !partition_view_is_settled(cluster, namespaces[i]) {
            assert(!group_settled(*cluster, namespaces@[i as int]));
            return false;
        }
        i = i + 1;
    }
    true
}

/// Ops of a namespace's group that its primary has committed, where both are
/// known.
pub open spec fn leader_commit(cluster: ClusterReading, ns: IggyNamespace) -> Option<u64> {
    match cluster.primary(ns) {
        Some(leader) => if leader < cluster.replicas@.len() {
            match cluster.replicas@[leader as int].group(ns) {
                Some(state) => Some(state.commit_min),
                None => None,
            }
        } else {
            None
        },
        None => None,
    }
}

/// The live replica has committed more of a namespace's group than its leader.
///
/// Measured on the group's committed ops, not on the persisted offset: that one
/// counts an uncommitted suffix, and a backup that persisted an op the new view
/// dropped has not diverged.
pub open spec fn ahead(cluster: ClusterReading, ns: IggyNamespace, replica: int) -> bool {
    &&& leader_commit(cluster, ns) is Some
    &&& cluster.live_group(replica, ns) is Some
    &&& cluster.live_group(replica, ns)->0.commit_min > leader_commit(cluster, ns)->0
}

/// No live replica is ahead of its leader on the first `upto` namespaces.
pub open spec fn none_ahead(
    cluster: ClusterReading,
    namespaces: Seq<IggyNamespace>,
    upto: int,
) -> bool {
    forall|i: int, r: int| 0 <= i < upto ==> !#[trigger] ahead(cluster, namespaces[i], r)
}

/// A replica found ahead of its leader.
#[derive(Debug, Clone, Copy, PartialEq, Eq, Structural)]
pub struct AheadOfLeader {
    pub replica: u8,
    pub committed: u64,
    pub leader: u8,
    pub leader_committed: u64,
    pub ns: IggyNamespace,
}

/// The first replica ahead of its leader, in namespace and then replica order.
pub open spec fn first_ahead(
    cluster: ClusterReading,
    namespaces: Seq<IggyNamespace>,
    found: AheadOfLeader,
) -> bool {
    &&& exists|i: int|
        0 <= i < namespaces.len() && #[trigger] namespaces[i] == found.ns && none_ahead(
            cluster,
            namespaces,
            i,
        )
    &&& ahead(cluster, found.ns, found.replica as int)
    &&& forall|r: int| r < found.replica ==> !#[trigger] ahead(cluster, found.ns, r)
    &&& cluster.primary(found.ns) == Some(found.leader)
    &&& leader_commit(cluster, found.ns) == Some(found.leader_committed)
    &&& cluster.live_group(found.replica as int, found.ns)->0.commit_min == found.committed
}

/// The live replica is an established primary of the metadata plane.
pub open spec fn serves_metadata(cluster: ClusterReading, replica: int) -> bool {
    leads_metadata(cluster, replica) && cluster.live_metadata(replica)->0.status == Status::Normal
}

/// The first established primary of the metadata plane.
pub open spec fn first_leader(cluster: ClusterReading, leader: int) -> bool {
    serves_metadata(cluster, leader) && forall|r: int|
        r < leader ==> !#[trigger] serves_metadata(cluster, r)
}

/// The shadow equals the workload-generated metadata committed on a replica.
pub open spec fn shadow_matches(cluster: ClusterReading, shadow: Shadow, leader: int) -> bool {
    predicted(shadow) == committed(cluster.replicas@[leader]).owned()
}

/// What a quiesced cluster must satisfy.
pub open spec fn converged(cluster: ClusterReading, workload: WorkloadView) -> bool {
    &&& exists|r: int| #[trigger] cluster.live(r)
    &&& prefixes_agree(cluster)
    &&& none_ahead(
        cluster,
        workload.options.namespaces@,
        workload.options.namespaces@.len() as int,
    )
    &&& workload.strict ==> exists|leader: int| #[trigger]
        first_leader(cluster, leader) && shadow_matches(cluster, workload.shadow, leader)
}

/// What a quiesced cluster was found to violate.
#[derive(Debug, Clone, Copy, PartialEq, Eq, Structural)]
pub enum ConvergenceFault {
    /// Nothing is up.
    NoLiveReplica,
    /// Two replicas committed different history.
    PrefixesDisagree(PrefixDisagreement),
    /// A replica is ahead of its leader.
    Ahead(AheadOfLeader),
    /// The run is serial and no replica leads the metadata plane.
    NoMetadataLeader,
    /// The run is serial and the shadow differs from what the leader committed.
    ShadowDiverged { leader: usize },
}

impl ConvergenceFault {
    /// The cluster shows this fault, and none that is looked for earlier.
    pub open spec fn found_in(self, cluster: ClusterReading, workload: WorkloadView) -> bool {
        let namespaces = workload.options.namespaces@;
        let some_live = exists|r: int| #[trigger] cluster.live(r);
        let agreed = some_live && prefixes_agree(cluster);
        let level = agreed && none_ahead(cluster, namespaces, namespaces.len() as int);
        match self {
            ConvergenceFault::NoLiveReplica => !some_live,
            ConvergenceFault::PrefixesDisagree(found) => some_live && first_disagreement(
                cluster,
                found,
            ),
            ConvergenceFault::Ahead(found) => agreed && first_ahead(cluster, namespaces, found),
            ConvergenceFault::NoMetadataLeader => {
                &&& level
                &&& workload.strict
                &&& forall|r: int| !#[trigger] serves_metadata(cluster, r)
            },
            ConvergenceFault::ShadowDiverged { leader } => {
                &&& level
                &&& workload.strict
                &&& first_leader(cluster, leader as int)
                &&& !shadow_matches(cluster, workload.shadow, leader as int)
            },
        }
    }

    /// The report of the fault, with the seed that replays the run.
    pub open spec fn report(self, seed: u64) -> Seq<char> {
        match self {
            ConvergenceFault::NoLiveReplica => "no live replicas at quiesce"@ + seed_note(seed),
            ConvergenceFault::PrefixesDisagree(found) => found.report(seed),
            ConvergenceFault::Ahead(found) => {
                "replica "@ + decimal(found.replica as nat) + " committed "@ + decimal(
                    found.committed as nat,
                ) + " ops exceeds leader "@ + decimal(found.leader as nat) + " ("@ + decimal(
                    found.leader_committed as nat,
                ) + ") on ns "@ + found.ns.label() + " at quiesce"@ + seed_note(seed)
            },
            ConvergenceFault::NoMetadataLeader => "no metadata leader live at quiesce"@ + seed_note(
                seed,
            ),
            ConvergenceFault::ShadowDiverged { leader } => {
                "shadow diverged from leader-committed metadata at quiesce (leader="@ + decimal(
                    leader as nat,
                ) + ", seed="@ + hexadecimal(seed as nat) + ")"@
            },
        }
    }

    /// The report of the fault, with the seed that replays the run.
    pub fn message(&self, seed: u64) -> (text: String)
        ensures
            text@ == self.report(seed),
    {
        let mut out = String::new();
        match *self {
            ConvergenceFault::NoLiveReplica => {
                out.append("no live replicas at quiesce");
                push_seed_note(&mut out, seed);
            },
            ConvergenceFault::PrefixesDisagree(found) => {
                return found.message(seed);
            },
            ConvergenceFault::Ahead(found) => {
                out.append("replica ");
                push_decimal(&mut out, found.replica as u128);
                out.append(" committed ");
                push_decimal(&mut out, found.committed as u128);
                out.append(" ops exceeds leader ");
                push_decimal(&mut out, found.leader as u128);
                out.append(" (");
                push_decimal(&mut out, found.leader_committed as u128);
                out.append(") on ns ");
                found.ns.push_label(&mut out);
                out.append(" at quiesce");
                push_seed_note(&mut out, seed);
            },
            ConvergenceFault::NoMetadataLeader => {
                out.append("no metadata leader live at quiesce");
                push_seed_note(&mut out, seed);
            },
            ConvergenceFault::ShadowDiverged { leader } => {
                out.append("shadow diverged from leader-committed metadata at quiesce (leader=");
                push_decimal(&mut out, leader as u128);
                out.append(", seed=");
                push_hexadecimal(&mut out, seed as u128);
                out.append(")");
            },
        }
        assert(out@ =~= self.report(seed));
        out
    }
}

/// The full report of a shadow that diverged: the fault's message, then what the
/// shadow predicted and what the leader committed, each set in ascending order.
pub open spec fn shadow_divergence(
    leader: usize,
    seed: u64,
    predicted: MetadataView,
    committed: MetadataView,
) -> Seq<char> {
    ConvergenceFault::ShadowDiverged { leader }.report(seed) + "\n  left: "@ + metadata_text(
        predicted,
    ) + "\n right: "@ + metadata_text(committed)
}

/// The full report of a shadow that diverged from what the leader committed.
pub fn shadow_divergence_report(
    leader: usize,
    seed: u64,
    predicted: &CommittedMetadata,
    committed: &CommittedMetadata,
) -> (text: String)
    ensures
        text@ == shadow_divergence(leader, seed, predicted@, committed@),
{
    let mut out = ConvergenceFault::ShadowDiverged { leader }.message(seed);
    out.append("\n  left: ");
    push_metadata(&mut out, predicted);
    out.append("\n right: ");
    push_metadata(&mut out, committed);
    assert(out@ =~= shadow_divergence(leader, seed, predicted@, committed@));
    out
}

/// What a fault found in a cluster is reported as: its message, and for a shadow
/// that diverged also the two sides compared.
pub open spec fn convergence_failure(
    fault: ConvergenceFault,
    cluster: ClusterReading,
    workload: WorkloadView,
) -> Seq<char> {
    match fault {
        ConvergenceFault::ShadowDiverged { leader } => shadow_divergence(
            leader,
            workload.options.seed,
            predicted(workload.shadow),
            committed(cluster.replicas@[leader as int]).owned(),
        ),
        _ => fault.report(workload.options.seed),
    }
}

/// The whole report of a fault that [`assert_converged`] found.
pub fn convergence_failure_report(
    fault: &ConvergenceFault,
    cluster: &ClusterReading,
    workload: &Workload,
) -> (text: String)
    requires
        fault matches ConvergenceFault::ShadowDiverged { leader } ==> leader
            < cluster.replicas@.len(),
    ensures
        text@ == convergence_failure(*fault, *cluster, workload@),
{
    match *fault {
        ConvergenceFault::ShadowDiverged { leader } => {
            let committed = read_committed_metadata(&cluster.replicas[leader]).workload_owned();
            let predicted = shadow_metadata(workload.shadow());
            shadow_divergence_report(leader, workload.options().seed, &predicted, &committed)
        },
        _ => fault.message(workload.options().seed),
    }
}

/// The live replica whose metadata consensus is the current primary, i.e. the
/// authoritative holder of the committed metadata log.
pub fn metadata_leader(cluster: &ClusterReading) -> (leader: Option<usize>)
    ensures
        match leader {
            Some(index) => first_leader(*cluster, index as int),
            None => forall|r: int| !#[trigger] serves_metadata(*cluster, r),
        },
{
    let mut index: usize = 0;
    while index < cluster.replicas.len()
        invariant
            index <= cluster.replicas.len(),
            forall|r: int| r < index ==> !#[trigger] serves_metadata(*cluster, r),
        decreases cluster.replicas.len() - index,
    {
        let reading = &cluster.replicas[index];
        if !reading.crashed {
            match reading.metadata {
                Some(state) => {
                    if state.is_primary && state.status == Status::Normal {
                        return Some(index);
                    }
                },
                None => {},
            }
        }
        index = index + 1;
    }
    None
}

fn any_live(cluster: &ClusterReading) -> (live: bool)
    ensures
        live == exists|r: int| #[trigger] cluster.live(r),
{
    let mut index: usize = 0;
    while index < cluster.replicas.len()
        invariant
            index <= cluster.replicas.len(),
            forall|r: int| r < index ==> !#[trigger] cluster.live(r),
        decreases cluster.replicas.len() - index,
    {
        if !cluster.replicas[index].crashed {
            assert(cluster.live(index as int));
            return true;
        }
        index = index + 1;
    }
    false
}

/// The first live replica ahead of a namespace's leader.
fn ahead_on(cluster: &ClusterReading, ns: IggyNamespace) -> (found: Option<AheadOfLeader>)
    requires
        cluster.wf(),
    ensures
        match found {
            Some(replica) => {
                &&& replica.ns == ns
                &&& ahead(*cluster, ns, replica.replica as int)
                &&& forall|r: int| r < replica.replica ==> !#[trigger] ahead(*cluster, ns, r)
                &&& cluster.primary(ns) == Some(replica.leader)
                &&& leader_commit(*cluster, ns) == Some(replica.leader_committed)
                &&& cluster.live_group(replica.replica as int, ns)->0.commit_min
                    == replica.committed
            },
            None => forall|r: int| !#[trigger] ahead(*cluster, ns, r),
        },
{
    let leader: u8 = match cluster.primary_index(ns) {
        Some(leader) => leader,
        None => {
            return None;
        },
    };
    if leader as usize >= cluster.replicas.len() {
        return None;
    }
    let leader_committed: u64 = match cluster.replicas[leader as usize].partition_consensus_state(
        ns,
    ) {
        Some(state) => state.commit_min,
        None => {
            return None;
        },
    };
    let mut index: usize = 0;
    while index < cluster.replicas.len()
        invariant
            cluster.wf(),
            index <= cluster.replicas.len(),
            cluster.primary(ns) == Some(leader),
            leader_commit(*cluster, ns) == Some(leader_committed),
            forall|r: int| r < index ==> !#[trigger] ahead(*cluster, ns, r),
        decreases cluster.replicas.len() - index,
    {
        let reading = &cluster.replicas[index];
        if !reading.crashed {
            match reading.partition_consensus_state(ns) {
                Some(state) => {
                    if state.commit_min > leader_committed {
                        return Some(
                            AheadOfLeader {
                                replica: index as u8,
                                committed: state.commit_min,
                                leader,
                                leader_committed,
                                ns,
                            },
                        );
                    }
                },
                None => {},
            }
        }
        index = index + 1;
    }
    None
}

/// Post-drain consensus checks.
///
/// Requires that no live replica is ahead of its leader, that every live replica
/// agrees with every other on each committed metadata op they share, and (on a
/// serial run) that the shadow equals the metadata committed on the leader.
/// Replicas are compared against each other first, because a genuine divergence
/// explains any leader confusion after it.
///
/// Meaningful once the views are settled (see [`views_are_settled`]): before
/// that, a namespace's primary may be a deposed one, and the metadata plane may
/// have none.
pub fn assert_converged(cluster: &ClusterReading, workload: &Workload) -> (result: Result<
    (),
    ConvergenceFault,
>)
    requires
        cluster.wf(),
    ensures
        result is Ok <==> converged(*cluster, workload@),
        result is Err ==> result->Err_0.found_in(*cluster, workload@),
{
    if !any_live(cluster) {
        return Err(ConvergenceFault::NoLiveReplica);
    }
    match assert_committed_prefixes_agree(cluster) {
        Ok(()) => {},
        Err(found) => {
            return Err(ConvergenceFault::PrefixesDisagree(found));
        },
    }
    let namespaces = workload.options().namespaces.as_slice();
    let mut i: usize = 0;
    while i < namespaces.len()
        invariant
            cluster.wf(),
            i <= namespaces.len(),
            namespaces@ == workload@.options.namespaces@,
            exists|r: int| #[trigger] cluster.live(r),
            prefixes_agree(*cluster),
            none_ahead(*cluster, namespaces@, i as int),
        decreases namespaces.len() - i,
    {
        match ahead_on(cluster, namespaces[i]) {
            Some(found) => {
                assert(namespaces@[i as int] == found.ns);
                assert(ahead(*cluster, namespaces@[i as int], found.replica as int));
                return Err(ConvergenceFault::Ahead(found));
            },
            None => {},
        }
        i = i + 1;
    }
    if workload.strict_outcome_oracle() {
        match metadata_leader(cluster) {
            None => {
                return Err(ConvergenceFault::NoMetadataLeader);
            },
            Some(leader) => {
                let committed = read_committed_metadata(&cluster.replicas[leader]).workload_owned();
                if !shadow_metadata(workload.shadow()).same(&committed) {
                    proof {
                        let first = leader as int;
                        assert forall|other: int| first_leader(*cluster, other) implies other
                            == first by {
                            assert(serves_metadata(*cluster, other));
                            assert(serves_metadata(*cluster, first));
                        }
                    }
                    return Err(ConvergenceFault::ShadowDiverged { leader });
                }
                assert(first_leader(*cluster, leader as int));
            },
        }
    }
    Ok(())
}

/// A settled metadata plane has exactly one established primary, so the oracle
/// neither misses the leader nor picks a deposed one.
pub proof fn settled_plane_has_one_leader(cluster: ClusterReading)
    requires
        metadata_settled(cluster),
    ensures
        exists|leader: int| #[trigger]
            first_leader(cluster, leader) && forall|r: int| #[trigger]
                serves_metadata(cluster, r) ==> r == leader,
{
    let leader = choose|leader: int| #[trigger]
        leads_metadata(cluster, leader) && forall|r: int| #[trigger]
            leads_metadata(cluster, r) ==> r == leader;
    assert(serves_metadata(cluster, leader));
    assert forall|r: int| #[trigger] serves_metadata(cluster, r) implies r == leader by {
        assert(leads_metadata(cluster, r));
    }
    assert(first_leader(cluster, leader));
}

/// With settled views no check reports a missing metadata leader.
pub proof fn settled_views_rule_out_missing_leader(
    cluster: ClusterReading,
    workload: WorkloadView,
)
    requires
        views_settled(cluster, workload.options.namespaces@),
    ensures
        !ConvergenceFault::NoMetadataLeader.found_in(cluster, workload),
        !ConvergenceFault::NoLiveReplica.found_in(cluster, workload),
{
    settled_plane_has_one_leader(cluster);
    let leader = choose|leader: int| #[trigger] first_leader(cluster, leader);
    assert(serves_metadata(cluster, leader));
    assert(cluster.live(leader));
}

/// The checks tell apart every way to fail: a converged cluster shows no fault.
pub proof fn converged_cluster_shows_no_fault(
    cluster: ClusterReading,
    workload: WorkloadView,
    fault: ConvergenceFault,
)
    requires
        converged(cluster, workload),
    ensures
        !fault.found_in(cluster, workload),
{
    match fault {
        ConvergenceFault::Ahead(found) => {
            if first_ahead(cluster, workload.options.namespaces@, found) {
                let namespaces = workload.options.namespaces@;
                let i = choose|i: int|
                    0 <= i < namespaces.len() && #[trigger] namespaces[i] == found.ns && none_ahead(
                        cluster,
                        namespaces,
                        i,
                    );
                assert(ahead(cluster, namespaces[i], found.replica as int));
            }
        },
        ConvergenceFault::NoMetadataLeader => {
            if workload.strict {
                let leader = choose|leader: int| #[trigger]
                    first_leader(cluster, leader) && shadow_matches(
                        cluster,
                        workload.shadow,
                        leader,
                    );
                assert(serves_metadata(cluster, leader));
            }
        },
        ConvergenceFault::ShadowDiverged { leader } => {
            if workload.strict && first_leader(cluster, leader as int) {
                let other = choose|other: int| #[trigger]
                    first_leader(cluster, other) && shadow_matches(
                        cluster,
                        workload.shadow,
                        other,
                    );
                assert(serves_metadata(cluster, other));
                assert(serves_metadata(cluster, leader as int));
            }
        },
        _ => {},
    }
}

/// A shadow made of workload-generated names alone is unchanged by the filter, so
/// it lines up with filtered committed metadata.
pub proof fn shadow_of_own_names_is_owned(shadow: Shadow)
    requires
        forall|path: Seq<Seq<char>>| #[trigger]
            predicted(shadow).streams.contains(path) ==> owned_path(path),
        forall|path: Seq<Seq<char>>| #[trigger]
            predicted(shadow).topics.contains(path) ==> owned_path(path),
        forall|path: Seq<Seq<char>>| #[trigger]
            predicted(shadow).users.contains(path) ==> owned_path(path),
        forall|path: Seq<Seq<char>>| #[trigger]
            predicted(shadow).consumer_groups.contains(path) ==> owned_path(path),
    ensures
        predicted(shadow).owned() == predicted(shadow),
{
    assert(predicted(shadow).owned() =~= predicted(shadow));
}

/// Filtering committed metadata twice is filtering it once.
pub proof fn owned_metadata_is_owned(metadata: MetadataView)
    ensures
        metadata.owned().owned() == metadata.owned(),
{
    assert(metadata.owned().owned() =~= metadata.owned());
}

/// A stream that is not the workload's does not enter the comparison, nor does
/// anything inside it.
pub proof fn foreign_streams_are_invisible(
    left: ReplicaReading,
    right: ReplicaReading,
    foreign: StreamRecord,
)
    requires
        right.streams@ == left.streams@.push(foreign),
        right.users@ == left.users@,
        !owned_name(foreign.name@),
    ensures
        committed(right).owned() == committed(left).owned(),
{
    let added = right.streams@.len() - 1;
    assert forall|path: Seq<Seq<char>>| owned_path(path) implies #[trigger] committed(
        right,
    ).streams.contains(path) == committed(left).streams.contains(path) by {
        if committed(right).streams.contains(path) {
            let s = choose|s: int|
                0 <= s < right.streams@.len() && path == seq![
                    (#[trigger] right.streams@[s]).name@,
                ];
            assert(owned_name(path[0]));
            assert(s != added);
            assert(left.streams@[s] == right.streams@[s]);
        }
        if committed(left).streams.contains(path) {
            let s = choose|s: int|
                0 <= s < left.streams@.len() && path == seq![(#[trigger] left.streams@[s]).name@];
            assert(right.streams@[s] == left.streams@[s]);
        }
    }
    assert forall|path: Seq<Seq<char>>| owned_path(path) implies #[trigger] committed(
        right,
    ).topics.contains(path) == committed(left).topics.contains(path) by {
        if committed(right).topics.contains(path) {
            let s = choose|s: int|
                0 <= s < right.streams@.len() && topic_of(#[trigger] right.streams@[s], path);
            assert(owned_name(path[0]));
            assert(s != added);
            assert(topic_of(left.streams@[s], path));
        }
        if committed(left).topics.contains(path) {
            let s = choose|s: int|
                0 <= s < left.streams@.len() && topic_of(#[trigger] left.streams@[s], path);
            assert(topic_of(right.streams@[s], path));
        }
    }
    assert forall|path: Seq<Seq<char>>| owned_path(path) implies #[trigger] committed(
        right,
    ).consumer_groups.contains(path) == committed(left).consumer_groups.contains(path) by {
        if committed(right).consumer_groups.contains(path) {
            let s = choose|s: int|
                0 <= s < right.streams@.len() && stream_group_of(#[trigger] right.streams@[s], path);
            assert(owned_name(path[0]));
            assert(s != added);
            assert(stream_group_of(left.streams@[s], path));
        }
        if committed(left).consumer_groups.contains(path) {
            let s = choose|s: int|
                0 <= s < left.streams@.len() && stream_group_of(#[trigger] left.streams@[s], path);
            assert(stream_group_of(right.streams@[s], path));
        }
    }
    assert(committed(right).owned() =~= committed(left).owned());
}

/// A topic that is not the workload's does not enter the comparison, even inside
/// a stream of the workload's own, nor do its consumer groups.
pub proof fn foreign_topics_are_invisible(
    left: ReplicaReading,
    right: ReplicaReading,
    place: int,
    foreign: TopicRecord,
)
    requires
        0 <= place < left.streams@.len(),
        right.streams@.len() == left.streams@.len(),
        forall|s: int|
            0 <= s < left.streams@.len() && s != place ==> #[trigger] right.streams@[s]
                == left.streams@[s],
        right.streams@[place].name@ == left.streams@[place].name@,
        right.streams@[place].topics@ == left.streams@[place].topics@.push(foreign),
        right.users@ == left.users@,
        !owned_name(foreign.name@),
    ensures
        committed(right).owned() == committed(left).owned(),
{
    let grown = right.streams@[place];
    let plain = left.streams@[place];
    let added = grown.topics@.len() - 1;
    assert forall|path: Seq<Seq<char>>| owned_path(path) implies #[trigger] topic_of(grown, path)
        == topic_of(plain, path) by {
        if topic_of(grown, path) {
            let t = choose|t: int|
                0 <= t < grown.topics@.len() && path == seq![
                    grown.name@,
                    (#[trigger] grown.topics@[t]).name@,
                ];
            assert(owned_name(path[1]));
            assert(t != added);
            assert(plain.topics@[t] == grown.topics@[t]);
        }
        if topic_of(plain, path) {
            let t = choose|t: int|
                0 <= t < plain.topics@.len() && path == seq![
                    plain.name@,
                    (#[trigger] plain.topics@[t]).name@,
                ];
            assert(grown.topics@[t] == plain.topics@[t]);
        }
    }
    assert forall|path: Seq<Seq<char>>| owned_path(path) implies #[trigger] stream_group_of(
        grown,
        path,
    ) == stream_group_of(plain, path) by {
        if stream_group_of(grown, path) {
            let t = choose|t: int|
                0 <= t < grown.topics@.len() && group_of(
                    grown.name@,
                    #[trigger] grown.topics@[t],
                    path,
                );
            assert(owned_name(path[1]));
            assert(t != added);
            assert(group_of(plain.name@, plain.topics@[t], path));
        }
        if stream_group_of(plain, path) {
            let t = choose|t: int|
                0 <= t < plain.topics@.len() && group_of(
                    plain.name@,
                    #[trigger] plain.topics@[t],
                    path,
                );
            assert(group_of(grown.name@, grown.topics@[t], path));
        }
    }
    assert forall|path: Seq<Seq<char>>| #[trigger]
        committed(right).streams.contains(path) == committed(left).streams.contains(path) by {
        if committed(right).streams.contains(path) {
            let s = choose|s: int|
                0 <= s < right.streams@.len() && path == seq![
                    (#[trigger] right.streams@[s]).name@,
                ];
            assert(left.streams@[s].name@ == right.streams@[s].name@);
        }
        if committed(left).streams.contains(path) {
            let s = choose|s: int|
                0 <= s < left.streams@.len() && path == seq![(#[trigger] left.streams@[s]).name@];
            assert(left.streams@[s].name@ == right.streams@[s].name@);
        }
    }
    assert forall|path: Seq<Seq<char>>| owned_path(path) implies #[trigger] committed(
        right,
    ).topics.contains(path) == committed(left).topics.contains(path) by {
        if committed(right).topics.contains(path) {
            let s = choose|s: int|
                0 <= s < right.streams@.len() && topic_of(#[trigger] right.streams@[s], path);
            assert(topic_of(left.streams@[s], path));
        }
        if committed(left).topics.contains(path) {
            let s = choose|s: int|
                0 <= s < left.streams@.len() && topic_of(#[trigger] left.streams@[s], path);
            assert(topic_of(right.streams@[s], path));
        }
    }
    assert forall|path: Seq<Seq<char>>| owned_path(path) implies #[trigger] committed(
        right,
    ).consumer_groups.contains(path) == committed(left).consumer_groups.contains(path) by {
        if committed(right).consumer_groups.contains(path) {
            let s = choose|s: int|
                0 <= s < right.streams@.len() && stream_group_of(#[trigger] right.streams@[s], path);
            assert(stream_group_of(left.streams@[s], path));
        }
        if committed(left).consumer_groups.contains(path) {
            let s = choose|s: int|
                0 <= s < left.streams@.len() && stream_group_of(#[trigger] left.streams@[s], path);
            assert(stream_group_of(right.streams@[s], path));
        }
    }
    assert(committed(right).owned() =~= committed(left).owned());
}

/// Every stream, topic, consumer group and user a replica holds is in its committed
/// metadata, under the names that lead to it.
pub proof fn every_record_is_committed(
    reading: ReplicaReading,
    stream: int,
    topic: int,
    group: int,
    user: int,
)
    ensures
        0 <= stream < reading.streams@.len() ==> {
            let record = reading.streams@[stream];
            &&& committed(reading).streams.contains(seq![record.name@])
            &&& 0 <= topic < record.topics@.len() ==> {
                let inner = record.topics@[topic];
                &&& committed(reading).topics.contains(seq![record.name@, inner.name@])
                &&& 0 <= group < inner.consumer_groups@.len() ==> committed(
                    reading,
                ).consumer_groups.contains(
                    seq![record.name@, inner.name@, inner.consumer_groups@[group]@],
                )
            }
        },
        0 <= user < reading.users@.len() ==> committed(reading).users.contains(
            seq![reading.users@[user]@],
        ),
{
    if 0 <= stream < reading.streams@.len() {
        let record = reading.streams@[stream];
        if 0 <= topic < record.topics@.len() {
            let inner = record.topics@[topic];
            assert(topic_of(record, seq![record.name@, inner.name@]));
            if 0 <= group < inner.consumer_groups@.len() {
                let path = seq![record.name@, inner.name@, inner.consumer_groups@[group]@];
                assert(group_of(record.name@, inner, path));
                assert(stream_group_of(record, path));
            }
        }
    }
}

/// Committed metadata holds nothing else: each path names a record the replica
/// holds, by as many names as its kind has.
pub proof fn committed_paths_name_records(reading: ReplicaReading, path: Seq<Seq<char>>)
    ensures
        committed(reading).streams.contains(path) ==> path.len() == 1 && exists|s: int|
            0 <= s < reading.streams@.len() && (#[trigger] reading.streams@[s]).name@ == path[0],
        committed(reading).topics.contains(path) ==> path.len() == 2 && exists|s: int, t: int|
            0 <= s < reading.streams@.len() && 0 <= t < reading.streams@[s].topics@.len()
                && reading.streams@[s].name@ == path[0] && (
            #[trigger] reading.streams@[s].topics@[t]).name@ == path[1],
        committed(reading).consumer_groups.contains(path) ==> path.len() == 3 && exists|
            s: int,
            t: int,
            g: int,
        |
            0 <= s < reading.streams@.len() && 0 <= t < reading.streams@[s].topics@.len() && 0 <= g
                < reading.streams@[s].topics@[t].consumer_groups@.len()
                && reading.streams@[s].name@ == path[0] && reading.streams@[s].topics@[t].name@
                == path[1] && (#[trigger] reading.streams@[s].topics@[t].consumer_groups@[g])@
                == path[2],
        committed(reading).users.contains(path) ==> path.len() == 1 && exists|u: int|
            0 <= u < reading.users@.len() && (#[trigger] reading.users@[u])@ == path[0],
{
    let streams = reading.streams@;
    if committed(reading).topics.contains(path) {
        let s = choose|s: int| 0 <= s < streams.len() && topic_of(#[trigger] streams[s], path);
        let t = choose|t: int|
            0 <= t < streams[s].topics@.len() && path == seq![
                streams[s].name@,
                (#[trigger] streams[s].topics@[t]).name@,
            ];
        assert(reading.streams@[s].topics@[t].name@ == path[1]);
    }
    if committed(reading).consumer_groups.contains(path) {
        let s = choose|s: int|
            0 <= s < streams.len() && stream_group_of(#[trigger] streams[s], path);
        let t = choose|t: int|
            0 <= t < streams[s].topics@.len() && group_of(
                streams[s].name@,
                #[trigger] streams[s].topics@[t],
                path,
            );
        let topic = streams[s].topics@[t];
        let g = choose|g: int|
            0 <= g < topic.consumer_groups@.len() && path == seq![
                streams[s].name@,
                topic.name@,
                (#[trigger] topic.consumer_groups@[g])@,
            ];
        assert(reading.streams@[s].topics@[t].consumer_groups@[g]@ == path[2]);
    }
}

/// A shadow predicts exactly the entities it lists, each under its own names.
pub proof fn predictions_are_the_listed_names(shadow: Shadow, place: int, path: Seq<Seq<char>>)
    ensures
        0 <= place < shadow.stream_names@.len() ==> predicted(shadow).streams.contains(
            seq![shadow.stream_names@[place]@],
        ),
        0 <= place < shadow.topic_names@.len() ==> predicted(shadow).topics.contains(
            seq![shadow.topic_names@[place].0@, shadow.topic_names@[place].1@],
        ),
        0 <= place < shadow.user_names@.len() ==> predicted(shadow).users.contains(
            seq![shadow.user_names@[place]@],
        ),
        0 <= place < shadow.consumer_group_names@.len() ==> predicted(
            shadow,
        ).consumer_groups.contains(
            seq![
                shadow.consumer_group_names@[place].0@,
                shadow.consumer_group_names@[place].1@,
                shadow.consumer_group_names@[place].2@,
            ],
        ),
        predicted(shadow).streams.contains(path) ==> path.len() == 1 && exists|i: int|
            0 <= i < shadow.stream_names@.len() && (#[trigger] shadow.stream_names@[i])@ == path[0],
        predicted(shadow).users.contains(path) ==> path.len() == 1 && exists|i: int|
            0 <= i < shadow.user_names@.len() && (#[trigger] shadow.user_names@[i])@ == path[0],
        predicted(shadow).topics.contains(path) ==> path.len() == 2 && exists|i: int|
            0 <= i < shadow.topic_names@.len() && (#[trigger] shadow.topic_names@[i]).0@ == path[0]
                && shadow.topic_names@[i].1@ == path[1],
        predicted(shadow).consumer_groups.contains(path) ==> path.len() == 3 && exists|i: int|
            0 <= i < shadow.consumer_group_names@.len() && (
            #[trigger] shadow.consumer_group_names@[i]).0@ == path[0]
                && shadow.consumer_group_names@[i].1@ == path[1]
                && shadow.consumer_group_names@[i].2@ == path[2],
{
}

/// Filtering keeps a path exactly if every name in it is the workload's.
pub proof fn filtering_keeps_own_paths(metadata: MetadataView, path: Seq<Seq<char>>)
    ensures
        ({
            let own = forall|i: int| 0 <= i < path.len() ==> owned_name(#[trigger] path[i]);
            &&& metadata.owned().streams.contains(path) <==> own && metadata.streams.contains(path)
            &&& metadata.owned().topics.contains(path) <==> own && metadata.topics.contains(path)
            &&& metadata.owned().users.contains(path) <==> own && metadata.users.contains(path)
            &&& metadata.owned().consumer_groups.contains(path) <==> own
                && metadata.consumer_groups.contains(path)
        }),
{
}

/// The metadata plane is not settled while a live replica is anything but `Normal`,
/// while two are in different views, while two claim to be primary, or while none
/// does.
pub proof fn unstable_metadata_is_not_settled(cluster: ClusterReading, left: int, right: int)
    requires
        0 <= left < cluster.replicas@.len(),
        0 <= right < cluster.replicas@.len(),
        !cluster.replicas@[left].crashed,
        !cluster.replicas@[right].crashed,
        cluster.replicas@[left].metadata is Some,
        cluster.replicas@[right].metadata is Some,
    ensures
        ({
            let one = cluster.replicas@[left].metadata->0;
            let other = cluster.replicas@[right].metadata->0;
            &&& one.status != Status::Normal ==> !metadata_settled(cluster)
            &&& one.view != other.view ==> !metadata_settled(cluster)
            &&& left != right && one.is_primary && other.is_primary ==> !metadata_settled(cluster)
        }),
{
    assert(cluster.live_metadata(left) == cluster.replicas@[left].metadata);
    assert(cluster.live_metadata(right) == cluster.replicas@[right].metadata);
    if left != right && cluster.replicas@[left].metadata->0.is_primary
        && cluster.replicas@[right].metadata->0.is_primary {
        assert(leads_metadata(cluster, left));
        assert(leads_metadata(cluster, right));
    }
}

/// The metadata plane is not settled without a live primary.
pub proof fn leaderless_metadata_is_not_settled(cluster: ClusterReading)
    requires
        forall|r: int|
            0 <= r < cluster.replicas@.len() && !(#[trigger] cluster.replicas@[r]).crashed
                && cluster.replicas@[r].metadata is Some
                ==> !cluster.replicas@[r].metadata->0.is_primary,
    ensures
        !metadata_settled(cluster),
{
    assert forall|r: int| !#[trigger] leads_metadata(cluster, r) by {
        if leads_metadata(cluster, r) {
            assert(!cluster.replicas@[r].crashed);
        }
    }
}

/// The metadata plane is settled once every live replica is `Normal` in the view of
/// the one live primary.
pub proof fn stable_metadata_is_settled(cluster: ClusterReading, leader: int)
    requires
        0 <= leader < cluster.replicas@.len(),
        !cluster.replicas@[leader].crashed,
        cluster.replicas@[leader].metadata is Some,
        cluster.replicas@[leader].metadata->0.is_primary,
        forall|r: int|
            0 <= r < cluster.replicas@.len() && !(#[trigger] cluster.replicas@[r]).crashed
                && cluster.replicas@[r].metadata is Some ==> {
                &&& cluster.replicas@[r].metadata->0.status == Status::Normal
                &&& cluster.replicas@[r].metadata->0.view
                    == cluster.replicas@[leader].metadata->0.view
                &&& cluster.replicas@[r].metadata->0.is_primary ==> r == leader
            },
    ensures
        metadata_settled(cluster),
{
    assert(leads_metadata(cluster, leader));
    assert forall|r: int| #[trigger] cluster.live_metadata(r) is Some implies {
        &&& cluster.live_metadata(r)->0.status == Status::Normal
        &&& cluster.live_metadata(r)->0.view == cluster.replicas@[leader].metadata->0.view
        &&& cluster.live_metadata(r)->0.is_primary ==> r == leader
    } by {
        assert(!cluster.replicas@[r].crashed);
    }
}

/// A namespace's group is not settled while a live host is anything but `Normal`,
/// while two are in different views, or while two claim to be primary.
pub proof fn unstable_groups_are_not_settled(
    cluster: ClusterReading,
    ns: IggyNamespace,
    left: int,
    right: int,
)
    requires
        0 <= left < cluster.replicas@.len(),
        0 <= right < cluster.replicas@.len(),
        !cluster.replicas@[left].crashed,
        !cluster.replicas@[right].crashed,
        cluster.replicas@[left].group(ns) is Some,
        cluster.replicas@[right].group(ns) is Some,
    ensures
        ({
            let one = cluster.replicas@[left].group(ns)->0;
            let other = cluster.replicas@[right].group(ns)->0;
            &&& one.status != Status::Normal ==> !group_settled(cluster, ns)
            &&& one.view != other.view ==> !group_settled(cluster, ns)
            &&& left != right && one.is_primary && other.is_primary ==> !group_settled(cluster, ns)
        }),
{
    assert(cluster.live_group(left, ns) == cluster.replicas@[left].group(ns));
    assert(cluster.live_group(right, ns) == cluster.replicas@[right].group(ns));
    if left != right && cluster.replicas@[left].group(ns)->0.is_primary
        && cluster.replicas@[right].group(ns)->0.is_primary {
        assert(leads_group(cluster, ns, left));
        assert(leads_group(cluster, ns, right));
    }
}

/// A namespace with a live host is not settled without a live primary of its group.
pub proof fn leaderless_groups_are_not_settled(
    cluster: ClusterReading,
    ns: IggyNamespace,
    host: int,
)
    requires
        0 <= host < cluster.replicas@.len(),
        !cluster.replicas@[host].crashed,
        cluster.replicas@[host].group(ns) is Some,
        forall|r: int|
            0 <= r < cluster.replicas@.len() && !(#[trigger] cluster.replicas@[r]).crashed
                && cluster.replicas@[r].group(ns) is Some ==> !cluster.replicas@[r].group(
                ns,
            )->0.is_primary,
    ensures
        !group_settled(cluster, ns),
{
    assert(cluster.live_group(host, ns) is Some);
    assert forall|r: int| !#[trigger] leads_group(cluster, ns, r) by {
        if leads_group(cluster, ns, r) {
            assert(!cluster.replicas@[r].crashed);
        }
    }
}

/// A namespace's group is settled once every live host is `Normal` in the view of
/// the one live primary, and where no live replica hosts it.
pub proof fn stable_groups_are_settled(cluster: ClusterReading, ns: IggyNamespace, leader: int)
    requires
        ({
            &&& 0 <= leader < cluster.replicas@.len()
            &&& !cluster.replicas@[leader].crashed
            &&& cluster.replicas@[leader].group(ns) is Some
            &&& cluster.replicas@[leader].group(ns)->0.is_primary
            &&& forall|r: int|
                0 <= r < cluster.replicas@.len() && !(#[trigger] cluster.replicas@[r]).crashed
                    && cluster.replicas@[r].group(ns) is Some ==> {
                    &&& cluster.replicas@[r].group(ns)->0.status == Status::Normal
                    &&& cluster.replicas@[r].group(ns)->0.view == cluster.replicas@[leader].group(
                        ns,
                    )->0.view
                    &&& cluster.replicas@[r].group(ns)->0.is_primary ==> r == leader
                }
        }) || (forall|r: int|
            0 <= r < cluster.replicas@.len() && !(#[trigger] cluster.replicas@[r]).crashed
                ==> cluster.replicas@[r].group(ns) is None),
    ensures
        group_settled(cluster, ns),
{
    assert forall|r: int| #[trigger] cluster.live_group(r, ns) is Some implies {
        &&& cluster.live_group(r, ns)->0.status == Status::Normal
        &&& cluster.live_group(r, ns)->0.view == cluster.replicas@[leader].group(ns)->0.view
        &&& cluster.live_group(r, ns)->0.is_primary ==> r == leader
    } by {
        assert(!cluster.replicas@[r].crashed);
    }
    if exists|r: int| #[trigger] cluster.live_group(r, ns) is Some {
        let host = choose|r: int| #[trigger] cluster.live_group(r, ns) is Some;
        assert(!cluster.replicas@[host].crashed);
        assert(leads_group(cluster, ns, leader));
    }
}

/// Both planes count: views are settled exactly if the metadata plane is and every
/// tracked namespace is.
pub proof fn settled_views_cover_both_planes(
    cluster: ClusterReading,
    namespaces: Seq<IggyNamespace>,
    place: int,
)
    requires
        0 <= place < namespaces.len(),
    ensures
        !metadata_settled(cluster) ==> !views_settled(cluster, namespaces),
        !group_settled(cluster, namespaces[place]) ==> !views_settled(cluster, namespaces),
        metadata_settled(cluster) && (forall|i: int|
            0 <= i < namespaces.len() ==> group_settled(cluster, #[trigger] namespaces[i]))
            ==> views_settled(cluster, namespaces),
{
}

/// A live replica with more committed ops than the primary of a tracked group is
/// found, and the cluster has not converged.
pub proof fn replicas_ahead_break_convergence(
    cluster: ClusterReading,
    workload: WorkloadView,
    place: int,
    leader: u8,
    replica: int,
)
    requires
        0 <= place < workload.options.namespaces@.len(),
        cluster.primary(workload.options.namespaces@[place]) == Some(leader),
        leader < cluster.replicas@.len(),
        cluster.replicas@[leader as int].group(workload.options.namespaces@[place]) is Some,
        0 <= replica < cluster.replicas@.len(),
        !cluster.replicas@[replica].crashed,
        cluster.replicas@[replica].group(workload.options.namespaces@[place]) is Some,
        cluster.replicas@[replica].group(workload.options.namespaces@[place])->0.commit_min
            > cluster.replicas@[leader as int].group(
            workload.options.namespaces@[place],
        )->0.commit_min,
    ensures
        !converged(cluster, workload),
{
    assert(ahead(cluster, workload.options.namespaces@[place], replica));
}

/// Two live replicas that committed different history at one op have not converged.
pub proof fn different_history_breaks_convergence(
    cluster: ClusterReading,
    workload: WorkloadView,
    left: int,
    right: int,
    op: u64,
)
    requires
        0 <= left < cluster.replicas@.len(),
        0 <= right < cluster.replicas@.len(),
        !cluster.replicas@[left].crashed,
        !cluster.replicas@[right].crashed,
        cluster.replicas@[left].metadata is Some,
        cluster.replicas@[right].metadata is Some,
        0 < op <= cluster.replicas@[left].metadata->0.commit_min,
        op <= cluster.replicas@[right].metadata->0.commit_min,
        cluster.replicas@[left].journal.at(op) is Some,
        cluster.replicas@[right].journal.at(op) is Some,
        cluster.replicas@[left].journal.at(op)->0.checksum
            != cluster.replicas@[right].journal.at(op)->0.checksum,
    ensures
        !converged(cluster, workload),
{
    if prefixes_agree(cluster) {
        agreement_is_pairwise(cluster, left, right, op);
    }
}

/// A cluster with nothing live has not converged.
pub proof fn dead_clusters_have_not_converged(cluster: ClusterReading, workload: WorkloadView)
    requires
        forall|r: int|
            0 <= r < cluster.replicas@.len() ==> (#[trigger] cluster.replicas@[r]).crashed,
    ensures
        !converged(cluster, workload),
        ConvergenceFault::NoLiveReplica.found_in(cluster, workload),
{
    assert forall|r: int| !#[trigger] cluster.live(r) by {
        if cluster.live(r) {
            assert(cluster.replicas@[r].crashed);
        }
    }
}

/// On a serial run that converged, the prediction and the leader's metadata hold the
/// same workload-generated paths of every kind, and the leader is a live, `Normal`
/// primary.
pub proof fn serial_runs_converge_on_the_prediction(
    cluster: ClusterReading,
    workload: WorkloadView,
    path: Seq<Seq<char>>,
) -> (leader: int)
    requires
        converged(cluster, workload),
        workload.strict,
    ensures
        0 <= leader < cluster.replicas@.len(),
        !cluster.replicas@[leader].crashed,
        cluster.replicas@[leader].metadata is Some,
        cluster.replicas@[leader].metadata->0.is_primary,
        cluster.replicas@[leader].metadata->0.status == Status::Normal,
        ({
            let shadow = predicted(workload.shadow);
            let held = committed(cluster.replicas@[leader]);
            let own = forall|i: int| 0 <= i < path.len() ==> owned_name(#[trigger] path[i]);
            &&& shadow.streams.contains(path) <==> own && held.streams.contains(path)
            &&& shadow.topics.contains(path) <==> own && held.topics.contains(path)
            &&& shadow.users.contains(path) <==> own && held.users.contains(path)
            &&& shadow.consumer_groups.contains(path) <==> own && held.consumer_groups.contains(
                path,
            )
        }),
{
    let leader = choose|leader: int| #[trigger]
        first_leader(cluster, leader) && shadow_matches(cluster, workload.shadow, leader);
    assert(serves_metadata(cluster, leader));
    filtering_keeps_own_paths(committed(cluster.replicas@[leader]), path);
    leader
}

/// A cluster that follows one history, in which no live replica is ahead of a
/// primary, has converged; on a serial run that takes the first live, `Normal`
/// primary to hold what was predicted, and nothing else of the workload's.
pub proof fn healthy_clusters_converge(
    cluster: ClusterReading,
    workload: WorkloadView,
    history: spec_fn(u64) -> u128,
    live: int,
    leader: int,
)
    requires
        0 <= live < cluster.replicas@.len(),
        !cluster.replicas@[live].crashed,
        forall|replica: int, op: u64|
            (#[trigger] committed_header(cluster, replica, op)) is Some ==> committed_header(
                cluster,
                replica,
                op,
            )->0.checksum == history(op),
        forall|i: int, r: int|
            0 <= i < workload.options.namespaces@.len() ==> !#[trigger] ahead(
                cluster,
                workload.options.namespaces@[i],
                r,
            ),
        workload.strict ==> {
            &&& 0 <= leader < cluster.replicas@.len()
            &&& !cluster.replicas@[leader].crashed
            &&& cluster.replicas@[leader].metadata is Some
            &&& cluster.replicas@[leader].metadata->0.is_primary
            &&& cluster.replicas@[leader].metadata->0.status == Status::Normal
            &&& forall|r: int|
                0 <= r < leader ==> (#[trigger] cluster.replicas@[r]).crashed
                    || cluster.replicas@[r].metadata is None
                    || !cluster.replicas@[r].metadata->0.is_primary
                    || cluster.replicas@[r].metadata->0.status != Status::Normal
            &&& predicted(workload.shadow) == committed(cluster.replicas@[leader]).owned()
        },
    ensures
        converged(cluster, workload),
{
    assert(cluster.live(live));
    replicas_of_one_history_agree(cluster, history);
    if workload.strict {
        assert(serves_metadata(cluster, leader));
        assert forall|r: int| r < leader implies !#[trigger] serves_metadata(cluster, r) by {
            if serves_metadata(cluster, r) {
                assert(!cluster.replicas@[r].crashed);
            }
        }
        assert(first_leader(cluster, leader));
    }
}

/// On a run that is not serial, convergence says nothing of the prediction.
pub proof fn concurrent_runs_ignore_the_prediction(
    cluster: ClusterReading,
    left: WorkloadView,
    right: WorkloadView,
)
    requires
        !left.strict,
        !right.strict,
        left.options.namespaces@ == right.options.namespaces@,
    ensures
        converged(cluster, left) == converged(cluster, right),
{
}

/// A reported replica is ahead: it is live, and its committed ops, the leader and
/// the leader's committed ops are as named, in a tracked namespace.
pub proof fn reported_replicas_are_ahead(
    cluster: ClusterReading,
    workload: WorkloadView,
    found: AheadOfLeader,
    earlier: int,
)
    requires
        ConvergenceFault::Ahead(found).found_in(cluster, workload),
    ensures
        workload.options.namespaces@.contains(found.ns),
        cluster.live(found.replica as int),
        cluster.replicas@[found.replica as int].group(found.ns) is Some,
        cluster.replicas@[found.replica as int].group(found.ns)->0.commit_min == found.committed,
        cluster.primary(found.ns) == Some(found.leader),
        found.leader < cluster.replicas@.len(),
        cluster.replicas@[found.leader as int].group(found.ns) is Some,
        cluster.replicas@[found.leader as int].group(found.ns)->0.commit_min
            == found.leader_committed,
        found.committed > found.leader_committed,
        0 <= earlier < found.replica && !cluster.replicas@[earlier].crashed
            && cluster.replicas@[earlier].group(found.ns) is Some ==> cluster.replicas@[earlier].group(
            found.ns,
        )->0.commit_min <= found.leader_committed,
{
    assert(0 <= earlier < found.replica ==> !ahead(cluster, found.ns, earlier));
}

/// A missing leader is reported only on a serial run, and only where no live replica
/// is a `Normal` primary of the metadata plane.
pub proof fn missing_leaders_are_missing(
    cluster: ClusterReading,
    workload: WorkloadView,
    replica: int,
)
    requires
        ConvergenceFault::NoMetadataLeader.found_in(cluster, workload),
        0 <= replica < cluster.replicas@.len(),
    ensures
        workload.strict,
        cluster.replicas@[replica].crashed || cluster.replicas@[replica].metadata is None
            || !cluster.replicas@[replica].metadata->0.is_primary
            || cluster.replicas@[replica].metadata->0.status != Status::Normal,
{
    assert(!serves_metadata(cluster, replica));
}

/// One side holds the path and the other does not.
pub open spec fn differ_at(
    left: MetadataView,
    right: MetadataView,
    path: Seq<Seq<char>>,
) -> bool {
    ||| left.streams.contains(path) != right.streams.contains(path)
    ||| left.topics.contains(path) != right.topics.contains(path)
    ||| left.users.contains(path) != right.users.contains(path)
    ||| left.consumer_groups.contains(path) != right.consumer_groups.contains(path)
}

/// A diverged shadow is reported only on a serial run, against a live, `Normal`
/// primary, and only where some path is predicted and not held, or held, the
/// workload's and not predicted.
pub proof fn reported_shadows_differ(
    cluster: ClusterReading,
    workload: WorkloadView,
    leader: usize,
)
    requires
        (ConvergenceFault::ShadowDiverged { leader }).found_in(cluster, workload),
    ensures
        workload.strict,
        cluster.live(leader as int),
        cluster.replicas@[leader as int].metadata is Some,
        cluster.replicas@[leader as int].metadata->0.is_primary,
        cluster.replicas@[leader as int].metadata->0.status == Status::Normal,
        exists|path: Seq<Seq<char>>| #[trigger]
            differ_at(
                predicted(workload.shadow),
                committed(cluster.replicas@[leader as int]).owned(),
                path,
            ),
{
    let shadow = predicted(workload.shadow);
    let held = committed(cluster.replicas@[leader as int]).owned();
    assert(serves_metadata(cluster, leader as int));
    if forall|path: Seq<Seq<char>>| !#[trigger] differ_at(shadow, held, path) {
        assert forall|path: Seq<Seq<char>>| shadow.streams.contains(path) == held.streams.contains(
            path,
        ) by {
            assert(!differ_at(shadow, held, path));
        }
        assert forall|path: Seq<Seq<char>>| shadow.topics.contains(path) == held.topics.contains(
            path,
        ) by {
            assert(!differ_at(shadow, held, path));
        }
        assert forall|path: Seq<Seq<char>>| shadow.users.contains(path) == held.users.contains(
            path,
        ) by {
            assert(!differ_at(shadow, held, path));
        }
        assert forall|path: Seq<Seq<char>>|
            shadow.consumer_groups.contains(path) == held.consumer_groups.contains(path) by {
            assert(!differ_at(shadow, held, path));
        }
        assert(shadow =~= held);
    }
}

/// A cluster shows at most one fault: the one looked for first.
pub proof fn faults_exclude_each_other(
    cluster: ClusterReading,
    workload: WorkloadView,
    left: ConvergenceFault,
    right: ConvergenceFault,
)
    requires
        left.found_in(cluster, workload),
        right.found_in(cluster, workload),
    ensures
        left == right,
{
    let namespaces = workload.options.namespaces@;
    fault_ranks(cluster, workload, left);
    fault_ranks(cluster, workload, right);
    match (left, right) {
        (ConvergenceFault::PrefixesDisagree(one), ConvergenceFault::PrefixesDisagree(other)) => {
            first_disagreement_is_unique(cluster, one, other);
        },
        (ConvergenceFault::Ahead(one), ConvergenceFault::Ahead(other)) => {
            let i = choose|i: int|
                0 <= i < namespaces.len() && #[trigger] namespaces[i] == one.ns && none_ahead(
                    cluster,
                    namespaces,
                    i,
                );
            let j = choose|j: int|
                0 <= j < namespaces.len() && #[trigger] namespaces[j] == other.ns && none_ahead(
                    cluster,
                    namespaces,
                    j,
                );
            assert(ahead(cluster, namespaces[i], one.replica as int));
            assert(ahead(cluster, namespaces[j], other.replica as int));
        },
        (
            ConvergenceFault::ShadowDiverged { leader: one },
            ConvergenceFault::ShadowDiverged { leader: other },
        ) => {
            assert(serves_metadata(cluster, one as int));
            assert(serves_metadata(cluster, other as int));
        },
        _ => {},
    }
}

proof fn fault_ranks(cluster: ClusterReading, workload: WorkloadView, fault: ConvergenceFault)
    requires
        fault.found_in(cluster, workload),
    ensures
        ({
            let namespaces = workload.options.namespaces@;
            let some_live = exists|r: int| #[trigger] cluster.live(r);
            let level = none_ahead(cluster, namespaces, namespaces.len() as int);
            let led = exists|r: int| #[trigger] serves_metadata(cluster, r);
            match fault {
                ConvergenceFault::NoLiveReplica => !some_live,
                ConvergenceFault::PrefixesDisagree(_) => some_live && !prefixes_agree(cluster),
                ConvergenceFault::Ahead(_) => some_live && prefixes_agree(cluster) && !level,
                ConvergenceFault::NoMetadataLeader => some_live && prefixes_agree(cluster) && level
                    && !led,
                ConvergenceFault::ShadowDiverged { .. } => some_live && prefixes_agree(cluster)
                    && level && led,
            }
        }),
{
    let namespaces = workload.options.namespaces@;
    match fault {
        ConvergenceFault::PrefixesDisagree(found) => {
            reported_disagreements_are_first(cluster, found, found.owner as int, 0);
        },
        ConvergenceFault::Ahead(found) => {
            let i = choose|i: int|
                0 <= i < namespaces.len() && #[trigger] namespaces[i] == found.ns && none_ahead(
                    cluster,
                    namespaces,
                    i,
                );
            assert(ahead(cluster, namespaces[i], found.replica as int));
        },
        ConvergenceFault::ShadowDiverged { leader } => {
            assert(serves_metadata(cluster, leader as int));
        },
        _ => {},
    }
}

/// The report of a fault names the seed and what was found: for a replica ahead both
/// replicas, what each committed and the namespace; for a diverged shadow the
/// leader.
pub proof fn fault_reports_name_everything(found: AheadOfLeader, leader: usize, seed: u64)
    ensures
        ({
            let ahead = ConvergenceFault::Ahead(found).report(seed);
            let shadow = (ConvergenceFault::ShadowDiverged { leader }).report(seed);
            &&& mentions(ahead, decimal(found.replica as nat))
            &&& mentions(ahead, decimal(found.committed as nat))
            &&& mentions(ahead, decimal(found.leader as nat))
            &&& mentions(ahead, decimal(found.leader_committed as nat))
            &&& mentions(ahead, found.ns.label())
            &&& mentions(ahead, seed_note(seed))
            &&& mentions(shadow, decimal(leader as nat))
            &&& mentions(shadow, hexadecimal(seed as nat))
            &&& mentions(ConvergenceFault::NoLiveReplica.report(seed), seed_note(seed))
            &&& mentions(ConvergenceFault::NoMetadataLeader.report(seed), seed_note(seed))
        }),
{
    broadcast use {text_mentions_itself, halves_are_mentioned};

}

/// A disagreement at rest is reported as such, a diverged shadow with both sides in
/// full, every other fault by its message.
pub proof fn failures_show_both_sides(
    cluster: ClusterReading,
    workload: WorkloadView,
    fault: ConvergenceFault,
    found: PrefixDisagreement,
)
    ensures
        ConvergenceFault::PrefixesDisagree(found).report(workload.options.seed) == found.report(
            workload.options.seed,
        ),
        fault.report(workload.options.seed).is_prefix_of(
            convergence_failure(fault, cluster, workload),
        ),
        !(fault is ShadowDiverged) ==> convergence_failure(fault, cluster, workload)
            == fault.report(workload.options.seed),
        fault matches ConvergenceFault::ShadowDiverged { leader } ==> {
            let sides = convergence_failure(fault, cluster, workload);
            &&& mentions(sides, metadata_text(predicted(workload.shadow)))
            &&& mentions(
                sides,
                metadata_text(committed(cluster.replicas@[leader as int]).owned()),
            )
        },
{
    broadcast use {text_mentions_itself, halves_are_mentioned};

    let text = convergence_failure(fault, cluster, workload);
    let message = fault.report(workload.options.seed);
    assert(message =~= text.subrange(0, message.len() as int));
}

/// A rendering of entity sets shows all four of them.
pub proof fn renderings_show_all_four_sets(metadata: MetadataView)
    ensures
        mentions(metadata_text(metadata), set_text(metadata.streams)),
        mentions(metadata_text(metadata), set_text(metadata.topics)),
        mentions(metadata_text(metadata), set_text(metadata.users)),
        mentions(metadata_text(metadata), set_text(metadata.consumer_groups)),
{
    broadcast use {text_mentions_itself, halves_are_mentioned};

}

/// A shadow in which nothing exists predicts nothing.
pub proof fn blank_shadows_predict_nothing(shadow: Shadow, path: Seq<Seq<char>>)
    requires
        shadow.is_blank(),
    ensures
        !predicted(shadow).streams.contains(path),
        !predicted(shadow).topics.contains(path),
        !predicted(shadow).users.contains(path),
        !predicted(shadow).consumer_groups.contains(path),
{
    predictions_are_the_listed_names(shadow, 0, path);
}

} // verus!
