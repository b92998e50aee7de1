use std::collections::BTreeSet;
use workload::action::Action;
use workload::cluster::{
    ClientEntry, ClusterReading, IggyNamespace, JournalWindow, MetadataConsensus,
    PartitionConsensus, PartitionReading, PrepareHeader, ReplicaReading, Status, StreamRecord,
    TopicRecord,
};
use workload::names::{is_workload_name, NameSet};
use workload::options::WorkloadOptions;
use workload::oracle::{
    assert_converged, convergence_failure_report, metadata_leader, metadata_view_is_settled,
    partition_view_is_settled, read_committed_metadata, shadow_divergence_report, shadow_metadata,
    views_are_settled, ConvergenceFault,
};
use workload::report::quiesce_failure_report;
use workload::retry::RequestMessage;
use workload::shadow::Shadow;
use workload::workload::{RequestPlan, SampledRequest, Workload};

fn ns() -> IggyNamespace {
    IggyNamespace::new(1, 1, 0)
}

fn metadata(status: Status, view: u64, is_primary: bool) -> Option<MetadataConsensus> {
    Some(MetadataConsensus {
        status,
        view,
        log_view: view,
        commit_min: 1,
        is_primary,
    })
}

fn group(status: Status, view: u64, commit_min: u64, is_primary: bool) -> PartitionReading {
    PartitionReading {
        ns: ns(),
        commit_offset: Some(commit_min + 3),
        view: Some(view),
        consensus: Some(PartitionConsensus {
            status,
            view,
            commit_min,
            is_primary,
        }),
    }
}

fn replica(is_primary: bool, commit_min: u64) -> ReplicaReading {
    ReplicaReading {
        crashed: false,
        metadata: metadata(Status::Normal, 4, is_primary),
        journal: JournalWindow {
            first_op: 1,
            headers: vec![Some(PrepareHeader {
                checksum: 7,
                parent: 0,
            })],
        },
        partitions: vec![group(Status::Normal, 2, commit_min, is_primary)],
        clients: Vec::new(),
        streams: Vec::new(),
        users: Vec::new(),
    }
}

fn cluster(replicas: Vec<ReplicaReading>) -> ClusterReading {
    ClusterReading {
        replicas,
        primaries: vec![(ns(), 0)],
    }
}

fn settled_cluster() -> ClusterReading {
    cluster(vec![replica(true, 9), replica(false, 9), replica(false, 5)])
}

fn workload(clients: u8) -> Workload {
    let mut options = WorkloadOptions::new(0x5EED, 3, vec![ns()]);
    options.client_count = clients;
    Workload::new(options)
}

fn text(value: &str) -> String {
    value.to_string()
}

fn path(names: &[&str]) -> Vec<String> {
    names.iter().map(|name| text(name)).collect()
}

fn entities() -> (Vec<StreamRecord>, Vec<String>) {
    let streams = vec![
        StreamRecord {
            name: text("wl-stream"),
            topics: vec![
                TopicRecord {
                    name: text("wl-topic"),
                    consumer_groups: vec![text("wl-group"), text("other")],
                },
                TopicRecord {
                    name: text("sim-topic-1"),
                    consumer_groups: vec![text("wl-inside")],
                },
            ],
        },
        StreamRecord {
            name: text("genesis"),
            topics: vec![TopicRecord {
                name: text("wl-hidden"),
                consumer_groups: Vec::new(),
            }],
        },
    ];
    (streams, vec![text("root"), text("wl-user")])
}

fn matching_shadow() -> Shadow {
    let mut shadow = Shadow::new();
    shadow.stream_names.push(text("wl-stream"));
    shadow.topic_names.push((text("wl-stream"), text("wl-topic")));
    shadow
        .consumer_group_names
        .push((text("wl-stream"), text("wl-topic"), text("wl-group")));
    shadow.user_names.push(text("wl-user"));
    shadow
}

#[test]
fn workload_names_carry_the_prefix() {
    assert!(is_workload_name("wl-"));
    assert!(is_workload_name("wl-stream-1"));
    assert!(!is_workload_name("wl"));
    assert!(!is_workload_name(""));
    assert!(!is_workload_name("sim-wl-topic"));
    assert!(!is_workload_name("wx-topic"));
}

#[test]
fn name_sets_compare_by_content() {
    let mut left = NameSet::new();
    let mut right = NameSet::new();
    left.insert(path(&["a", "b"]));
    left.insert(path(&["c"]));
    left.insert(path(&["c"]));
    right.insert(path(&["c"]));
    assert!(!left.same(&right));
    right.insert(path(&["a", "b"]));
    assert!(left.same(&right));
    assert!(left.contains(&path(&["a", "b"])));
    assert!(!left.contains(&path(&["a"])));
    assert!(!left.contains(&path(&["b", "a"])));
}

#[test]
fn every_level_is_filtered_on_its_own_name() {
    let mut reading = replica(true, 0);
    let (streams, users) = entities();
    reading.streams = streams;
    reading.users = users;
    let committed = read_committed_metadata(&reading);
    assert!(committed.streams.contains(&path(&["genesis"])));
    assert!(committed.topics.contains(&path(&["wl-stream", "sim-topic-1"])));
    assert!(committed
        .consumer_groups
        .contains(&path(&["wl-stream", "sim-topic-1", "wl-inside"])));
    let owned = committed.workload_owned();
    assert!(!owned.streams.contains(&path(&["genesis"])));
    assert!(!owned.topics.contains(&path(&["wl-stream", "sim-topic-1"])));
    assert!(!owned.topics.contains(&path(&["genesis", "wl-hidden"])));
    assert!(!owned
        .consumer_groups
        .contains(&path(&["wl-stream", "wl-topic", "other"])));
    assert!(!owned.users.contains(&path(&["root"])));
    assert!(owned.same(&shadow_metadata(&matching_shadow())));
    assert!(owned.workload_owned().same(&owned));
}

#[test]
fn settled_metadata_plane_has_one_primary_and_one_view() {
    let mut reading = settled_cluster();
    assert!(metadata_view_is_settled(&reading));
    reading.replicas[1].metadata = metadata(Status::ViewChange, 4, false);
    assert!(!metadata_view_is_settled(&reading));
    reading.replicas[1].metadata = metadata(Status::Normal, 5, false);
    assert!(!metadata_view_is_settled(&reading));
    reading.replicas[1].metadata = metadata(Status::Normal, 4, true);
    assert!(!metadata_view_is_settled(&reading));
    reading.replicas[1].crashed = true;
    assert!(metadata_view_is_settled(&reading));
    reading.replicas[0].crashed = true;
    assert!(!metadata_view_is_settled(&reading));
    reading.replicas[2].metadata = None;
    assert!(!metadata_view_is_settled(&reading));
}

#[test]
fn settled_partition_group_may_have_no_host() {
    let mut reading = settled_cluster();
    assert!(partition_view_is_settled(&reading, ns()));
    assert!(partition_view_is_settled(&reading, IggyNamespace::new(9, 9, 9)));
    reading.replicas[2].partitions = vec![group(Status::Recovering, 2, 5, false)];
    assert!(!partition_view_is_settled(&reading, ns()));
    reading.replicas[2].partitions = Vec::new();
    assert!(partition_view_is_settled(&reading, ns()));
    reading.replicas[1].partitions = vec![group(Status::Normal, 3, 9, false)];
    assert!(!partition_view_is_settled(&reading, ns()));
    assert!(!views_are_settled(&reading, &[ns()]));
    assert!(views_are_settled(&reading, &[]));
}

#[test]
fn metadata_leader_is_the_first_established_primary() {
    let mut reading = settled_cluster();
    assert_eq!(metadata_leader(&reading), Some(0));
    reading.replicas[0].metadata = metadata(Status::Recovering, 4, true);
    assert_eq!(metadata_leader(&reading), None);
    reading.replicas[2].metadata = metadata(Status::Normal, 4, true);
    assert_eq!(metadata_leader(&reading), Some(2));
}

#[test]
fn settled_cluster_converges() {
    assert!(assert_converged(&settled_cluster(), &workload(2)).is_ok());
    assert!(assert_converged(&settled_cluster(), &workload(1)).is_ok());
}

#[test]
fn dead_cluster_does_not_converge() {
    let mut reading = settled_cluster();
    for replica in &mut reading.replicas {
        replica.crashed = true;
    }
    let fault = assert_converged(&reading, &workload(1)).unwrap_err();
    assert_eq!(
        fault.message(0x5EED),
        "no live replicas at quiesce (seed=0x5eed)"
    );
}

#[test]
fn disagreement_is_looked_for_first() {
    let mut reading = settled_cluster();
    reading.replicas[1] = replica(false, 50);
    reading.replicas[1].journal.headers = vec![Some(PrepareHeader {
        checksum: 8,
        parent: 0,
    })];
    let fault = assert_converged(&reading, &workload(1)).unwrap_err();
    assert!(matches!(fault, ConvergenceFault::PrefixesDisagree(_)));
    assert_eq!(
        fault.message(1),
        "at quiesce replica 1 and replica 0 disagree on committed metadata op 1: 0x8 vs 0x7 \
         (seed=0x1)"
    );
}

#[test]
fn replica_ahead_of_its_leader_is_reported() {
    let mut reading = settled_cluster();
    reading.replicas[2] = replica(false, 10);
    let fault = assert_converged(&reading, &workload(2)).unwrap_err();
    assert_eq!(
        fault.message(0x5EED),
        "replica 2 committed 10 ops exceeds leader 0 (9) on ns IggyNamespace { stream_id: 1, \
         topic_id: 1, partition_id: 0 } at quiesce (seed=0x5eed)"
    );
    reading.primaries = Vec::new();
    assert!(assert_converged(&reading, &workload(2)).is_ok());
}

#[test]
fn serial_run_needs_a_metadata_leader() {
    let mut reading = settled_cluster();
    reading.replicas[0].metadata = metadata(Status::Normal, 4, false);
    assert!(assert_converged(&reading, &workload(2)).is_ok());
    let fault = assert_converged(&reading, &workload(1)).unwrap_err();
    assert_eq!(
        fault.message(2),
        "no metadata leader live at quiesce (seed=0x2)"
    );
}

#[test]
fn serial_run_compares_shadow_and_leader() {
    let mut reading = settled_cluster();
    let (streams, users) = entities();
    reading.replicas[0].streams = streams;
    reading.replicas[0].users = users;
    let mut serial = workload(1);
    let fault = assert_converged(&reading, &serial).unwrap_err();
    assert_eq!(fault, ConvergenceFault::ShadowDiverged { leader: 0 });
    assert_eq!(
        fault.message(3),
        "shadow diverged from leader-committed metadata at quiesce (leader=0, seed=0x3)"
    );
    assert_eq!(
        convergence_failure_report(&fault, &reading, &serial),
        "shadow diverged from leader-committed metadata at quiesce (leader=0, seed=0x5eed)\n\
         \x20 left: CommittedMetadata { streams: {}, topics: {}, users: {}, consumer_groups: {} \
         }\n right: CommittedMetadata { streams: {\"wl-stream\"}, topics: {(\"wl-stream\", \
         \"wl-topic\")}, users: {\"wl-user\"}, consumer_groups: {(\"wl-stream\", \"wl-topic\", \
         \"wl-group\")} }"
    );
    serial.set_shadow(matching_shadow());
    assert!(assert_converged(&reading, &serial).is_ok());
}

#[test]
fn failure_report_lists_requests_replicas_and_clients() {
    let mut workload = workload(1);
    let generator = workload.generator_state();
    let plan = RequestPlan {
        action: Action::CreateTopic,
        target: 1,
        outcome_id: 0,
    };
    let sampled = SampledRequest {
        message: RequestMessage {
            client: 7,
            request: 3,
            group: 0,
            bytes: Vec::new(),
        },
        outcome: 0,
    };
    assert!(workload
        .build_request(7, plan, generator, Some(sampled))
        .is_some());
    let mut reading = cluster(vec![replica(true, 9), replica(false, 5)]);
    reading.replicas[1].crashed = true;
    reading.replicas[0].clients = vec![ClientEntry {
        client: 7,
        watermark: Some(2),
        epoch: Some(1),
        cached_reply_request: None,
    }];
    assert_eq!(
        quiesce_failure_report(&reading, &workload),
        "did not drain: 1 request(s) still outstanding (seed=0x5eed)\n\
         \x20 outstanding client=7 request=3 action=Some(CreateTopic) last_target=replica 1 \
         attempts=1\n\
         \x20 resends issued: 0\n\
         \x20 replica 0: live | metadata status=Normal view=4 log_view=4 commit=1 primary=true | \
         ns IggyNamespace { stream_id: 1, topic_id: 1, partition_id: 0 } view=Some(2) \
         commit_offset=Some(12) primary=Some(0)\n\
         \x20   client 7: watermark=Some(2) epoch=Some(1) cached_reply_request=None\n\
         \x20 replica 1: CRASHED\n"
    );
}

#[test]
fn divergence_report_renders_both_sides_in_order() {
    let mut shadow = Shadow::new();
    for name in ["wl-b", "wl-\u{e9}", "wl-a\"q\\\n", "wl-", "wl-a", "wl-B"] {
        shadow.stream_names.push(text(name));
        shadow.user_names.push(text(name));
    }
    shadow.topic_names.push((text("wl-b"), text("wl-a")));
    shadow.topic_names.push((text("wl-a"), text("wl-c")));
    shadow.topic_names.push((text("wl-a"), text("wl-b")));
    shadow
        .consumer_group_names
        .push((text("s"), text("t"), text("g")));
    let streams: BTreeSet<String> = shadow.stream_names.iter().cloned().collect();
    let topics: BTreeSet<(String, String)> = shadow.topic_names.iter().cloned().collect();
    let users: BTreeSet<String> = shadow.user_names.iter().cloned().collect();
    let groups: BTreeSet<(String, String, String)> =
        shadow.consumer_group_names.iter().cloned().collect();
    let left = shadow_metadata(&shadow);
    let right = shadow_metadata(&Shadow::new());
    assert_eq!(
        shadow_divergence_report(2, 0x1F, &left, &right),
        format!(
            "shadow diverged from leader-committed metadata at quiesce (leader=2, seed=0x1f)\n\
             \x20 left: CommittedMetadata {{ streams: {streams:?}, topics: {topics:?}, users: \
             {users:?}, consumer_groups: {groups:?} }}\n\
             \x20right: CommittedMetadata {{ streams: {{}}, topics: {{}}, users: {{}}, \
             consumer_groups: {{}} }}"
        )
    );
}

#[test]
fn other_faults_are_reported_by_their_message() {
    let mut reading = settled_cluster();
    reading.replicas[0].metadata = metadata(Status::Normal, 4, false);
    let serial = workload(1);
    let fault = assert_converged(&reading, &serial).unwrap_err();
    assert_eq!(
        convergence_failure_report(&fault, &reading, &serial),
        fault.message(0x5EED)
    );
}
