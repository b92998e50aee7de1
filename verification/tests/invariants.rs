use workload::cluster::{
    ClusterReading, IggyNamespace, JournalWindow, MetadataConsensus, PartitionReading,
    PrepareHeader, ReplicaReading, Status,
};
use workload::invariants::{assert_no_regression, InvariantFault, Invariants, Metric};
use workload::options::WorkloadOptions;
use workload::retry::RequestMessage;
use workload::state_checker::StateChecker;
use workload::workload::{RequestPlan, SampledRequest, Workload};
use workload::action::Action;

fn ns() -> IggyNamespace {
    IggyNamespace::new(1, 1, 0)
}

fn demand(result: Result<(), String>) {
    if let Err(report) = result {
        panic!("{report}");
    }
}

fn replica(offset: u64, view: u64) -> ReplicaReading {
    ReplicaReading {
        crashed: false,
        metadata: None,
        journal: JournalWindow {
            first_op: 1,
            headers: Vec::new(),
        },
        partitions: vec![PartitionReading {
            ns: ns(),
            commit_offset: Some(offset),
            view: Some(view),
            consensus: None,
        }],
        clients: Vec::new(),
        streams: Vec::new(),
        users: Vec::new(),
    }
}

fn cluster(replicas: Vec<ReplicaReading>) -> ClusterReading {
    ClusterReading {
        replicas,
        primaries: Vec::new(),
    }
}

fn workload() -> Workload {
    Workload::new(WorkloadOptions::new(0x00C0_FFEE, 3, vec![ns()]))
}

#[test]
fn assert_no_regression_allows_forward_and_equal() {
    demand(assert_no_regression(0x00C0_FFEE, "commit_offset", 0, ns(), 5, 5));
    demand(assert_no_regression(0x00C0_FFEE, "commit_offset", 0, ns(), 5, 9));
}

#[test]
#[should_panic(expected = "commit_offset regressed")]
fn assert_no_regression_rejects_backward() {
    demand(assert_no_regression(0xDEAD_BEEF, "commit_offset", 0, ns(), 10, 5));
}

#[test]
fn regression_report_names_everything() {
    let report = assert_no_regression(0xDEAD_BEEF, "commit_offset", 2, ns(), 10, 5);
    assert_eq!(
        report.unwrap_err(),
        "commit_offset regressed on replica 2 ns IggyNamespace { stream_id: 1, topic_id: 1, \
         partition_id: 0 }: 10 -> 5 (seed=0xdeadbeef)"
    );
}

#[test]
fn growing_metrics_pass_and_are_tracked() {
    let mut invariants = Invariants::new();
    let workload = workload();
    assert_eq!(invariants.tracked_pairs(), 0);
    assert!(invariants
        .check(&cluster(vec![replica(3, 0), replica(2, 0)]), &workload)
        .is_ok());
    assert!(invariants
        .check(&cluster(vec![replica(3, 1), replica(7, 0)]), &workload)
        .is_ok());
    assert_eq!(invariants.tracked_pairs(), 2);
    assert_eq!(invariants.state_checker().chain_len(), 0);
}

#[test]
fn falling_offset_is_reported() {
    let mut invariants = Invariants::new();
    let workload = workload();
    assert!(invariants
        .check(&cluster(vec![replica(3, 0), replica(9, 2)]), &workload)
        .is_ok());
    let fault = invariants
        .check(&cluster(vec![replica(4, 0), replica(8, 2)]), &workload)
        .unwrap_err();
    assert!(matches!(
        fault,
        InvariantFault::Regression {
            metric: Metric::CommitOffset,
            replica: 1,
            prev: 9,
            cur: 8,
            ..
        }
    ));
    assert!(fault
        .message(0x00C0_FFEE)
        .starts_with("commit_offset regressed on replica 1 ns "));
}

#[test]
fn falling_view_is_reported() {
    let mut invariants = Invariants::new();
    let workload = workload();
    assert!(invariants
        .check(&cluster(vec![replica(3, 2)]), &workload)
        .is_ok());
    let fault = invariants
        .check(&cluster(vec![replica(3, 1)]), &workload)
        .unwrap_err();
    assert!(fault
        .message(1)
        .starts_with("consensus view regressed on replica 0 ns "));
    assert!(fault.message(1).ends_with(": 2 -> 1 (seed=0x1)"));
}

#[test]
fn crashed_replica_is_skipped_and_its_marks_kept() {
    let mut invariants = Invariants::new();
    let workload = workload();
    assert!(invariants
        .check(&cluster(vec![replica(5, 0)]), &workload)
        .is_ok());
    let mut down = replica(0, 0);
    down.crashed = true;
    assert!(invariants.check(&cluster(vec![down]), &workload).is_ok());
    assert_eq!(invariants.tracked_pairs(), 1);
    assert!(invariants
        .check(&cluster(vec![replica(4, 0)]), &workload)
        .is_err());
}

#[test]
fn unhosted_namespace_is_not_tracked() {
    let mut invariants = Invariants::new();
    let mut bare = replica(5, 0);
    bare.partitions = Vec::new();
    assert!(invariants.check(&cluster(vec![bare]), &workload()).is_ok());
    assert_eq!(invariants.tracked_pairs(), 0);
}

#[test]
fn too_many_requests_in_flight_are_reported() {
    let mut options = WorkloadOptions::new(0xAB, 3, vec![ns()]);
    options.client_count = 1;
    let mut workload = Workload::new(options);
    for client in [1u128, 2] {
        let plan = RequestPlan {
            action: Action::SendMessages,
            target: 0,
            outcome_id: 0,
        };
        let generator = workload.generator_state();
        let sampled = SampledRequest {
            message: RequestMessage {
                client,
                request: 1,
                group: 5,
                bytes: vec![1, 2],
            },
            outcome: 0,
        };
        assert!(workload
            .build_request(client, plan, generator, Some(sampled))
            .is_some());
    }
    let mut invariants = Invariants::new();
    let fault = invariants
        .check(&cluster(vec![replica(0, 0)]), &workload)
        .unwrap_err();
    assert_eq!(
        fault.message(0xAB),
        "in-flight requests 2 exceed bound 1 (client_count=1, queue_max=1) (seed=0xab)"
    );
}

#[test]
fn divergence_is_reported_through_the_invariants() {
    let journaled = |checksum: u128| {
        let mut reading = replica(0, 0);
        reading.metadata = Some(MetadataConsensus {
            status: Status::Normal,
            view: 0,
            log_view: 0,
            commit_min: 1,
            is_primary: false,
        });
        reading.journal.headers = vec![Some(PrepareHeader {
            checksum,
            parent: 0,
        })];
        reading
    };
    let mut invariants = Invariants::new();
    let fault = invariants
        .check(&cluster(vec![journaled(7), journaled(8)]), &workload())
        .unwrap_err();
    assert_eq!(
        fault.message(2),
        "replicas disagree on committed op 1: canonical checksum 0x7 (committed by {0}) vs \
         replica 1's 0x8. Two replicas committed different history at the same log position \
         (seed=0x2)"
    );
    assert_eq!(invariants.state_checker().chain_len(), 1);
}

#[test]
fn default_checks_have_seen_nothing() {
    let invariants = Invariants::default();
    assert_eq!(invariants.tracked_pairs(), 0);
    assert_eq!(invariants.state_checker().chain_len(), 0);
    assert_eq!(StateChecker::default().ops_compared(), 0);
}
