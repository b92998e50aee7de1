use workload::cluster::{
    ClusterReading, JournalWindow, MetadataConsensus, PrepareHeader, ReplicaReading, Status,
};
use workload::state_checker::{assert_committed_prefixes_agree, Divergence, StateChecker};

fn replica(commit_min: u64, headers: &[(u128, u128)]) -> ReplicaReading {
    ReplicaReading {
        crashed: false,
        metadata: Some(MetadataConsensus {
            status: Status::Normal,
            view: 0,
            log_view: 0,
            commit_min,
            is_primary: false,
        }),
        journal: JournalWindow {
            first_op: 1,
            headers: headers
                .iter()
                .map(|&(checksum, parent)| Some(PrepareHeader { checksum, parent }))
                .collect(),
        },
        partitions: Vec::new(),
        clients: Vec::new(),
        streams: Vec::new(),
        users: Vec::new(),
    }
}

fn cluster(replicas: Vec<ReplicaReading>) -> ClusterReading {
    ClusterReading {
        replicas,
        primaries: Vec::new(),
    }
}

const CHAIN: [(u128, u128); 3] = [(10, 0), (20, 10), (30, 20)];

#[test]
fn fresh_checker_is_empty() {
    let checker = StateChecker::new();
    assert_eq!(checker.chain_len(), 0);
    assert_eq!(checker.ops_compared(), 0);
    assert_eq!(checker.verified_upto(0), 0);
}

#[test]
fn agreeing_replicas_extend_one_chain() {
    let mut checker = StateChecker::new();
    let reading = cluster(vec![replica(3, &CHAIN), replica(2, &CHAIN), replica(0, &CHAIN)]);
    assert!(checker.check(&reading).is_ok());
    assert_eq!(checker.chain_len(), 3);
    assert_eq!(checker.ops_compared(), 2);
    assert_eq!(checker.verified_upto(0), 3);
    assert_eq!(checker.verified_upto(1), 2);
    assert_eq!(checker.verified_upto(2), 0);
}

#[test]
fn uncommitted_tails_may_differ() {
    let mut checker = StateChecker::new();
    let other = [(10, 0), (21, 10), (31, 21)];
    let reading = cluster(vec![replica(1, &CHAIN), replica(1, &other)]);
    assert!(checker.check(&reading).is_ok());
    assert_eq!(checker.chain_len(), 1);
    assert_eq!(checker.ops_compared(), 1);
}

#[test]
fn disagreement_is_reported_with_its_witnesses() {
    let mut checker = StateChecker::new();
    let other = [(10, 0), (21, 10)];
    let reading = cluster(vec![
        replica(2, &CHAIN),
        replica(2, &CHAIN),
        replica(2, &other),
    ]);
    let found = checker.check(&reading).unwrap_err();
    assert!(matches!(
        found,
        Divergence::Disagreement {
            replica: 2,
            op: 2,
            checksum: 21,
            canonical: 20,
            ..
        }
    ));
    assert_eq!(
        found.message(0xFF),
        "replicas disagree on committed op 2: canonical checksum 0x14 (committed by {0, 1}) vs \
         replica 2's 0x15. Two replicas committed different history at the same log position \
         (seed=0xff)"
    );
    assert_eq!(checker.verified_upto(0), 0);
}

#[test]
fn broken_link_is_reported_before_the_identity() {
    let mut checker = StateChecker::new();
    let other = [(10, 0), (21, 11)];
    let reading = cluster(vec![replica(2, &CHAIN), replica(2, &other)]);
    let found = checker.check(&reading).unwrap_err();
    assert_eq!(
        found.message(1),
        "replica 1 committed op 2 whose parent 0xb is not the canonical op 1 checksum 0xa: its \
         committed history forked below this op (seed=0x1)"
    );
}

#[test]
fn divergence_across_ticks_is_found() {
    let mut checker = StateChecker::new();
    assert!(checker.check(&cluster(vec![replica(2, &CHAIN), replica(0, &[])])).is_ok());
    let other = [(10, 0), (22, 10)];
    assert!(checker
        .check(&cluster(vec![replica(2, &CHAIN), replica(2, &other)]))
        .is_err());
}

#[test]
fn marks_survive_a_crash_and_a_lower_commit_point() {
    let mut checker = StateChecker::new();
    assert!(checker.check(&cluster(vec![replica(3, &CHAIN)])).is_ok());
    let mut down = replica(3, &CHAIN);
    down.crashed = true;
    assert!(checker.check(&cluster(vec![down])).is_ok());
    assert_eq!(checker.verified_upto(0), 3);
    assert!(checker.check(&cluster(vec![replica(1, &CHAIN)])).is_ok());
    assert_eq!(checker.verified_upto(0), 3);
}

#[test]
fn missing_headers_and_planes_are_skipped() {
    let mut checker = StateChecker::new();
    let mut holed = replica(3, &CHAIN);
    holed.journal.headers[1] = None;
    let mut planeless = replica(3, &CHAIN);
    planeless.metadata = None;
    assert!(checker.check(&cluster(vec![holed, planeless])).is_ok());
    assert_eq!(checker.chain_len(), 2);
    assert_eq!(checker.verified_upto(0), 3);
    assert_eq!(checker.verified_upto(1), 0);
}

#[test]
fn journal_windows_read_by_op() {
    let window = JournalWindow {
        first_op: 5,
        headers: vec![
            None,
            Some(PrepareHeader {
                checksum: 1,
                parent: 2,
            }),
        ],
    };
    assert_eq!(window.journaled_header(4), None);
    assert_eq!(window.journaled_header(5), None);
    assert_eq!(
        window.journaled_header(6),
        Some(PrepareHeader {
            checksum: 1,
            parent: 2
        })
    );
    assert_eq!(window.journaled_header(7), None);
}

#[test]
fn prefixes_of_different_length_agree() {
    let reading = cluster(vec![replica(1, &CHAIN), replica(3, &CHAIN), replica(0, &[])]);
    assert!(assert_committed_prefixes_agree(&reading).is_ok());
}

#[test]
fn differing_prefixes_are_reported() {
    let other = [(10, 0), (20, 10), (31, 20)];
    let reading = cluster(vec![replica(2, &CHAIN), replica(3, &CHAIN), replica(3, &other)]);
    let found = assert_committed_prefixes_agree(&reading).unwrap_err();
    assert_eq!((found.replica, found.owner, found.op), (2, 1, 3));
    assert_eq!(
        found.message(0x10),
        "at quiesce replica 2 and replica 1 disagree on committed metadata op 3: 0x1f vs 0x1e \
         (seed=0x10)"
    );
}

#[test]
fn crashed_replicas_do_not_disagree_at_rest() {
    let mut down = replica(3, &[(99, 0)]);
    down.crashed = true;
    assert!(assert_committed_prefixes_agree(&cluster(vec![replica(3, &CHAIN), down])).is_ok());
}

#[test]
fn second_check_of_an_unchanged_cluster_changes_nothing() {
    let mut checker = StateChecker::new();
    let reading = cluster(vec![replica(3, &CHAIN), replica(2, &CHAIN)]);
    for _ in 0..2 {
        assert!(checker.check(&reading).is_ok());
        assert_eq!((checker.chain_len(), checker.ops_compared()), (3, 2));
        assert_eq!((checker.verified_upto(0), checker.verified_upto(1)), (3, 2));
    }
}

#[test]
fn uncommitted_headers_and_crashed_replicas_have_no_influence() {
    let mut plain = StateChecker::new();
    let mut noisy = StateChecker::new();
    let odd = [(10, 0), (77, 66), (78, 55)];
    let mut down = replica(3, &odd);
    down.crashed = true;
    let mut empty = replica(0, &[]);
    empty.crashed = true;
    let bare = cluster(vec![replica(2, &CHAIN), replica(1, &CHAIN[..1]), empty]);
    let full = cluster(vec![replica(2, &CHAIN), replica(1, &odd), down]);
    assert!(plain.check(&bare).is_ok());
    assert!(noisy.check(&full).is_ok());
    assert_eq!(plain.chain_len(), noisy.chain_len());
    assert_eq!(plain.ops_compared(), noisy.ops_compared());
    for index in 0..3 {
        assert_eq!(plain.verified_upto(index), noisy.verified_upto(index));
    }
    assert!(assert_committed_prefixes_agree(&full).is_ok());
}

#[test]
fn counts_never_fall_over_checks() {
    let mut checker = StateChecker::new();
    assert!(checker
        .check(&cluster(vec![replica(2, &CHAIN), replica(2, &CHAIN)]))
        .is_ok());
    assert_eq!((checker.chain_len(), checker.ops_compared()), (2, 2));
    let forked = [(10, 0), (20, 10), (31, 20)];
    assert!(checker
        .check(&cluster(vec![replica(3, &CHAIN), replica(3, &forked)]))
        .is_err());
    assert_eq!((checker.chain_len(), checker.ops_compared()), (3, 2));
}
