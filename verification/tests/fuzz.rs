use workload::action::{Action, ACTION_COUNT};
use workload::cluster::{ClusterReading, IggyNamespace};
use workload::fuzz::{
    build_cluster, client_ids, print_command_coverage, print_coverage, session_options,
    unsettled_report, AuditStats, SessionKnobs, SetupStep,
};
use workload::network::{
    network_options, Faults, NetworkOverrides, PacketSimulatorOptions, PartitionMode,
    PartitionSymmetry, Probability,
};
use workload::options::{Ratio, WorkloadOptions, RATIO_ONE};
use workload::retry::RequestMessage;
use workload::weights::{ActionWeights, Plane};
use workload::workload::{CommittedEffect, Reply, RequestPlan, SampledRequest, Workload};

fn probability(value: f64) -> Probability {
    Probability {
        bits: value.to_bits(),
    }
}

fn perfect() -> PacketSimulatorOptions {
    PacketSimulatorOptions {
        node_count: 1,
        client_count: 2,
        seed: 3,
        packet_loss_probability: probability(0.0),
        replay_probability: probability(0.0),
        one_way_delay_min: 1,
        one_way_delay_mean: 3,
        link_capacity: 64,
        partition_mode: PartitionMode::Disabled,
        partition_symmetry: PartitionSymmetry::Symmetric,
        partition_probability: probability(0.0),
        unpartition_probability: probability(0.0),
        partition_stability: 0,
        unpartition_stability: 0,
        path_clog_probability: probability(0.0),
        path_clog_duration_mean: 0,
    }
}

fn no_overrides() -> NetworkOverrides {
    NetworkOverrides {
        packet_loss: None,
        replay: None,
        one_way_delay_min: None,
        one_way_delay_mean: None,
        link_capacity: None,
        partition_mode: None,
        partition_symmetry: None,
        partition_prob: None,
        unpartition_prob: None,
        partition_stability: None,
        unpartition_stability: None,
        clog_prob: None,
        clog_duration_mean: None,
    }
}

#[test]
fn perfect_profile_is_the_default() {
    assert_eq!(Faults::Perfect.options(perfect()), perfect());
}

#[test]
fn light_profile() {
    let options = Faults::Light.options(perfect());
    assert_eq!(
        options,
        PacketSimulatorOptions {
            packet_loss_probability: probability(0.02),
            replay_probability: probability(0.01),
            partition_probability: probability(0.005),
            unpartition_probability: probability(0.05),
            partition_stability: 20,
            unpartition_stability: 40,
            partition_mode: PartitionMode::IsolateSingle,
            partition_symmetry: PartitionSymmetry::Asymmetric,
            path_clog_probability: probability(0.002),
            path_clog_duration_mean: 10,
            ..perfect()
        }
    );
}

#[test]
fn heavy_profile() {
    let options = Faults::Heavy.options(perfect());
    assert_eq!(
        options,
        PacketSimulatorOptions {
            packet_loss_probability: probability(0.10),
            replay_probability: probability(0.03),
            one_way_delay_mean: 8,
            partition_probability: probability(0.02),
            unpartition_probability: probability(0.02),
            partition_stability: 50,
            unpartition_stability: 50,
            partition_mode: PartitionMode::UniformSize,
            partition_symmetry: PartitionSymmetry::Asymmetric,
            path_clog_probability: probability(0.01),
            path_clog_duration_mean: 25,
            ..perfect()
        }
    );
}

#[test]
fn network_takes_shape_and_seed() {
    let options = network_options(Faults::Light, &no_overrides(), perfect(), 5, 7, 99);
    assert_eq!(
        options,
        PacketSimulatorOptions {
            node_count: 5,
            client_count: 7,
            seed: 99,
            ..Faults::Light.options(perfect())
        }
    );
}

#[test]
fn overrides_replace_single_fields() {
    let mut overrides = no_overrides();
    overrides.packet_loss = Some(probability(0.3));
    overrides.partition_mode = Some(PartitionMode::UniformPartition);
    overrides.clog_duration_mean = Some(77);
    let options = network_options(Faults::Heavy, &overrides, perfect(), 3, 1, 0);
    assert_eq!(
        options,
        PacketSimulatorOptions {
            node_count: 3,
            client_count: 1,
            seed: 0,
            packet_loss_probability: probability(0.3),
            partition_mode: PartitionMode::UniformPartition,
            path_clog_duration_mean: 77,
            ..Faults::Heavy.options(perfect())
        }
    );
}

#[test]
fn every_override_is_applied() {
    let overrides = NetworkOverrides {
        packet_loss: Some(probability(0.1)),
        replay: Some(probability(0.2)),
        one_way_delay_min: Some(11),
        one_way_delay_mean: Some(12),
        link_capacity: Some(13),
        partition_mode: Some(PartitionMode::IsolateSingle),
        partition_symmetry: Some(PartitionSymmetry::Asymmetric),
        partition_prob: Some(probability(0.3)),
        unpartition_prob: Some(probability(0.4)),
        partition_stability: Some(14),
        unpartition_stability: Some(15),
        clog_prob: Some(probability(0.5)),
        clog_duration_mean: Some(16),
    };
    assert_eq!(
        network_options(Faults::Perfect, &overrides, perfect(), 9, 8, 7),
        PacketSimulatorOptions {
            node_count: 9,
            client_count: 8,
            seed: 7,
            packet_loss_probability: probability(0.1),
            replay_probability: probability(0.2),
            one_way_delay_min: 11,
            one_way_delay_mean: 12,
            link_capacity: 13,
            partition_mode: PartitionMode::IsolateSingle,
            partition_symmetry: PartitionSymmetry::Asymmetric,
            partition_probability: probability(0.3),
            unpartition_probability: probability(0.4),
            partition_stability: 14,
            unpartition_stability: 15,
            path_clog_probability: probability(0.5),
            path_clog_duration_mean: 16,
        }
    );
}

#[test]
fn session_knobs_reach_the_options() {
    let options = session_options(&SessionKnobs {
        seed: 4,
        replicas: 5,
        clients: 2,
        plane: Plane::Metadata,
        crash_ratio: Ratio { parts: 10 },
        restart_ratio: Ratio { parts: 20 },
        crash_primary: true,
        ack_quorum_ratio: Ratio { parts: RATIO_ONE },
    });
    assert_eq!(options.seed, 4);
    assert_eq!(options.replica_count, 5);
    assert_eq!(options.client_count, 2);
    assert_eq!(options.namespaces, vec![IggyNamespace::new(1, 1, 0)]);
    assert_eq!(options.crash_per_tick_ratio.parts, 10);
    assert_eq!(options.restart_per_tick_ratio.parts, 20);
    assert!(!options.spare_primary);
    assert_eq!(options.ack_quorum_ratio.parts, RATIO_ONE);
    assert_eq!(options.min_survivors, 3);
    let expected = ActionWeights::metadata_only();
    for index in 0..ACTION_COUNT {
        let action = Action::from_index(index);
        assert_eq!(options.weights.weight(action), expected.weight(action));
    }
}

#[test]
fn cluster_setup_without_a_shell() {
    let ns = IggyNamespace::new(1, 1, 0);
    assert_eq!(client_ids(2), vec![1, 2]);
    assert_eq!(
        build_cluster(false, 2),
        vec![
            SetupStep::InitPartition(ns),
            SetupStep::Register(1),
            SetupStep::Register(2)
        ]
    );
}

#[test]
fn cluster_setup_with_a_shell() {
    let ns = IggyNamespace::new(1, 1, 0);
    assert_eq!(
        build_cluster(true, 1),
        vec![
            SetupStep::InitPartition(ns),
            SetupStep::SeedStreamTopicPartition(ns),
            SetupStep::ShellLogin(1)
        ]
    );
}

#[test]
fn command_coverage_lists_both_sides() {
    let labels: Vec<String> = ["Reserved", "Ping", "Prepare", "Commit", "StartView"]
        .iter()
        .map(|label| label.to_string())
        .collect();
    assert_eq!(
        print_command_coverage(&labels, &[4, 0, 12, 3, 0]),
        "commands delivered: Prepare=12 Commit=3\ncommands never delivered: Ping StartView\n"
    );
    assert_eq!(
        print_command_coverage(&labels, &[]),
        "commands delivered: \ncommands never delivered: \n"
    );
}

#[test]
fn coverage_lists_counters_and_actions() {
    let mut workload = Workload::new(WorkloadOptions::new(1, 1, Vec::new()));
    let generator = workload.generator_state();
    let plan = RequestPlan {
        action: Action::CreateUser,
        target: 0,
        outcome_id: 0,
    };
    let sampled = SampledRequest {
        message: RequestMessage {
            client: 1,
            request: 1,
            group: 0,
            bytes: Vec::new(),
        },
        outcome: 0,
    };
    assert!(workload
        .build_request(1, plan, generator, Some(sampled))
        .is_some());
    let reply = Reply {
        client: 1,
        request: 1,
        group: 0,
        is_metadata: true,
        size: 8,
        header_size: 8,
        result_code: Some(0),
        code_recognized: true,
    };
    let effect = CommittedEffect {
        outcome: 0,
        applied: true,
        sim_commands: Vec::new(),
    };
    assert!(workload.on_reply(&reply, effect).is_ok());
    let mut denials_per_action = vec![(0u64, 0u32); ACTION_COUNT];
    denials_per_action[Action::DeleteUser.index()] = (2, 41);
    let stats = AuditStats {
        replies_seen: 5,
        replies_unknown: 1,
        denials: 2,
        evictions: 3,
        denials_per_action,
    };
    assert_eq!(
        print_coverage(&workload, &stats),
        "coverage: replies_seen=5 replies_unknown=1 committed_rejections=0 samples_none=0 \
         resends=0 denials=2 evictions=3\n\
         \x20 CreateUser: 1 commits, 0 denied (last status 0)\n\
         \x20 DeleteUser: 0 commits, 2 denied (last status 41)\n"
    );
}

#[test]
fn unsettled_report_opens_with_the_reason() {
    let workload = Workload::new(WorkloadOptions::new(0x20, 1, Vec::new()));
    let reading = ClusterReading {
        replicas: Vec::new(),
        primaries: Vec::new(),
    };
    assert_eq!(
        unsettled_report(&reading, &workload),
        "metadata views never converged after the drain\n\
         did not drain: 0 request(s) still outstanding (seed=0x20)\n\
         \x20 resends issued: 0\n"
    );
}
