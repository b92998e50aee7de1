use workload::action::{Action, ACTION_COUNT};
use workload::options::{
    Ratio, WorkloadOptions, DEFAULT_CRASH_STABILITY_TICKS, DEFAULT_REQUEST_TIMEOUT_TICKS,
    DEFAULT_RESTART_STABILITY_TICKS, RATIO_ONE,
};
use workload::weights::{ActionWeights, Plane};

fn all_actions() -> Vec<Action> {
    (0..ACTION_COUNT).map(Action::from_index).collect()
}

fn total(weights: &ActionWeights) -> u32 {
    all_actions()
        .into_iter()
        .map(|action| u32::from(weights.weight(action)))
        .sum()
}

#[test]
fn presets_sum_to_hundred() {
    assert_eq!(total(&ActionWeights::default()), 100);
    assert_eq!(total(&ActionWeights::partition_only()), 100);
    assert_eq!(total(&ActionWeights::metadata_only()), 100);
    assert_eq!(total(&ActionWeights::uniform()), 100);
}

#[test]
fn default_preset_weights() {
    let weights = ActionWeights::default();
    assert_eq!(weights.weight(Action::CreateStream), 5);
    assert_eq!(weights.weight(Action::SendMessages), 70);
    assert_eq!(weights.weight(Action::StoreConsumerOffset2), 25);
    assert_eq!(weights.weight(Action::DeleteStream), 0);
}

#[test]
fn partition_preset_weights() {
    let weights = ActionWeights::partition_only();
    assert_eq!(weights.weight(Action::SendMessages), 60);
    assert_eq!(weights.weight(Action::StoreConsumerOffset2), 25);
    assert_eq!(weights.weight(Action::DeleteConsumerOffset2), 5);
    assert_eq!(weights.weight(Action::StoreConsumerOffset), 7);
    assert_eq!(weights.weight(Action::DeleteConsumerOffset), 3);
    assert_eq!(weights.weight(Action::CreateStream), 0);
}

#[test]
fn metadata_preset_weights() {
    let weights = ActionWeights::metadata_only();
    assert_eq!(weights.weight(Action::CreateStream), 12);
    assert_eq!(weights.weight(Action::UpdateStream), 6);
    assert_eq!(weights.weight(Action::DeleteStream), 6);
    assert_eq!(weights.weight(Action::PurgeStream), 4);
    assert_eq!(weights.weight(Action::CreateTopic), 12);
    assert_eq!(weights.weight(Action::UpdateTopic), 6);
    assert_eq!(weights.weight(Action::DeleteTopic), 6);
    assert_eq!(weights.weight(Action::PurgeTopic), 4);
    assert_eq!(weights.weight(Action::CreatePartitions), 6);
    assert_eq!(weights.weight(Action::DeletePartitions), 4);
    assert_eq!(weights.weight(Action::CreateConsumerGroup), 6);
    assert_eq!(weights.weight(Action::DeleteConsumerGroup), 4);
    assert_eq!(weights.weight(Action::CreateUser), 6);
    assert_eq!(weights.weight(Action::UpdateUser), 3);
    assert_eq!(weights.weight(Action::DeleteUser), 3);
    assert_eq!(weights.weight(Action::ChangePassword), 3);
    assert_eq!(weights.weight(Action::UpdatePermissions), 3);
    assert_eq!(weights.weight(Action::CreatePersonalAccessToken), 3);
    assert_eq!(weights.weight(Action::DeletePersonalAccessToken), 3);
    assert_eq!(weights.weight(Action::DeleteSegments), 0);
    assert_eq!(weights.weight(Action::SendMessages), 0);
}

#[test]
fn uniform_preset_spreads_the_remainder_first() {
    let weights = ActionWeights::uniform();
    let base = 100 / ACTION_COUNT;
    let remainder = 100 % ACTION_COUNT;
    for (index, action) in all_actions().into_iter().enumerate() {
        let expected = base + usize::from(index < remainder);
        assert_eq!(usize::from(weights.weight(action)), expected);
    }
}

#[test]
fn unlisted_actions_weigh_nothing() {
    let weights = ActionWeights::new(&[(Action::CreateUser, 40), (Action::DeleteUser, 60)]);
    assert_eq!(weights.weight(Action::CreateUser), 40);
    assert_eq!(weights.weight(Action::DeleteUser), 60);
    assert_eq!(weights.weight(Action::UpdateUser), 0);
}

#[test]
fn planes_map_onto_presets() {
    let pairs = [
        (Plane::Partition, ActionWeights::partition_only()),
        (Plane::Metadata, ActionWeights::metadata_only()),
        (Plane::Mixed, ActionWeights::default()),
        (Plane::Uniform, ActionWeights::uniform()),
    ];
    for (plane, expected) in pairs {
        let weights = plane.weights();
        for action in all_actions() {
            assert_eq!(weights.weight(action), expected.weight(action));
        }
    }
}

#[test]
fn draws_hit_each_action_as_often_as_it_weighs() {
    let weights = ActionWeights::metadata_only();
    for action in all_actions() {
        let hits = (0..100u32)
            .filter(|&draw| weights.pick(draw) == action)
            .count();
        assert_eq!(hits, usize::from(weights.weight(action)));
    }
}

#[test]
fn draws_fall_into_buckets_in_declaration_order() {
    let weights = ActionWeights::default();
    assert_eq!(weights.pick(0), Action::CreateStream);
    assert_eq!(weights.pick(4), Action::CreateStream);
    assert_eq!(weights.pick(5), Action::SendMessages);
    assert_eq!(weights.pick(74), Action::SendMessages);
    assert_eq!(weights.pick(75), Action::StoreConsumerOffset2);
    assert_eq!(weights.pick(99), Action::StoreConsumerOffset2);
}

#[test]
fn actions_round_trip_through_their_index() {
    for (index, action) in all_actions().into_iter().enumerate() {
        assert_eq!(action.index(), index);
        assert_eq!(action.name(), format!("{action:?}"));
    }
}

#[test]
fn default_options() {
    let options = WorkloadOptions::new(7, 5, Vec::new());
    assert_eq!(options.seed, 7);
    assert_eq!(options.replica_count, 5);
    assert_eq!(options.client_count, 1);
    assert_eq!(options.batch_size_min, 1);
    assert_eq!(options.batch_size_span, 4);
    assert_eq!(options.ack_quorum_ratio.parts, RATIO_ONE / 2);
    assert_eq!(options.target_non_primary_ratio.parts, 0);
    assert_eq!(options.invalid_request_ratio.parts, 0);
    assert_eq!(options.consumer_pool_size, 4);
    assert_eq!(options.max_offset, 1_000_000);
    assert_eq!(options.crash_per_tick_ratio.parts, 0);
    assert_eq!(options.restart_per_tick_ratio.parts, 0);
    assert_eq!(options.crash_stability_ticks, DEFAULT_CRASH_STABILITY_TICKS);
    assert_eq!(options.crash_stability_ticks, 300);
    assert_eq!(
        options.restart_stability_ticks,
        DEFAULT_RESTART_STABILITY_TICKS
    );
    assert_eq!(options.restart_stability_ticks, 500);
    assert!(options.spare_primary);
    assert_eq!(options.min_survivors, 3);
    assert_eq!(options.request_timeout_ticks, DEFAULT_REQUEST_TIMEOUT_TICKS);
    assert_eq!(options.request_timeout_ticks, 200);
    assert_eq!(options.weights.weight(Action::SendMessages), 70);
}

#[test]
fn ratios_cover_the_rolls_below_them() {
    assert!(!Ratio { parts: 0 }.hit(0));
    assert!(Ratio { parts: 1 }.hit(255));
    assert!(!Ratio { parts: 1 }.hit(256));
    assert!(Ratio { parts: RATIO_ONE }.hit(u32::MAX));
    assert!(Ratio { parts: RATIO_ONE / 2 }.hit(0x7FFF_FFFF));
    assert!(!Ratio { parts: RATIO_ONE / 2 }.hit(0x8000_0000));
}

#[test]
fn single_replica_cluster_never_redirects() {
    let mut options = WorkloadOptions::new(0, 1, Vec::new());
    options.target_non_primary_ratio = Ratio { parts: RATIO_ONE };
    assert!(!options.redirects(0));
    options.replica_count = 2;
    assert!(options.redirects(u32::MAX));
}

#[test]
fn uniform_preset_carries_the_extra_points_first() {
    let weights = ActionWeights::uniform();
    assert_ne!(100 % ACTION_COUNT, 0);
    let fours = all_actions()
        .into_iter()
        .take_while(|&action| weights.weight(action) == 4)
        .count();
    assert_eq!(fours, 22);
    for action in all_actions().into_iter().skip(fours) {
        assert_eq!(weights.weight(action), 3);
    }
}
