use rand::{Rng, RngExt};
use rand_xoshiro::rand_core::SeedableRng;
use rand_xoshiro::Xoshiro256Plus;
use workload::action::{Action, ACTION_COUNT};
use workload::cluster::IggyNamespace;
use workload::options::{Ratio, WorkloadOptions, RATIO_ONE};
use workload::retry::{InFlight, RequestMessage};
use workload::shadow::Shadow;
use workload::workload::{
    apply_sim_commands, reply_body, resubmit_due, CommittedEffect, OnReply, Reply, ReplyFault,
    RequestPlan, SampledRequest, SimCommand, Workload,
};

fn options() -> WorkloadOptions {
    WorkloadOptions::new(0xFEED, 3, vec![IggyNamespace::new(1, 1, 0)])
}

fn message(client: u128, request: u64) -> RequestMessage {
    RequestMessage {
        client,
        request,
        group: 77,
        bytes: vec![client as u8, request as u8, 0xAA],
    }
}

fn send(workload: &mut Workload, client: u128, request: u64, action: Action, outcome: u32) {
    let generator = workload.generator_state();
    let plan = RequestPlan {
        action,
        target: 0,
        outcome_id: 0,
    };
    let sampled = SampledRequest {
        message: message(client, request),
        outcome,
    };
    let (target, sent) = workload
        .build_request(client, plan, generator, Some(sampled))
        .expect("a sampled request is admitted");
    assert_eq!(target, 0);
    assert_eq!(sent.bytes, vec![client as u8, request as u8, 0xAA]);
}

fn reply(client: u128, request: u64) -> Reply {
    Reply {
        client,
        request,
        group: 77,
        is_metadata: true,
        size: 300,
        header_size: 256,
        result_code: Some(0),
        code_recognized: true,
    }
}

fn effect(outcome: u32, applied: bool) -> CommittedEffect {
    CommittedEffect {
        outcome,
        applied,
        sim_commands: Vec::new(),
    }
}

#[test]
fn fresh_workload_is_idle() {
    let workload = Workload::new(options());
    assert!(workload.client_idle(1));
    assert_eq!(workload.total_in_flight(), 0);
    assert_eq!(workload.in_flight_bound(), 1);
    assert_eq!(workload.now(), 0);
    assert_eq!(workload.resends(), 0);
    assert_eq!(workload.samples_none(), 0);
    assert_eq!(workload.committed_rejections(), 0);
    assert_eq!(workload.commits(Action::SendMessages), 0);
    assert!(workload.strict_outcome_oracle());
    assert_eq!(
        workload.generator_state(),
        Xoshiro256Plus::seed_from_u64(0xFEED).state()
    );
}

#[test]
fn several_clients_disarm_the_equality_oracle() {
    let mut several = options();
    several.client_count = 2;
    let workload = Workload::new(several);
    assert!(!workload.strict_outcome_oracle());
    assert_eq!(workload.in_flight_bound(), 2);
}

#[test]
fn plans_follow_the_generator_draw_for_draw() {
    let mut drawn = options();
    drawn.target_non_primary_ratio = Ratio {
        parts: RATIO_ONE / 2,
    };
    let weights = drawn.weights;
    let mut workload = Workload::new(drawn);
    let mut rng = Xoshiro256Plus::seed_from_u64(0xFEED);
    let mut outcome_counts = vec![1usize; ACTION_COUNT];
    outcome_counts[Action::CreateStream.index()] = 3;
    outcome_counts[Action::SendMessages.index()] = 4;
    let mut redirected = 0;
    for _ in 0..200 {
        let plan = workload
            .pick_request(1, &outcome_counts)
            .expect("nothing is outstanding");
        let action = weights.pick(rng.random_range(0..100u32));
        let roll: f32 = rng.random();
        let target = if roll < 0.5 {
            rng.random_range(1..3u8)
        } else {
            0
        };
        let count = outcome_counts[action.index()];
        let outcome_id = if count <= 1 {
            0
        } else {
            rng.random_range(0..count)
        };
        assert_eq!(plan.action, action);
        assert_eq!(plan.target, target);
        assert_eq!(plan.outcome_id, outcome_id);
        assert_eq!(workload.generator_state(), rng.state());
        redirected += usize::from(target != 0);
    }
    assert!(redirected > 50 && redirected < 150);
    assert_ne!(rng.next_u32(), rng.next_u32());
}

#[test]
fn equal_seeds_plan_alike() {
    let counts = [2usize; ACTION_COUNT];
    let mut left = Workload::new(options());
    let mut right = Workload::new(options());
    for _ in 0..50 {
        let a = left.pick_request(1, &counts).expect("idle");
        let b = right.pick_request(1, &counts).expect("idle");
        assert_eq!(
            (a.action, a.target, a.outcome_id),
            (b.action, b.target, b.outcome_id)
        );
    }
}

#[test]
fn busy_client_draws_nothing() {
    let mut workload = Workload::new(options());
    send(&mut workload, 1, 1, Action::SendMessages, 0);
    assert!(!workload.client_idle(1));
    assert!(workload.client_idle(2));
    let before = workload.generator_state();
    assert!(workload.pick_request(1, &[1; ACTION_COUNT]).is_none());
    assert_eq!(workload.generator_state(), before);
}

#[test]
fn unsampled_request_is_counted() {
    let mut workload = Workload::new(options());
    let plan = workload
        .pick_request(1, &[1; ACTION_COUNT])
        .expect("idle");
    let left_behind = [9u8; 32];
    assert!(workload.build_request(1, plan, left_behind, None).is_none());
    assert_eq!(workload.samples_none(), 1);
    assert_eq!(workload.generator_state(), left_behind);
    assert!(workload.client_idle(1));
}

#[test]
fn successful_reply_frees_the_slot_and_counts() {
    let mut workload = Workload::new(options());
    send(&mut workload, 1, 4, Action::CreateStream, 0);
    assert_eq!(
        workload.match_reply(&reply(1, 4)),
        OnReply::Match(InFlight {
            action: Action::CreateStream,
            outcome: 0,
            request_namespace: 77
        })
    );
    let ns = IggyNamespace::new(3, 1, 0);
    let committed = CommittedEffect {
        outcome: 0,
        applied: true,
        sim_commands: vec![SimCommand::InitPartition { ns }],
    };
    let commands = workload.on_reply(&reply(1, 4), committed).expect("accepted");
    assert_eq!(apply_sim_commands(&commands), vec![ns]);
    assert!(workload.client_idle(1));
    assert_eq!(workload.commits(Action::CreateStream), 1);
    assert_eq!(workload.committed_rejections(), 0);
}

#[test]
fn duplicate_reply_changes_nothing() {
    let mut workload = Workload::new(options());
    send(&mut workload, 1, 4, Action::CreateStream, 0);
    assert!(workload.on_reply(&reply(1, 4), effect(0, true)).is_ok());
    assert_eq!(workload.match_reply(&reply(1, 4)), OnReply::Unknown);
    assert!(workload
        .on_reply(&reply(1, 4), effect(0, true))
        .expect("stale replies are ignored")
        .is_empty());
    assert_eq!(workload.commits(Action::CreateStream), 1);
}

#[test]
fn misrouted_reply_only_frees_the_slot() {
    let mut workload = Workload::new(options());
    send(&mut workload, 1, 4, Action::CreateStream, 0);
    let mut misrouted = reply(1, 4);
    misrouted.group = 78;
    assert_eq!(workload.match_reply(&misrouted), OnReply::NsMismatch);
    assert!(workload
        .on_reply(&misrouted, effect(0, true))
        .expect("skipped")
        .is_empty());
    assert!(workload.client_idle(1));
    assert_eq!(workload.commits(Action::CreateStream), 0);
}

#[test]
fn rejection_is_counted_but_commits_nothing() {
    let mut workload = Workload::new(options());
    send(&mut workload, 1, 4, Action::CreateStream, 6);
    let mut rejected = reply(1, 4);
    rejected.result_code = Some(1012);
    assert!(workload.on_reply(&rejected, effect(6, false)).is_ok());
    assert_eq!(workload.committed_rejections(), 1);
    assert_eq!(workload.commits(Action::CreateStream), 0);
    assert!(workload.client_idle(1));
}

#[test]
fn no_op_success_commits_nothing() {
    let mut workload = Workload::new(options());
    send(&mut workload, 1, 4, Action::CreateTopic, 0);
    assert!(workload.on_reply(&reply(1, 4), effect(0, false)).is_ok());
    assert_eq!(workload.commits(Action::CreateTopic), 0);
    assert_eq!(workload.committed_rejections(), 0);
}

#[test]
fn partition_plane_reply_carries_no_result() {
    let mut workload = Workload::new(options());
    send(&mut workload, 1, 4, Action::SendMessages, 0);
    let mut plain = reply(1, 4);
    plain.is_metadata = false;
    plain.size = 0;
    plain.result_code = None;
    plain.code_recognized = false;
    assert_eq!(plain.committed_code(Action::SendMessages), Ok(0));
    assert!(workload.on_reply(&plain, effect(0, true)).is_ok());
    assert_eq!(workload.commits(Action::SendMessages), 1);
}

#[test]
fn short_reply_is_a_fault() {
    let mut workload = Workload::new(options());
    send(&mut workload, 1, 4, Action::CreateUser, 0);
    let mut short = reply(1, 4);
    short.size = 255;
    let fault = workload.on_reply(&short, effect(0, true)).unwrap_err();
    assert_eq!(
        fault.message(1, 4, "", ""),
        "metadata op CreateUser reply size 255 below header size 256 (client=1, request=4)"
    );
    assert!(!workload.client_idle(1));
}

#[test]
fn corrupt_reply_is_a_fault() {
    let mut workload = Workload::new(options());
    send(&mut workload, 1, 4, Action::CreateUser, 0);
    let mut corrupt = reply(1, 4);
    corrupt.result_code = None;
    let fault = workload.on_reply(&corrupt, effect(0, true)).unwrap_err();
    assert_eq!(
        fault.message(1, 4, "", ""),
        "metadata op CreateUser reply has a truncated or corrupt result section (client=1, \
         request=4)"
    );
}

#[test]
fn unrecognized_code_is_a_fault() {
    let mut workload = Workload::new(options());
    send(&mut workload, 1, 4, Action::CreateUser, 0);
    let mut odd = reply(1, 4);
    odd.result_code = Some(65_000);
    odd.code_recognized = false;
    let fault = workload.on_reply(&odd, effect(0, true)).unwrap_err();
    assert_eq!(
        fault.message(1, 4, "", ""),
        "metadata op CreateUser returned unrecognized result code 65000 (client=1, request=4)"
    );
}

#[test]
fn unexpected_outcome_is_a_fault_on_a_serial_run_only() {
    let mut serial = Workload::new(options());
    send(&mut serial, 1, 4, Action::CreateUser, 2);
    let fault = serial.on_reply(&reply(1, 4), effect(0, true)).unwrap_err();
    assert_eq!(
        fault,
        ReplyFault::UnexpectedOutcome {
            action: Action::CreateUser,
            code: 0,
            targeted: 2,
            committed: 0
        }
    );
    assert_eq!(
        fault.message(1, 4, "NameTaken", "Success"),
        "outcome-first oracle: targeted NameTaken but committed Success (action=CreateUser, code=0, client=1, \
         request=4)"
    );
    let mut several = options();
    several.client_count = 2;
    let mut racing = Workload::new(several);
    send(&mut racing, 1, 4, Action::CreateUser, 2);
    assert!(racing.on_reply(&reply(1, 4), effect(0, true)).is_ok());
    assert_eq!(racing.commits(Action::CreateUser), 1);
}

#[test]
fn overdue_request_rotates_over_the_replicas() {
    let mut timed = options();
    timed.request_timeout_ticks = 2;
    let mut workload = Workload::new(timed);
    send(&mut workload, 1, 4, Action::SendMessages, 0);
    workload.tick();
    assert!(workload.due_resends().is_empty());
    let mut targets = Vec::new();
    for _ in 0..8 {
        workload.tick();
        for (target, sent) in workload.due_resends() {
            assert_eq!((sent.client, sent.request), (1, 4));
            assert_eq!(sent.bytes, vec![1, 4, 0xAA]);
            targets.push(target);
        }
    }
    assert_eq!(targets, vec![1, 2, 0, 1]);
    assert_eq!(workload.resends(), 4);
    assert_eq!(
        workload.outstanding_summary(),
        vec![(1, 4, Action::SendMessages, 1, 5)]
    );
    assert!(workload.due_resends().is_empty());
}

#[test]
fn zero_timeout_disables_resending() {
    let mut timed = options();
    timed.request_timeout_ticks = 0;
    let mut workload = Workload::new(timed);
    send(&mut workload, 1, 4, Action::SendMessages, 0);
    for _ in 0..1000 {
        workload.tick();
        assert!(workload.due_resends().is_empty());
    }
    assert_eq!(workload.resends(), 0);
}

#[test]
fn resends_come_in_key_order() {
    let mut timed = options();
    timed.request_timeout_ticks = 1;
    timed.client_count = 3;
    let mut workload = Workload::new(timed);
    send(&mut workload, 9, 1, Action::SendMessages, 0);
    send(&mut workload, 2, 8, Action::CreateUser, 0);
    send(&mut workload, 5, 3, Action::SendMessages, 0);
    assert_eq!(workload.total_in_flight(), 3);
    workload.tick();
    let due = resubmit_due(&mut workload);
    let order: Vec<(u128, u8, u64)> = due
        .iter()
        .map(|submission| {
            (
                submission.client,
                submission.target,
                submission.message.request,
            )
        })
        .collect();
    assert_eq!(order, vec![(2, 1, 8), (5, 1, 3), (9, 1, 1)]);
    assert_eq!(
        workload.outstanding_summary(),
        vec![
            (2, 8, Action::CreateUser, 1, 2),
            (5, 3, Action::SendMessages, 1, 2),
            (9, 1, Action::SendMessages, 1, 2)
        ]
    );
    assert!(matches!(workload.match_reply(&reply(2, 8)), OnReply::Match(_)));
}

#[test]
fn reply_body_lies_behind_the_header() {
    let bytes = [1u8, 2, 3, 4, 5];
    assert_eq!(reply_body(&bytes, 2, 4), Some(&bytes[2..4]));
    assert_eq!(reply_body(&bytes, 2, 2), Some(&bytes[2..2]));
    assert_eq!(reply_body(&bytes, 3, 2), None);
}

#[test]
fn shadow_does_not_influence_a_run() {
    let mut left = Workload::new(options());
    let mut right = Workload::new(options());
    let mut shadow = Shadow::new();
    shadow.user_names.push("wl-user".to_string());
    right.set_shadow(shadow);
    let counts = [3usize; ACTION_COUNT];
    for request in 0..30u64 {
        for workload in [&mut left, &mut right] {
            workload.tick();
            let plan = workload.pick_request(1, &counts).expect("idle");
            let generator = workload.generator_state();
            let sampled = SampledRequest {
                message: message(1, request),
                outcome: 0,
            };
            assert!(workload
                .build_request(1, plan, generator, Some(sampled))
                .is_some());
        }
        assert_eq!(left.outstanding_summary(), right.outstanding_summary());
        assert_eq!(left.generator_state(), right.generator_state());
        for workload in [&mut left, &mut right] {
            assert!(workload.on_reply(&reply(1, request), effect(0, true)).is_ok());
        }
    }
    for index in 0..ACTION_COUNT {
        let action = Action::from_index(index);
        assert_eq!(left.commits(action), right.commits(action));
    }
}

#[test]
fn options_can_be_changed() {
    let mut workload = Workload::new(options());
    send(&mut workload, 1, 4, Action::SendMessages, 0);
    let mut changed = options();
    changed.request_timeout_ticks = 1;
    changed.client_count = 9;
    workload.set_options(changed);
    assert_eq!(workload.options().request_timeout_ticks, 1);
    assert_eq!(workload.in_flight_bound(), 9);
    assert!(workload.strict_outcome_oracle());
    workload.tick();
    assert_eq!(workload.due_resends().len(), 1);
}
