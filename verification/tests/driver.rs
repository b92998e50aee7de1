use workload::action::{Action, ACTION_COUNT};
use workload::cluster::{
    ClusterReading, IggyNamespace, JournalWindow, MetadataConsensus, PartitionReading,
    ReplicaReading, Status,
};
use workload::driver::{
    drive_to_quiesce, run, run_with_faults, settle_to_stable_view, Quiesce, Run, RunAction,
    RunEvent, RunFault, StepAction, QUIESCE_SETTLE_TICKS,
};
use workload::faults::{Fault, FaultInjector};
use workload::options::{Ratio, WorkloadOptions, RATIO_ONE};
use workload::retry::RequestMessage;
use workload::workload::{
    CommittedEffect, Reply, RequestPlan, SampledRequest, SimCommand, Workload,
};

fn ns() -> IggyNamespace {
    IggyNamespace::new(1, 1, 0)
}

fn replica(offset: u64, is_primary: bool) -> ReplicaReading {
    ReplicaReading {
        crashed: false,
        metadata: Some(MetadataConsensus {
            status: Status::Normal,
            view: 0,
            log_view: 0,
            commit_min: 0,
            is_primary,
        }),
        journal: JournalWindow {
            first_op: 1,
            headers: Vec::new(),
        },
        partitions: vec![PartitionReading {
            ns: ns(),
            commit_offset: Some(offset),
            view: Some(0),
            consensus: None,
        }],
        clients: Vec::new(),
        streams: Vec::new(),
        users: Vec::new(),
    }
}

fn cluster(offset: u64) -> ClusterReading {
    ClusterReading {
        replicas: vec![replica(offset, true), replica(offset, false)],
        primaries: Vec::new(),
    }
}

fn unsettled() -> ClusterReading {
    ClusterReading {
        replicas: vec![replica(0, false), replica(0, false)],
        primaries: Vec::new(),
    }
}

fn workload() -> Workload {
    let mut options = WorkloadOptions::new(1, 2, vec![ns()]);
    options.request_timeout_ticks = 2;
    Workload::new(options)
}

fn send(workload: &mut Workload) {
    let generator = workload.generator_state();
    let plan = RequestPlan {
        action: Action::SendMessages,
        target: 0,
        outcome_id: 0,
    };
    let sampled = SampledRequest {
        message: RequestMessage {
            client: 1,
            request: 1,
            group: 3,
            bytes: vec![1],
        },
        outcome: 0,
    };
    assert!(workload
        .build_request(1, plan, generator, Some(sampled))
        .is_some());
}

fn reply() -> Reply {
    Reply {
        client: 1,
        request: 1,
        group: 3,
        is_metadata: false,
        size: 0,
        header_size: 0,
        result_code: None,
        code_recognized: false,
    }
}

fn effect(sim_commands: Vec<SimCommand>) -> CommittedEffect {
    CommittedEffect {
        outcome: 0,
        applied: true,
        sim_commands,
    }
}

#[test]
fn run_starts_with_its_own_injector() {
    let mut workload = workload();
    let (mut started, mut injector) = run(&workload, 2, vec![1], 1, u64::MAX);
    assert_eq!(started.progress().ticks_left, 1);
    let reading = cluster(0);
    let action = run_with_faults(
        &mut started,
        &mut workload,
        &mut injector,
        RunEvent::TickOpens(&reading),
    );
    assert!(matches!(
        action,
        Ok(RunAction::Drive {
            fault: Fault::Quiet,
            ..
        })
    ));
    assert_eq!(workload.now(), 1);
}

#[test]
fn run_ends_with_its_budget() {
    let mut workload = workload();
    let mut injector = FaultInjector::new(1, 2);
    let mut state = Run::new(vec![1], 3, u64::MAX);
    let reading = cluster(0);
    let mut driven = 0;
    loop {
        match run_with_faults(
            &mut state,
            &mut workload,
            &mut injector,
            RunEvent::TickOpens(&reading),
        ) {
            Ok(RunAction::Drive { .. }) => driven += 1,
            Ok(RunAction::Finished(replies)) => {
                assert_eq!(replies, 0);
                break;
            }
            other => panic!("unexpected: {other:?}"),
        }
        match run_with_faults(
            &mut state,
            &mut workload,
            &mut injector,
            RunEvent::TickCloses(&reading),
        ) {
            Ok(RunAction::NextTick) => assert!(driven < 3),
            Ok(RunAction::Finished(0)) => assert_eq!(driven, 3),
            other => panic!("unexpected: {other:?}"),
        }
    }
    assert_eq!(driven, 3);
    assert_eq!(state.invariants().tracked_pairs(), 2);
}

#[test]
fn run_stops_at_its_reply_target() {
    let mut workload = workload();
    let mut injector = FaultInjector::new(1, 2);
    let mut state = Run::new(vec![1], 100, 1);
    let reading = cluster(0);
    assert!(run_with_faults(
        &mut state,
        &mut workload,
        &mut injector,
        RunEvent::TickOpens(&reading)
    )
    .is_ok());
    send(&mut workload);
    let commands = vec![SimCommand::InitPartition { ns: ns() }];
    match run_with_faults(
        &mut state,
        &mut workload,
        &mut injector,
        RunEvent::Replied(reply(), effect(commands)),
    ) {
        Ok(RunAction::Materialise(namespaces)) => assert_eq!(namespaces, vec![ns()]),
        other => panic!("unexpected: {other:?}"),
    }
    assert!(matches!(
        run_with_faults(
            &mut state,
            &mut workload,
            &mut injector,
            RunEvent::TickCloses(&reading)
        ),
        Ok(RunAction::Finished(1))
    ));
    assert!(matches!(
        run_with_faults(
            &mut state,
            &mut workload,
            &mut injector,
            RunEvent::TickOpens(&reading)
        ),
        Ok(RunAction::Finished(1))
    ));
    assert_eq!(state.progress().ticks_left, 99);
}

#[test]
fn stale_replies_count_as_seen() {
    let mut workload = workload();
    let mut injector = FaultInjector::new(1, 2);
    let mut state = Run::new(vec![1], 5, 10);
    assert!(matches!(
        run_with_faults(
            &mut state,
            &mut workload,
            &mut injector,
            RunEvent::Replied(reply(), effect(Vec::new()))
        ),
        Ok(RunAction::Materialise(_))
    ));
    assert_eq!(state.progress().replies_seen, 1);
}

#[test]
fn run_reports_faults() {
    let mut workload = workload();
    let mut injector = FaultInjector::new(1, 2);
    let mut state = Run::new(vec![1], 5, 10);
    assert!(run_with_faults(
        &mut state,
        &mut workload,
        &mut injector,
        RunEvent::TickCloses(&cluster(9))
    )
    .is_ok());
    assert!(matches!(
        run_with_faults(
            &mut state,
            &mut workload,
            &mut injector,
            RunEvent::TickCloses(&cluster(8))
        ),
        Err(RunFault::Invariant(_))
    ));
    send(&mut workload);
    let mut corrupt = reply();
    corrupt.is_metadata = true;
    assert!(matches!(
        run_with_faults(
            &mut state,
            &mut workload,
            &mut injector,
            RunEvent::Replied(corrupt, effect(Vec::new()))
        ),
        Err(RunFault::Reply(_))
    ));
    assert_eq!(state.progress().replies_seen, 0);
}

#[test]
fn opened_tick_carries_fault_and_resends() {
    let mut options = WorkloadOptions::new(1, 2, vec![ns()]);
    options.request_timeout_ticks = 1;
    options.crash_per_tick_ratio = Ratio { parts: RATIO_ONE };
    options.restart_stability_ticks = 0;
    options.min_survivors = 1;
    let mut workload = Workload::new(options);
    send(&mut workload);
    let mut injector = FaultInjector::new(1, 2);
    let mut state = Run::new(vec![1], 5, 10);
    let reading = cluster(0);
    let traffic = workload.generator_state();
    match run_with_faults(
        &mut state,
        &mut workload,
        &mut injector,
        RunEvent::TickOpens(&reading),
    ) {
        Ok(RunAction::Drive { fault, resends }) => {
            assert!(matches!(fault, Fault::Crash(_)));
            assert_eq!(resends.len(), 1);
            assert_eq!((resends[0].client, resends[0].target), (1, 1));
        }
        other => panic!("unexpected: {other:?}"),
    }
    assert_eq!(injector.crashes(), 1);
    assert_eq!(workload.generator_state(), traffic);
}

#[test]
fn drained_system_settles() {
    let mut workload = workload();
    send(&mut workload);
    let mut quiesce = Quiesce::new(50);
    for _ in 0..4 {
        assert!(matches!(
            drive_to_quiesce(&mut quiesce, &mut workload),
            StepAction::Step { .. }
        ));
    }
    assert_eq!(workload.now(), 4);
    assert_eq!(workload.resends(), 2);
    assert!(workload.on_reply(&reply(), effect(Vec::new())).is_ok());
    for _ in 0..QUIESCE_SETTLE_TICKS {
        match drive_to_quiesce(&mut quiesce, &mut workload) {
            StepAction::Step { resends } => assert!(resends.is_empty()),
            StepAction::Finished(_) => panic!("the settle window was cut short"),
        }
    }
    assert_eq!(workload.now(), 4);
    assert!(matches!(
        drive_to_quiesce(&mut quiesce, &mut workload),
        StepAction::Finished(true)
    ));
    assert_eq!(quiesce, Quiesce::Done { drained: true });
}

#[test]
fn stuck_system_fails_to_drain() {
    let mut workload = workload();
    send(&mut workload);
    let mut quiesce = Quiesce::new(3);
    for _ in 0..3 {
        assert!(matches!(
            drive_to_quiesce(&mut quiesce, &mut workload),
            StepAction::Step { .. }
        ));
    }
    assert!(matches!(
        drive_to_quiesce(&mut quiesce, &mut workload),
        StepAction::Finished(false)
    ));
    assert!(matches!(
        drive_to_quiesce(&mut quiesce, &mut workload),
        StepAction::Finished(false)
    ));
}

#[test]
fn empty_system_steps_once_before_settling() {
    let mut workload = workload();
    let mut quiesce = Quiesce::new(3);
    let mut steps = 0;
    while let StepAction::Step { .. } = drive_to_quiesce(&mut quiesce, &mut workload) {
        steps += 1;
    }
    assert_eq!(steps, 1 + QUIESCE_SETTLE_TICKS);
    assert_eq!(quiesce, Quiesce::Done { drained: true });
}

#[test]
fn zero_budget_drain_depends_on_what_is_outstanding() {
    let mut idle = workload();
    let mut quiesce = Quiesce::new(0);
    assert!(matches!(
        drive_to_quiesce(&mut quiesce, &mut idle),
        StepAction::Step { .. }
    ));
    let mut busy = workload();
    send(&mut busy);
    let mut quiesce = Quiesce::new(0);
    assert!(matches!(
        drive_to_quiesce(&mut quiesce, &mut busy),
        StepAction::Finished(false)
    ));
}

#[test]
fn stable_view_ends_the_wait() {
    let mut workload = workload();
    let mut ticks_left = 5;
    assert!(matches!(
        settle_to_stable_view(&mut ticks_left, &unsettled(), &mut workload),
        StepAction::Step { .. }
    ));
    assert_eq!(ticks_left, 4);
    assert_eq!(workload.now(), 1);
    assert!(matches!(
        settle_to_stable_view(&mut ticks_left, &cluster(0), &mut workload),
        StepAction::Finished(true)
    ));
    assert_eq!(ticks_left, 4);
}

#[test]
fn view_wait_fails_when_its_ticks_are_spent() {
    let mut workload = workload();
    let mut ticks_left = 2;
    for _ in 0..2 {
        assert!(matches!(
            settle_to_stable_view(&mut ticks_left, &unsettled(), &mut workload),
            StepAction::Step { .. }
        ));
    }
    assert!(matches!(
        settle_to_stable_view(&mut ticks_left, &unsettled(), &mut workload),
        StepAction::Finished(false)
    ));
    assert!(matches!(
        settle_to_stable_view(&mut ticks_left, &cluster(0), &mut workload),
        StepAction::Finished(true)
    ));
}

#[test]
fn every_idle_client_is_offered_one_request() {
    let mut options = WorkloadOptions::new(1, 2, vec![ns()]);
    options.client_count = 3;
    let mut workload = Workload::new(options);
    send(&mut workload);
    let mut injector = FaultInjector::new(1, 2);
    let mut state = Run::new(vec![4, 1, 9], 2, 10);
    let reading = cluster(0);
    let counts = [1usize; ACTION_COUNT];
    for tick in 0..2u64 {
        assert!(run_with_faults(
            &mut state,
            &mut workload,
            &mut injector,
            RunEvent::TickOpens(&reading)
        )
        .is_ok());
        let mut offered = Vec::new();
        let mut submitted = Vec::new();
        loop {
            let client = match run_with_faults(
                &mut state,
                &mut workload,
                &mut injector,
                RunEvent::Offer(&counts),
            ) {
                Ok(RunAction::Sample { client, plan }) => {
                    let (pending, pending_plan) = state.pending().expect("being sampled");
                    assert_eq!((pending, pending_plan.action), (client, plan.action));
                    client
                }
                Ok(RunAction::StepNetwork) => break,
                other => panic!("unexpected: {other:?}"),
            };
            offered.push(client);
            let sampled = if client == 9 && tick == 0 {
                None
            } else {
                Some(SampledRequest {
                    message: RequestMessage {
                        client,
                        request: tick,
                        group: 0,
                        bytes: Vec::new(),
                    },
                    outcome: 0,
                })
            };
            let generator = workload.generator_state();
            match run_with_faults(
                &mut state,
                &mut workload,
                &mut injector,
                RunEvent::Sampled { generator, sampled },
            ) {
                Ok(RunAction::Submit(Some(submission))) => submitted.push(submission.client),
                Ok(RunAction::Submit(None)) => {}
                other => panic!("unexpected: {other:?}"),
            }
            assert!(state.pending().is_none());
        }
        if tick == 0 {
            assert_eq!(offered, vec![4, 9]);
            assert_eq!(submitted, vec![4]);
            assert_eq!(workload.samples_none(), 1);
        } else {
            assert_eq!(offered, vec![9]);
            assert_eq!(submitted, vec![9]);
        }
    }
    assert_eq!(workload.total_in_flight(), 3);
    assert!(run_with_faults(
        &mut state,
        &mut workload,
        &mut injector,
        RunEvent::TickCloses(&reading)
    )
    .is_ok());
}
