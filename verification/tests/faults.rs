use rand::{Rng, RngExt};
use rand_xoshiro::rand_core::SeedableRng;
use rand_xoshiro::Xoshiro256Plus;
use workload::cluster::{ClusterReading, IggyNamespace, JournalWindow, ReplicaReading};
use workload::faults::{count_live, Fault, FaultInjector, FAULT_SEED_SALT};
use workload::options::{Ratio, WorkloadOptions, RATIO_ONE};

fn ns() -> IggyNamespace {
    IggyNamespace::new(1, 1, 0)
}

fn cluster(crashed: &[bool]) -> ClusterReading {
    ClusterReading {
        replicas: crashed
            .iter()
            .map(|&crashed| ReplicaReading {
                crashed,
                metadata: None,
                journal: JournalWindow {
                    first_op: 1,
                    headers: Vec::new(),
                },
                partitions: Vec::new(),
                clients: Vec::new(),
                streams: Vec::new(),
                users: Vec::new(),
            })
            .collect(),
        primaries: vec![(ns(), 0)],
    }
}

fn options(crash: u32, restart: u32) -> WorkloadOptions {
    let mut options = WorkloadOptions::new(5, 3, vec![ns()]);
    options.crash_per_tick_ratio = Ratio { parts: crash };
    options.restart_per_tick_ratio = Ratio { parts: restart };
    options.crash_stability_ticks = 3;
    options.restart_stability_ticks = 2;
    options
}

#[test]
fn zero_ratios_stay_quiet() {
    let mut injector = FaultInjector::new(5, 3);
    let knobs = options(0, 0);
    for _ in 0..100 {
        assert_eq!(injector.step(&cluster(&[false, true, false]), &knobs), Fault::Quiet);
    }
    assert_eq!(injector.now(), 100);
    assert_eq!(injector.crashes(), 0);
    assert_eq!(injector.restarts(), 0);
}

#[test]
fn crash_waits_for_the_stability_window() {
    let mut injector = FaultInjector::new(5, 3);
    let knobs = options(RATIO_ONE, 0);
    let up = cluster(&[false, false, false]);
    assert_eq!(injector.step(&up, &knobs), Fault::Quiet);
    let fault = injector.step(&up, &knobs);
    assert!(matches!(fault, Fault::Crash(1) | Fault::Crash(2)));
    assert_eq!(injector.crashes(), 1);
}

#[test]
fn crash_choice_follows_the_salted_generator() {
    for seed in 0..20u64 {
        let mut injector = FaultInjector::new(seed, 5);
        let knobs = options(RATIO_ONE, 0);
        let up = cluster(&[false, false, false, false, false]);
        let mut rng = Xoshiro256Plus::seed_from_u64(seed ^ FAULT_SEED_SALT);
        assert_eq!(injector.step(&up, &knobs), Fault::Quiet);
        rng.next_u32();
        let fault = injector.step(&up, &knobs);
        rng.next_u32();
        let pool = [1u8, 2, 3, 4];
        assert_eq!(fault, Fault::Crash(pool[rng.random_range(0..pool.len())]));
    }
}

#[test]
fn primary_is_spared_unless_asked() {
    let mut knobs = options(RATIO_ONE, 0);
    knobs.restart_stability_ticks = 0;
    let injector = FaultInjector::new(5, 3);
    let up = cluster(&[false, false, false]);
    assert_eq!(injector.crash_pool(&up, &knobs), vec![1, 2]);
    knobs.spare_primary = false;
    assert_eq!(injector.crash_pool(&up, &knobs), vec![0, 1, 2]);
}

#[test]
fn survivors_are_preserved() {
    let mut injector = FaultInjector::new(5, 3);
    let mut knobs = options(RATIO_ONE, 0);
    knobs.restart_stability_ticks = 0;
    let reading = cluster(&[false, true, false]);
    assert_eq!(count_live(&reading), 2);
    assert_eq!(knobs.min_survivors, 2);
    for _ in 0..50 {
        assert_eq!(injector.step(&reading, &knobs), Fault::Quiet);
    }
}

#[test]
fn restart_waits_for_the_crash_window() {
    let mut injector = FaultInjector::new(5, 3);
    let knobs = options(0, RATIO_ONE);
    let down = cluster(&[false, true, false]);
    assert_eq!(injector.step(&down, &knobs), Fault::Quiet);
    assert_eq!(injector.step(&down, &knobs), Fault::Quiet);
    assert_eq!(injector.restart_pool(&down, &knobs), Vec::<u8>::new());
    assert_eq!(injector.step(&down, &knobs), Fault::Restart(1));
    assert_eq!(injector.restarts(), 1);
    assert_eq!(injector.step(&down, &knobs), Fault::Quiet);
}

#[test]
fn one_tick_never_revives_and_kills() {
    let mut injector = FaultInjector::new(5, 5);
    let mut knobs = options(RATIO_ONE, RATIO_ONE);
    knobs.crash_stability_ticks = 0;
    knobs.restart_stability_ticks = 0;
    knobs.min_survivors = 1;
    let reading = cluster(&[false, true, false, false, false]);
    assert_eq!(injector.step(&reading, &knobs), Fault::Restart(1));
    assert_eq!((injector.crashes(), injector.restarts()), (0, 1));
    let up = cluster(&[false, false, false, false, false]);
    assert!(matches!(injector.step(&up, &knobs), Fault::Crash(_)));
    assert_eq!((injector.crashes(), injector.restarts()), (1, 1));
}
