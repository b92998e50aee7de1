//! Crash and restart injection with stability windows: a crash must last a while
//! before it may be repaired, and a repaired replica must run a while before it
//! may fail again.

use crate::cluster::{ClusterReading, IggyNamespace};
use crate::options::WorkloadOptions;
use crate::rng::{seeded_state, usize_draw, word_draw, Generator};
use vstd::prelude::*;

verus! {

/// Salt mixed into the workload seed for the fault generator, so crash scheduling
/// is reproducible from the seed yet independent of the traffic draw order.
pub const FAULT_SEED_SALT: u64 = 0x5A1A_F0E5_FACE_0001;

/// What the injector does in a tick.
#[derive(Debug, Clone, Copy, PartialEq, Eq, Structural)]
pub enum Fault {
    /// Nothing.
    Quiet,
    /// Restart a crashed replica.
    Restart(u8),
    /// Crash a live replica.
    Crash(u8),
}

/// What an injector has accumulated.
pub ghost struct InjectorView {
    /// State bytes of the fault generator.
    pub generator: Seq<u8>,
    /// Tick of each replica's last crash or restart.
    pub last_transition: Seq<u64>,
    pub now: u64,
    pub crashes: u64,
    pub restarts: u64,
}

impl InjectorView {
    /// An injector at tick 0.
    pub open spec fn fresh(seed: u64, replica_count: u8) -> InjectorView {
        InjectorView {
            generator: seeded_state(seed ^ FAULT_SEED_SALT),
            last_transition: Seq::new(replica_count as nat, |i: int| 0u64),
            now: 0,
            crashes: 0,
            restarts: 0,
        }
    }

    /// No transition lies in the future, and no tick saw two.
    pub open spec fn wf(self) -> bool {
        &&& forall|i: int|
            0 <= i < self.last_transition.len() ==> #[trigger] self.last_transition[i] <= self.now
        &&& self.crashes + self.restarts <= self.now
    }

    /// Ticks since a replica last changed state. A replica that never did counts
    /// from tick 0.
    pub open spec fn stable_for(self, replica: int) -> int {
        self.now - self.last_transition[replica]
    }

    /// The replica is down and has been for the crash window.
    pub open spec fn may_restart(
        self,
        cluster: ClusterReading,
        options: WorkloadOptions,
        replica: int,
    ) -> bool {
        &&& 0 <= replica < cluster.replicas@.len()
        &&& cluster.replicas@[replica].crashed
        &&& self.stable_for(replica) >= options.crash_stability_ticks
    }

    /// The replica is up and has been for the restart window, and is not a
    /// primary that the options spare.
    pub open spec fn may_crash(
        self,
        cluster: ClusterReading,
        options: WorkloadOptions,
        replica: int,
    ) -> bool {
        &&& cluster.live(replica)
        &&& !(options.spare_primary && leads_some(cluster, options.namespaces@, replica))
        &&& self.stable_for(replica) >= options.restart_stability_ticks
    }

    /// The replicas below `bound` that may be restarted, ascending.
    pub open spec fn restart_pool(
        self,
        cluster: ClusterReading,
        options: WorkloadOptions,
        bound: int,
    ) -> Seq<u8>
        decreases bound,
    {
        if bound <= 0 {
            Seq::empty()
        } else {
            let before = self.restart_pool(cluster, options, bound - 1);
            if self.may_restart(cluster, options, bound - 1) {
                before.push((bound - 1) as u8)
            } else {
                before
            }
        }
    }

    /// The replicas below `bound` that may be crashed, ascending.
    pub open spec fn crash_pool(
        self,
        cluster: ClusterReading,
        options: WorkloadOptions,
        bound: int,
    ) -> Seq<u8>
        decreases bound,
    {
        if bound <= 0 {
            Seq::empty()
        } else {
            let before = self.crash_pool(cluster, options, bound - 1);
            if self.may_crash(cluster, options, bound - 1) {
                before.push((bound - 1) as u8)
            } else {
                before
            }
        }
    }

    /// The replica to restart, if any, and the generator state left behind.
    pub open spec fn restart_choice(
        self,
        cluster: ClusterReading,
        options: WorkloadOptions,
    ) -> (Option<u8>, Seq<u8>) {
        let pool = self.restart_pool(cluster, options, cluster.replicas@.len() as int);
        let (word, after_word) = word_draw(self.generator);
        if options.restart_per_tick_ratio.parts == 0 || pool.len() == 0 {
            (None, self.generator)
        } else if !options.restart_per_tick_ratio.covers(word) {
            (None, after_word)
        } else {
            let (index, after_index) = usize_draw(after_word, 0, pool.len() as usize);
            (Some(pool[index as int]), after_index)
        }
    }

    /// The replica to crash, if any, and the generator state left behind.
    pub open spec fn crash_choice(
        self,
        cluster: ClusterReading,
        options: WorkloadOptions,
    ) -> (Option<u8>, Seq<u8>) {
        let count = cluster.replicas@.len() as int;
        let pool = self.crash_pool(cluster, options, count);
        let (word, after_word) = word_draw(self.generator);
        if options.crash_per_tick_ratio.parts == 0 || live_count(cluster, count)
            <= options.min_survivors {
            (None, self.generator)
        } else if !options.crash_per_tick_ratio.covers(word) || pool.len() == 0 {
            (None, after_word)
        } else {
            let (index, after_index) = usize_draw(after_word, 0, pool.len() as usize);
            (Some(pool[index as int]), after_index)
        }
    }

    /// The injector one tick later, and what it does in that tick.
    pub open spec fn stepped(
        self,
        cluster: ClusterReading,
        options: WorkloadOptions,
    ) -> (InjectorView, Fault) {
        let ticked = InjectorView { now: (self.now + 1) as u64, ..self };
        let (revived, after_restart) = ticked.restart_choice(cluster, options);
        let drawn = InjectorView { generator: after_restart, ..ticked };
        match revived {
            Some(replica) => (
                InjectorView {
                    last_transition: drawn.last_transition.update(replica as int, drawn.now),
                    restarts: (drawn.restarts + 1) as u64,
                    ..drawn
                },
                Fault::Restart(replica),
            ),
            None => {
                let (victim, after_crash) = drawn.crash_choice(cluster, options);
                let drawn = InjectorView { generator: after_crash, ..drawn };
                match victim {
                    Some(replica) => (
                        InjectorView {
                            last_transition: drawn.last_transition.update(
                                replica as int,
                                drawn.now,
                            ),
                            crashes: (drawn.crashes + 1) as u64,
                            ..drawn
                        },
                        Fault::Crash(replica),
                    ),
                    None => (drawn, Fault::Quiet),
                }
            },
        }
    }
}

/// The replica is the primary of one of the namespaces' groups.
pub open spec fn leads_some(
    cluster: ClusterReading,
    namespaces: Seq<IggyNamespace>,
    replica: int,
) -> bool {
    exists|i: int|
        0 <= i < namespaces.len() && cluster.primary(#[trigger] namespaces[i]) == Some(
            replica as u8,
        )
}

/// Number of live replicas below `bound`.
pub open spec fn live_count(cluster: ClusterReading, bound: int) -> nat
    decreases bound,
{
    if bound <= 0 {
        0
    } else {
        live_count(cluster, bound - 1) + if cluster.live(bound - 1) {
            1nat
        } else {
            0
        }
    }
}

/// Crash and restart injection.
///
/// Owns the fault generator, so crash scheduling stays reproducible from the seed
/// yet independent of the traffic draw order. Draws nothing while both
/// probabilities are zero.
#[derive(Debug)]
pub struct FaultInjector {
    prng: Generator,
    last_transition: Vec<u64>,
    now: u64,
    crashes: u64,
    restarts: u64,
}

impl View for FaultInjector {
    type V = InjectorView;

    closed spec fn view(&self) -> InjectorView {
        InjectorView {
            generator: self.prng@,
            last_transition: self.last_transition@,
            now: self.now,
            crashes: self.crashes,
            restarts: self.restarts,
        }
    }
}

impl FaultInjector {
    /// An injector at tick 0.
    pub fn new(seed: u64, replica_count: u8) -> (injector: Self)
        ensures
            injector@.wf(),
            injector@ == InjectorView::fresh(seed, replica_count),
    {
        let mut last_transition: Vec<u64> = Vec::new();
        let mut replica: u8 = 0;
        while replica < replica_count
            invariant
                replica <= replica_count,
                last_transition@.len() == replica,
                forall|i: int| 0 <= i < replica ==> last_transition@[i] == 0,
            decreases replica_count - replica,
        {
            last_transition.push(0);
            replica = replica + 1;
        }
        let injector = FaultInjector {
            prng: Generator::seeded(seed ^ FAULT_SEED_SALT),
            last_transition,
            now: 0,
            crashes: 0,
            restarts: 0,
        };
        assert(injector@.last_transition =~= Seq::new(replica_count as nat, |i: int| 0u64));
        injector
    }

    /// Ticks stepped so far.
    pub fn now(&self) -> (now: u64)
        ensures
            now == self@.now,
    {
        self.now
    }

    /// Crashes injected so far.
    pub fn crashes(&self) -> (count: u64)
        ensures
            count == self@.crashes,
    {
        self.crashes
    }

    /// Restarts injected so far.
    pub fn restarts(&self) -> (count: u64)
        ensures
            count == self@.restarts,
    {
        self.restarts
    }

    fn stable_for(&self, replica: usize) -> (ticks: u64)
        requires
            self@.wf(),
            replica < self@.last_transition.len(),
        ensures
            ticks == self@.stable_for(replica as int),
    {
        self.now - self.last_transition[replica]
    }

    /// The replicas that may be restarted: down for at least
    /// [`WorkloadOptions::crash_stability_ticks`].
    pub fn restart_pool(&self, cluster: &ClusterReading, options: &WorkloadOptions) -> (pool: Vec<
        u8,
    >)
        requires
            self@.wf(),
            cluster.wf(),
            cluster.replicas@.len() <= self@.last_transition.len(),
        ensures
            pool@ == self@.restart_pool(*cluster, *options, cluster.replicas@.len() as int),
            forall|i: int|
                0 <= i < pool@.len() ==> self@.may_restart(
                    *cluster,
                    *options,
                    #[trigger] pool@[i] as int,
                ),
    {
        let mut pool: Vec<u8> = Vec::new();
        let mut index: usize = 0;
        while index < cluster.replicas.len()
            invariant
                self@.wf(),
                cluster.wf(),
                cluster.replicas@.len() <= self@.last_transition.len(),
                index <= cluster.replicas.len(),
                pool@ == self@.restart_pool(*cluster, *options, index as int),
                forall|i: int|
                    0 <= i < pool@.len() ==> self@.may_restart(
                        *cluster,
                        *options,
                        #[trigger] pool@[i] as int,
                    ),
            decreases cluster.replicas.len() - index,
        {
            if cluster.replicas[index].crashed && self.stable_for(index)
                >= options.crash_stability_ticks {
                pool.push(index as u8);
            }
            index = index + 1;
        }
        pool
    }

    /// The replicas that may be crashed: up for at least
    /// [`WorkloadOptions::restart_stability_ticks`], and not a spared primary.
    pub fn crash_pool(&self, cluster: &ClusterReading, options: &WorkloadOptions) -> (pool: Vec<u8>)
        requires
            self@.wf(),
            cluster.wf(),
            cluster.replicas@.len() <= self@.last_transition.len(),
        ensures
            pool@ == self@.crash_pool(*cluster, *options, cluster.replicas@.len() as int),
            forall|i: int|
                0 <= i < pool@.len() ==> self@.may_crash(
                    *cluster,
                    *options,
                    #[trigger] pool@[i] as int,
                ),
    {
        let mut pool: Vec<u8> = Vec::new();
        let mut index: usize = 0;
        while index < cluster.replicas.len()
            invariant
                self@.wf(),
                cluster.wf(),
                cluster.replicas@.len() <= self@.last_transition.len(),
                index <= cluster.replicas.len(),
                pool@ == self@.crash_pool(*cluster, *options, index as int),
                forall|i: int|
                    0 <= i < pool@.len() ==> self@.may_crash(
                        *cluster,
                        *options,
                        #[trigger] pool@[i] as int,
                    ),
            decreases cluster.replicas.len() - index,
        {
            let spared: bool = options.spare_primary && leads(cluster, options, index as u8);
            if !cluster.replicas[index].crashed && !spared && self.stable_for(index)
                >= options.restart_stability_ticks {
                pool.push(index as u8);
            }
            index = index + 1;
        }
        pool
    }

    /// With probability `restart_per_tick_ratio`, picks a replica to restart that
    /// has been down at least `crash_stability_ticks`.
    fn maybe_restart(&mut self, cluster: &ClusterReading, options: &WorkloadOptions) -> (revived:
        Option<u8>)
        requires
            old(self)@.wf(),
            old(self)@.crashes + old(self)@.restarts < old(self)@.now,
            cluster.wf(),
            cluster.replicas@.len() <= old(self)@.last_transition.len(),
        ensures
            final(self)@.wf(),
            revived is Some ==> old(self)@.may_restart(*cluster, *options, revived->0 as int),
            ({
                let (choice, generator) = old(self)@.restart_choice(*cluster, *options);
                &&& revived == choice
                &&& revived is None ==> final(self)@ == (InjectorView { generator, ..old(self)@ })
                &&& revived is Some ==> final(self)@ == (InjectorView {
                    generator,
                    last_transition: old(self)@.last_transition.update(
                        revived->0 as int,
                        old(self)@.now,
                    ),
                    restarts: (old(self)@.restarts + 1) as u64,
                    ..old(self)@
                })
            }),
    {
        if options.restart_per_tick_ratio.parts == 0 {
            return None;
        }
        let pool = self.restart_pool(cluster, options);
        if pool.len() == 0 {
            return None;
        }
        let word: u32 = self.prng.word();
        if !options.restart_per_tick_ratio.hit(word) {
            return None;
        }
        let index: usize = self.prng.range_usize(0, pool.len());
        let revived: u8 = pool[index];
        self.last_transition.set(revived as usize, self.now);
        self.restarts = self.restarts + 1;
        Some(revived)
    }

    /// With probability `crash_per_tick_ratio`, picks a live replica to crash that
    /// has been up at least `restart_stability_ticks`, provided doing so leaves at
    /// least `min_survivors` live.
    fn maybe_crash(&mut self, cluster: &ClusterReading, options: &WorkloadOptions) -> (victim:
        Option<u8>)
        requires
            old(self)@.wf(),
            old(self)@.crashes + old(self)@.restarts < old(self)@.now,
            cluster.wf(),
            cluster.replicas@.len() <= old(self)@.last_transition.len(),
        ensures
            final(self)@.wf(),
            victim is Some ==> old(self)@.may_crash(*cluster, *options, victim->0 as int)
                && live_count(*cluster, cluster.replicas@.len() as int) > options.min_survivors,
            ({
                let (choice, generator) = old(self)@.crash_choice(*cluster, *options);
                &&& victim == choice
                &&& victim is None ==> final(self)@ == (InjectorView { generator, ..old(self)@ })
                &&& victim is Some ==> final(self)@ == (InjectorView {
                    generator,
                    last_transition: old(self)@.last_transition.update(
                        victim->0 as int,
                        old(self)@.now,
                    ),
                    crashes: (old(self)@.crashes + 1) as u64,
                    ..old(self)@
                })
            }),
    {
        if options.crash_per_tick_ratio.parts == 0 {
            return None;
        }
        if count_live(cluster) <= options.min_survivors as usize {
            return None;
        }
        let word: u32 = self.prng.word();
        if !options.crash_per_tick_ratio.hit(word) {
            return None;
        }
        let pool = self.crash_pool(cluster, options);
        proof {
            same_windows_same_crash_pool(
                old(self)@,
                self@,
                *cluster,
                *options,
                cluster.replicas@.len() as int,
            );
        }
        if pool.len() == 0 {
            return None;
        }
        let index: usize = self.prng.range_usize(0, pool.len());
        let victim: u8 = pool[index];
        self.last_transition.set(victim as usize, self.now);
        self.crashes = self.crashes + 1;
        Some(victim)
    }

    /// Advances one tick and maybe crashes or restarts one replica.
    ///
    /// Restart is considered before crash, and a tick that restarts a replica
    /// crashes none: a single tick never both revives and kills, which would make
    /// the stability windows meaningless.
    pub fn step(&mut self, cluster: &ClusterReading, options: &WorkloadOptions) -> (fault: Fault)
        requires
            old(self)@.wf(),
            old(self)@.now < u64::MAX,
            cluster.wf(),
            cluster.replicas@.len() <= old(self)@.last_transition.len(),
        ensures
            final(self)@.wf(),
            (final(self)@, fault) == old(self)@.stepped(*cluster, *options),
            ({
                let ticked = InjectorView { now: (old(self)@.now + 1) as u64, ..old(self)@ };
                match fault {
                    Fault::Quiet => true,
                    Fault::Restart(replica) => ticked.may_restart(
                        *cluster,
                        *options,
                        replica as int,
                    ),
                    Fault::Crash(replica) => {
                        &&& ticked.may_crash(*cluster, *options, replica as int)
                        &&& live_count(*cluster, cluster.replicas@.len() as int)
                            > options.min_survivors
                    },
                }
            }),
    {
        self.now = self.now + 1;
        match self.maybe_restart(cluster, options) {
            Some(replica) => Fault::Restart(replica),
            None => {
                match self.maybe_crash(cluster, options) {
                    Some(replica) => Fault::Crash(replica),
                    None => Fault::Quiet,
                }
            },
        }
    }
}

fn leads(cluster: &ClusterReading, options: &WorkloadOptions, replica: u8) -> (leads: bool)
    ensures
        leads == leads_some(*cluster, options.namespaces@, replica as int),
{
    let mut i: usize = 0;
    while i < options.namespaces.len()
        invariant
            i <= options.namespaces.len(),
            forall|j: int|
                0 <= j < i ==> cluster.primary(#[trigger] options.namespaces@[j]) != Some(replica),
        decreases options.namespaces.len() - i,
    {
        match cluster.primary_index(options.namespaces[i]) {
            Some(primary) => {
                if primary == replica {
                    return true;
                }
            },
            None => {},
        }
        i = i + 1;
    }
    false
}

/// Number of live replicas.
pub fn count_live(cluster: &ClusterReading) -> (count: usize)
    ensures
        count == live_count(*cluster, cluster.replicas@.len() as int),
{
    let mut count: usize = 0;
    let mut index: usize = 0;
    while index < cluster.replicas.len()
        invariant
            index <= cluster.replicas.len(),
            count <= index,
            count == live_count(*cluster, index as int),
        decreases cluster.replicas.len() - index,
    {
        if !cluster.replicas[index].crashed {
            count = count + 1;
        }
        index = index + 1;
    }
    count
}

proof fn same_windows_same_crash_pool(
    left: InjectorView,
    right: InjectorView,
    cluster: ClusterReading,
    options: WorkloadOptions,
    bound: int,
)
    requires
        left.now == right.now,
        left.last_transition == right.last_transition,
    ensures
        left.crash_pool(cluster, options, bound) == right.crash_pool(cluster, options, bound),
    decreases bound,
{
    if bound > 0 {
        same_windows_same_crash_pool(left, right, cluster, options, bound - 1);
    }
}

/// With both probabilities zero the injector does nothing and draws nothing, so a
/// fault-free run replays bit for bit.
pub proof fn zero_ratios_draw_nothing(
    injector: InjectorView,
    cluster: ClusterReading,
    options: WorkloadOptions,
)
    requires
        options.crash_per_tick_ratio.parts == 0,
        options.restart_per_tick_ratio.parts == 0,
    ensures
        injector.stepped(cluster, options) == (
            InjectorView { now: (injector.now + 1) as u64, ..injector },
            Fault::Quiet,
        ),
{
}

/// A tick sees at most one transition: it restarts or crashes one replica, or
/// none, and the two counters together grow by no more than one.
pub proof fn one_transition_per_tick(
    injector: InjectorView,
    cluster: ClusterReading,
    options: WorkloadOptions,
)
    requires
        injector.wf(),
        injector.now < u64::MAX,
    ensures
        ({
            let (after, fault) = injector.stepped(cluster, options);
            match fault {
                Fault::Quiet => after.crashes == injector.crashes && after.restarts
                    == injector.restarts && after.last_transition == injector.last_transition,
                Fault::Restart(replica) => after.crashes == injector.crashes && after.restarts
                    == injector.restarts + 1 && after.last_transition
                    == injector.last_transition.update(replica as int, after.now),
                Fault::Crash(replica) => after.crashes == injector.crashes + 1 && after.restarts
                    == injector.restarts && after.last_transition
                    == injector.last_transition.update(replica as int, after.now),
            }
        }),
{
}

/// A replica whose last transition lies less than the applicable window back can
/// neither fail nor be repaired: a crash lasts at least the crash window, a
/// restart at least the restart window.
pub proof fn windows_hold_replicas(
    injector: InjectorView,
    cluster: ClusterReading,
    options: WorkloadOptions,
    replica: int,
)
    requires
        0 <= replica < cluster.replicas@.len(),
        injector.last_transition.len() >= cluster.replicas@.len(),
    ensures
        injector.now < injector.last_transition[replica] + options.crash_stability_ticks
            ==> !injector.may_restart(cluster, options, replica),
        injector.now < injector.last_transition[replica] + options.restart_stability_ticks
            ==> !injector.may_crash(cluster, options, replica),
{
}

proof fn live_count_after_crash(
    before: ClusterReading,
    after: ClusterReading,
    victim: int,
    bound: int,
)
    requires
        before.replicas@.len() == after.replicas@.len(),
        0 <= bound <= before.replicas@.len(),
        before.live(victim),
        forall|i: int|
            0 <= i < before.replicas@.len() ==> (#[trigger] after.replicas@[i]).crashed == (
            before.replicas@[i].crashed || i == victim),
    ensures
        live_count(after, bound) == live_count(before, bound) - if victim < bound {
            1int
        } else {
            0
        },
    decreases bound,
{
    if bound > 0 {
        live_count_after_crash(before, after, victim, bound - 1);
        assert(after.replicas@[bound - 1].crashed == (before.replicas@[bound - 1].crashed || bound
            - 1 == victim));
    }
}

/// Injection preserves the floor on survivors: where more than the floor were
/// live, as they are whenever a crash is injected, crashing one live replica
/// leaves at least the floor.
pub proof fn crash_leaves_survivors(
    before: ClusterReading,
    after: ClusterReading,
    victim: int,
    min_survivors: u8,
)
    requires
        before.replicas@.len() == after.replicas@.len(),
        before.live(victim),
        live_count(before, before.replicas@.len() as int) > min_survivors,
        forall|i: int|
            0 <= i < before.replicas@.len() ==> (#[trigger] after.replicas@[i]).crashed == (
            before.replicas@[i].crashed || i == victim),
    ensures
        live_count(after, after.replicas@.len() as int) >= min_survivors,
{
    live_count_after_crash(before, after, victim, before.replicas@.len() as int);
}

/// A replica may be restarted exactly if it is down and its last transition lies at
/// least the crash window back.
pub proof fn restart_needs_the_crash_window(
    injector: InjectorView,
    cluster: ClusterReading,
    options: WorkloadOptions,
    replica: int,
)
    requires
        0 <= replica < cluster.replicas@.len(),
    ensures
        injector.may_restart(cluster, options, replica) <==> cluster.replicas@[replica].crashed
            && injector.last_transition[replica] + options.crash_stability_ticks <= injector.now,
{
}

/// A replica may be crashed exactly if it is up, its last transition lies at least
/// the restart window back, and, where primaries are spared, no tracked namespace
/// has it as its primary.
pub proof fn crash_needs_the_restart_window(
    injector: InjectorView,
    cluster: ClusterReading,
    options: WorkloadOptions,
    replica: int,
)
    requires
        0 <= replica < cluster.replicas@.len() <= 255,
    ensures
        injector.may_crash(cluster, options, replica) <==> {
            &&& !cluster.replicas@[replica].crashed
            &&& injector.last_transition[replica] + options.restart_stability_ticks <= injector.now
            &&& options.spare_primary ==> forall|i: int|
                0 <= i < options.namespaces@.len() ==> cluster.primary(
                    #[trigger] options.namespaces@[i],
                ) != Some(replica as u8)
        },
{
    assert(cluster.live(replica) == !cluster.replicas@[replica].crashed);
}

/// Nothing outside the cluster is ever a candidate.
pub proof fn candidates_are_replicas(
    injector: InjectorView,
    cluster: ClusterReading,
    options: WorkloadOptions,
    replica: int,
)
    requires
        !(0 <= replica < cluster.replicas@.len()),
    ensures
        !injector.may_restart(cluster, options, replica),
        !injector.may_crash(cluster, options, replica),
{
}

/// The replica `r` stands in a pool.
pub open spec fn pooled(pool: Seq<u8>, replica: int) -> bool {
    exists|i: int| 0 <= i < pool.len() && #[trigger] pool[i] == replica
}

/// The candidates for a restart are the replicas that may be restarted, each once,
/// in ascending order.
pub proof fn restart_pool_holds_the_candidates(
    injector: InjectorView,
    cluster: ClusterReading,
    options: WorkloadOptions,
    bound: int,
)
    requires
        0 <= bound <= cluster.replicas@.len() <= 255,
    ensures
        forall|replica: int| #[trigger]
            pooled(injector.restart_pool(cluster, options, bound), replica) <==> 0 <= replica
                < bound && injector.may_restart(cluster, options, replica),
        forall|i: int, j: int|
            0 <= i < j < injector.restart_pool(cluster, options, bound).len()
                ==> #[trigger] injector.restart_pool(cluster, options, bound)[i]
                < #[trigger] injector.restart_pool(cluster, options, bound)[j],
        injector.restart_pool(cluster, options, bound).len() <= bound,
    decreases bound,
{
    let pool = injector.restart_pool(cluster, options, bound);
    if bound > 0 {
        restart_pool_holds_the_candidates(injector, cluster, options, bound - 1);
        let before = injector.restart_pool(cluster, options, bound - 1);
        assert forall|i: int| 0 <= i < before.len() implies #[trigger] before[i] < bound - 1 by {
            assert(pooled(before, before[i] as int));
        }
        assert forall|replica: int| #[trigger] pooled(pool, replica) <==> 0 <= replica < bound
            && injector.may_restart(cluster, options, replica) by {
            if pooled(before, replica) {
                let i = choose|i: int| 0 <= i < before.len() && #[trigger] before[i] == replica;
                assert(pool[i] == replica);
            }
            if pooled(pool, replica) {
                let i = choose|i: int| 0 <= i < pool.len() && #[trigger] pool[i] == replica;
                if i < before.len() {
                    assert(before[i] == replica);
                    assert(pooled(before, replica));
                }
            }
            if replica == bound - 1 && injector.may_restart(cluster, options, replica) {
                assert(pool[before.len() as int] == replica);
            }
            if 0 <= replica < bound - 1 && injector.may_restart(cluster, options, replica) {
                assert(pooled(before, replica));
            }
        }
    }
}

/// The candidates for a crash are the replicas that may be crashed, each once, in
/// ascending order.
pub proof fn crash_pool_holds_the_candidates(
    injector: InjectorView,
    cluster: ClusterReading,
    options: WorkloadOptions,
    bound: int,
)
    requires
        0 <= bound <= cluster.replicas@.len() <= 255,
    ensures
        forall|replica: int| #[trigger]
            pooled(injector.crash_pool(cluster, options, bound), replica) <==> 0 <= replica < bound
                && injector.may_crash(cluster, options, replica),
        forall|i: int, j: int|
            0 <= i < j < injector.crash_pool(cluster, options, bound).len()
                ==> #[trigger] injector.crash_pool(cluster, options, bound)[i]
                < #[trigger] injector.crash_pool(cluster, options, bound)[j],
        injector.crash_pool(cluster, options, bound).len() <= bound,
    decreases bound,
{
    let pool = injector.crash_pool(cluster, options, bound);
    if bound > 0 {
        crash_pool_holds_the_candidates(injector, cluster, options, bound - 1);
        let before = injector.crash_pool(cluster, options, bound - 1);
        assert forall|i: int| 0 <= i < before.len() implies #[trigger] before[i] < bound - 1 by {
            assert(pooled(before, before[i] as int));
        }
        assert forall|replica: int| #[trigger] pooled(pool, replica) <==> 0 <= replica < bound
            && injector.may_crash(cluster, options, replica) by {
            if pooled(before, replica) {
                let i = choose|i: int| 0 <= i < before.len() && #[trigger] before[i] == replica;
                assert(pool[i] == replica);
            }
            if pooled(pool, replica) {
                let i = choose|i: int| 0 <= i < pool.len() && #[trigger] pool[i] == replica;
                if i < before.len() {
                    assert(before[i] == replica);
                    assert(pooled(before, replica));
                }
            }
            if replica == bound - 1 && injector.may_crash(cluster, options, replica) {
                assert(pool[before.len() as int] == replica);
            }
            if 0 <= replica < bound - 1 && injector.may_crash(cluster, options, replica) {
                assert(pooled(before, replica));
            }
        }
    }
}

/// The live replicas below a bound.
pub open spec fn live_set(cluster: ClusterReading, bound: int) -> Set<int> {
    Set::new(
        |replica: int|
            0 <= replica < bound && replica < cluster.replicas@.len()
                && !cluster.replicas@[replica].crashed,
    )
}

/// The survivor count is the number of live replicas.
pub proof fn live_replicas_are_counted(cluster: ClusterReading, bound: int)
    ensures
        live_set(cluster, bound).finite(),
        live_count(cluster, bound) == live_set(cluster, bound).len(),
    decreases bound,
{
    if bound <= 0 {
        assert(live_set(cluster, bound) =~= Set::empty());
    } else {
        live_replicas_are_counted(cluster, bound - 1);
        if cluster.live(bound - 1) {
            assert(live_set(cluster, bound) =~= live_set(cluster, bound - 1).insert(bound - 1));
        } else {
            assert(live_set(cluster, bound) =~= live_set(cluster, bound - 1));
        }
    }
}

/// Some replica is a candidate for a restart at the given tick.
pub open spec fn some_restartable(
    injector: InjectorView,
    cluster: ClusterReading,
    options: WorkloadOptions,
    now: int,
) -> bool {
    exists|r: int|
        0 <= r < cluster.replicas@.len() && (#[trigger] cluster.replicas@[r]).crashed
            && injector.last_transition[r] + options.crash_stability_ticks <= now
}

/// Some replica is a candidate for a crash at the given tick.
pub open spec fn some_crashable(
    injector: InjectorView,
    cluster: ClusterReading,
    options: WorkloadOptions,
    now: int,
) -> bool {
    exists|r: int|
        0 <= r < cluster.replicas@.len() && !(#[trigger] cluster.replicas@[r]).crashed
            && injector.last_transition[r] + options.restart_stability_ticks <= now && !(
        options.spare_primary && leads_some(cluster, options.namespaces@, r))
}

/// A tick restarts a replica exactly if restarts are enabled, some replica has been
/// down for the crash window, and the word then drawn rolls under the restart ratio.
/// Failing that, it crashes one exactly if crashes are enabled, more than the floor
/// are live, the word then drawn rolls under the crash ratio, and some replica has
/// been up for the restart window and is not spared. Otherwise it is quiet.
pub proof fn faults_follow_their_rolls(
    injector: InjectorView,
    cluster: ClusterReading,
    options: WorkloadOptions,
)
    requires
        injector.now < u64::MAX,
        cluster.replicas@.len() <= 255,
    ensures
        ({
            let now = injector.now + 1;
            let (after, fault) = injector.stepped(cluster, options);
            let considers = options.restart_per_tick_ratio.parts > 0 && some_restartable(
                injector,
                cluster,
                options,
                now,
            );
            let (word, rolled) = word_draw(injector.generator);
            let revives = considers && word < 256 * options.restart_per_tick_ratio.parts;
            let kept = if considers {
                rolled
            } else {
                injector.generator
            };
            let allowed = options.crash_per_tick_ratio.parts > 0 && live_set(
                cluster,
                cluster.replicas@.len() as int,
            ).len() > options.min_survivors;
            let (crash_word, crash_rolled) = word_draw(kept);
            let strikes = allowed && crash_word < 256 * options.crash_per_tick_ratio.parts;
            let kills = strikes && some_crashable(injector, cluster, options, now);
            &&& fault is Restart <==> revives
            &&& fault is Crash <==> !revives && kills
            &&& fault is Quiet <==> !revives && !kills
            &&& fault is Quiet ==> after.generator == if allowed {
                crash_rolled
            } else {
                kept
            }
            &&& after.now == now
        }),
{
    let count = cluster.replicas@.len() as int;
    let ticked = InjectorView { now: (injector.now + 1) as u64, ..injector };
    let pool = ticked.restart_pool(cluster, options, count);
    restart_pool_holds_the_candidates(ticked, cluster, options, count);
    if pool.len() > 0 {
        let r = pool[0] as int;
        assert(pooled(pool, r));
        assert(cluster.replicas@[r].crashed);
    }
    if some_restartable(injector, cluster, options, injector.now + 1) {
        let r = choose|r: int|
            0 <= r < cluster.replicas@.len() && (#[trigger] cluster.replicas@[r]).crashed
                && injector.last_transition[r] + options.crash_stability_ticks <= injector.now + 1;
        assert(ticked.may_restart(cluster, options, r));
        assert(pooled(pool, r));
    }
    let kept = ticked.restart_choice(cluster, options).1;
    let drawn = InjectorView { generator: kept, ..ticked };
    let crash_pool = drawn.crash_pool(cluster, options, count);
    crash_pool_holds_the_candidates(drawn, cluster, options, count);
    live_replicas_are_counted(cluster, count);
    if crash_pool.len() > 0 {
        let r = crash_pool[0] as int;
        assert(pooled(crash_pool, r));
        assert(drawn.may_crash(cluster, options, r));
        assert(!cluster.replicas@[r].crashed);
    }
    if some_crashable(injector, cluster, options, injector.now + 1) {
        let r = choose|r: int|
            0 <= r < cluster.replicas@.len() && !(#[trigger] cluster.replicas@[r]).crashed
                && injector.last_transition[r] + options.restart_stability_ticks <= injector.now + 1
                && !(options.spare_primary && leads_some(cluster, options.namespaces@, r));
        assert(drawn.may_crash(cluster, options, r));
        assert(pooled(crash_pool, r));
    }
}

/// Which replica a fault hits is drawn among the candidates, after the roll: the
/// drawn place in the ascending list of those that may be restarted, or crashed.
pub proof fn faults_hit_the_drawn_candidate(
    injector: InjectorView,
    cluster: ClusterReading,
    options: WorkloadOptions,
)
    requires
        injector.now < u64::MAX,
    ensures
        ({
            let count = cluster.replicas@.len() as int;
            let ticked = InjectorView { now: (injector.now + 1) as u64, ..injector };
            let restartable = ticked.restart_pool(cluster, options, count);
            let crashable = ticked.crash_pool(cluster, options, count);
            let (after, fault) = injector.stepped(cluster, options);
            let rolled = word_draw(injector.generator).1;
            let considers = options.restart_per_tick_ratio.parts > 0 && restartable.len() > 0;
            let kept = if considers {
                rolled
            } else {
                injector.generator
            };
            let crash_rolled = word_draw(kept).1;
            &&& fault matches Fault::Restart(replica) ==> {
                let (place, left) = usize_draw(rolled, 0, restartable.len() as usize);
                replica == restartable[place as int] && after.generator == left
            }
            &&& fault matches Fault::Crash(replica) ==> {
                let (place, left) = usize_draw(crash_rolled, 0, crashable.len() as usize);
                replica == crashable[place as int] && after.generator == left
            }
        }),
{
    let count = cluster.replicas@.len() as int;
    let ticked = InjectorView { now: (injector.now + 1) as u64, ..injector };
    let kept = ticked.restart_choice(cluster, options).1;
    let drawn = InjectorView { generator: kept, ..ticked };
    same_windows_same_crash_pool(ticked, drawn, cluster, options, count);
}

/// A fresh injector starts at tick 0 with every replica's clock at 0 and a generator
/// of its own: seeded from the workload's seed under a salt, so never with it.
pub proof fn fresh_injectors_have_their_own_generator(seed: u64, replica_count: u8, replica: int)
    requires
        0 <= replica < replica_count,
    ensures
        ({
            let fresh = InjectorView::fresh(seed, replica_count);
            &&& fresh.generator == seeded_state(seed ^ 0x5A1A_F0E5_FACE_0001u64)
            &&& seed ^ 0x5A1A_F0E5_FACE_0001u64 != seed
            &&& fresh.last_transition.len() == replica_count
            &&& fresh.last_transition[replica] == 0
            &&& fresh.now == 0
            &&& fresh.crashes == 0
            &&& fresh.restarts == 0
        }),
{
    assert(seed ^ 0x5A1A_F0E5_FACE_0001u64 != seed) by (bit_vector);
}

/// A replica leads some namespace exactly if one of them lists it as its primary.
pub proof fn leaders_are_listed_primaries(
    cluster: ClusterReading,
    namespaces: Seq<IggyNamespace>,
    replica: u8,
    place: int,
)
    ensures
        0 <= place < namespaces.len() && cluster.primary(namespaces[place]) == Some(replica)
            ==> leads_some(cluster, namespaces, replica as int),
        (forall|i: int|
            0 <= i < namespaces.len() ==> cluster.primary(#[trigger] namespaces[i]) != Some(
                replica,
            )) ==> !leads_some(cluster, namespaces, replica as int),
{
}

/// The places drawn lie in the pools they are drawn for, as every draw of a range
/// does.
pub open spec fn fault_choices_fit(
    injector: InjectorView,
    cluster: ClusterReading,
    options: WorkloadOptions,
) -> bool {
    let count = cluster.replicas@.len() as int;
    let ticked = InjectorView { now: (injector.now + 1) as u64, ..injector };
    let restartable = ticked.restart_pool(cluster, options, count).len() as usize;
    let crashable = ticked.crash_pool(cluster, options, count).len() as usize;
    let rolled = word_draw(injector.generator).1;
    &&& restartable > 0 ==> usize_draw(rolled, 0, restartable).0 < restartable
    &&& crashable > 0 ==> usize_draw(rolled, 0, crashable).0 < crashable
    &&& crashable > 0 ==> usize_draw(word_draw(rolled).1, 0, crashable).0 < crashable
}

/// A restart is of a replica that is down, a crash of one that is up; each is counted
/// once and starts the replica's window over, and a quiet tick changes no count and
/// no window.
pub proof fn drawn_faults_are_candidates(
    injector: InjectorView,
    cluster: ClusterReading,
    options: WorkloadOptions,
)
    requires
        injector.wf(),
        injector.now < u64::MAX,
        cluster.replicas@.len() <= 255,
        cluster.replicas@.len() <= injector.last_transition.len(),
        fault_choices_fit(injector, cluster, options),
    ensures
        ({
            let (after, fault) = injector.stepped(cluster, options);
            match fault {
                Fault::Quiet => {
                    &&& after.crashes == injector.crashes
                    &&& after.restarts == injector.restarts
                    &&& after.last_transition == injector.last_transition
                },
                Fault::Restart(replica) => {
                    &&& replica < cluster.replicas@.len()
                    &&& cluster.replicas@[replica as int].crashed
                    &&& after.restarts == injector.restarts + 1
                    &&& after.crashes == injector.crashes
                    &&& after.last_transition == injector.last_transition.update(
                        replica as int,
                        (injector.now + 1) as u64,
                    )
                },
                Fault::Crash(replica) => {
                    &&& replica < cluster.replicas@.len()
                    &&& !cluster.replicas@[replica as int].crashed
                    &&& after.crashes == injector.crashes + 1
                    &&& after.restarts == injector.restarts
                    &&& after.last_transition == injector.last_transition.update(
                        replica as int,
                        (injector.now + 1) as u64,
                    )
                },
            }
        }),
{
    let count = cluster.replicas@.len() as int;
    let ticked = InjectorView { now: (injector.now + 1) as u64, ..injector };
    let kept = ticked.restart_choice(cluster, options).1;
    let drawn = InjectorView { generator: kept, ..ticked };
    same_windows_same_crash_pool(ticked, drawn, cluster, options, count);
    restart_pool_holds_the_candidates(ticked, cluster, options, count);
    crash_pool_holds_the_candidates(ticked, cluster, options, count);
    let restartable = ticked.restart_pool(cluster, options, count);
    let crashable = ticked.crash_pool(cluster, options, count);
    match injector.stepped(cluster, options).1 {
        Fault::Restart(replica) => {
            let place = usize_draw(
                word_draw(injector.generator).1,
                0,
                restartable.len() as usize,
            ).0 as int;
            assert(restartable[place] == replica);
            assert(pooled(restartable, replica as int));
        },
        Fault::Crash(replica) => {
            let place = usize_draw(word_draw(kept).1, 0, crashable.len() as usize).0 as int;
            assert(crashable[place] == replica);
            assert(pooled(crashable, replica as int));
        },
        Fault::Quiet => {},
    }
}

} // verus!
