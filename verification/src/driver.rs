//! The run loops, as decisions.
//!
//! A driver owns the cluster: it performs what these functions ask for and reports
//! back what happened. Each function takes the loop's state and the latest event
//! and says what to do next.
//!
//! A run is driven tick by tick: open the tick, inject its fault, submit its
//! resends, sample a request for every idle client, step the network, report each
//! reply, close the tick. Draining and waiting for a stable view are driven the
//! same way, without faults or new requests.

use crate::action::ACTION_COUNT;
use crate::cluster::{ClusterReading, IggyNamespace};
use crate::faults::{
    drawn_faults_are_candidates, fault_choices_fit, Fault, FaultInjector, InjectorView,
};
use crate::invariants::{
    inspected, passed_checks_compared_the_chains, InvariantFault, Invariants, InvariantsView,
};
use crate::oracle::{views_are_settled, views_settled};
use crate::retry::{entry_for, holds, resends_follow_the_timeout};
use crate::state_checker::newly_committed;
use crate::workload::{
    admission_keeps_senders, after_due, answered, apply_sim_commands, due_messages, materialised,
    overdue_requests_are_submitted, planned, replies_keep_senders, resends_keep_senders,
    resubmit_due, sent, sent_by, sent_request_is_recorded, submissions, unsampled, CommittedEffect, Reply, ReplyFault, RequestPlan, SampledRequest, SimCommand,
    Submission, SubmissionView, Workload, WorkloadView,
};
use vstd::prelude::*;

verus! {

/// Settle window stepped after the last reply, before convergence is checked.
///
/// The primary broadcasts its commit number on a timer of 50 ticks, so a trailing
/// backup applies the final committed prepare only on the next such broadcast. The
/// window must span more than one interval; idle heartbeats never break
/// convergence because committed state only advances.
pub const QUIESCE_SETTLE_TICKS: u64 = 200;

/// How far a run has come.
#[derive(Debug, Clone, Copy, PartialEq, Eq, Structural)]
pub struct Progress {
    pub ticks_left: u64,
    pub replies_target: u64,
    pub replies_seen: u64,
    /// The reply target was met when a tick closed.
    pub stopped: bool,
}

impl Progress {
    /// A run that has not started.
    pub open spec fn fresh(tick_budget: u64, replies_target: u64) -> Progress {
        Progress { ticks_left: tick_budget, replies_target, replies_seen: 0, stopped: false }
    }

    /// No tick is left to drive.
    pub open spec fn finished(self) -> bool {
        self.stopped || self.ticks_left == 0
    }

    /// A tick was opened.
    pub open spec fn opened(self) -> Progress {
        Progress { ticks_left: (self.ticks_left - 1) as u64, ..self }
    }

    /// A reply was seen.
    pub open spec fn counted(self) -> Progress {
        Progress { replies_seen: (self.replies_seen + 1) as u64, ..self }
    }

    /// The tick was closed.
    pub open spec fn closed(self) -> Progress {
        Progress { stopped: self.replies_seen >= self.replies_target, ..self }
    }
}

/// A run under way: how far it has come, the clients it drives, and the
/// invariants it is held to.
#[derive(Debug)]
pub struct Run {
    progress: Progress,
    invariants: Invariants,
    clients: Vec<u128>,
    /// Clients offered a request in the current tick.
    offered: usize,
    /// The request being sampled.
    pending: Option<(u128, RequestPlan)>,
}

/// A run under way.
pub ghost struct RunView {
    pub progress: Progress,
    pub invariants: InvariantsView,
    pub clients: Seq<u128>,
    pub offered: int,
    pub pending: Option<(u128, RequestPlan)>,
}

impl RunView {
    /// At most every client was offered a request, and a request being sampled is
    /// one of the clients' and goes to a replica.
    pub open spec fn wf(self) -> bool {
        &&& 0 <= self.offered <= self.clients.len()
        &&& self.pending matches Some((client, plan)) ==> {
            &&& plan.target < 255
            &&& self.clients.contains(client)
        }
    }

    /// A run that has not started.
    pub open spec fn is_fresh(
        self,
        clients: Seq<u128>,
        tick_budget: u64,
        replies_target: u64,
    ) -> bool {
        &&& self.wf()
        &&& self.progress == Progress::fresh(tick_budget, replies_target)
        &&& self.invariants.is_blank()
        &&& self.clients == clients
        &&& self.offered == 0
        &&& self.pending is None
    }
}

impl View for Run {
    type V = RunView;

    closed spec fn view(&self) -> RunView {
        RunView {
            progress: self.progress,
            invariants: self.invariants@,
            clients: self.clients@,
            offered: self.offered as int,
            pending: self.pending,
        }
    }
}

impl Run {
    /// A run that has not started. It ends after `tick_budget` ticks, or after the
    /// tick in which the `replies_target`th reply is seen.
    pub fn new(clients: Vec<u128>, tick_budget: u64, replies_target: u64) -> (run: Self)
        ensures
            run@.is_fresh(clients@, tick_budget, replies_target),
    {
        Run {
            progress: Progress {
                ticks_left: tick_budget,
                replies_target,
                replies_seen: 0,
                stopped: false,
            },
            invariants: Invariants::new(),
            clients,
            offered: 0,
            pending: None,
        }
    }

    /// How far the run has come.
    pub fn progress(&self) -> (progress: Progress)
        ensures
            progress == self@.progress,
    {
        self.progress
    }

    /// The invariants the run is held to.
    pub fn invariants(&self) -> (invariants: &Invariants)
        ensures
            invariants@ == self@.invariants,
    {
        &self.invariants
    }

    /// The request being sampled: its client and its plan.
    pub fn pending(&self) -> (pending: Option<(u128, RequestPlan)>)
        ensures
            pending == self@.pending,
    {
        self.pending
    }
}

impl Run {
    /// Plans a request for the next idle client, if one is left in this tick.
    fn offer(&mut self, workload: &mut Workload, outcome_counts: &[usize]) -> (offered: Option<
        (u128, RequestPlan),
    >)
        requires
            old(self)@.wf(),
            old(workload)@.wf(),
            outcome_counts@.len() == ACTION_COUNT,
        ensures
            final(self)@.wf(),
            final(workload)@.wf(),
            final(self)@ == (RunView {
                offered: final(self)@.offered,
                pending: offered,
                ..old(self)@
            }),
            ({
                let clients = old(self)@.clients;
                let next = next_idle(old(workload)@, clients, old(self)@.offered);
                if next < clients.len() {
                    let (picked, generator) = planned(
                        old(workload)@.generator,
                        old(workload)@.options,
                        outcome_counts@,
                    );
                    &&& offered == Some((clients[next], picked))
                    &&& final(self)@.offered == next + 1
                    &&& final(workload)@ == (WorkloadView { generator, ..old(workload)@ })
                } else {
                    &&& offered is None
                    &&& final(self)@.offered == clients.len()
                    &&& final(workload)@ == old(workload)@
                }
            }),
    {
        let ghost before = self@;
        self.pending = None;
        while self.offered < self.clients.len()
            invariant
                0 <= self@.offered <= self@.clients.len(),
                workload@.wf(),
                outcome_counts@.len() == ACTION_COUNT,
                workload@ == old(workload)@,
                before == old(self)@,
                self@ == (RunView { offered: self@.offered, pending: None, ..before }),
                next_idle(workload@, before.clients, before.offered) == next_idle(
                    workload@,
                    before.clients,
                    self@.offered,
                ),
            decreases self@.clients.len() - self@.offered,
        {
            let client: u128 = self.clients[self.offered];
            self.offered = self.offered + 1;
            match workload.pick_request(client, outcome_counts) {
                Some(plan) => {
                    self.pending = Some((client, plan));
                    return self.pending;
                },
                None => {},
            }
        }
        None
    }
}

/// What happened in a run.
#[derive(Debug)]
pub enum RunEvent<'a> {
    /// The next tick is due; the cluster as it stands.
    TickOpens(&'a ClusterReading),
    /// The next request may be planned; how many outcomes each action declares, in
    /// declaration order.
    Offer(&'a [usize]),
    /// The command layer sampled the planned request, or could not; the state it
    /// left the traffic generator in.
    Sampled { generator: [u8; 32], sampled: Option<SampledRequest> },
    /// The network delivered a reply; what the command layer made of its result.
    Replied(Reply, CommittedEffect),
    /// All replies of the tick were reported; the cluster as it stands.
    TickCloses(&'a ClusterReading),
}

/// What a run asks for.
#[derive(Debug)]
pub enum RunAction {
    /// Inject the fault, submit the resends, offer to plan requests.
    Drive { fault: Fault, resends: Vec<Submission> },
    /// Sample the planned request of a client.
    Sample { client: u128, plan: RequestPlan },
    /// Submit the sampled request, if there is one.
    Submit(Option<Submission>),
    /// Every client was offered a request: step the network.
    StepNetwork,
    /// Materialise the partition groups of these namespaces.
    Materialise(Vec<IggyNamespace>),
    /// Open the next tick.
    NextTick,
    /// The run is over; the number of replies seen.
    Finished(u64),
}

/// The first client from `offered` on that has a free in-flight slot; the number
/// of clients if there is none.
pub open spec fn next_idle(workload: WorkloadView, clients: Seq<u128>, offered: int) -> int
    decreases clients.len() - offered,
{
    if offered >= clients.len() || workload.idle(clients[offered]) {
        offered
    } else {
        next_idle(workload, clients, offered + 1)
    }
}

/// Offering skips busy clients alone: none with a free slot is passed over.
pub proof fn offers_skip_only_busy_clients(
    workload: WorkloadView,
    clients: Seq<u128>,
    offered: int,
)
    requires
        0 <= offered <= clients.len(),
    ensures
        offered <= next_idle(workload, clients, offered) <= clients.len(),
        next_idle(workload, clients, offered) < clients.len() ==> workload.idle(
            clients[next_idle(workload, clients, offered)],
        ),
        forall|i: int|
            offered <= i < next_idle(workload, clients, offered) ==> !workload.idle(
                #[trigger] clients[i],
            ),
    decreases clients.len() - offered,
{
    if offered < clients.len() && !workload.idle(clients[offered]) {
        offers_skip_only_busy_clients(workload, clients, offered + 1);
    }
}

/// What ends a run in failure.
#[derive(Debug)]
pub enum RunFault {
    /// A reply no correct server gives.
    Reply(ReplyFault),
    /// A violated invariant.
    Invariant(InvariantFault),
}

/// What is on its way into the network.
pub open spec fn on_their_way(resends: Seq<Submission>) -> Seq<SubmissionView> {
    resends.map_values(|submission: Submission| submission@)
}

/// The workload one tick later.
pub open spec fn ticked(workload: WorkloadView) -> WorkloadView {
    WorkloadView { now: (workload.now + 1) as u64, ..workload }
}

/// The namespaces a list of follow-ups materialises.
pub open spec fn materialised_all(commands: Seq<SimCommand>) -> Seq<IggyNamespace> {
    commands.map_values(|command: SimCommand| materialised(command))
}

/// The counters have room for the tick.
pub open spec fn can_tick(workload: WorkloadView) -> bool {
    workload.wf() && workload.now < u64::MAX && workload.can_resend()
}

/// Starts a run with a fault injector of its own, seeded from the workload's.
/// The injector stays idle unless one of the two fault probabilities is set.
pub fn run(
    workload: &Workload,
    replica_count: u8,
    clients: Vec<u128>,
    tick_budget: u64,
    replies_target: u64,
) -> (started: (Run, FaultInjector))
    ensures
        started.0@.is_fresh(clients@, tick_budget, replies_target),
        started.1@ == InjectorView::fresh(workload@.options.seed, replica_count),
        started.1@.wf(),
{
    let injector = FaultInjector::new(workload.options().seed, replica_count);
    (Run::new(clients, tick_budget, replies_target), injector)
}

/// What an event needs: room in the counters it advances, and an answer that
/// belongs to the question asked.
pub open spec fn event_fits(
    event: RunEvent<'_>,
    run: RunView,
    workload: WorkloadView,
    injector: InjectorView,
) -> bool {
    match event {
        RunEvent::TickOpens(cluster) => !run.progress.finished() ==> {
            &&& cluster.wf()
            &&& cluster.replicas@.len() <= injector.last_transition.len()
            &&& can_tick(workload)
            &&& injector.now < u64::MAX
        },
        RunEvent::Offer(outcome_counts) => outcome_counts@.len() == ACTION_COUNT,
        RunEvent::Sampled { generator, sampled } => {
            &&& run.pending matches Some((client, plan))
            &&& workload.idle(client)
            &&& workload.samples_none < u64::MAX
        },
        RunEvent::Replied(reply, effect) => workload.can_count() && run.progress.replies_seen
            < u64::MAX,
        RunEvent::TickCloses(cluster) => cluster.wf(),
    }
}

/// Everything a run's decisions read and change.
pub ghost struct RunState {
    pub run: RunView,
    pub workload: WorkloadView,
    pub injector: InjectorView,
}

/// What a run decides on an event, and what it leaves behind.
pub open spec fn decided(
    before: RunState,
    event: RunEvent<'_>,
    after: RunState,
    result: Result<RunAction, RunFault>,
) -> bool {
    match event {
        RunEvent::TickOpens(cluster) => if before.run.progress.finished() {
            &&& result matches Ok(RunAction::Finished(replies))
            &&& replies == before.run.progress.replies_seen
            &&& after.run == before.run
            &&& after.workload == before.workload
            &&& after.injector == before.injector
        } else {
            &&& result matches Ok(RunAction::Drive { fault, resends })
            &&& (after.injector, fault) == before.injector.stepped(
                *cluster,
                before.workload.options,
            )
            &&& on_their_way(resends@) == submissions(due_messages(ticked(before.workload)))
            &&& after.workload == after_due(ticked(before.workload))
            &&& after.run == (RunView {
                progress: before.run.progress.opened(),
                offered: 0,
                pending: None,
                ..before.run
            })
        },
        RunEvent::Offer(outcome_counts) => {
            let clients = before.run.clients;
            let next = next_idle(before.workload, clients, before.run.offered);
            &&& after.injector == before.injector
            &&& if next < clients.len() {
                let (picked, generator) = planned(
                    before.workload.generator,
                    before.workload.options,
                    outcome_counts@,
                );
                &&& result matches Ok(RunAction::Sample { client, plan })
                &&& client == clients[next]
                &&& plan == picked
                &&& after.workload == (WorkloadView { generator, ..before.workload })
                &&& after.run == (RunView {
                    offered: next + 1,
                    pending: Some((client, plan)),
                    ..before.run
                })
            } else {
                &&& result matches Ok(RunAction::StepNetwork)
                &&& after.workload == before.workload
                &&& after.run == (RunView {
                    offered: clients.len() as int,
                    pending: None,
                    ..before.run
                })
            }
        },
        RunEvent::Sampled { generator, sampled } => {
            let (client, plan) = before.run.pending->0;
            &&& after.injector == before.injector
            &&& after.run == (RunView { pending: None, ..before.run })
            &&& match sampled {
                None => {
                    &&& result matches Ok(RunAction::Submit(submission))
                    &&& submission is None
                    &&& after.workload == unsampled(before.workload, generator@)
                },
                Some(sample) => {
                    &&& result matches Ok(RunAction::Submit(submission))
                    &&& submission is Some
                    &&& submission->0@ == (SubmissionView {
                        client,
                        target: plan.target,
                        message: sample.message@,
                    })
                    &&& after.workload == sent(
                        before.workload,
                        client,
                        plan,
                        sample,
                        generator@,
                    )
                },
            }
        },
        RunEvent::Replied(reply, effect) => {
            let (next, outcome) = answered(before.workload, reply, effect);
            &&& after.injector == before.injector
            &&& after.workload == next
            &&& match outcome {
                Ok(commands) => {
                    &&& result matches Ok(RunAction::Materialise(namespaces))
                    &&& namespaces@ == materialised_all(commands)
                    &&& after.run == (RunView {
                        progress: before.run.progress.counted(),
                        ..before.run
                    })
                },
                Err(found) => {
                    &&& result matches Err(RunFault::Reply(fault))
                    &&& fault == found
                    &&& after.run == before.run
                },
            }
        },
        RunEvent::TickCloses(cluster) => {
            let (checked_run, violated) = inspected(
                before.run.invariants,
                *cluster,
                before.workload.options.namespaces@,
                before.workload.outstanding.len() as usize,
                before.workload.options.client_count,
            );
            let closed = before.run.progress.closed();
            &&& after.injector == before.injector
            &&& after.workload == before.workload
            &&& match violated {
                Some(found) => {
                    &&& result matches Err(RunFault::Invariant(fault))
                    &&& fault@ == found
                    &&& found.wf()
                    &&& after.run == (RunView { invariants: checked_run, ..before.run })
                },
                None => {
                    &&& after.run == (RunView {
                        invariants: checked_run,
                        progress: closed,
                        ..before.run
                    })
                    &&& if closed.finished() {
                        &&& result matches Ok(RunAction::Finished(replies))
                        &&& replies == closed.replies_seen
                    } else {
                        result matches Ok(RunAction::NextTick)
                    }
                },
            }
        },
    }
}

/// One decision of a run against a caller-owned [`FaultInjector`].
///
/// Opening a tick advances the clocks, decides the tick's fault and collects the
/// overdue requests; resends come before new requests, because a timed-out request
/// still holds its client's slot. Then every client with a free slot is offered
/// one request, in order. Closing the tick checks the invariants, so a regression
/// is reported at the tick it occurs, and ends the run once the reply target is
/// met.
pub fn run_with_faults(
    run: &mut Run,
    workload: &mut Workload,
    injector: &mut FaultInjector,
    event: RunEvent<'_>,
) -> (result: Result<RunAction, RunFault>)
    requires
        old(run)@.wf(),
        old(workload)@.wf(),
        old(injector)@.wf(),
        event_fits(event, old(run)@, old(workload)@, old(injector)@),
    ensures
        final(run)@.wf(),
        final(workload)@.wf(),
        final(injector)@.wf(),
        sent_by(old(workload)@, old(run)@.clients) ==> sent_by(
            final(workload)@,
            final(run)@.clients,
        ),
        decided(
            (RunState { run: old(run)@, workload: old(workload)@, injector: old(injector)@ }),
            event,
            (RunState { run: final(run)@, workload: final(workload)@, injector: final(injector)@ }),
            result,
        ),
{
    match event {
        RunEvent::TickOpens(cluster) => {
            if run.progress.stopped || run.progress.ticks_left == 0 {
                return Ok(RunAction::Finished(run.progress.replies_seen));
            }
            run.progress.ticks_left = run.progress.ticks_left - 1;
            run.offered = 0;
            run.pending = None;
            workload.tick();
            let fault = injector.step(cluster, workload.options());
            proof {
                if sent_by(old(workload)@, run@.clients) {
                    resends_keep_senders(workload@, run@.clients);
                }
            }
            let resends = resubmit_due(workload);
            Ok(RunAction::Drive { fault, resends })
        },
        RunEvent::Offer(outcome_counts) => {
            match run.offer(workload, outcome_counts) {
                Some((client, plan)) => Ok(RunAction::Sample { client, plan }),
                None => Ok(RunAction::StepNetwork),
            }
        },
        RunEvent::Sampled { generator, sampled } => {
            let pending = run.pending;
            run.pending = None;
            match pending {
                Some((client, plan)) => {
                    proof {
                        if sent_by(workload@, run@.clients) && sampled is Some {
                            admission_keeps_senders(
                                workload@,
                                run@.clients,
                                client,
                                plan,
                                sampled->0,
                                generator@,
                            );
                        }
                    }
                    match workload.build_request(client, plan, generator, sampled) {
                        Some((target, message)) => Ok(
                            RunAction::Submit(Some(Submission { client, target, message })),
                        ),
                        None => Ok(RunAction::Submit(None)),
                    }
                },
                None => Ok(RunAction::Submit(None)),
            }
        },
        RunEvent::Replied(reply, effect) => {
            proof {
                if sent_by(workload@, run@.clients) {
                    replies_keep_senders(workload@, run@.clients, reply, effect);
                }
            }
            match workload.on_reply(&reply, effect) {
                Ok(commands) => {
                    run.progress.replies_seen = run.progress.replies_seen + 1;
                    Ok(RunAction::Materialise(apply_sim_commands(commands.as_slice())))
                },
                Err(fault) => Err(RunFault::Reply(fault)),
            }
        },
        RunEvent::TickCloses(cluster) => {
            match run.invariants.check(cluster, workload) {
                Ok(()) => {
                    run.progress.stopped = run.progress.replies_seen >= run.progress.replies_target;
                    if run.progress.stopped || run.progress.ticks_left == 0 {
                        Ok(RunAction::Finished(run.progress.replies_seen))
                    } else {
                        Ok(RunAction::NextTick)
                    }
                },
                Err(fault) => Err(RunFault::Invariant(fault)),
            }
        },
    }
}

/// Opening a tick draws nothing from the traffic generator, whatever the injector
/// does and whatever is resent: crash scheduling and retries leave the traffic's
/// draw order alone.
pub proof fn opening_a_tick_draws_no_traffic(workload: WorkloadView)
    ensures
        after_due(ticked(workload)).generator == workload.generator,
        after_due(ticked(workload)).shadow == workload.shadow,
        after_due(ticked(workload)).options == workload.options,
{
}

/// How far a run has come after ticks that each saw the listed number of replies.
pub open spec fn after_ticks(progress: Progress, replies: Seq<u64>) -> Progress
    decreases replies.len(),
{
    if replies.len() == 0 {
        progress
    } else {
        let before = after_ticks(progress, replies.drop_last());
        if before.finished() {
            before
        } else {
            Progress {
                replies_seen: (before.replies_seen + replies.last()) as u64,
                ..before.opened()
            }.closed()
        }
    }
}

proof fn unfinished_run_spent_its_ticks(progress: Progress, replies: Seq<u64>)
    ensures
        !after_ticks(progress, replies).finished() ==> after_ticks(progress, replies).ticks_left
            == progress.ticks_left - replies.len(),
        after_ticks(progress, replies).ticks_left <= progress.ticks_left,
        after_ticks(progress, replies).replies_target == progress.replies_target,
    decreases replies.len(),
{
    if replies.len() > 0 {
        unfinished_run_spent_its_ticks(progress, replies.drop_last());
    }
}

/// A run is over after its tick budget, whatever the network delivers.
pub proof fn run_ends_within_its_budget(
    tick_budget: u64,
    replies_target: u64,
    replies: Seq<u64>,
)
    requires
        replies.len() >= tick_budget,
    ensures
        after_ticks(Progress::fresh(tick_budget, replies_target), replies).finished(),
{
    unfinished_run_spent_its_ticks(Progress::fresh(tick_budget, replies_target), replies);
}

/// A run that is over spent its budget or met its reply target.
pub proof fn finished_run_met_target_or_budget(
    tick_budget: u64,
    replies_target: u64,
    replies: Seq<u64>,
)
    ensures
        ({
            let after = after_ticks(Progress::fresh(tick_budget, replies_target), replies);
            after.finished() ==> after.ticks_left == 0 || after.replies_seen >= replies_target
        }),
    decreases replies.len(),
{
    if replies.len() > 0 {
        finished_run_met_target_or_budget(tick_budget, replies_target, replies.drop_last());
        unfinished_run_spent_its_ticks(
            Progress::fresh(tick_budget, replies_target),
            replies.drop_last(),
        );
    }
}

/// Where a drain stands.
#[derive(Debug, Clone, Copy, PartialEq, Eq, Structural)]
pub enum Quiesce {
    /// Waiting for the outstanding requests to be answered.
    Drain {
        ticks_left: u64,
        /// A tick was stepped.
        stepped: bool,
    },
    /// Stepping the settle window.
    Settle { ticks_left: u64 },
    /// Over.
    Done { drained: bool },
}

/// What a drain, or a wait for a stable view, asks for.
#[derive(Debug)]
pub enum StepAction {
    /// Submit the resends and step the network.
    Step { resends: Vec<Submission> },
    /// Over; whether it succeeded.
    Finished(bool),
}

/// A settle window with the given ticks left.
pub open spec fn settling(ticks_left: u64) -> Quiesce {
    if ticks_left == 0 {
        Quiesce::Done { drained: true }
    } else {
        Quiesce::Settle { ticks_left: (ticks_left - 1) as u64 }
    }
}

impl Quiesce {
    /// Where the drain stands after the next decision, given the number of
    /// outstanding requests.
    ///
    /// A drain ends when nothing is outstanding after a tick, or when its budget
    /// is spent. If then nothing is outstanding it is followed by the settle
    /// window, else it has failed.
    pub open spec fn next(self, in_flight: nat) -> Quiesce {
        match self {
            Quiesce::Drain { ticks_left, stepped } => if in_flight == 0 && (stepped || ticks_left
                == 0) {
                settling(QUIESCE_SETTLE_TICKS)
            } else if ticks_left == 0 {
                Quiesce::Done { drained: false }
            } else {
                Quiesce::Drain { ticks_left: (ticks_left - 1) as u64, stepped: true }
            },
            Quiesce::Settle { ticks_left } => settling(ticks_left),
            Quiesce::Done { drained } => self,
        }
    }

    /// A drain with a budget of `max_ticks`.
    pub fn new(max_ticks: u64) -> (quiesce: Self)
        ensures
            quiesce == (Quiesce::Drain { ticks_left: max_ticks, stepped: false }),
    {
        Quiesce::Drain { ticks_left: max_ticks, stepped: false }
    }
}

/// What a drain asks for where it now stands, and what it leaves behind.
pub open spec fn drain_asked(
    quiesce: Quiesce,
    before: WorkloadView,
    after: WorkloadView,
    action: StepAction,
) -> bool {
    match quiesce {
        Quiesce::Drain { ticks_left, stepped } => {
            &&& action matches StepAction::Step { resends }
            &&& on_their_way(resends@) == submissions(due_messages(ticked(before)))
            &&& after == after_due(ticked(before))
        },
        Quiesce::Settle { ticks_left } => {
            &&& action matches StepAction::Step { resends }
            &&& resends@.len() == 0
            &&& after == before
        },
        Quiesce::Done { drained } => {
            &&& action matches StepAction::Finished(success)
            &&& success == drained
            &&& after == before
        },
    }
}

/// One decision of draining the system after the active workload.
///
/// Submits no new requests and steps until no client request is outstanding, then
/// runs a settle window so trailing backups apply the final committed prepares.
/// Finishes with `true` once drained and settled, with `false` if the budget is
/// spent with requests still outstanding: a liveness failure the caller should
/// surface.
///
/// The drain keeps resending: a request lost on the way out is never answered, so
/// without retries it would spend its whole budget on a reply that cannot arrive.
pub fn drive_to_quiesce(quiesce: &mut Quiesce, workload: &mut Workload) -> (action: StepAction)
    requires
        old(workload)@.wf(),
        old(quiesce).next(old(workload)@.outstanding.len()) is Drain ==> can_tick(old(workload)@),
    ensures
        final(workload)@.wf(),
        *final(quiesce) == old(quiesce).next(old(workload)@.outstanding.len()),
        drain_asked(*final(quiesce), old(workload)@, final(workload)@, action),
{
    let settle_ticks: u64 = match *quiesce {
        Quiesce::Drain { ticks_left, stepped } => {
            if workload.total_in_flight() == 0 && (stepped || ticks_left == 0) {
                QUIESCE_SETTLE_TICKS
            } else if ticks_left == 0 {
                *quiesce = Quiesce::Done { drained: false };
                return StepAction::Finished(false);
            } else {
                *quiesce = Quiesce::Drain { ticks_left: ticks_left - 1, stepped: true };
                workload.tick();
                return StepAction::Step { resends: resubmit_due(workload) };
            }
        },
        Quiesce::Settle { ticks_left } => ticks_left,
        Quiesce::Done { drained } => {
            return StepAction::Finished(drained);
        },
    };
    if settle_ticks == 0 {
        *quiesce = Quiesce::Done { drained: true };
        StepAction::Finished(true)
    } else {
        *quiesce = Quiesce::Settle { ticks_left: settle_ticks - 1 };
        StepAction::Step { resends: Vec::new() }
    }
}

/// Where a drain stands after decisions that each found the listed number of
/// outstanding requests.
pub open spec fn after_decisions(quiesce: Quiesce, in_flight: Seq<nat>) -> Quiesce
    decreases in_flight.len(),
{
    if in_flight.len() == 0 {
        quiesce
    } else {
        after_decisions(quiesce, in_flight.drop_last()).next(in_flight.last())
    }
}

/// Nothing was outstanding after `ticks` ticks of a drain, at a point where the
/// drain looks: after any tick of its budget, or at once where the budget is zero.
pub open spec fn drained_at(max_ticks: u64, in_flight: Seq<nat>, ticks: int) -> bool {
    &&& 0 <= ticks <= max_ticks
    &&& ticks < in_flight.len()
    &&& ticks > 0 || max_ticks == 0
    &&& in_flight[ticks] == 0
}

proof fn undrained_so_far(max_ticks: u64, in_flight: Seq<nat>, upto: int)
    requires
        0 <= upto <= max_ticks,
        upto <= in_flight.len(),
        forall|ticks: int| 0 <= ticks < upto ==> !#[trigger] drained_at(max_ticks, in_flight, ticks),
    ensures
        after_decisions(
            Quiesce::Drain { ticks_left: max_ticks, stepped: false },
            in_flight.take(upto),
        ) == (Quiesce::Drain { ticks_left: (max_ticks - upto) as u64, stepped: upto > 0 }),
    decreases upto,
{
    if upto > 0 {
        undrained_so_far(max_ticks, in_flight, upto - 1);
        assert(in_flight.take(upto).drop_last() =~= in_flight.take(upto - 1));
        assert(!drained_at(max_ticks, in_flight, upto - 1));
    }
}

proof fn settle_counts_down(start: Quiesce, in_flight: Seq<nat>, from: int, upto: int)
    requires
        0 <= from < upto <= in_flight.len(),
        after_decisions(start, in_flight.take(from + 1)) == settling(QUIESCE_SETTLE_TICKS),
        upto - from <= QUIESCE_SETTLE_TICKS + 1,
    ensures
        after_decisions(start, in_flight.take(upto)) == if upto - from <= QUIESCE_SETTLE_TICKS {
            Quiesce::Settle { ticks_left: (QUIESCE_SETTLE_TICKS - (upto - from)) as u64 }
        } else {
            Quiesce::Done { drained: true }
        },
    decreases upto,
{
    if upto > from + 1 {
        settle_counts_down(start, in_flight, from, upto - 1);
        assert(in_flight.take(upto).drop_last() =~= in_flight.take(upto - 1));
    }
}

proof fn done_stays_done(start: Quiesce, in_flight: Seq<nat>, from: int)
    requires
        0 <= from <= in_flight.len(),
        after_decisions(start, in_flight.take(from)) is Done,
    ensures
        after_decisions(start, in_flight) == after_decisions(start, in_flight.take(from)),
    decreases in_flight.len(),
{
    if from == in_flight.len() {
        assert(in_flight.take(from) =~= in_flight);
    } else {
        assert(in_flight.drop_last().take(from) =~= in_flight.take(from));
        done_stays_done(start, in_flight.drop_last(), from);
    }
}

/// A drain is over after its budget and the settle window, and it succeeds exactly
/// if nothing was outstanding at some point of the budget.
pub proof fn drain_succeeds_exactly_if_drained(max_ticks: u64, in_flight: Seq<nat>)
    requires
        in_flight.len() > max_ticks + QUIESCE_SETTLE_TICKS,
    ensures
        after_decisions(Quiesce::Drain { ticks_left: max_ticks, stepped: false }, in_flight) == (
        Quiesce::Done {
            drained: exists|ticks: int| #[trigger] drained_at(max_ticks, in_flight, ticks),
        }),
{
    let start = Quiesce::Drain { ticks_left: max_ticks, stepped: false };
    if exists|ticks: int| #[trigger] drained_at(max_ticks, in_flight, ticks) {
        let some = choose|ticks: int| #[trigger] drained_at(max_ticks, in_flight, ticks);
        let first = first_drained(max_ticks, in_flight, some);
        undrained_so_far(max_ticks, in_flight, first);
        assert(in_flight.take(first + 1).drop_last() =~= in_flight.take(first));
        settle_counts_down(start, in_flight, first, first + QUIESCE_SETTLE_TICKS + 1);
        done_stays_done(start, in_flight, first + QUIESCE_SETTLE_TICKS + 1);
    } else {
        let last = max_ticks as int;
        undrained_so_far(max_ticks, in_flight, last);
        assert(in_flight.take(last + 1).drop_last() =~= in_flight.take(last));
        assert(!drained_at(max_ticks, in_flight, last));
        done_stays_done(start, in_flight, last + 1);
    }
}

proof fn first_drained(max_ticks: u64, in_flight: Seq<nat>, some: int) -> (first: int)
    requires
        drained_at(max_ticks, in_flight, some),
    ensures
        drained_at(max_ticks, in_flight, first),
        forall|ticks: int|
            0 <= ticks < first ==> !#[trigger] drained_at(max_ticks, in_flight, ticks),
    decreases some,
{
    if exists|ticks: int| 0 <= ticks < some && #[trigger] drained_at(max_ticks, in_flight, ticks) {
        let earlier = choose|ticks: int|
            0 <= ticks < some && #[trigger] drained_at(max_ticks, in_flight, ticks);
        first_drained(max_ticks, in_flight, earlier)
    } else {
        some
    }
}

/// What a wait for a stable view decides, and what it leaves behind.
pub open spec fn waited(
    ticks_left: u64,
    cluster: ClusterReading,
    before: WorkloadView,
    ticks_after: u64,
    after: WorkloadView,
    action: StepAction,
) -> bool {
    if views_settled(cluster, before.options.namespaces@) || ticks_left == 0 {
        &&& action matches StepAction::Finished(settled)
        &&& settled == views_settled(cluster, before.options.namespaces@)
        &&& ticks_after == ticks_left
        &&& after == before
    } else {
        &&& action matches StepAction::Step { resends }
        &&& ticks_after == ticks_left - 1
        &&& on_their_way(resends@) == submissions(due_messages(ticked(before)))
        &&& after == after_due(ticked(before))
    }
}

/// One decision of waiting until every live replica is `Normal` in one shared view
/// on every plane, or until the ticks left are spent.
///
/// Needed before convergence is checked: once a primary can be crashed, live
/// replicas transiently hold different views and there may be no established
/// primary at all, so the leader lookup fails or names a deposed one. Finishes
/// with `false` if the views never converge, a liveness failure the caller should
/// report.
pub fn settle_to_stable_view(
    ticks_left: &mut u64,
    cluster: &ClusterReading,
    workload: &mut Workload,
) -> (action: StepAction)
    requires
        old(workload)@.wf(),
        *old(ticks_left) > 0 ==> can_tick(old(workload)@),
    ensures
        final(workload)@.wf(),
        waited(
            *old(ticks_left),
            *cluster,
            old(workload)@,
            *final(ticks_left),
            final(workload)@,
            action,
        ),
{
    if views_are_settled(cluster, workload.options().namespaces.as_slice()) {
        return StepAction::Finished(true);
    }
    if *ticks_left == 0 {
        return StepAction::Finished(false);
    }
    *ticks_left = *ticks_left - 1;
    workload.tick();
    StepAction::Step { resends: resubmit_due(workload) }
}

/// A run that met its reply target when a tick closed is over, by however much it
/// was met; one that goes on has seen fewer replies than its target and has a tick
/// left.
pub proof fn meeting_the_target_ends_the_run(progress: Progress)
    ensures
        progress.replies_seen >= progress.replies_target ==> progress.closed().finished(),
        progress.ticks_left == 0 ==> progress.closed().finished(),
        !progress.closed().finished() <==> progress.replies_seen < progress.replies_target
            && progress.ticks_left > 0,
        progress.closed().ticks_left == progress.ticks_left,
        progress.closed().replies_seen == progress.replies_seen,
        progress.closed().replies_target == progress.replies_target,
{
}

/// A run starts with its whole budget and nothing seen; opening a tick spends one
/// tick, a reply counts once, and neither touches the rest.
pub proof fn progress_is_counted_in_ones(
    progress: Progress,
    tick_budget: u64,
    replies_target: u64,
)
    requires
        progress.ticks_left > 0,
        progress.replies_seen < u64::MAX,
    ensures
        progress.opened().ticks_left + 1 == progress.ticks_left,
        progress.opened().replies_seen == progress.replies_seen,
        progress.opened().replies_target == progress.replies_target,
        progress.opened().stopped == progress.stopped,
        progress.counted().replies_seen == progress.replies_seen + 1,
        progress.counted().ticks_left == progress.ticks_left,
        progress.counted().replies_target == progress.replies_target,
        progress.counted().stopped == progress.stopped,
        Progress::fresh(tick_budget, replies_target).ticks_left == tick_budget,
        Progress::fresh(tick_budget, replies_target).replies_target == replies_target,
        Progress::fresh(tick_budget, replies_target).replies_seen == 0,
        Progress::fresh(tick_budget, replies_target).finished() <==> tick_budget == 0,
{
}

/// Replies add up over ticks, and a run that is not over after them has seen
/// exactly those, fewer than its target.
pub proof fn unfinished_runs_are_short_of_their_target(
    tick_budget: u64,
    replies_target: u64,
    replies: Seq<u64>,
)
    requires
        replies.len() > 0,
        !after_ticks(Progress::fresh(tick_budget, replies_target), replies).finished(),
    ensures
        ({
            let start = Progress::fresh(tick_budget, replies_target);
            let before = after_ticks(start, replies.drop_last());
            let after = after_ticks(start, replies);
            &&& after.replies_seen < replies_target
            &&& after.ticks_left > 0
            &&& after.ticks_left + replies.len() == tick_budget
            &&& before.replies_seen + replies.last() <= u64::MAX ==> after.replies_seen
                == before.replies_seen + replies.last()
        }),
{
    let start = Progress::fresh(tick_budget, replies_target);
    unfinished_run_spent_its_ticks(start, replies);
    unfinished_run_spent_its_ticks(start, replies.drop_last());
}

/// A tick closes in an answer to two questions alone. It fails exactly if the
/// per-tick check does; else the run is over exactly if it has seen at least as
/// many replies as it aims for, or no tick is left, and it then reports how many it
/// has seen.
pub proof fn ticks_close_on_target_or_budget(
    before: RunState,
    cluster: &ClusterReading,
    after: RunState,
    result: Result<RunAction, RunFault>,
)
    requires
        decided(before, RunEvent::TickCloses(cluster), after, result),
    ensures
        ({
            let seen = before.run.progress.replies_seen;
            let over = seen >= before.run.progress.replies_target
                || before.run.progress.ticks_left == 0;
            let violated = inspected(
                before.run.invariants,
                *cluster,
                before.workload.options.namespaces@,
                before.workload.outstanding.len() as usize,
                before.workload.options.client_count,
            ).1;
            &&& result is Err <==> violated is Some
            &&& violated is None && over ==> result == Ok::<RunAction, RunFault>(
                RunAction::Finished(seen),
            )
            &&& violated is None && !over ==> result == Ok::<RunAction, RunFault>(
                RunAction::NextTick,
            )
            &&& violated is None ==> (after.run.progress.finished() <==> over)
            &&& after.run.progress.replies_seen == seen
            &&& after.run.progress.ticks_left == before.run.progress.ticks_left
            &&& after.workload == before.workload
            &&& after.injector == before.injector
        }),
{
}

/// A run that closed its tick without failing has held the live replicas' committed
/// chains against each other, however many requests are in flight.
pub proof fn closed_ticks_compared_the_chains(
    before: RunState,
    cluster: &ClusterReading,
    after: RunState,
    result: Result<RunAction, RunFault>,
    left: u8,
    right: u8,
    op: u64,
)
    requires
        decided(before, RunEvent::TickCloses(cluster), after, result),
        cluster.wf(),
        result is Ok,
        newly_committed(*cluster, before.run.invariants.checker.verified, left, op),
        newly_committed(*cluster, before.run.invariants.checker.verified, right, op),
    ensures
        cluster.replicas@[left as int].journal.at(op)->0.checksum
            == cluster.replicas@[right as int].journal.at(op)->0.checksum,
        after.run.invariants.checker.commits.contains_key(op),
        after.run.invariants.checker.commits[op].replicas.contains(left),
        after.run.invariants.checker.commits[op].replicas.contains(right),
{
    passed_checks_compared_the_chains(
        before.run.invariants,
        *cluster,
        before.workload.options.namespaces@,
        before.workload.outstanding.len() as usize,
        before.workload.options.client_count,
        left,
        right,
        op,
    );
}

/// Opening a tick either ends the run, which then changes nothing and reports the
/// replies seen, or spends one tick, advances both clocks by one and starts
/// offering with the first client.
pub proof fn ticks_open_until_the_run_is_over(
    before: RunState,
    cluster: &ClusterReading,
    after: RunState,
    result: Result<RunAction, RunFault>,
)
    requires
        decided(before, RunEvent::TickOpens(cluster), after, result),
        event_fits(
            RunEvent::TickOpens(cluster),
            before.run,
            before.workload,
            before.injector,
        ),
    ensures
        ({
            let over = before.run.progress.stopped || before.run.progress.ticks_left == 0;
            &&& over ==> after == before && result == Ok::<RunAction, RunFault>(
                RunAction::Finished(before.run.progress.replies_seen),
            )
            &&& !over ==> {
                &&& result matches Ok(RunAction::Drive { fault, resends })
                &&& after.run.progress.ticks_left + 1 == before.run.progress.ticks_left
                &&& after.workload.now == before.workload.now + 1
                &&& after.injector.now == before.injector.now + 1
                &&& after.run.offered == 0
                &&& after.run.pending is None
                &&& after.run.invariants == before.run.invariants
                &&& after.run.progress.replies_seen == before.run.progress.replies_seen
                &&& after.workload.generator == before.workload.generator
            }
        }),
{
}

/// Requests are offered to clients in order and to each at most once a tick; the
/// one offered has nothing in flight, and every client passed over has.
pub proof fn offers_go_to_the_next_idle_client(
    before: RunState,
    outcome_counts: &[usize],
    after: RunState,
    result: Result<RunAction, RunFault>,
)
    requires
        decided(before, RunEvent::Offer(outcome_counts), after, result),
        before.run.wf(),
    ensures
        result is Ok,
        match result->Ok_0 {
            RunAction::Sample { client, plan } => {
                &&& before.run.offered < after.run.offered <= before.run.clients.len()
                &&& client == before.run.clients[after.run.offered - 1]
                &&& before.workload.idle(client)
                &&& forall|i: int|
                    before.run.offered <= i < after.run.offered - 1 ==> !before.workload.idle(
                        #[trigger] before.run.clients[i],
                    )
                &&& after.run.pending == Some((client, plan))
            },
            RunAction::StepNetwork => {
                &&& forall|i: int|
                    before.run.offered <= i < before.run.clients.len() ==> !before.workload.idle(
                        #[trigger] before.run.clients[i],
                    )
                &&& after.run.offered == before.run.clients.len()
                &&& after.workload == before.workload
            },
            _ => false,
        },
        after.workload.outstanding == before.workload.outstanding,
        after.workload.now == before.workload.now,
        after.injector == before.injector,
        after.run.progress == before.run.progress,
{
    offers_skip_only_busy_clients(before.workload, before.run.clients, before.run.offered);
}

/// The request submitted is the one that was planned: for its client, to its
/// replica, with the sampled message. Nothing is submitted where nothing was
/// sampled.
pub proof fn submissions_are_the_planned_requests(
    before: RunState,
    generator: [u8; 32],
    sampled: Option<SampledRequest>,
    after: RunState,
    result: Result<RunAction, RunFault>,
)
    requires
        decided(before, (RunEvent::Sampled { generator, sampled }), after, result),
        before.run.pending is Some,
    ensures
        result matches Ok(RunAction::Submit(submission)) && {
            &&& submission is Some <==> sampled is Some
            &&& submission is Some ==> {
                &&& submission->0.client == (before.run.pending->0).0
                &&& submission->0.target == (before.run.pending->0).1.target
                &&& submission->0.message@ == sampled->0.message@
            }
        },
        after.run.pending is None,
        after.run.offered == before.run.offered,
        after.run.progress == before.run.progress,
        after.run.invariants == before.run.invariants,
        after.injector == before.injector,
{
}

/// Every reply that is not a fault counts once, whatever it answers; a faulty one
/// ends the run and counts nothing.
pub proof fn replies_count_once(
    before: RunState,
    reply: Reply,
    effect: CommittedEffect,
    after: RunState,
    result: Result<RunAction, RunFault>,
)
    requires
        decided(before, RunEvent::Replied(reply, effect), after, result),
        before.run.progress.replies_seen < u64::MAX,
    ensures
        result is Ok ==> after.run.progress.replies_seen == before.run.progress.replies_seen + 1,
        result is Err ==> after.run == before.run,
        result is Ok <==> answered(before.workload, reply, effect).1 is Ok,
        result matches Err(fault) ==> fault == RunFault::Reply(
            answered(before.workload, reply, effect).1->Err_0,
        ),
        result is Ok ==> result->Ok_0 is Materialise,
        after.run.progress.ticks_left == before.run.progress.ticks_left,
        after.run.progress.replies_target == before.run.progress.replies_target,
        after.run.invariants == before.run.invariants,
        after.run.offered == before.run.offered,
        after.run.pending == before.run.pending,
        after.injector == before.injector,
{
}

/// Whatever happens, a run keeps its clients, its target and the workload's
/// options; its replies and its clock never go back, and its ticks never come back.
pub proof fn runs_keep_their_terms(
    before: RunState,
    event: RunEvent<'_>,
    after: RunState,
    result: Result<RunAction, RunFault>,
)
    requires
        decided(before, event, after, result),
        event_fits(event, before.run, before.workload, before.injector),
    ensures
        after.run.clients == before.run.clients,
        after.run.progress.replies_target == before.run.progress.replies_target,
        after.workload.options == before.workload.options,
        before.run.progress.replies_seen <= after.run.progress.replies_seen,
        after.run.progress.ticks_left <= before.run.progress.ticks_left,
        before.workload.now <= after.workload.now,
        before.injector.now <= after.injector.now,
        !(event is TickOpens) ==> after.workload.now == before.workload.now && after.injector
            == before.injector,
        !(event is Replied) ==> after.run.progress.replies_seen
            == before.run.progress.replies_seen,
        !(event is TickCloses) ==> after.run.invariants == before.run.invariants
            && after.run.progress.stopped == before.run.progress.stopped,
{
}

/// A reply's follow-ups are materialised one for one, in order.
pub proof fn follow_ups_are_materialised_in_order(commands: Seq<SimCommand>, place: int)
    requires
        0 <= place < commands.len(),
    ensures
        materialised_all(commands).len() == commands.len(),
        match commands[place] {
            SimCommand::InitPartition { ns } => materialised_all(commands)[place]
                == ns,
        },
{
}

/// What is on its way is what was submitted, one for one and in order.
pub proof fn submissions_are_on_their_way(resends: Seq<Submission>, place: int)
    requires
        0 <= place < resends.len(),
    ensures
        on_their_way(resends).len() == resends.len(),
        on_their_way(resends)[place].client == resends[place].client,
        on_their_way(resends)[place].target == resends[place].target,
        on_their_way(resends)[place].message == resends[place].message@,
{
}

/// A tick advances the workload's clock by one and nothing else.
pub proof fn ticking_advances_the_clock_alone(workload: WorkloadView)
    requires
        workload.now < u64::MAX,
    ensures
        ticked(workload).now == workload.now + 1,
        ticked(workload).outstanding == workload.outstanding,
        ticked(workload).generator == workload.generator,
        ticked(workload).options == workload.options,
        ticked(workload).shadow == workload.shadow,
{
}

/// A drain goes on exactly while something is outstanding and ticks are left, but
/// for its first tick, which it always spends if it has one. Where nothing is
/// outstanding it settles; where the budget ran out first it has failed.
pub proof fn drains_end_when_nothing_is_outstanding(
    ticks_left: u64,
    stepped: bool,
    in_flight: nat,
)
    ensures
        ({
            let next = (Quiesce::Drain { ticks_left, stepped }).next(in_flight);
            &&& next == (Quiesce::Done { drained: false }) <==> in_flight > 0 && ticks_left == 0
            &&& !(next == (Quiesce::Done { drained: true }))
            &&& next is Settle <==> in_flight == 0 && (stepped || ticks_left == 0)
            &&& next matches Quiesce::Drain { ticks_left: left, stepped: has_stepped } ==> {
                &&& left + 1 == ticks_left
                &&& has_stepped
            }
        }),
{
}

/// The settle window is 200 ticks, more than three intervals of the commit
/// broadcast: it is entered with 199 left, counts down by one whatever is
/// outstanding, and ends in success.
pub proof fn settle_window_spans_broadcasts(
    drain_left: u64,
    stepped: bool,
    settle_left: u64,
    in_flight: nat,
)
    requires
        stepped || drain_left == 0,
    ensures
        QUIESCE_SETTLE_TICKS == 200,
        (Quiesce::Drain { ticks_left: drain_left, stepped }).next(0) == (Quiesce::Settle {
            ticks_left: 199,
        }),
        settle_left > 0 ==> (Quiesce::Settle { ticks_left: settle_left }).next(in_flight) == (
        Quiesce::Settle { ticks_left: (settle_left - 1) as u64 }),
        (Quiesce::Settle { ticks_left: 0 }).next(in_flight) == (Quiesce::Done { drained: true }),
{
}

/// A drain that is over stays over.
pub proof fn finished_drains_stay_finished(drained: bool, in_flight: nat)
    ensures
        (Quiesce::Done { drained }).next(in_flight) == (Quiesce::Done { drained }),
{
}

proof fn resends_are_what_is_due(resends: Seq<Submission>, workload: WorkloadView)
    requires
        on_their_way(resends) == submissions(due_messages(workload)),
    ensures
        resends.len() == due_messages(workload).len(),
        forall|k: int|
            0 <= k < resends.len() ==> {
                let (target, message) = due_messages(workload)[k];
                &&& (#[trigger] resends[k]).target == target
                &&& resends[k].client == message.client
                &&& resends[k].message@ == message
            },
{
    assert(on_their_way(resends).len() == resends.len());
    assert forall|k: int| 0 <= k < resends.len() implies {
        let (target, message) = due_messages(workload)[k];
        &&& (#[trigger] resends[k]).target == target
        &&& resends[k].client == message.client
        &&& resends[k].message@ == message
    } by {
        assert(on_their_way(resends)[k] == resends[k]@);
        assert(submissions(due_messages(workload))[k].target == due_messages(workload)[k].0);
    }
}

/// While a drain waits it advances the clock by one and resends what is overdue;
/// while it settles it sends nothing and leaves the workload alone; once over it
/// says whether it drained.
pub proof fn drains_resend_and_settling_does_not(
    quiesce: Quiesce,
    before: WorkloadView,
    after: WorkloadView,
    action: StepAction,
)
    requires
        drain_asked(quiesce, before, after, action),
        before.now < u64::MAX,
    ensures
        quiesce is Drain ==> {
            &&& action matches StepAction::Step { resends }
            &&& resends@.len() == due_messages(ticked(before)).len()
            &&& forall|k: int|
                0 <= k < resends@.len() ==> {
                    let (target, message) = due_messages(ticked(before))[k];
                    &&& (#[trigger] resends@[k]).target == target
                    &&& resends@[k].client == message.client
                    &&& resends@[k].message@ == message
                }
            &&& after == after_due(ticked(before))
            &&& after.now == before.now + 1
        },
        quiesce is Settle ==> action is Step && after == before && action->resends@.len() == 0,
        quiesce matches Quiesce::Done { drained } ==> action == StepAction::Finished(drained)
            && after == before,
        after.generator == before.generator,
        after.options == before.options,
{
    if quiesce is Drain {
        resends_are_what_is_due(action->resends@, ticked(before));
    }
}

/// A wait for a stable view ends at once in success where the views are settled,
/// and in failure where they are not and no tick is left; else it spends one tick.
pub proof fn waits_end_in_a_stable_view_or_run_out(
    ticks_left: u64,
    cluster: ClusterReading,
    before: WorkloadView,
    ticks_after: u64,
    after: WorkloadView,
    action: StepAction,
)
    requires
        waited(ticks_left, cluster, before, ticks_after, after, action),
        before.now < u64::MAX,
    ensures
        ({
            let settled = views_settled(cluster, before.options.namespaces@);
            &&& settled ==> action == StepAction::Finished(true)
            &&& !settled && ticks_left == 0 ==> action == StepAction::Finished(false)
            &&& !settled && ticks_left > 0 ==> {
                &&& action matches StepAction::Step { resends }
                &&& ticks_after + 1 == ticks_left
                &&& after == after_due(ticked(before))
                &&& after.now == before.now + 1
                &&& resends@.len() == due_messages(ticked(before)).len()
                &&& forall|k: int|
                    0 <= k < resends@.len() ==> {
                        let (target, message) = due_messages(ticked(before))[k];
                        &&& (#[trigger] resends@[k]).target == target
                        &&& resends@[k].client == message.client
                        &&& resends@[k].message@ == message
                    }
            }
            &&& action is Finished ==> ticks_after == ticks_left && after == before
        }),
{
    if action is Step {
        resends_are_what_is_due(action->resends@, ticked(before));
    }
}

/// A run that has not started has its whole budget, has seen nothing, drives the
/// given clients and offers to the first of them.
pub proof fn fresh_runs_have_done_nothing(
    run: RunView,
    clients: Seq<u128>,
    tick_budget: u64,
    replies_target: u64,
)
    requires
        run.is_fresh(clients, tick_budget, replies_target),
    ensures
        run.clients == clients,
        run.progress.ticks_left == tick_budget,
        run.progress.replies_target == replies_target,
        run.progress.replies_seen == 0,
        !run.progress.stopped,
        run.offered == 0,
        run.pending is None,
        run.invariants.is_blank(),
{
}

/// What a tick resends is what is overdue once its clock has advanced: a request
/// whose timeout passes in this tick is resent in this tick, and one whose timeout
/// has not passed waits.
pub proof fn ticks_resend_what_becomes_overdue(
    before: RunState,
    cluster: &ClusterReading,
    after: RunState,
    result: Result<RunAction, RunFault>,
    place: int,
)
    requires
        decided(before, RunEvent::TickOpens(cluster), after, result),
        !before.run.progress.finished(),
        before.workload.now < u64::MAX,
        before.workload.options.request_timeout_ticks > 0,
        before.workload.options.replica_count > 0,
        0 <= place < before.workload.outstanding.len(),
        before.workload.outstanding[place].attempts < u32::MAX,
    ensures
        ({
            let timeout = before.workload.options.request_timeout_ticks;
            let entry = before.workload.outstanding[place];
            let now = before.workload.now + 1;
            let next = (entry.target + 1) % (before.workload.options.replica_count as int);
            &&& result matches Ok(RunAction::Drive { fault, resends })
            &&& if entry.attempted_tick + timeout <= now {
                &&& exists|k: int|
                    0 <= k < resends@.len() && (#[trigger] resends@[k]).message@ == entry.message
                        && resends@[k].target == next
                &&& after.workload.outstanding[place].attempts == entry.attempts + 1
                &&& after.workload.outstanding[place].attempted_tick == now
            } else {
                after.workload.outstanding[place] == entry
            }
        }),
{
    let later = ticked(before.workload);
    let options = later.options;
    overdue_requests_are_submitted(later, place, 0);
    resends_follow_the_timeout(
        later.outstanding,
        later.now,
        options.request_timeout_ticks,
        options.replica_count,
        place,
    );
    let resends = result->Ok_0->resends;
    let entry = later.outstanding[place];
    let views = on_their_way(resends@);
    if entry.attempted_tick + options.request_timeout_ticks <= later.now {
        let wanted = SubmissionView {
            client: entry.message.client,
            target: ((entry.target + 1) % (options.replica_count as int)) as u8,
            message: entry.message,
        };
        assert(views.contains(wanted));
        let k = choose|k: int| 0 <= k < views.len() && views[k] == wanted;
        assert(resends@[k]@ == wanted);
        vstd::arithmetic::div_mod::lemma_mod_bound(
            entry.target + 1,
            options.replica_count as int,
        );
    }
}

/// The fault a tick asks for is the injector's own: a crash is of a live replica and
/// a restart of a crashed one, each is counted once, and the replica's window starts
/// over at this tick.
pub proof fn ticks_ask_for_the_injected_fault(
    before: RunState,
    cluster: &ClusterReading,
    after: RunState,
    result: Result<RunAction, RunFault>,
)
    requires
        decided(before, RunEvent::TickOpens(cluster), after, result),
        !before.run.progress.finished(),
        before.injector.wf(),
        before.injector.now < u64::MAX,
        cluster.wf(),
        cluster.replicas@.len() <= before.injector.last_transition.len(),
        fault_choices_fit(before.injector, *cluster, before.workload.options),
    ensures
        result matches Ok(RunAction::Drive { fault, resends }) && match fault {
            Fault::Quiet => {
                &&& after.injector.crashes == before.injector.crashes
                &&& after.injector.restarts == before.injector.restarts
                &&& after.injector.last_transition == before.injector.last_transition
            },
            Fault::Restart(replica) => {
                &&& replica < cluster.replicas@.len()
                &&& cluster.replicas@[replica as int].crashed
                &&& after.injector.restarts == before.injector.restarts + 1
                &&& after.injector.crashes == before.injector.crashes
                &&& after.injector.last_transition[replica as int] == before.injector.now + 1
            },
            Fault::Crash(replica) => {
                &&& replica < cluster.replicas@.len()
                &&& !cluster.replicas@[replica as int].crashed
                &&& after.injector.crashes == before.injector.crashes + 1
                &&& after.injector.restarts == before.injector.restarts
                &&& after.injector.last_transition[replica as int] == before.injector.now + 1
            },
        },
{
    drawn_faults_are_candidates(before.injector, *cluster, before.workload.options);
}

/// A planned request is the one the generator's draws give, and sampling it leaves
/// the workload with that request outstanding from this tick on.
pub proof fn planned_requests_become_outstanding(
    before: RunState,
    outcome_counts: &[usize],
    planned_state: RunState,
    plan_result: Result<RunAction, RunFault>,
    generator: [u8; 32],
    sample: SampledRequest,
    after: RunState,
    result: Result<RunAction, RunFault>,
)
    requires
        decided(before, RunEvent::Offer(outcome_counts), planned_state, plan_result),
        plan_result is Ok,
        plan_result->Ok_0 is Sample,
        before.run.wf(),
        before.workload.wf(),
        decided(
            planned_state,
            (RunEvent::Sampled { generator, sampled: Some(sample) }),
            after,
            result,
        ),
    ensures
        ({
            let drawn = planned(
                before.workload.generator,
                before.workload.options,
                outcome_counts@,
            );
            let client = plan_result->Ok_0->client;
            let request = sample.message.request;
            let entry = entry_for(after.workload.outstanding, client, request);
            &&& plan_result->Ok_0->plan == drawn.0
            &&& planned_state.workload.generator == drawn.1
            &&& holds(after.workload.outstanding, client, request)
            &&& entry.attempted_tick == before.workload.now
            &&& entry.attempts == 1
            &&& entry.target == drawn.0.target
            &&& entry.in_flight.action == drawn.0.action
            &&& entry.message == sample.message@
            &&& after.workload.generator == generator@
        }),
{
    let (client, plan) = planned_state.run.pending->0;
    sent_request_is_recorded(planned_state.workload, client, plan, sample, generator@);
}

/// A reply leaves the workload as it judges the reply, and its follow-ups are what
/// is materialised; a request that could not be sampled is counted.
pub proof fn replies_and_misses_reach_the_workload(
    before: RunState,
    reply: Reply,
    effect: CommittedEffect,
    replied: RunState,
    reply_result: Result<RunAction, RunFault>,
    generator: [u8; 32],
    missed: RunState,
    miss_result: Result<RunAction, RunFault>,
)
    requires
        decided(before, RunEvent::Replied(reply, effect), replied, reply_result),
        decided(before, (RunEvent::Sampled { generator, sampled: None }), missed, miss_result),
        before.workload.samples_none < u64::MAX,
    ensures
        replied.workload == answered(before.workload, reply, effect).0,
        answered(before.workload, reply, effect).1 matches Ok(commands) ==> {
            &&& reply_result matches Ok(RunAction::Materialise(namespaces))
            &&& namespaces@.len() == commands.len()
            &&& forall|i: int|
                0 <= i < commands.len() ==> #[trigger] commands[i] == (SimCommand::InitPartition {
                    ns: namespaces@[i],
                })
        },
        missed.workload.samples_none == before.workload.samples_none + 1,
        missed.workload.generator == generator@,
        missed.workload.outstanding == before.workload.outstanding,
{
    if let Ok(commands) = answered(before.workload, reply, effect).1 {
        let namespaces = materialised_all(commands);
        assert forall|i: int| 0 <= i < commands.len() implies #[trigger] commands[i] == (
        SimCommand::InitPartition { ns: namespaces[i] }) by {
            follow_ups_are_materialised_in_order(commands, i);
        }
    }
}

/// A closed tick leaves the checks as the per-tick check does, and a failure reports
/// what that check found.
pub proof fn closed_ticks_keep_the_checks(
    before: RunState,
    cluster: &ClusterReading,
    after: RunState,
    result: Result<RunAction, RunFault>,
)
    requires
        decided(before, RunEvent::TickCloses(cluster), after, result),
    ensures
        ({
            let (checks, violated) = inspected(
                before.run.invariants,
                *cluster,
                before.workload.options.namespaces@,
                before.workload.outstanding.len() as usize,
                before.workload.options.client_count,
            );
            &&& after.run.invariants == checks
            &&& violated matches Some(found) ==> (result matches Err(RunFault::Invariant(fault))
                && fault@ == found)
        }),
{
}

} // verus!
