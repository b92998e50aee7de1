//! The deterministic, seed-based request generator.
//!
//! A [`Workload`] decides which command to send where and what to make of the
//! replies. Encoding a command and predicting its effect on the server's entities
//! belong to the command layer around it: a request is planned here
//! ([`Workload::pick_request`]), encoded there, and admitted here
//! ([`Workload::build_request`]).

use crate::action::{Action, ACTION_COUNT};
use crate::cluster::IggyNamespace;
use crate::options::WorkloadOptions;
use crate::retry::{
    after_resends, client_entries, entry_for, entry_stands_at_rank, holds, in_key_order,
    insert_counts_one_client, inserted_entry_is_found, message_views, rank, rank_is_place,
    release_frees_one_slot, resend_list, resend_list_is_entry_by_entry, resends_follow_the_timeout,
    resends_keep_the_request, with_entry, without_entry, InFlight, MessageView, Outstanding, OutstandingView, RequestMessage, RetryBuffer,
};
use crate::rng::{seeded_state, u32_draw, u8_draw, usize_draw, word_draw, Generator};
use crate::shadow::Shadow;
use crate::text::{
    decimal, halves_are_mentioned, mentions, push_decimal, text_mentions_itself,
};
use crate::weights::{draws_per_action_match_weight, weight_total};
use vstd::prelude::*;
use vstd::string::*;

verus! {

/// Max in-flight requests per client. Must stay under the consensus pipeline's
/// queue limits.
pub const CLIENT_REQUEST_QUEUE_MAX: usize = 1;

/// What a workload is made of.
pub ghost struct WorkloadView {
    pub options: WorkloadOptions,
    /// Predicted server entities.
    pub shadow: Shadow,
    /// State bytes of the traffic generator.
    pub generator: Seq<u8>,
    /// Outstanding requests, in (client, request) order.
    pub outstanding: Seq<OutstandingView>,
    /// Driver tick.
    pub now: u64,
    /// Resends issued.
    pub resends: u64,
    /// Requests the command layer could not synthesize.
    pub samples_none: u64,
    /// The targeted outcome must equal the committed one.
    pub strict: bool,
    /// Committed rejections seen.
    pub rejections: u64,
    /// Commits that changed the shadow, by action in declaration order.
    pub commits: Seq<u64>,
}

impl WorkloadView {
    /// What every operation keeps: the requests are ordered and none is held
    /// twice, no client exceeds its queue, no attempt lies in the future, and a
    /// request was attempted at least once, at most once per tick.
    pub open spec fn wf(self) -> bool {
        &&& in_key_order(self.outstanding)
        &&& forall|client: u128| #[trigger]
            client_entries(self.outstanding, client) <= CLIENT_REQUEST_QUEUE_MAX
        &&& forall|i: int|
            0 <= i < self.outstanding.len() ==> {
                &&& (#[trigger] self.outstanding[i]).attempted_tick <= self.now
                &&& 1 <= self.outstanding[i].attempts <= self.outstanding[i].attempted_tick + 1
                &&& self.outstanding[i].target < 255
            }
        &&& self.commits.len() == ACTION_COUNT
    }

    /// A workload that has sent nothing, whatever its shadow.
    pub open spec fn is_fresh(self, options: WorkloadOptions) -> bool {
        &&& self.wf()
        &&& self.options == options
        &&& self.generator == seeded_state(options.seed)
        &&& self.outstanding == Seq::<OutstandingView>::empty()
        &&& self.now == 0
        &&& self.resends == 0
        &&& self.samples_none == 0
        &&& self.strict == (options.client_count == 1 && CLIENT_REQUEST_QUEUE_MAX == 1)
        &&& self.rejections == 0
        &&& forall|action: Action| self.commits[#[trigger] action.ordinal()] == 0
    }

    /// The resend counters have room for one more round.
    pub open spec fn can_resend(self) -> bool {
        &&& forall|i: int|
            0 <= i < self.outstanding.len() ==> (#[trigger] self.outstanding[i]).attempts < u32::MAX
        &&& self.resends + self.outstanding.len() <= u64::MAX
    }

    /// The reply counters have room for one more.
    pub open spec fn can_count(self) -> bool {
        &&& self.rejections < u64::MAX
        &&& forall|i: int| 0 <= i < self.commits.len() ==> #[trigger] self.commits[i] < u64::MAX
    }

    /// The client has a free in-flight slot.
    pub open spec fn idle(self, client: u128) -> bool {
        client_entries(self.outstanding, client) < CLIENT_REQUEST_QUEUE_MAX
    }
}

/// A planned request: which command, to which replica, aiming at which of the
/// command's outcomes.
#[derive(Debug, Clone, Copy)]
pub struct RequestPlan {
    pub action: Action,
    pub target: u8,
    pub outcome_id: usize,
}

/// What the command layer made of a plan.
#[derive(Debug)]
pub struct SampledRequest {
    /// The encoded request.
    pub message: RequestMessage,
    /// The outcome the request was built to provoke.
    pub outcome: u32,
}

/// The plan drawn from a generator state, and the state left behind: the action
/// by weight, then the target, then the outcome where there is a choice.
pub open spec fn planned(
    generator: Seq<u8>,
    options: WorkloadOptions,
    outcome_counts: Seq<usize>,
) -> (RequestPlan, Seq<u8>) {
    let (roll, after_roll) = u32_draw(generator, 0, 100);
    let action = options.weights.picked(roll);
    let (word, after_word) = word_draw(after_roll);
    let (target, after_target) = if options.redirects_on(word) {
        u8_draw(after_word, 1, options.replica_count)
    } else {
        (0, after_word)
    };
    let count = outcome_counts[action.ordinal()];
    let (outcome_id, after_outcome) = if count <= 1 {
        (0, after_target)
    } else {
        usize_draw(after_target, 0, count)
    };
    (RequestPlan { action, target, outcome_id }, after_outcome)
}

/// A simulator-side follow-up of a committed command.
#[derive(Debug, Clone, Copy, PartialEq, Eq, Structural)]
pub enum SimCommand {
    /// Materialise the partition group of a namespace.
    InitPartition { ns: IggyNamespace },
}

/// The parts of a reply that decide what becomes of it.
#[derive(Debug, Clone, Copy)]
pub struct Reply {
    pub client: u128,
    pub request: u64,
    /// Group the reply came from.
    pub group: u64,
    /// The replied operation is a metadata operation; only those carry a result
    /// section.
    pub is_metadata: bool,
    /// Size of header and body.
    pub size: u32,
    /// Size of the header alone.
    pub header_size: u32,
    /// Result code decoded from the body, `None` if it has no well-formed result
    /// section.
    pub result_code: Option<u32>,
    /// The operation's result enum declares the decoded code.
    pub code_recognized: bool,
}

/// What the command layer made of a committed result.
#[derive(Debug)]
pub struct CommittedEffect {
    /// The outcome the result code stands for.
    pub outcome: u32,
    /// Applying the outcome's effect changed the shadow.
    pub applied: bool,
    /// Follow-ups of the change.
    pub sim_commands: Vec<SimCommand>,
}

/// How a reply relates to the outstanding requests.
#[derive(Debug, Clone, Copy, PartialEq, Eq, Structural)]
pub enum OnReply {
    /// It answers an outstanding request.
    Match(InFlight),
    /// It answers an outstanding request from a group it was not sent to.
    NsMismatch,
    /// Nothing outstanding has its key: a duplicate or stale reply.
    Unknown,
}

/// A reply that contradicts what a correct server may answer.
#[derive(Debug, Clone, Copy, PartialEq, Eq, Structural)]
pub enum ReplyFault {
    /// A metadata reply smaller than its header.
    ShortReply { action: Action, size: u32, header_size: u32 },
    /// A metadata reply without a well-formed result section.
    CorruptResult { action: Action },
    /// A result code outside the operation's result enum.
    UnrecognizedCode { action: Action, code: u32 },
    /// On a serial run, an outcome other than the targeted one.
    UnexpectedOutcome { action: Action, code: u32, targeted: u32, committed: u32 },
}

/// The closing note of a reply fault: whose request it was.
pub open spec fn request_note(client: u128, request: u64) -> Seq<char> {
    "client="@ + decimal(client as nat) + ", request="@ + decimal(request as nat) + ")"@
}

fn push_request_note(out: &mut String, client: u128, request: u64)
    ensures
        final(out)@ == old(out)@ + request_note(client, request),
{
    out.append("client=");
    push_decimal(out, client);
    out.append(", request=");
    push_decimal(out, request as u128);
    out.append(")");
    assert(out@ =~= old(out)@ + request_note(client, request));
}

impl ReplyFault {
    /// The report of the fault. `targeted` and `committed` are how the command
    /// layer renders the two outcomes of an unexpected one.
    pub open spec fn report(
        self,
        client: u128,
        request: u64,
        targeted: Seq<char>,
        committed: Seq<char>,
    ) -> Seq<char> {
        match self {
            ReplyFault::ShortReply { action, size, header_size } => {
                "metadata op "@ + action.label() + " reply size "@ + decimal(size as nat)
                    + " below header size "@ + decimal(header_size as nat) + " ("@ + request_note(
                    client,
                    request,
                )
            },
            ReplyFault::CorruptResult { action } => {
                "metadata op "@ + action.label()
                    + " reply has a truncated or corrupt result section ("@ + request_note(
                    client,
                    request,
                )
            },
            ReplyFault::UnrecognizedCode { action, code } => {
                "metadata op "@ + action.label() + " returned unrecognized result code "@ + decimal(
                    code as nat,
                ) + " ("@ + request_note(client, request)
            },
            ReplyFault::UnexpectedOutcome { action, code, .. } => {
                "outcome-first oracle: targeted "@ + targeted + " but committed "@ + committed
                    + " (action="@ + action.label() + ", code="@ + decimal(code as nat) + ", "@
                    + request_note(client, request)
            },
        }
    }

    /// The report of the fault. `targeted` and `committed` are how the command
    /// layer renders the two outcomes of an unexpected one.
    pub fn message(
        &self,
        client: u128,
        request: u64,
        targeted: &str,
        committed: &str,
    ) -> (text: String)
        ensures
            text@ == self.report(client, request, targeted@, committed@),
    {
        let mut out = String::new();
        match *self {
            ReplyFault::ShortReply { action, size, header_size } => {
                out.append("metadata op ");
                out.append(action.name());
                out.append(" reply size ");
                push_decimal(&mut out, size as u128);
                out.append(" below header size ");
                push_decimal(&mut out, header_size as u128);
                out.append(" (");
            },
            ReplyFault::CorruptResult { action } => {
                out.append("metadata op ");
                out.append(action.name());
                out.append(" reply has a truncated or corrupt result section (");
            },
            ReplyFault::UnrecognizedCode { action, code } => {
                out.append("metadata op ");
                out.append(action.name());
                out.append(" returned unrecognized result code ");
                push_decimal(&mut out, code as u128);
                out.append(" (");
            },
            ReplyFault::UnexpectedOutcome { action, code, .. } => {
                out.append("outcome-first oracle: targeted ");
                out.append(targeted);
                out.append(" but committed ");
                out.append(committed);
                out.append(" (action=");
                out.append(action.name());
                out.append(", code=");
                push_decimal(&mut out, code as u128);
                out.append(", ");
            },
        }
        push_request_note(&mut out, client, request);
        assert(out@ =~= self.report(client, request, targeted@, committed@));
        out
    }
}

impl Reply {
    /// The committed result code of a reply to a request of the given action, or
    /// what is wrong with the reply. Partition-plane replies carry no result
    /// section and count as code 0.
    pub open spec fn code_for(self, action: Action) -> Result<u32, ReplyFault> {
        if !self.is_metadata {
            Ok(0)
        } else if self.size < self.header_size {
            Err(
                ReplyFault::ShortReply { action, size: self.size, header_size: self.header_size },
            )
        } else {
            match self.result_code {
                None => Err(ReplyFault::CorruptResult { action }),
                Some(code) => if self.code_recognized {
                    Ok(code)
                } else {
                    Err(ReplyFault::UnrecognizedCode { action, code })
                },
            }
        }
    }

    /// The committed result code of a reply to a request of the given action.
    ///
    /// A metadata reply always carries a well-formed result section, and the
    /// state machine only commits codes its own result enum declares, so anything
    /// else is a server bug rather than a silent success.
    pub fn committed_code(&self, action: Action) -> (code: Result<u32, ReplyFault>)
        ensures
            code == self.code_for(action),
    {
        if !self.is_metadata {
            return Ok(0);
        }
        if self.size < self.header_size {
            return Err(
                ReplyFault::ShortReply { action, size: self.size, header_size: self.header_size },
            );
        }
        match self.result_code {
            None => Err(ReplyFault::CorruptResult { action }),
            Some(code) => if self.code_recognized {
                Ok(code)
            } else {
                Err(ReplyFault::UnrecognizedCode { action, code })
            },
        }
    }
}

/// The body of an encoded reply: what lies between the end of the header and the
/// size the header states. `None` for a size below the header's own.
pub fn reply_body(bytes: &[u8], header_size: usize, size: usize) -> (body: Option<&[u8]>)
    requires
        size <= bytes@.len(),
    ensures
        body is Some <==> header_size <= size,
        body is Some ==> body->0@ == bytes@.subrange(header_size as int, size as int),
        body is Some ==> bytes@.take(header_size as int) + body->0@ == bytes@.take(size as int),
{
    if size < header_size {
        None
    } else {
        Some(vstd::slice::slice_subrange(bytes, header_size, size))
    }
}

/// How a reply relates to a list of outstanding requests.
pub open spec fn matching(outstanding: Seq<OutstandingView>, reply: Reply) -> OnReply {
    if !holds(outstanding, reply.client, reply.request) {
        OnReply::Unknown
    } else {
        let expected = entry_for(outstanding, reply.client, reply.request).in_flight;
        if expected.request_namespace != reply.group {
            OnReply::NsMismatch
        } else {
            OnReply::Match(expected)
        }
    }
}

/// What is wrong with a matched reply, or its result code.
pub open spec fn judged(
    strict: bool,
    expected: InFlight,
    reply: Reply,
    committed: u32,
) -> Result<u32, ReplyFault> {
    match reply.code_for(expected.action) {
        Err(fault) => Err(fault),
        Ok(code) => if strict && committed != expected.outcome {
            Err(
                ReplyFault::UnexpectedOutcome {
                    action: expected.action,
                    code,
                    targeted: expected.outcome,
                    committed,
                },
            )
        } else {
            Ok(code)
        },
    }
}

/// The workload after a matched reply was accepted: the slot is free, and the
/// counters follow what committed, never what was targeted. A commit counts only
/// when it succeeded and changed the shadow.
pub open spec fn settled(
    before: WorkloadView,
    reply: Reply,
    action: Action,
    code: u32,
    applied: bool,
) -> WorkloadView {
    WorkloadView {
        outstanding: without_entry(before.outstanding, reply.client, reply.request),
        rejections: if code != 0 {
            (before.rejections + 1) as u64
        } else {
            before.rejections
        },
        commits: if code == 0 && applied {
            before.commits.update(
                action.ordinal(),
                (before.commits[action.ordinal()] + 1) as u64,
            )
        } else {
            before.commits
        },
        ..before
    }
}

/// The workload after a reply, and the follow-ups to run or the fault found.
///
/// A duplicate or stale reply changes nothing, and one from the wrong group only
/// frees its slot. A faulty reply changes nothing either.
pub open spec fn answered(before: WorkloadView, reply: Reply, effect: CommittedEffect) -> (
    WorkloadView,
    Result<Seq<SimCommand>, ReplyFault>,
) {
    match matching(before.outstanding, reply) {
        OnReply::Unknown => (before, Ok(Seq::empty())),
        OnReply::NsMismatch => (
            WorkloadView {
                outstanding: without_entry(before.outstanding, reply.client, reply.request),
                ..before
            },
            Ok(Seq::empty()),
        ),
        OnReply::Match(expected) => match judged(before.strict, expected, reply, effect.outcome) {
            Err(fault) => (before, Err(fault)),
            Ok(code) => (
                settled(before, reply, expected.action, code, effect.applied),
                Ok(effect.sim_commands@),
            ),
        },
    }
}

/// The request generator.
#[derive(Debug)]
pub struct Workload {
    prng: Generator,
    /// Predicted server entities. Maintained by the command layer.
    shadow: Shadow,
    options: WorkloadOptions,
    outstanding: RetryBuffer,
    /// Driver tick, advanced by [`Self::tick`]. A driver that never ticks never
    /// resends.
    now: u64,
    resends: u64,
    samples_none: u64,
    strict_outcome_oracle: bool,
    committed_rejections: u64,
    commits: [u64; ACTION_COUNT],
}

impl View for Workload {
    type V = WorkloadView;

    closed spec fn view(&self) -> WorkloadView {
        WorkloadView {
            options: self.options,
            shadow: self.shadow,
            generator: self.prng@,
            outstanding: self.outstanding@,
            now: self.now,
            resends: self.resends,
            samples_none: self.samples_none,
            strict: self.strict_outcome_oracle,
            rejections: self.committed_rejections,
            commits: self.commits@,
        }
    }
}

impl Workload {
    /// A workload that has sent nothing.
    ///
    /// The equality oracle is armed only for a fully serial run (one client, one
    /// in-flight slot), where the shadow equals committed server state at sample
    /// time, so that the targeted outcome is always realized.
    pub fn new(options: WorkloadOptions) -> (workload: Self)
        ensures
            workload@.is_fresh(options),
            workload@.shadow.is_blank(),
    {
        let prng = Generator::seeded(options.seed);
        let strict_outcome_oracle = options.client_count == 1 && CLIENT_REQUEST_QUEUE_MAX == 1;
        Workload {
            prng,
            shadow: Shadow::new(),
            options,
            outstanding: RetryBuffer::new(),
            now: 0,
            resends: 0,
            samples_none: 0,
            strict_outcome_oracle,
            committed_rejections: 0,
            commits: [0; ACTION_COUNT],
        }
    }

    /// The run's knobs.
    pub fn options(&self) -> (options: &WorkloadOptions)
        ensures
            *options == self@.options,
    {
        &self.options
    }

    /// Changes the run's knobs. Whether the equality oracle is armed stays as it was
    /// decided when the workload was made.
    pub fn set_options(&mut self, options: WorkloadOptions)
        ensures
            final(self)@ == (WorkloadView { options, ..old(self)@ }),
            final(self)@ == Operation::Change(options).performed(old(self)@),
            old(self)@.wf() ==> final(self)@.wf(),
    {
        self.options = options;
    }

    /// Predicted server entities.
    pub fn shadow(&self) -> (shadow: &Shadow)
        ensures
            *shadow == self@.shadow,
    {
        &self.shadow
    }

    /// Replaces the predicted server entities, for the command layer to apply an
    /// effect.
    pub fn set_shadow(&mut self, shadow: Shadow)
        ensures
            final(self)@ == (WorkloadView { shadow, ..old(self)@ }),
            old(self)@.wf() ==> final(self)@.wf(),
    {
        self.shadow = shadow;
    }

    /// True if the client has a free in-flight slot.
    pub fn client_idle(&self, client_id: u128) -> (idle: bool)
        ensures
            idle == self@.idle(client_id),
    {
        self.client_in_flight(client_id) < CLIENT_REQUEST_QUEUE_MAX
    }

    /// Total in-flight requests across all clients.
    pub fn total_in_flight(&self) -> (count: usize)
        ensures
            count == self@.outstanding.len(),
    {
        self.outstanding.len()
    }

    fn client_in_flight(&self, client_id: u128) -> (count: usize)
        ensures
            count == client_entries(self@.outstanding, client_id),
    {
        self.outstanding.count_client(client_id)
    }

    /// Aggregate in-flight ceiling: one queue's worth per declared client.
    pub fn in_flight_bound(&self) -> (bound: usize)
        ensures
            bound == self@.options.client_count * CLIENT_REQUEST_QUEUE_MAX,
    {
        self.options.client_count as usize * CLIENT_REQUEST_QUEUE_MAX
    }

    /// True when the run is fully serial (one client, one in-flight slot), the
    /// regime where the shadow equals committed server state.
    pub fn strict_outcome_oracle(&self) -> (strict: bool)
        ensures
            strict == self@.strict,
    {
        self.strict_outcome_oracle
    }

    /// Driver tick.
    pub fn now(&self) -> (now: u64)
        ensures
            now == self@.now,
    {
        self.now
    }

    /// Total resends issued so far.
    pub fn resends(&self) -> (resends: u64)
        ensures
            resends == self@.resends,
    {
        self.resends
    }

    /// Requests the command layer could not synthesize: a targeted outcome whose
    /// shadow precondition was unmet.
    pub fn samples_none(&self) -> (count: u64)
        ensures
            count == self@.samples_none,
    {
        self.samples_none
    }

    /// Committed rejections seen so far.
    pub fn committed_rejections(&self) -> (count: u64)
        ensures
            count == self@.rejections,
    {
        self.committed_rejections
    }

    /// Commits of an action that changed the shadow.
    pub fn commits(&self, action: Action) -> (count: u64)
        ensures
            count == self@.commits[action.ordinal()],
    {
        self.commits[action.index()]
    }

    /// State bytes of the traffic generator, for the command layer to draw from.
    pub fn generator_state(&self) -> (state: [u8; 32])
        ensures
            state@ == self@.generator,
    {
        self.prng.state()
    }

    /// Advances the resend clock by one tick. Called once per driver iteration;
    /// [`Self::due_resends`] measures against it.
    pub fn tick(&mut self)
        requires
            old(self)@.wf(),
            old(self)@.now < u64::MAX,
        ensures
            final(self)@ == (WorkloadView { now: (old(self)@.now + 1) as u64, ..old(self)@ }),
            final(self)@ == Operation::Tick.performed(old(self)@),
            final(self)@.wf(),
    {
        self.now = self.now + 1;
    }

    /// Requests whose reply has not arrived within
    /// [`WorkloadOptions::request_timeout_ticks`], each paired with the replica
    /// to retry it against. Callers must submit every returned message.
    ///
    /// This is what a real client's read timeout does. A dropped request or reply
    /// otherwise strands the client's only in-flight slot for the rest of the
    /// run, and a request lost to a crashed primary can only be answered by the
    /// next one, which the client reaches by rotating its target.
    pub fn due_resends(&mut self) -> (due: Vec<(u8, RequestMessage)>)
        requires
            old(self)@.wf(),
            old(self)@.can_resend(),
        ensures
            final(self)@.wf(),
            message_views(due@) == due_messages(old(self)@),
            final(self)@ == after_due(old(self)@),
            final(self)@ == Operation::Resend.performed(old(self)@),
            Operation::Resend.produced(old(self)@) == Produced::Resends(message_views(due@)),
    {
        let timeout: u64 = self.options.request_timeout_ticks;
        if timeout == 0 {
            let none: Vec<(u8, RequestMessage)> = Vec::new();
            assert(message_views(none@) =~= Seq::empty());
            return none;
        }
        let replica_count: u8 = if self.options.replica_count == 0 {
            1
        } else {
            self.options.replica_count
        };
        let ghost before = self@;
        let due = self.outstanding.resend_overdue(self.now, timeout, replica_count);
        proof {
            let after = self.outstanding@;
            assert forall|client: u128| #[trigger]
                client_entries(after, client) <= CLIENT_REQUEST_QUEUE_MAX by {
                resends_keep_the_request(
                    before.outstanding,
                    before.now,
                    timeout,
                    replica_count,
                    client,
                );
            }
            resends_keep_the_request(before.outstanding, before.now, timeout, replica_count, 0);
            assert forall|i: int| 0 <= i < after.len() implies {
                &&& (#[trigger] after[i]).attempted_tick <= before.now
                &&& 1 <= after[i].attempts <= after[i].attempted_tick + 1
                &&& after[i].target < 255
            } by {
                assert(before.outstanding[i].attempted_tick <= before.now);
                vstd::arithmetic::div_mod::lemma_mod_bound(
                    before.outstanding[i].target + 1,
                    replica_count as int,
                );
            }
            resend_list_is_short(before.outstanding, before.now, timeout, replica_count);
            assert(message_views(due@).len() == due@.len());
        }
        self.resends = self.resends + due.len() as u64;
        due
    }

    /// Outstanding requests as `(client, request, action, target, attempts)`, in
    /// key order. Names what a run was still waiting on when it failed to drain,
    /// including which command, since some commands cannot be answered twice and
    /// a resend of those is a permanent stall rather than a slow one.
    pub fn outstanding_summary(&self) -> (summary: Vec<(u128, u64, Action, u8, u32)>)
        ensures
            summary@ == self@.outstanding.map_values(
                |entry: OutstandingView|
                    (
                        entry.client,
                        entry.request,
                        entry.in_flight.action,
                        entry.target,
                        entry.attempts,
                    ),
            ),
            summary@.len() == self@.outstanding.len(),
            forall|i: int|
                0 <= i < summary@.len() ==> {
                    &&& (#[trigger] summary@[i]).0 == self@.outstanding[i].client
                    &&& summary@[i].1 == self@.outstanding[i].request
                    &&& summary@[i].2 == self@.outstanding[i].in_flight.action
                    &&& summary@[i].3 == self@.outstanding[i].target
                    &&& summary@[i].4 == self@.outstanding[i].attempts
                },
    {
        let mut summary: Vec<(u128, u64, Action, u8, u32)> = Vec::new();
        let mut i: usize = 0;
        while i < self.outstanding.len()
            invariant
                i <= self@.outstanding.len(),
                summary@.len() == i,
                forall|j: int|
                    0 <= j < i ==> #[trigger] summary@[j] == (
                        self@.outstanding[j].client,
                        self@.outstanding[j].request,
                        self@.outstanding[j].in_flight.action,
                        self@.outstanding[j].target,
                        self@.outstanding[j].attempts,
                    ),
            decreases self@.outstanding.len() - i,
        {
            let entry = self.outstanding.get(i);
            summary.push(
                (
                    entry.client,
                    entry.request,
                    entry.in_flight.action,
                    entry.target,
                    entry.attempts,
                ),
            );
            i = i + 1;
        }
        summary
    }

    /// Plans the next request of a client: `None` if the client has no idle slot,
    /// in which case nothing is drawn.
    ///
    /// `outcome_counts` says how many outcomes each action declares, in
    /// declaration order. The draws advance the generator whether or not the
    /// command layer can then synthesize the request.
    pub fn pick_request(&mut self, client_id: u128, outcome_counts: &[usize]) -> (plan: Option<
        RequestPlan,
    >)
        requires
            old(self)@.wf(),
            outcome_counts@.len() == ACTION_COUNT,
        ensures
            final(self)@.wf(),
            plan is Some <==> old(self)@.idle(client_id),
            plan is None ==> final(self)@ == old(self)@,
            ({
                let operation = Operation::Plan {
                    client: client_id,
                    outcome_counts: outcome_counts@,
                };
                &&& final(self)@ == operation.performed(old(self)@)
                &&& operation.produced(old(self)@) == Produced::Planned(plan)
            }),
            plan is Some ==> ({
                let (picked, generator) = planned(
                    old(self)@.generator,
                    old(self)@.options,
                    outcome_counts@,
                );
                &&& plan->0 == picked
                &&& final(self)@ == (WorkloadView { generator, ..old(self)@ })
            }),
            plan is Some ==> ({
                let (roll, after_roll) = u32_draw(old(self)@.generator, 0, 100);
                let redirected = old(self)@.options.redirects_on(word_draw(after_roll).0);
                &&& plan->0.target < 255
                &&& redirected ==> 1 <= plan->0.target < old(self)@.options.replica_count
                &&& !redirected ==> plan->0.target == 0
                &&& plan->0.outcome_id == 0 || plan->0.outcome_id
                    < outcome_counts@[plan->0.action.ordinal()]
            }),
    {
        if !self.client_idle(client_id) {
            return None;
        }
        let action = self.pick_action();
        let target: u8 = self.pick_target_replica();
        let outcome_id: usize = self.pick_outcome(outcome_counts[action.index()]);
        Some(RequestPlan { action, target, outcome_id })
    }

    fn pick_action(&mut self) -> (action: Action)
        ensures
            ({
                let (roll, generator) = u32_draw(old(self)@.generator, 0, 100);
                &&& action == old(self)@.options.weights.picked(roll)
                &&& final(self)@ == (WorkloadView { generator, ..old(self)@ })
            }),
    {
        let roll: u32 = self.prng.range_u32(0, 100);
        self.options.weights.pick(roll)
    }

    fn pick_target_replica(&mut self) -> (target: u8)
        ensures
            target < 255,
            old(self)@.options.redirects_on(word_draw(old(self)@.generator).0) ==> 1 <= target
                < old(self)@.options.replica_count,
            !old(self)@.options.redirects_on(word_draw(old(self)@.generator).0) ==> target == 0,
            ({
                let (word, after_word) = word_draw(old(self)@.generator);
                let (drawn, generator) = if old(self)@.options.redirects_on(word) {
                    u8_draw(after_word, 1, old(self)@.options.replica_count)
                } else {
                    (0, after_word)
                };
                &&& target == drawn
                &&& final(self)@ == (WorkloadView { generator, ..old(self)@ })
            }),
    {
        let word: u32 = self.prng.word();
        if self.options.redirects(word) {
            self.prng.range_u8(1, self.options.replica_count)
        } else {
            0
        }
    }

    fn pick_outcome(&mut self, count: usize) -> (outcome_id: usize)
        ensures
            outcome_id == 0 || outcome_id < count,
            ({
                let (drawn, generator) = if count <= 1 {
                    (0, old(self)@.generator)
                } else {
                    usize_draw(old(self)@.generator, 0, count)
                };
                &&& outcome_id == drawn
                &&& final(self)@ == (WorkloadView { generator, ..old(self)@ })
            }),
    {
        if count <= 1 {
            0
        } else {
            self.prng.range_usize(0, count)
        }
    }

    /// Admits a planned request that the command layer has encoded, and returns
    /// the message and the replica to send it to. `None` if it could not
    /// synthesize one.
    ///
    /// `generator` is the state the command layer left the generator in.
    pub fn build_request(
        &mut self,
        client_id: u128,
        plan: RequestPlan,
        generator: [u8; 32],
        sampled: Option<SampledRequest>,
    ) -> (request: Option<(u8, RequestMessage)>)
        requires
            old(self)@.wf(),
            old(self)@.idle(client_id),
            old(self)@.samples_none < u64::MAX,
            plan.target < 255,
        ensures
            final(self)@.wf(),
            match sampled {
                None => {
                    &&& request is None
                    &&& final(self)@ == unsampled(old(self)@, generator@)
                },
                Some(sample) => {
                    &&& request matches Some((target, message))
                    &&& target == plan.target
                    &&& message@ == sample.message@
                    &&& final(self)@ == sent(old(self)@, client_id, plan, sample, generator@)
                },
            },
            ({
                let operation = Operation::Build {
                    client: client_id,
                    plan,
                    generator: generator@,
                    sampled,
                };
                &&& final(self)@ == operation.performed(old(self)@)
                &&& operation.produced(old(self)@) == Produced::Built(
                    match request {
                        Some((target, message)) => Some((target, message@)),
                        None => None,
                    },
                )
            }),
    {
        self.prng = Generator::from_state(generator);
        match sampled {
            None => {
                self.samples_none = self.samples_none + 1;
                None
            },
            Some(sample) => {
                let ghost before = self@.outstanding;
                let ghost added = admitted(client_id, plan, sample, self.now);
                let request: u64 = sample.message.request;
                let in_flight = InFlight {
                    action: plan.action,
                    outcome: sample.outcome,
                    request_namespace: sample.message.group,
                };
                let entry = Outstanding {
                    client: client_id,
                    request,
                    message: sample.message.deep_copy(),
                    target: plan.target,
                    attempted_tick: self.now,
                    attempts: 1,
                    in_flight,
                };
                self.outstanding.insert(entry);
                proof {
                    assert forall|client: u128| #[trigger]
                        client_entries(
                            self.outstanding@,
                            client,
                        ) <= CLIENT_REQUEST_QUEUE_MAX by {
                        insert_counts_one_client(before, added, client);
                        assert(client_entries(before, client) <= CLIENT_REQUEST_QUEUE_MAX);
                    }
                    let after = self.outstanding@;
                    let place = rank(before, client_id, request);
                    rank_is_place(before, client_id, request);
                    assert forall|i: int| 0 <= i < after.len() implies {
                        &&& (#[trigger] after[i]).attempted_tick <= self.now
                        &&& 1 <= after[i].attempts <= after[i].attempted_tick + 1
                        &&& after[i].target < 255
                    } by {
                        if after[i] != added {
                            let j = if after.len() == before.len() || i < place {
                                i
                            } else {
                                i - 1
                            };
                            assert(after[i] == before[j]);
                        }
                    }
                }
                Some((plan.target, sample.message))
            },
        }
    }

    /// How a reply relates to the outstanding requests.
    pub fn match_reply(&self, reply: &Reply) -> (found: OnReply)
        requires
            self@.wf(),
        ensures
            found == matching(self@.outstanding, *reply),
    {
        match self.outstanding.find(reply.client, reply.request) {
            None => OnReply::Unknown,
            Some(place) => {
                let expected = self.outstanding.get(place).in_flight;
                if expected.request_namespace != reply.group {
                    OnReply::NsMismatch
                } else {
                    OnReply::Match(expected)
                }
            },
        }
    }

    /// Validates and applies a reply. Returns the follow-ups the driver must run
    /// against the cluster.
    ///
    /// A duplicate or stale reply changes nothing; one from the wrong group frees
    /// its slot and nothing more. For any other, `effect` is what the command
    /// layer made of the committed result code: the equality oracle holds its
    /// outcome against the targeted one on a serial run, and the counters follow
    /// it. With several clients a concurrent commit can flip a targeted outcome,
    /// so there the recognized-code check is the only oracle.
    pub fn on_reply(&mut self, reply: &Reply, effect: CommittedEffect) -> (result: Result<
        Vec<SimCommand>,
        ReplyFault,
    >)
        requires
            old(self)@.wf(),
            old(self)@.can_count(),
        ensures
            final(self)@.wf(),
            match answered(old(self)@, *reply, effect) {
                (after, outcome) => {
                    &&& final(self)@ == after
                    &&& match outcome {
                        Ok(commands) => result is Ok && result->Ok_0@ == commands,
                        Err(fault) => result is Err && result->Err_0 == fault,
                    }
                },
            },
            ({
                let operation = Operation::Reply { reply: *reply, effect };
                &&& final(self)@ == operation.performed(old(self)@)
                &&& operation.produced(old(self)@) == Produced::Answered(
                    match result {
                        Ok(commands) => Ok(commands@),
                        Err(fault) => Err(fault),
                    },
                )
            }),
    {
        let expected = match self.match_reply(reply) {
            OnReply::Unknown => {
                return Ok(Vec::new());
            },
            OnReply::NsMismatch => {
                self.release_outstanding(reply.client, reply.request);
                return Ok(Vec::new());
            },
            OnReply::Match(expected) => expected,
        };
        let code: u32 = match reply.committed_code(expected.action) {
            Ok(code) => code,
            Err(fault) => {
                return Err(fault);
            },
        };
        if self.strict_outcome_oracle && effect.outcome != expected.outcome {
            return Err(
                ReplyFault::UnexpectedOutcome {
                    action: expected.action,
                    code,
                    targeted: expected.outcome,
                    committed: effect.outcome,
                },
            );
        }
        if code != 0 {
            self.committed_rejections = self.committed_rejections + 1;
        }
        if code == 0 && effect.applied {
            let index: usize = expected.action.index();
            let count: u64 = self.commits[index];
            self.commits[index] = count + 1;
        }
        self.release_outstanding(reply.client, reply.request);
        Ok(effect.sim_commands)
    }

    /// Drops a request's retry entry, freeing the client's slot.
    fn release_outstanding(&mut self, client: u128, request: u64)
        requires
            old(self)@.wf(),
            holds(old(self)@.outstanding, client, request),
        ensures
            final(self)@.wf(),
            final(self)@ == (WorkloadView {
                outstanding: without_entry(old(self)@.outstanding, client, request),
                ..old(self)@
            }),
    {
        let ghost before = self@.outstanding;
        let removed: bool = self.outstanding.remove(client, request);
        proof {
            assert forall|other: u128| #[trigger]
                client_entries(
                    self.outstanding@,
                    other,
                ) <= CLIENT_REQUEST_QUEUE_MAX by {
                release_frees_one_slot(before, client, request, other);
                assert(client_entries(before, other) <= CLIENT_REQUEST_QUEUE_MAX);
            }
            let after = self.outstanding@;
            let place = rank(before, client, request);
            rank_is_place(before, client, request);
            assert forall|i: int| 0 <= i < after.len() implies {
                &&& (#[trigger] after[i]).attempted_tick <= self.now
                &&& 1 <= after[i].attempts <= after[i].attempted_tick + 1
                &&& after[i].target < 255
            } by {
                let j = if i < place {
                    i
                } else {
                    i + 1
                };
                assert(after[i] == before[j]);
            }
        }
    }
}

/// A replica count that can be divided by.
pub open spec fn at_least_one(replica_count: u8) -> u8 {
    if replica_count == 0 {
        1
    } else {
        replica_count
    }
}

/// The entry of a request admitted at tick `now`.
pub open spec fn admitted(
    client_id: u128,
    plan: RequestPlan,
    sample: SampledRequest,
    now: u64,
) -> OutstandingView {
    OutstandingView {
        client: client_id,
        request: sample.message.request,
        message: sample.message@,
        target: plan.target,
        attempted_tick: now,
        attempts: 1,
        in_flight: InFlight {
            action: plan.action,
            outcome: sample.outcome,
            request_namespace: sample.message.group,
        },
    }
}

/// The workload after the command layer could not synthesize a request.
pub open spec fn unsampled(workload: WorkloadView, generator: Seq<u8>) -> WorkloadView {
    WorkloadView { generator, samples_none: (workload.samples_none + 1) as u64, ..workload }
}

/// The workload after a sampled request was admitted.
pub open spec fn sent(
    workload: WorkloadView,
    client_id: u128,
    plan: RequestPlan,
    sample: SampledRequest,
    generator: Seq<u8>,
) -> WorkloadView {
    WorkloadView {
        generator,
        outstanding: with_entry(
            workload.outstanding,
            admitted(client_id, plan, sample, workload.now),
        ),
        ..workload
    }
}

proof fn resend_list_is_short(
    entries: Seq<OutstandingView>,
    now: u64,
    timeout: u64,
    replica_count: u8,
)
    ensures
        resend_list(entries, now, timeout, replica_count).len() <= entries.len(),
    decreases entries.len(),
{
    if entries.len() > 0 {
        resend_list_is_short(entries.drop_last(), now, timeout, replica_count);
    }
}

/// A message on its way into the network.
#[derive(Debug)]
pub struct Submission {
    pub client: u128,
    pub target: u8,
    pub message: RequestMessage,
}

/// A message on its way into the network.
pub ghost struct SubmissionView {
    pub client: u128,
    pub target: u8,
    pub message: MessageView,
}

impl View for Submission {
    type V = SubmissionView;

    open spec fn view(&self) -> SubmissionView {
        SubmissionView { client: self.client, target: self.target, message: self.message@ }
    }
}

/// The submissions of a list of messages: the client id rides each message's
/// header, so a resend re-enters the network exactly as the original did.
pub open spec fn submissions(messages: Seq<(u8, MessageView)>) -> Seq<SubmissionView> {
    messages.map_values(
        |message: (u8, MessageView)|
            SubmissionView {
                client: message.1.client,
                target: message.0,
                message: message.1,
            },
    )
}

/// Submits every request whose reply is overdue (see [`Workload::due_resends`]):
/// what to hand to the network, in order.
pub fn resubmit_due(workload: &mut Workload) -> (due: Vec<Submission>)
    requires
        old(workload)@.wf(),
        old(workload)@.can_resend(),
    ensures
        final(workload)@.wf(),
        due@.map_values(|submission: Submission| submission@) == submissions(
            due_messages(old(workload)@),
        ),
        final(workload)@ == after_due(old(workload)@),
{
    let mut messages = workload.due_resends();
    let ghost all = message_views(messages@);
    assert(all.take(messages@.len() as int) =~= all);
    let mut reversed: Vec<Submission> = Vec::new();
    while messages.len() > 0
        invariant
            messages@.len() + reversed@.len() == all.len(),
            message_views(messages@) == all.take(messages@.len() as int),
            forall|i: int|
                0 <= i < reversed@.len() ==> (#[trigger] reversed@[i])@ == submissions(
                    all,
                )[all.len() - 1 - i],
        decreases messages@.len(),
    {
        let ghost before = messages@;
        match messages.pop() {
            Some((target, message)) => {
                assert(message_views(before)[before.len() - 1] == (target, message@));
                assert(message_views(messages@) =~= all.take(messages@.len() as int));
                reversed.push(Submission { client: message.client, target, message });
            },
            None => {},
        }
    }
    let mut due: Vec<Submission> = Vec::new();
    while reversed.len() > 0
        invariant
            reversed@.len() + due@.len() == all.len(),
            forall|i: int|
                0 <= i < reversed@.len() ==> (#[trigger] reversed@[i])@ == submissions(
                    all,
                )[all.len() - 1 - i],
            forall|i: int| 0 <= i < due@.len() ==> (#[trigger] due@[i])@ == submissions(all)[i],
        decreases reversed@.len(),
    {
        match reversed.pop() {
            Some(submission) => {
                due.push(submission);
            },
            None => {},
        }
    }
    assert(due@.map_values(|submission: Submission| submission@) =~= submissions(all));
    due
}

/// The overdue messages of a workload and the replicas to retry them against.
pub open spec fn due_messages(workload: WorkloadView) -> Seq<(u8, MessageView)> {
    let options = workload.options;
    if options.request_timeout_ticks == 0 {
        Seq::empty()
    } else {
        resend_list(
            workload.outstanding,
            workload.now,
            options.request_timeout_ticks,
            at_least_one(options.replica_count),
        )
    }
}

/// The workload after its overdue messages were resent.
pub open spec fn after_due(workload: WorkloadView) -> WorkloadView {
    let options = workload.options;
    if options.request_timeout_ticks == 0 {
        workload
    } else {
        WorkloadView {
            outstanding: after_resends(
                workload.outstanding,
                workload.now,
                options.request_timeout_ticks,
                at_least_one(options.replica_count),
            ),
            resends: (workload.resends + due_messages(workload).len()) as u64,
            ..workload
        }
    }
}

/// The namespace a follow-up materialises.
pub open spec fn materialised(command: SimCommand) -> IggyNamespace {
    match command {
        SimCommand::InitPartition { ns } => ns,
    }
}

/// Applies the follow-ups returned by [`Workload::on_reply`]: the namespaces to
/// materialise, in order.
pub fn apply_sim_commands(cmds: &[SimCommand]) -> (namespaces: Vec<IggyNamespace>)
    ensures
        namespaces@ == cmds@.map_values(|command: SimCommand| materialised(command)),
{
    let mut namespaces: Vec<IggyNamespace> = Vec::new();
    let mut i: usize = 0;
    while i < cmds.len()
        invariant
            i <= cmds.len(),
            namespaces@.len() == i,
            forall|j: int| 0 <= j < i ==> #[trigger] namespaces@[j] == materialised(cmds@[j]),
        decreases cmds.len() - i,
    {
        match cmds[i] {
            SimCommand::InitPartition { ns } => {
                namespaces.push(ns);
            },
        }
        i = i + 1;
    }
    namespaces
}

/// A plan is a function of the generator's state and of the knobs it reads: two
/// workloads started from one seed plan the same requests, draw for draw.
pub proof fn equal_states_plan_alike(
    left: WorkloadView,
    right: WorkloadView,
    outcome_counts: Seq<usize>,
)
    requires
        left.generator == right.generator,
        left.options.weights@ == right.options.weights@,
        left.options.replica_count == right.options.replica_count,
        left.options.target_non_primary_ratio == right.options.target_non_primary_ratio,
    ensures
        planned(left.generator, left.options, outcome_counts) == planned(
            right.generator,
            right.options,
            outcome_counts,
        ),
{
}

/// A reply to an admitted request, from the group it was sent to, is recognized
/// as its answer with the expectation recorded at admission.
pub proof fn admitted_request_is_matched(
    workload: WorkloadView,
    client_id: u128,
    plan: RequestPlan,
    sample: SampledRequest,
    reply: Reply,
)
    requires
        workload.wf(),
        reply.client == client_id,
        reply.request == sample.message.request,
        reply.group == sample.message.group,
    ensures
        matching(
            with_entry(
                workload.outstanding,
                admitted(client_id, plan, sample, workload.now),
            ),
            reply,
        ) == OnReply::Match(
            InFlight {
                action: plan.action,
                outcome: sample.outcome,
                request_namespace: sample.message.group,
            },
        ),
{
    inserted_entry_is_found(
        workload.outstanding,
        admitted(client_id, plan, sample, workload.now),
    );
}

/// A request is answered once: after a reply released its slot, the same reply
/// again is unknown, so a duplicate changes nothing.
pub proof fn duplicate_reply_is_unknown(workload: WorkloadView, reply: Reply)
    requires
        workload.wf(),
        matching(workload.outstanding, reply) != OnReply::Unknown,
    ensures
        matching(
            without_entry(workload.outstanding, reply.client, reply.request),
            reply,
        ) == OnReply::Unknown,
{
    release_frees_one_slot(
        workload.outstanding,
        reply.client,
        reply.request,
        reply.client,
    );
}

/// A released slot is free again: the client may send its next request.
pub proof fn release_makes_client_idle(workload: WorkloadView, client: u128, request: u64)
    requires
        workload.wf(),
        holds(workload.outstanding, client, request),
    ensures
        !workload.idle(client),
        (WorkloadView {
            outstanding: without_entry(workload.outstanding, client, request),
            ..workload
        }).idle(client),
{
    release_frees_one_slot(workload.outstanding, client, request, client);
    assert(client_entries(workload.outstanding, client) <= CLIENT_REQUEST_QUEUE_MAX);
}

/// Resending changes no expectation: a reply is judged alike before and after.
pub proof fn resends_keep_matching(workload: WorkloadView, reply: Reply)
    requires
        workload.wf(),
    ensures
        matching(after_due(workload).outstanding, reply) == matching(workload.outstanding, reply),
{
    let before = workload.outstanding;
    let options = workload.options;
    if options.request_timeout_ticks > 0 {
        let replicas = at_least_one(options.replica_count);
        let after = after_due(workload).outstanding;
        resends_keep_the_request(
            before,
            workload.now,
            options.request_timeout_ticks,
            replicas,
            reply.client,
        );
        rank_is_place(before, reply.client, reply.request);
        rank_is_place(after, reply.client, reply.request);
        if holds(before, reply.client, reply.request) {
            let place = rank(before, reply.client, reply.request);
            assert(after[place].is_for(reply.client, reply.request));
            entry_stands_at_rank(after, place, reply.client, reply.request);
        } else if holds(after, reply.client, reply.request) {
            let place = rank(after, reply.client, reply.request);
            assert(before[place].is_for(reply.client, reply.request));
        }
    }
}

proof fn two_entries_of_one_client(entries: Seq<OutstandingView>, left: int, right: int)
    requires
        0 <= left < right < entries.len(),
        entries[left].client == entries[right].client,
    ensures
        client_entries(entries, entries[left].client) >= 2,
    decreases entries.len(),
{
    let shorter = entries.drop_last();
    if right < entries.len() - 1 {
        two_entries_of_one_client(shorter, left, right);
    } else {
        one_entry_counts(shorter, left);
    }
}

proof fn one_entry_counts(entries: Seq<OutstandingView>, place: int)
    requires
        0 <= place < entries.len(),
    ensures
        client_entries(entries, entries[place].client) >= 1,
    decreases entries.len(),
{
    if place < entries.len() - 1 {
        one_entry_counts(entries.drop_last(), place);
    }
}

/// Total in-flight requests stay within the per-client queue ceiling: as long as
/// requests belong to the driven clients, there are at most as many as the
/// clients' queues hold together.
pub proof fn in_flight_stays_within_queues(workload: WorkloadView, clients: Set<u128>)
    requires
        workload.wf(),
        clients.finite(),
        forall|i: int|
            0 <= i < workload.outstanding.len() ==> clients.contains(
                (#[trigger] workload.outstanding[i]).client,
            ),
    ensures
        workload.outstanding.len() <= clients.len() * CLIENT_REQUEST_QUEUE_MAX,
{
    let owners = workload.outstanding.map_values(|entry: OutstandingView| entry.client);
    assert forall|i: int, j: int|
        0 <= i < owners.len() && 0 <= j < owners.len() && i != j implies owners[i]
        != owners[j] by {
        if owners[i] == owners[j] {
            if i < j {
                two_entries_of_one_client(workload.outstanding, i, j);
            } else {
                two_entries_of_one_client(workload.outstanding, j, i);
            }
            assert(client_entries(workload.outstanding, owners[i]) <= CLIENT_REQUEST_QUEUE_MAX);
        }
    }
    owners.unique_seq_to_set();
    assert forall|client: u128| owners.to_set().contains(client) implies clients.contains(
        client,
    ) by {
        let i = choose|i: int| 0 <= i < owners.len() && owners[i] == client;
        assert(clients.contains(workload.outstanding[i].client));
    }
    vstd::set_lib::lemma_len_subset(owners.to_set(), clients);
}

/// Every outstanding request is one of the clients'.
pub open spec fn sent_by(workload: WorkloadView, clients: Seq<u128>) -> bool {
    forall|i: int|
        0 <= i < workload.outstanding.len() ==> clients.contains(
            (#[trigger] workload.outstanding[i]).client,
        )
}

/// Resending does not change whose requests are outstanding.
pub proof fn resends_keep_senders(workload: WorkloadView, clients: Seq<u128>)
    requires
        sent_by(workload, clients),
    ensures
        sent_by(after_due(workload), clients),
{
    let options = workload.options;
    if options.request_timeout_ticks > 0 {
        resends_keep_the_request(
            workload.outstanding,
            workload.now,
            options.request_timeout_ticks,
            at_least_one(options.replica_count),
            0,
        );
        let after = after_due(workload).outstanding;
        assert forall|i: int| 0 <= i < after.len() implies clients.contains(
            (#[trigger] after[i]).client,
        ) by {
            assert(clients.contains(workload.outstanding[i].client));
        }
    }
}

/// Admitting a request of one of the clients keeps the others'.
pub proof fn admission_keeps_senders(
    workload: WorkloadView,
    clients: Seq<u128>,
    client_id: u128,
    plan: RequestPlan,
    sample: SampledRequest,
    generator: Seq<u8>,
)
    requires
        workload.wf(),
        sent_by(workload, clients),
        clients.contains(client_id),
    ensures
        sent_by(sent(workload, client_id, plan, sample, generator), clients),
{
    let before = workload.outstanding;
    let added = admitted(client_id, plan, sample, workload.now);
    let after = with_entry(before, added);
    let place = rank(before, added.client, added.request);
    rank_is_place(before, added.client, added.request);
    assert forall|i: int| 0 <= i < after.len() implies clients.contains(
        (#[trigger] after[i]).client,
    ) by {
        if after[i] != added {
            let j = if after.len() == before.len() || i < place {
                i
            } else {
                i - 1
            };
            assert(after[i] == before[j]);
        }
    }
}

/// A reply only ever takes a request out.
pub proof fn replies_keep_senders(
    workload: WorkloadView,
    clients: Seq<u128>,
    reply: Reply,
    effect: CommittedEffect,
)
    requires
        workload.wf(),
        sent_by(workload, clients),
    ensures
        sent_by(answered(workload, reply, effect).0, clients),
{
    let before = workload.outstanding;
    let after = without_entry(before, reply.client, reply.request);
    let place = rank(before, reply.client, reply.request);
    rank_is_place(before, reply.client, reply.request);
    assert forall|i: int| 0 <= i < after.len() implies clients.contains(
        (#[trigger] after[i]).client,
    ) by {
        let j = if after.len() == before.len() || i < place {
            i
        } else {
            i + 1
        };
        assert(after[i] == before[j]);
    }
}

/// An operation on a workload, with what it is handed.
pub ghost enum Operation {
    /// [`Workload::tick`].
    Tick,
    /// [`Workload::set_options`].
    Change(WorkloadOptions),
    /// [`Workload::due_resends`].
    Resend,
    /// [`Workload::pick_request`].
    Plan { client: u128, outcome_counts: Seq<usize> },
    /// [`Workload::build_request`].
    Build {
        client: u128,
        plan: RequestPlan,
        generator: Seq<u8>,
        sampled: Option<SampledRequest>,
    },
    /// [`Workload::on_reply`].
    Reply { reply: Reply, effect: CommittedEffect },
}

/// What an operation hands back.
pub ghost enum Produced {
    Nothing,
    Resends(Seq<(u8, MessageView)>),
    Planned(Option<RequestPlan>),
    Built(Option<(u8, MessageView)>),
    Answered(Result<Seq<SimCommand>, ReplyFault>),
}

impl Operation {
    /// The workload after the operation.
    pub open spec fn performed(self, before: WorkloadView) -> WorkloadView {
        match self {
            Operation::Tick => WorkloadView { now: (before.now + 1) as u64, ..before },
            Operation::Change(options) => WorkloadView { options, ..before },
            Operation::Resend => after_due(before),
            Operation::Plan { client, outcome_counts } => if before.idle(client) {
                WorkloadView {
                    generator: planned(before.generator, before.options, outcome_counts).1,
                    ..before
                }
            } else {
                before
            },
            Operation::Build { client, plan, generator, sampled } => match sampled {
                Some(sample) => sent(before, client, plan, sample, generator),
                None => unsampled(before, generator),
            },
            Operation::Reply { reply, effect } => answered(before, reply, effect).0,
        }
    }

    /// What the operation hands back.
    pub open spec fn produced(self, before: WorkloadView) -> Produced {
        match self {
            Operation::Tick => Produced::Nothing,
            Operation::Change(options) => Produced::Nothing,
            Operation::Resend => Produced::Resends(due_messages(before)),
            Operation::Plan { client, outcome_counts } => Produced::Planned(
                if before.idle(client) {
                    Some(planned(before.generator, before.options, outcome_counts).0)
                } else {
                    None
                },
            ),
            Operation::Build { client, plan, generator, sampled } => Produced::Built(
                match sampled {
                    Some(sample) => Some((plan.target, sample.message@)),
                    None => None,
                },
            ),
            Operation::Reply { reply, effect } => Produced::Answered(
                answered(before, reply, effect).1,
            ),
        }
    }
}

/// The workload after a series of operations.
pub open spec fn after_operations(start: WorkloadView, operations: Seq<Operation>) -> WorkloadView
    decreases operations.len(),
{
    if operations.len() == 0 {
        start
    } else {
        operations.last().performed(after_operations(start, operations.drop_last()))
    }
}

/// The workloads are equal but for the shadow, which the command layer maintains.
pub open spec fn equal_but_shadow(left: WorkloadView, right: WorkloadView) -> bool {
    right == (WorkloadView { shadow: right.shadow, ..left })
}

/// A fresh workload is a function of its options, the seed among them: two that
/// satisfy what [`Workload::new`] promises of the same options are equal but for
/// the shadow.
pub proof fn equal_options_start_alike(left: WorkloadView, right: WorkloadView)
    requires
        left.is_fresh(left.options),
        right.is_fresh(right.options),
        left.options == right.options,
    ensures
        equal_but_shadow(left, right),
{
    assert forall|i: int| 0 <= i < ACTION_COUNT implies left.commits[i] == right.commits[i] by {
        crate::action::action_order_is_bijective(Action::at(i), i);
        assert(left.commits[Action::at(i).ordinal()] == 0);
        assert(right.commits[Action::at(i).ordinal()] == 0);
    }
    assert(left.commits =~= right.commits);
}

/// Two workloads that are equal but for the shadow stay so under every operation,
/// and the operation hands back the same from both.
pub proof fn operations_ignore_the_shadow(
    left: WorkloadView,
    right: WorkloadView,
    operation: Operation,
)
    requires
        equal_but_shadow(left, right),
    ensures
        equal_but_shadow(operation.performed(left), operation.performed(right)),
        operation.produced(left) == operation.produced(right),
{
}

/// A run is a function of its seed: two workloads that start equal but for the
/// shadow, and are handed the same, do the same at every point of any series of
/// operations, whatever shadows the command layer keeps.
pub proof fn runs_are_functions_of_their_start(
    left: WorkloadView,
    right: WorkloadView,
    operations: Seq<Operation>,
    place: int,
)
    requires
        equal_but_shadow(left, right),
        0 <= place < operations.len(),
    ensures
        equal_but_shadow(
            after_operations(left, operations),
            after_operations(right, operations),
        ),
        operations[place].produced(after_operations(left, operations.take(place)))
            == operations[place].produced(after_operations(right, operations.take(place))),
{
    series_ignore_the_shadow(left, right, operations);
    series_ignore_the_shadow(left, right, operations.take(place));
    operations_ignore_the_shadow(
        after_operations(left, operations.take(place)),
        after_operations(right, operations.take(place)),
        operations[place],
    );
}

proof fn series_ignore_the_shadow(
    left: WorkloadView,
    right: WorkloadView,
    operations: Seq<Operation>,
)
    requires
        equal_but_shadow(left, right),
    ensures
        equal_but_shadow(
            after_operations(left, operations),
            after_operations(right, operations),
        ),
    decreases operations.len(),
{
    if operations.len() > 0 {
        series_ignore_the_shadow(left, right, operations.drop_last());
        operations_ignore_the_shadow(
            after_operations(left, operations.drop_last()),
            after_operations(right, operations.drop_last()),
            operations.last(),
        );
    }
}

/// A sent request is recorded as sent now, once, to its planned replica, with the
/// message and the expectation it was built with; nothing else of the workload
/// changes but the generator, which is as the command layer left it.
pub proof fn sent_request_is_recorded(
    workload: WorkloadView,
    client_id: u128,
    plan: RequestPlan,
    sample: SampledRequest,
    generator: Seq<u8>,
)
    requires
        workload.wf(),
    ensures
        ({
            let after = sent(workload, client_id, plan, sample, generator);
            let request = sample.message.request;
            let entry = entry_for(after.outstanding, client_id, request);
            &&& holds(after.outstanding, client_id, request)
            &&& entry.attempted_tick == workload.now
            &&& entry.attempts == 1
            &&& entry.target == plan.target
            &&& entry.message == sample.message@
            &&& entry.in_flight.action == plan.action
            &&& entry.in_flight.outcome == sample.outcome
            &&& entry.in_flight.request_namespace == sample.message.group
            &&& after.generator == generator
            &&& after.now == workload.now
            &&& after.resends == workload.resends
            &&& after.samples_none == workload.samples_none
            &&& after.strict == workload.strict
            &&& after.rejections == workload.rejections
            &&& after.commits == workload.commits
            &&& after.options == workload.options
            &&& after.shadow == workload.shadow
        }),
{
    inserted_entry_is_found(
        workload.outstanding,
        admitted(client_id, plan, sample, workload.now),
    );
}

/// A request that could not be sampled is counted, and nothing is sent.
pub proof fn unsampled_request_is_counted(workload: WorkloadView, generator: Seq<u8>)
    requires
        workload.samples_none < u64::MAX,
    ensures
        unsampled(workload, generator).samples_none == workload.samples_none + 1,
        unsampled(workload, generator).generator == generator,
        unsampled(workload, generator).outstanding == workload.outstanding,
        unsampled(workload, generator).now == workload.now,
        unsampled(workload, generator).resends == workload.resends,
        unsampled(workload, generator).rejections == workload.rejections,
        unsampled(workload, generator).commits == workload.commits,
{
}

/// A request waits for its timeout: as long as less than the timeout has passed
/// since it was sent, it is not among what is resent, and its entry stays as it is.
/// Once the timeout has passed it is resent, to the replica after its first.
pub proof fn request_waits_for_its_timeout(
    workload: WorkloadView,
    client_id: u128,
    plan: RequestPlan,
    sample: SampledRequest,
    generator: Seq<u8>,
    later: WorkloadView,
)
    requires
        workload.wf(),
        later.outstanding == sent(workload, client_id, plan, sample, generator).outstanding,
        later.options.request_timeout_ticks > 0,
        later.options.replica_count > 0,
        later.now >= workload.now,
    ensures
        ({
            let request = sample.message.request;
            let before = entry_for(later.outstanding, client_id, request);
            let after = entry_for(after_due(later).outstanding, client_id, request);
            if later.now < workload.now + later.options.request_timeout_ticks {
                &&& after == before
                &&& due_messages(later) == due_messages(
                    WorkloadView {
                        outstanding: without_entry(later.outstanding, client_id, request),
                        ..later
                    },
                )
            } else {
                let next = ((plan.target + 1) % (later.options.replica_count as int)) as u8;
                &&& after.target == next
                &&& after.attempts == 2
                &&& after.attempted_tick == later.now
                &&& due_messages(later).contains((next, sample.message@))
            }
        }),
{
    let request = sample.message.request;
    let entries = later.outstanding;
    let timeout = later.options.request_timeout_ticks;
    let replicas = later.options.replica_count;
    sent_request_is_recorded(workload, client_id, plan, sample, generator);
    inserted_entry_is_found(
        workload.outstanding,
        admitted(client_id, plan, sample, workload.now),
    );
    let place = rank(entries, client_id, request);
    rank_is_place(entries, client_id, request);
    resends_keep_the_request(entries, later.now, timeout, replicas, client_id);
    resends_follow_the_timeout(entries, later.now, timeout, replicas, place);
    let after = after_due(later).outstanding;
    assert(after[place].is_for(client_id, request));
    entry_stands_at_rank(after, place, client_id, request);
    let left = entries.take(place);
    let right = entries.skip(place + 1);
    let entry = entries[place];
    assert(entries =~= left + (seq![entry] + right));
    resend_list_is_entry_by_entry(
        left,
        seq![entry] + right,
        entry,
        later.now,
        timeout,
        replicas,
    );
    resend_list_is_entry_by_entry(seq![entry], right, entry, later.now, timeout, replicas);
    let head = resend_list(left, later.now, timeout, replicas);
    let own = resend_list(seq![entry], later.now, timeout, replicas);
    let tail = resend_list(right, later.now, timeout, replicas);
    assert(due_messages(later) =~= head + (own + tail));
    if later.now < workload.now + timeout {
        assert(without_entry(entries, client_id, request) =~= left + right);
        resend_list_is_entry_by_entry(left, right, entry, later.now, timeout, replicas);
        assert(due_messages(later) =~= head + tail);
    } else {
        assert(due_messages(later)[head.len() as int] == own[0]);
    }
}

/// Resending is all that collecting what is due does: nothing with resending
/// disabled; otherwise the resends are counted, one for each message, and nothing
/// but the overdue entries changes.
pub proof fn collecting_what_is_due_only_resends(workload: WorkloadView)
    requires
        workload.resends + workload.outstanding.len() <= u64::MAX,
    ensures
        workload.options.request_timeout_ticks == 0 ==> due_messages(workload).len() == 0
            && after_due(workload) == workload,
        after_due(workload).resends == workload.resends + due_messages(workload).len(),
        due_messages(workload).len() <= workload.outstanding.len(),
        after_due(workload).outstanding.len() == workload.outstanding.len(),
        after_due(workload).now == workload.now,
        after_due(workload).generator == workload.generator,
        after_due(workload).samples_none == workload.samples_none,
        after_due(workload).strict == workload.strict,
        after_due(workload).rejections == workload.rejections,
        after_due(workload).commits == workload.commits,
{
    let options = workload.options;
    resend_list_is_short(
        workload.outstanding,
        workload.now,
        options.request_timeout_ticks,
        at_least_one(options.replica_count),
    );
}

/// A resend re-enters the network as its message's own client, to the replica it is
/// aimed at, with the message unchanged.
pub proof fn resends_keep_client_target_and_message(
    messages: Seq<(u8, MessageView)>,
    index: int,
)
    requires
        0 <= index < messages.len(),
    ensures
        submissions(messages).len() == messages.len(),
        submissions(messages)[index].client == messages[index].1.client,
        submissions(messages)[index].target == messages[index].0,
        submissions(messages)[index].message == messages[index].1,
{
}

/// A client is idle exactly if none of its requests is outstanding, so a client has
/// at most one request in flight.
pub proof fn clients_have_one_request_in_flight(workload: WorkloadView, client: u128)
    requires
        workload.wf(),
    ensures
        workload.idle(client) <==> forall|i: int|
            0 <= i < workload.outstanding.len() ==> (#[trigger] workload.outstanding[i]).client
                != client,
        forall|i: int, j: int|
            0 <= i < j < workload.outstanding.len() ==> (#[trigger] workload.outstanding[i]).client
                != (#[trigger] workload.outstanding[j]).client,
{
    no_entries_count_nothing(workload.outstanding, client);
    if exists|i: int|
        0 <= i < workload.outstanding.len() && (#[trigger] workload.outstanding[i]).client
            == client {
        let i = choose|i: int|
            0 <= i < workload.outstanding.len() && (#[trigger] workload.outstanding[i]).client
                == client;
        one_entry_counts(workload.outstanding, i);
    }
    assert forall|i: int, j: int| 0 <= i < j < workload.outstanding.len() implies (
    #[trigger] workload.outstanding[i]).client != (#[trigger] workload.outstanding[j]).client by {
        if workload.outstanding[i].client == workload.outstanding[j].client {
            two_entries_of_one_client(workload.outstanding, i, j);
            assert(client_entries(workload.outstanding, workload.outstanding[i].client)
                <= CLIENT_REQUEST_QUEUE_MAX);
        }
    }
}

proof fn no_entries_count_nothing(entries: Seq<OutstandingView>, client: u128)
    ensures
        (forall|i: int| 0 <= i < entries.len() ==> (#[trigger] entries[i]).client != client)
            ==> client_entries(entries, client) == 0,
    decreases entries.len(),
{
    if entries.len() > 0 {
        no_entries_count_nothing(entries.drop_last(), client);
        if forall|i: int| 0 <= i < entries.len() ==> (#[trigger] entries[i]).client != client {
            assert forall|i: int| 0 <= i < entries.drop_last().len() implies (
            #[trigger] entries.drop_last()[i]).client != client by {
                assert(entries[i].client != client);
            }
            assert(entries[entries.len() - 1].client != client);
        }
    }
}

/// A reply answers the outstanding request with its client and number, if the
/// groups agree; from another group it is misrouted; with no such request it is
/// unknown.
pub proof fn replies_match_by_client_request_and_group(
    outstanding: Seq<OutstandingView>,
    reply: Reply,
    place: int,
)
    requires
        in_key_order(outstanding),
    ensures
        0 <= place < outstanding.len() && outstanding[place].client == reply.client
            && outstanding[place].request == reply.request ==> matching(outstanding, reply) == if (
        outstanding[place].in_flight.request_namespace == reply.group) {
            OnReply::Match(outstanding[place].in_flight)
        } else {
            OnReply::NsMismatch
        },
        (forall|i: int|
            0 <= i < outstanding.len() ==> (#[trigger] outstanding[i]).client != reply.client
                || outstanding[i].request != reply.request) ==> matching(outstanding, reply)
            == OnReply::Unknown,
{
    if 0 <= place < outstanding.len() && outstanding[place].client == reply.client
        && outstanding[place].request == reply.request {
        assert(outstanding[place].is_for(reply.client, reply.request));
        entry_stands_at_rank(outstanding, place, reply.client, reply.request);
    }
}

/// On a serial run a reply is accepted only with the outcome its request was built
/// for, whatever its result code; with several clients the outcome decides nothing.
pub proof fn serial_runs_accept_only_the_targeted_outcome(
    before: WorkloadView,
    reply: Reply,
    effect: CommittedEffect,
    expected: InFlight,
)
    requires
        matching(before.outstanding, reply) == OnReply::Match(expected),
    ensures
        before.strict && effect.outcome != expected.outcome ==> answered(
            before,
            reply,
            effect,
        ).1 is Err,
        answered(before, reply, effect).1 matches Err(ReplyFault::UnexpectedOutcome { .. })
            ==> before.strict && effect.outcome != expected.outcome,
{
}

/// What is wrong with the answer to an outstanding request is reported, the first
/// of these that holds: a metadata reply shorter than its header; one without a
/// result; one whose code its operation does not declare; on a serial run an
/// outcome other than the targeted one. A reply with none of these is accepted.
pub proof fn faulty_replies_are_told_apart(
    before: WorkloadView,
    reply: Reply,
    effect: CommittedEffect,
    expected: InFlight,
)
    requires
        matching(before.outstanding, reply) == OnReply::Match(expected),
    ensures
        ({
            let outcome = answered(before, reply, effect).1;
            let short = reply.is_metadata && reply.size < reply.header_size;
            let corrupt = reply.is_metadata && reply.result_code is None;
            let undeclared = reply.is_metadata && !reply.code_recognized;
            let unexpected = before.strict && effect.outcome != expected.outcome;
            let code = if reply.is_metadata {
                reply.result_code->0
            } else {
                0u32
            };
            &&& short ==> outcome == Err::<Seq<SimCommand>, _>(
                ReplyFault::ShortReply {
                    action: expected.action,
                    size: reply.size,
                    header_size: reply.header_size,
                },
            )
            &&& !short && corrupt ==> outcome == Err::<Seq<SimCommand>, _>(
                ReplyFault::CorruptResult { action: expected.action },
            )
            &&& !short && !corrupt && undeclared ==> outcome == Err::<Seq<SimCommand>, _>(
                ReplyFault::UnrecognizedCode { action: expected.action, code },
            )
            &&& !short && !corrupt && !undeclared && unexpected ==> outcome == Err::<
                Seq<SimCommand>,
                _,
            >(
                ReplyFault::UnexpectedOutcome {
                    action: expected.action,
                    code,
                    targeted: expected.outcome,
                    committed: effect.outcome,
                },
            )
            &&& !short && !corrupt && !undeclared && !unexpected ==> outcome == Ok::<
                _,
                ReplyFault,
            >(effect.sim_commands@)
        }),
{
}

/// An accepted answer frees its slot and counts once: as a rejection for any code
/// but 0, as a commit of its action for code 0 if it changed the shadow, else as
/// neither. Nothing else of the workload changes.
pub proof fn accepted_answers_count_once(
    before: WorkloadView,
    reply: Reply,
    effect: CommittedEffect,
    expected: InFlight,
    other: Action,
)
    requires
        before.wf(),
        before.can_count(),
        matching(before.outstanding, reply) == OnReply::Match(expected),
        answered(before, reply, effect).1 is Ok,
    ensures
        ({
            let after = answered(before, reply, effect).0;
            let rejected = reply.is_metadata && reply.result_code->0 != 0;
            &&& after.rejections == before.rejections + if rejected {
                1int
            } else {
                0
            }
            &&& after.commits.len() == before.commits.len()
            &&& after.commits[other.ordinal()] == before.commits[other.ordinal()] + if !rejected
                && effect.applied && other == expected.action {
                1int
            } else {
                0
            }
            &&& !holds(after.outstanding, reply.client, reply.request)
            &&& after.outstanding.len() + 1 == before.outstanding.len()
            &&& after.now == before.now
            &&& after.resends == before.resends
            &&& after.samples_none == before.samples_none
            &&& after.strict == before.strict
            &&& after.generator == before.generator
            &&& after.options == before.options
        }),
{
    release_frees_one_slot(before.outstanding, reply.client, reply.request, reply.client);
    crate::action::action_order_is_bijective(other, other.ordinal());
    crate::action::action_order_is_bijective(expected.action, expected.action.ordinal());
    if other != expected.action {
        assert(other.ordinal() != expected.action.ordinal());
    }
}

/// A reply that answers nothing, or that is found faulty, changes nothing; a
/// misrouted one takes its request out and has no follow-ups.
pub proof fn other_replies_change_nothing_else(
    before: WorkloadView,
    reply: Reply,
    effect: CommittedEffect,
)
    requires
        before.wf(),
    ensures
        ({
            let (after, outcome) = answered(before, reply, effect);
            &&& outcome is Err ==> after == before
            &&& matching(before.outstanding, reply) == OnReply::Unknown ==> after == before
                && outcome == Ok::<_, ReplyFault>(Seq::<SimCommand>::empty())
            &&& matching(before.outstanding, reply) == OnReply::NsMismatch ==> {
                &&& outcome == Ok::<_, ReplyFault>(Seq::<SimCommand>::empty())
                &&& !holds(after.outstanding, reply.client, reply.request)
                &&& after.outstanding.len() + 1 == before.outstanding.len()
                &&& after.rejections == before.rejections
                &&& after.commits == before.commits
                &&& after.generator == before.generator
                &&& after.now == before.now
            }
        }),
{
    if matching(before.outstanding, reply) == OnReply::NsMismatch {
        release_frees_one_slot(before.outstanding, reply.client, reply.request, reply.client);
    }
}

/// A plan is made by three draws in this order: the action whose share of the 100
/// draws the first falls into; another replica than the first if the second rolls
/// under the ratio, drawn among them; one of the action's outcomes, drawn only where
/// it declares several.
pub proof fn plans_follow_their_draws(
    generator: Seq<u8>,
    options: WorkloadOptions,
    outcome_counts: Seq<usize>,
)
    requires
        options.weights.wf(),
        u32_draw(generator, 0, 100).0 < 100,
    ensures
        ({
            let (roll, first) = u32_draw(generator, 0, 100);
            let (word, second) = word_draw(first);
            let redirected = options.replica_count >= 2 && word < 256
                * options.target_non_primary_ratio.parts;
            let (target, third) = if redirected {
                u8_draw(second, 1, options.replica_count)
            } else {
                (0, second)
            };
            let (plan, left) = planned(generator, options, outcome_counts);
            let share = options.weights@;
            let before = weight_total(share.take(plan.action.ordinal()));
            &&& before <= roll < before + share[plan.action.ordinal()]
            &&& plan.target == target
            &&& outcome_counts[plan.action.ordinal()] >= 2 ==> (plan.outcome_id, left)
                == usize_draw(third, 0, outcome_counts[plan.action.ordinal()])
            &&& outcome_counts[plan.action.ordinal()] < 2 ==> plan.outcome_id == 0 && left == third
        }),
{
    let roll = u32_draw(generator, 0, 100).0;
    let action = options.weights.picked(roll);
    draws_per_action_match_weight(options.weights, action, roll);
}

/// The equality oracle is armed exactly for a single client, and a fresh workload
/// owes nothing and has counted nothing.
pub proof fn fresh_workloads_are_strict_exactly_if_serial(
    workload: WorkloadView,
    options: WorkloadOptions,
    action: Action,
)
    requires
        workload.is_fresh(options),
    ensures
        workload.strict <==> options.client_count == 1,
        workload.outstanding.len() == 0,
        workload.now == 0,
        workload.resends == 0,
        workload.samples_none == 0,
        workload.rejections == 0,
        workload.commits[action.ordinal()] == 0,
        workload.generator == seeded_state(options.seed),
{
    assert(workload.commits[action.ordinal()] == 0);
}

/// A tick advances the clock by one and nothing else.
pub proof fn ticks_advance_the_clock_alone(before: WorkloadView)
    requires
        before.now < u64::MAX,
    ensures
        Operation::Tick.performed(before).now == before.now + 1,
        Operation::Tick.performed(before).outstanding == before.outstanding,
        Operation::Tick.performed(before).generator == before.generator,
        Operation::Tick.performed(before).resends == before.resends,
        Operation::Tick.performed(before).commits == before.commits,
{
}

/// A busy client's plan draws nothing and is refused; an idle one's is made.
pub proof fn busy_clients_plan_nothing(
    before: WorkloadView,
    client: u128,
    outcome_counts: Seq<usize>,
)
    requires
        before.wf(),
    ensures
        ({
            let plan = Operation::Plan { client, outcome_counts };
            let busy = exists|i: int|
                0 <= i < before.outstanding.len() && (#[trigger] before.outstanding[i]).client
                    == client;
            &&& busy ==> plan.performed(before) == before && plan.produced(before)
                == Produced::Planned(None)
            &&& !busy ==> plan.produced(before) == Produced::Planned(
                Some(planned(before.generator, before.options, outcome_counts).0),
            ) && plan.performed(before).generator == planned(
                before.generator,
                before.options,
                outcome_counts,
            ).1
        }),
{
    clients_have_one_request_in_flight(before, client);
}

/// Resends rotate over the declared replicas; with none declared they all go to
/// replica 0.
pub proof fn resends_rotate_over_the_declared_replicas(replica_count: u8, target: u8)
    ensures
        replica_count > 0 ==> at_least_one(replica_count) == replica_count,
        at_least_one(0) == 1,
        (target + 1) % (at_least_one(0) as int) == 0,
{
}

/// The report of a faulty reply names the command, the client and the request, and
/// what was wrong: the two sizes, the code, or the two outcomes.
pub proof fn reply_reports_name_everything(
    fault: ReplyFault,
    client: u128,
    request: u64,
    targeted: Seq<char>,
    committed: Seq<char>,
)
    ensures
        ({
            let text = fault.report(client, request, targeted, committed);
            &&& mentions(text, decimal(client as nat))
            &&& mentions(text, decimal(request as nat))
            &&& match fault {
                ReplyFault::ShortReply { action, size, header_size } => {
                    &&& mentions(text, action.label())
                    &&& mentions(text, decimal(size as nat))
                    &&& mentions(text, decimal(header_size as nat))
                },
                ReplyFault::CorruptResult { action } => mentions(text, action.label()),
                ReplyFault::UnrecognizedCode { action, code } => mentions(text, action.label())
                    && mentions(text, decimal(code as nat)),
                ReplyFault::UnexpectedOutcome { action, code, .. } => {
                    &&& mentions(text, action.label())
                    &&& mentions(text, decimal(code as nat))
                    &&& mentions(text, targeted)
                    &&& mentions(text, committed)
                },
            }
        }),
{
    broadcast use {text_mentions_itself, halves_are_mentioned};

    assert(mentions(request_note(client, request), decimal(client as nat)));
    assert(mentions(request_note(client, request), decimal(request as nat)));
}

/// What is resent at a tick is what is overdue at it: a request last attempted at
/// least the timeout ago is among what is submitted, as its own client, with its
/// message unchanged, to the replica after its last; and nothing is submitted that
/// is not such a request's.
pub proof fn overdue_requests_are_submitted(workload: WorkloadView, place: int, index: int)
    requires
        workload.options.request_timeout_ticks > 0,
        workload.options.replica_count > 0,
    ensures
        ({
            let timeout = workload.options.request_timeout_ticks;
            let replicas = workload.options.replica_count as int;
            let sent_now = submissions(due_messages(workload));
            &&& 0 <= place < workload.outstanding.len() && workload.outstanding[place].attempted_tick
                + timeout <= workload.now ==> {
                let entry = workload.outstanding[place];
                sent_now.contains(
                    SubmissionView {
                        client: entry.message.client,
                        target: ((entry.target + 1) % replicas) as u8,
                        message: entry.message,
                    },
                )
            }
            &&& 0 <= index < sent_now.len() ==> exists|i: int|
                0 <= i < workload.outstanding.len() && (
                #[trigger] workload.outstanding[i]).attempted_tick + timeout <= workload.now
                    && workload.outstanding[i].message == sent_now[index].message
        }),
{
    let timeout = workload.options.request_timeout_ticks;
    let replicas = workload.options.replica_count;
    let entries = workload.outstanding;
    let messages = due_messages(workload);
    let sent_now = submissions(messages);
    if 0 <= place < entries.len() && entries[place].attempted_tick + timeout <= workload.now {
        let entry = entries[place];
        let left = entries.take(place);
        let right = entries.skip(place + 1);
        assert(entries =~= left + (seq![entry] + right));
        resend_list_is_entry_by_entry(
            left,
            seq![entry] + right,
            entry,
            workload.now,
            timeout,
            replicas,
        );
        resend_list_is_entry_by_entry(seq![entry], right, entry, workload.now, timeout, replicas);
        let at = resend_list(left, workload.now, timeout, replicas).len() as int;
        assert(messages[at] == (
            ((entry.target + 1) % (replicas as int)) as u8,
            entry.message,
        ));
        assert(sent_now[at].message == entry.message);
        assert(sent_now[at] == (SubmissionView {
            client: entry.message.client,
            target: ((entry.target + 1) % (replicas as int)) as u8,
            message: entry.message,
        }));
    }
    if 0 <= index < sent_now.len() {
        resent_messages_are_overdue(entries, workload.now, timeout, replicas, index);
    }
}

proof fn resent_messages_are_overdue(
    entries: Seq<OutstandingView>,
    now: u64,
    timeout: u64,
    replica_count: u8,
    index: int,
)
    requires
        0 <= index < resend_list(entries, now, timeout, replica_count).len(),
    ensures
        exists|i: int|
            0 <= i < entries.len() && (#[trigger] entries[i]).attempted_tick + timeout <= now
                && entries[i].message == resend_list(
                entries,
                now,
                timeout,
                replica_count,
            )[index].1,
    decreases entries.len(),
{
    let shorter = entries.drop_last();
    let before = resend_list(shorter, now, timeout, replica_count);
    if index < before.len() {
        resent_messages_are_overdue(shorter, now, timeout, replica_count, index);
        let i = choose|i: int|
            0 <= i < shorter.len() && (#[trigger] shorter[i]).attempted_tick + timeout <= now
                && shorter[i].message == before[index].1;
        assert(entries[i] == shorter[i]);
    } else {
        assert(entries[entries.len() - 1].attempted_tick + timeout <= now);
    }
}

/// Changing the knobs changes nothing else: what is outstanding, the clock, the
/// counters and whether the equality oracle is armed stay.
pub proof fn changed_options_keep_the_rest(before: WorkloadView, options: WorkloadOptions)
    ensures
        ({
            let after = Operation::Change(options).performed(before);
            &&& after.options == options
            &&& after.strict == before.strict
            &&& after.outstanding == before.outstanding
            &&& after.generator == before.generator
            &&& after.shadow == before.shadow
            &&& after.now == before.now
            &&& after.resends == before.resends
            &&& after.samples_none == before.samples_none
            &&& after.rejections == before.rejections
            &&& after.commits == before.commits
        }),
{
}

/// A built request is handed back for the planned replica with the sampled message,
/// and is then the client's one outstanding request; where nothing was sampled
/// nothing is handed back and nothing is outstanding that was not.
pub proof fn built_requests_are_handed_back(
    before: WorkloadView,
    client: u128,
    plan: RequestPlan,
    generator: Seq<u8>,
    sample: SampledRequest,
)
    requires
        before.wf(),
        before.idle(client),
    ensures
        ({
            let built = Operation::Build { client, plan, generator, sampled: Some(sample) };
            let missed = Operation::Build { client, plan, generator, sampled: None };
            let after = built.performed(before);
            &&& built.produced(before) == Produced::Built(Some((plan.target, sample.message@)))
            &&& holds(after.outstanding, client, sample.message.request)
            &&& client_entries(after.outstanding, client) == 1
            &&& after.outstanding.len() == before.outstanding.len() + 1
            &&& missed.produced(before) == Produced::Built(None)
            &&& missed.performed(before).outstanding == before.outstanding
        }),
{
    let request = sample.message.request;
    let entry = admitted(client, plan, sample, before.now);
    sent_request_is_recorded(before, client, plan, sample, generator);
    insert_counts_one_client(before.outstanding, entry, client);
    clients_have_one_request_in_flight(before, client);
    rank_is_place(before.outstanding, client, request);
    let place = rank(before.outstanding, client, request);
    if place < before.outstanding.len() {
        assert(before.outstanding[place].client != client);
    }
    inserted_entry_is_found(before.outstanding, entry);
    let after = with_entry(before.outstanding, entry);
    rank_is_place(after, client, request);
    one_entry_counts(after, rank(after, client, request));
}

} // verus!
