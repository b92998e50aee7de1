//! What a fuzzing session sets up and prints.

use crate::action::{Action, ACTION_COUNT};
use crate::cluster::{ClusterReading, IggyNamespace};
use crate::options::{Ratio, WorkloadOptions};
use crate::report::{failure_report, quiesce_failure_report};
use crate::text::{
    decimal, halves_are_mentioned, joined, joined_parts_are_mentioned, mentions,
    parts_of_parts_are_mentioned, push_decimal, push_joined, text_mentions_itself, texts,
};
use crate::weights::Plane;
use crate::workload::{Workload, WorkloadView};
use vstd::prelude::*;
use vstd::string::*;

verus! {

/// The namespace a session drives.
pub open spec fn driven_namespace() -> IggyNamespace {
    IggyNamespace { stream_id: 1, topic_id: 1, partition_id: 0 }
}

/// What a session sets that the defaults do not.
#[derive(Debug, Clone, Copy)]
pub struct SessionKnobs {
    pub seed: u64,
    pub replicas: u8,
    pub clients: u8,
    pub plane: Plane,
    pub crash_ratio: Ratio,
    pub restart_ratio: Ratio,
    /// Crash the primary too, putting a view change under live traffic.
    pub crash_primary: bool,
    pub ack_quorum_ratio: Ratio,
}

/// The options are the defaults for a session's seed and cluster, with its own
/// knobs over them.
pub open spec fn session_fits(knobs: SessionKnobs, options: WorkloadOptions) -> bool {
    &&& options.namespaces@ == seq![driven_namespace()]
    &&& forall|action: Action| #[trigger] options.weights.of(action) == knobs.plane.share(action)
    &&& options.client_count == knobs.clients
    &&& options.crash_per_tick_ratio == knobs.crash_ratio
    &&& options.restart_per_tick_ratio == knobs.restart_ratio
    &&& options.spare_primary == !knobs.crash_primary
    &&& options.ack_quorum_ratio == knobs.ack_quorum_ratio
    &&& options.seed == knobs.seed
    &&& options.replica_count == knobs.replicas
    &&& options.batch_size_min == 1
    &&& options.batch_size_span == 4
    &&& options.target_non_primary_ratio.parts == 0
    &&& options.invalid_request_ratio.parts == 0
    &&& options.consumer_pool_size == 4
    &&& options.max_offset == 1_000_000
    &&& options.crash_stability_ticks == crate::options::DEFAULT_CRASH_STABILITY_TICKS
    &&& options.restart_stability_ticks == crate::options::DEFAULT_RESTART_STABILITY_TICKS
    &&& options.min_survivors == knobs.replicas / 2 + 1
    &&& options.request_timeout_ticks == crate::options::DEFAULT_REQUEST_TIMEOUT_TICKS
}

/// The workload options of a session: the defaults for its seed and cluster, with
/// its own knobs over them.
pub fn session_options(knobs: &SessionKnobs) -> (options: WorkloadOptions)
    ensures
        options.seed == knobs.seed,
        options.replica_count == knobs.replicas,
        options.client_count == knobs.clients,
        options.namespaces@ == seq![driven_namespace()],
        options.weights.wf(),
        forall|action: Action| #[trigger] options.weights.of(action) == knobs.plane.share(action),
        options.crash_per_tick_ratio == knobs.crash_ratio,
        options.restart_per_tick_ratio == knobs.restart_ratio,
        options.spare_primary == !knobs.crash_primary,
        options.ack_quorum_ratio == knobs.ack_quorum_ratio,
        options.batch_size_min == 1,
        options.batch_size_span == 4,
        options.target_non_primary_ratio.parts == 0,
        options.invalid_request_ratio.parts == 0,
        options.consumer_pool_size == 4,
        options.max_offset == 1_000_000,
        options.crash_stability_ticks == crate::options::DEFAULT_CRASH_STABILITY_TICKS,
        options.restart_stability_ticks == crate::options::DEFAULT_RESTART_STABILITY_TICKS,
        options.min_survivors == knobs.replicas / 2 + 1,
        options.request_timeout_ticks == crate::options::DEFAULT_REQUEST_TIMEOUT_TICKS,
        session_fits(*knobs, options),
{
    let mut namespaces: Vec<IggyNamespace> = Vec::new();
    namespaces.push(IggyNamespace::new(1, 1, 0));
    let mut options = WorkloadOptions::new(knobs.seed, knobs.replicas, namespaces);
    options.client_count = knobs.clients;
    options.crash_per_tick_ratio = knobs.crash_ratio;
    options.restart_per_tick_ratio = knobs.restart_ratio;
    options.spare_primary = !knobs.crash_primary;
    options.ack_quorum_ratio = knobs.ack_quorum_ratio;
    options.weights = knobs.plane.weights();
    assert(options.namespaces@ =~= seq![driven_namespace()]);
    options
}

/// A step of standing up a cluster.
#[derive(Debug, Clone, Copy, PartialEq, Eq, Structural)]
pub enum SetupStep {
    /// Materialise the partition group of a namespace.
    InitPartition(IggyNamespace),
    /// Create the stream and topic behind a namespace.
    SeedStreamTopicPartition(IggyNamespace),
    /// Log a client in, minting a bound session.
    ShellLogin(u128),
    /// Register a client with the primary.
    Register(u128),
}

/// How a client gets its session.
pub open spec fn session_step(shell: bool, client: u128) -> SetupStep {
    if shell {
        SetupStep::ShellLogin(client)
    } else {
        SetupStep::Register(client)
    }
}

/// The steps before any client has a session.
pub open spec fn seeding_steps(shell: bool) -> Seq<SetupStep> {
    if shell {
        seq![
            SetupStep::InitPartition(driven_namespace()),
            SetupStep::SeedStreamTopicPartition(driven_namespace()),
        ]
    } else {
        seq![SetupStep::InitPartition(driven_namespace())]
    }
}

/// The steps of standing up a cluster with the given number of clients.
pub open spec fn setup_steps(shell: bool, clients: nat) -> Seq<SetupStep> {
    seeding_steps(shell) + Seq::new(clients, |i: int| session_step(shell, (i + 1) as u128))
}

/// The ids of the clients, counted from 1.
pub fn client_ids(clients: u8) -> (ids: Vec<u128>)
    ensures
        ids@ == Seq::new(clients as nat, |i: int| (i + 1) as u128),
        ids@.len() == clients,
        forall|i: int| 0 <= i < clients ==> #[trigger] ids@[i] == i + 1,
{
    let mut ids: Vec<u128> = Vec::new();
    let mut count: u8 = 0;
    while count < clients
        invariant
            count <= clients,
            ids@.len() == count,
            forall|i: int| 0 <= i < count ==> #[trigger] ids@[i] == (i + 1) as u128,
        decreases clients - count,
    {
        ids.push(count as u128 + 1);
        count = count + 1;
    }
    assert(ids@ =~= Seq::new(clients as nat, |i: int| (i + 1) as u128));
    ids
}

/// Stands up a cluster: seeds its namespace, then gets every client a session, in
/// id order.
///
/// The shell path differs in two ways that have to agree: a partition request's
/// namespace is resolved against committed metadata, so the stream and topic
/// behind it must exist; and dispatch admits a request only from a bound session,
/// which only a login mints.
pub fn build_cluster(shell: bool, clients: u8) -> (steps: Vec<SetupStep>)
    ensures
        steps@ == setup_steps(shell, clients as nat),
{
    let ns = IggyNamespace::new(1, 1, 0);
    let mut steps: Vec<SetupStep> = Vec::new();
    steps.push(SetupStep::InitPartition(ns));
    if shell {
        steps.push(SetupStep::SeedStreamTopicPartition(ns));
    }
    assert(steps@ =~= seeding_steps(shell));
    let ids = client_ids(clients);
    let mut i: usize = 0;
    while i < ids.len()
        invariant
            i <= ids.len(),
            ids@ == Seq::new(clients as nat, |i: int| (i + 1) as u128),
            steps@ == seeding_steps(shell) + Seq::new(
                i as nat,
                |k: int| session_step(shell, (k + 1) as u128),
            ),
        decreases ids.len() - i,
    {
        if shell {
            steps.push(SetupStep::ShellLogin(ids[i]));
        } else {
            steps.push(SetupStep::Register(ids[i]));
        }
        i = i + 1;
        assert(steps@ =~= seeding_steps(shell) + Seq::new(
            i as nat,
            |k: int| session_step(shell, (k + 1) as u128),
        ));
    }
    steps
}

/// The commands among the first `upto` that were delivered, with their counts.
pub open spec fn delivered(labels: Seq<Seq<char>>, counts: Seq<u64>, upto: int) -> Seq<Seq<char>>
    decreases upto,
{
    if upto <= 0 {
        Seq::empty()
    } else {
        let before = delivered(labels, counts, upto - 1);
        if labels[upto - 1] == "Reserved"@ || counts[upto - 1] == 0 {
            before
        } else {
            before.push(labels[upto - 1] + "="@ + decimal(counts[upto - 1] as nat))
        }
    }
}

/// The commands among the first `upto` that were never delivered.
pub open spec fn undelivered(labels: Seq<Seq<char>>, counts: Seq<u64>, upto: int) -> Seq<Seq<char>>
    decreases upto,
{
    if upto <= 0 {
        Seq::empty()
    } else {
        let before = undelivered(labels, counts, upto - 1);
        if labels[upto - 1] == "Reserved"@ || counts[upto - 1] > 0 {
            before
        } else {
            before.push(labels[upto - 1])
        }
    }
}

/// The two lines of a command coverage report.
pub open spec fn command_coverage(labels: Seq<Seq<char>>, counts: Seq<u64>) -> Seq<char> {
    "commands delivered: "@ + joined(delivered(labels, counts, counts.len() as int), " "@)
        + "\ncommands never delivered: "@ + joined(
        undelivered(labels, counts, counts.len() as int),
        " "@,
    ) + "\n"@
}

/// Which protocol commands a run actually delivered, and which it never reached,
/// as two lines. `counts` are by command, `labels` name the commands; reserved
/// ones are left out.
pub fn print_command_coverage(labels: &[String], counts: &[u64]) -> (text: String)
    requires
        counts@.len() <= labels@.len(),
    ensures
        text@ == command_coverage(texts(labels@), counts@),
{
    let ghost names = texts(labels@);
    let reserved = "Reserved".to_owned();
    let mut seen: Vec<String> = Vec::new();
    let mut unseen: Vec<String> = Vec::new();
    let mut i: usize = 0;
    assert(texts(seen@) =~= delivered(names, counts@, 0));
    assert(texts(unseen@) =~= undelivered(names, counts@, 0));
    while i < counts.len()
        invariant
            i <= counts.len(),
            counts@.len() <= labels@.len(),
            reserved@ == "Reserved"@,
            names == texts(labels@),
            texts(seen@) == delivered(names, counts@, i as int),
            texts(unseen@) == undelivered(names, counts@, i as int),
        decreases counts.len() - i,
    {
        let ghost before_seen = seen@;
        let ghost before_unseen = unseen@;
        assert(names[i as int] == labels@[i as int]@);
        if labels[i] != reserved {
            if counts[i] > 0 {
                let mut entry = labels[i].clone();
                entry.append("=");
                push_decimal(&mut entry, counts[i] as u128);
                assert(entry@ =~= names[i as int] + "="@ + decimal(counts@[i as int] as nat));
                seen.push(entry);
                assert(texts(seen@) =~= texts(before_seen).push(entry@));
            } else {
                unseen.push(labels[i].clone());
                assert(texts(unseen@) =~= texts(before_unseen).push(names[i as int]));
            }
        }
        i = i + 1;
    }
    let mut text = String::new();
    text.append("commands delivered: ");
    push_joined(&mut text, seen.as_slice(), " ");
    text.append("\ncommands never delivered: ");
    push_joined(&mut text, unseen.as_slice(), " ");
    text.append("\n");
    assert(text@ =~= command_coverage(names, counts@));
    text
}

/// Counters kept outside the workload.
#[derive(Debug)]
pub struct AuditStats {
    pub replies_seen: u64,
    pub replies_unknown: u64,
    pub denials: u64,
    pub evictions: u64,
    /// Requests refused and the last status they were refused with, by action in
    /// declaration order.
    pub denials_per_action: Vec<(u64, u32)>,
}

/// The line of one action.
pub open spec fn action_line(action: Action, commits: u64, refused: u64, code: u32) -> Seq<char> {
    "  "@ + action.label() + ": "@ + decimal(commits as nat) + " commits, "@ + decimal(
        refused as nat,
    ) + " denied (last status "@ + decimal(code as nat) + ")\n"@
}

/// The lines of the first `upto` actions that committed or were refused.
pub open spec fn action_lines(commits: Seq<u64>, denials: Seq<(u64, u32)>, upto: int) -> Seq<char>
    decreases upto,
{
    if upto <= 0 {
        Seq::empty()
    } else {
        let before = action_lines(commits, denials, upto - 1);
        let (refused, code) = denials[upto - 1];
        if commits[upto - 1] > 0 || refused > 0 {
            before + action_line(Action::at(upto - 1), commits[upto - 1], refused, code)
        } else {
            before
        }
    }
}

/// The counters' line.
pub open spec fn counter_line(workload: WorkloadView, stats: AuditStats) -> Seq<char> {
    "coverage: replies_seen="@ + decimal(stats.replies_seen as nat) + " replies_unknown="@
        + decimal(stats.replies_unknown as nat) + " committed_rejections="@ + decimal(
        workload.rejections as nat,
    ) + " samples_none="@ + decimal(workload.samples_none as nat) + " resends="@ + decimal(
        workload.resends as nat,
    ) + " denials="@ + decimal(stats.denials as nat) + " evictions="@ + decimal(
        stats.evictions as nat,
    ) + "\n"@
}

fn push_counter_line(out: &mut String, workload: &Workload, stats: &AuditStats)
    ensures
        final(out)@ == old(out)@ + counter_line(workload@, *stats),
{
    out.append("coverage: replies_seen=");
    push_decimal(out, stats.replies_seen as u128);
    out.append(" replies_unknown=");
    push_decimal(out, stats.replies_unknown as u128);
    out.append(" committed_rejections=");
    push_decimal(out, workload.committed_rejections() as u128);
    out.append(" samples_none=");
    push_decimal(out, workload.samples_none() as u128);
    out.append(" resends=");
    push_decimal(out, workload.resends() as u128);
    out.append(" denials=");
    push_decimal(out, stats.denials as u128);
    out.append(" evictions=");
    push_decimal(out, stats.evictions as u128);
    out.append("\n");
    assert(out@ =~= old(out)@ + counter_line(workload@, *stats));
}

fn push_action_line(out: &mut String, action: Action, commits: u64, refused: u64, code: u32)
    ensures
        final(out)@ == old(out)@ + action_line(action, commits, refused, code),
{
    out.append("  ");
    out.append(action.name());
    out.append(": ");
    push_decimal(out, commits as u128);
    out.append(" commits, ");
    push_decimal(out, refused as u128);
    out.append(" denied (last status ");
    push_decimal(out, code as u128);
    out.append(")\n");
    assert(out@ =~= old(out)@ + action_line(action, commits, refused, code));
}

/// Reply, rejection and resend counters, plus a line per action that committed or
/// was refused.
pub fn print_coverage(workload: &Workload, stats: &AuditStats) -> (text: String)
    requires
        stats.denials_per_action@.len() == ACTION_COUNT,
    ensures
        text@ == counter_line(workload@, *stats) + action_lines(
            workload@.commits,
            stats.denials_per_action@,
            ACTION_COUNT as int,
        ),
{
    let mut text = String::new();
    push_counter_line(&mut text, workload, stats);
    let ghost start = text@;
    assert(start =~= counter_line(workload@, *stats));
    let mut i: usize = 0;
    assert(text@ =~= start + action_lines(workload@.commits, stats.denials_per_action@, 0));
    while i < ACTION_COUNT
        invariant
            i <= ACTION_COUNT,
            stats.denials_per_action@.len() == ACTION_COUNT,
            text@ == start + action_lines(
                workload@.commits,
                stats.denials_per_action@,
                i as int,
            ),
        decreases ACTION_COUNT - i,
    {
        let action = Action::from_index(i);
        let commits: u64 = workload.commits(action);
        let (refused, code) = stats.denials_per_action[i];
        if commits > 0 || refused > 0 {
            push_action_line(&mut text, action, commits, refused, code);
        }
        i = i + 1;
        assert(text@ =~= start + action_lines(
            workload@.commits,
            stats.denials_per_action@,
            i as int,
        ));
    }
    text
}

/// Why a drained cluster never settled on one view.
pub fn unsettled_report(cluster: &ClusterReading, workload: &Workload) -> (report: String)
    ensures
        report@ == "metadata views never converged after the drain\n"@ + failure_report(
            *cluster,
            workload@,
        ),
{
    let mut report = String::new();
    report.append("metadata views never converged after the drain\n");
    report.append(quiesce_failure_report(cluster, workload).as_str());
    assert(report@ =~= "metadata views never converged after the drain\n"@ + failure_report(
        *cluster,
        workload@,
    ));
    report
}

/// The namespace comes first; a login needs the stream and topic behind it, so they
/// are created before any session. Then every client, counted from 1, gets exactly
/// one session, in order: by login with the shell, by registration without.
pub proof fn every_client_gets_one_session(shell: bool, clients: nat, client: u128)
    requires
        1 <= client <= clients <= 255,
    ensures
        ({
            let steps = setup_steps(shell, clients);
            let ns = IggyNamespace { stream_id: 1, topic_id: 1, partition_id: 0 };
            let seeding: int = if shell {
                2
            } else {
                1
            };
            &&& steps.len() == seeding + clients
            &&& steps[0] == SetupStep::InitPartition(ns)
            &&& shell ==> steps[1] == SetupStep::SeedStreamTopicPartition(ns)
            &&& shell ==> steps[seeding + client - 1] == SetupStep::ShellLogin(client)
            &&& !shell ==> steps[seeding + client - 1] == SetupStep::Register(client)
        }),
{
}

/// Every command that is not reserved is listed on the side its count puts it on.
pub proof fn commands_are_listed_by_count(
    labels: Seq<Seq<char>>,
    counts: Seq<u64>,
    upto: int,
    place: int,
)
    requires
        0 <= place < upto,
        labels[place] != "Reserved"@,
    ensures
        counts[place] > 0 ==> delivered(labels, counts, upto).contains(
            labels[place] + "="@ + decimal(counts[place] as nat),
        ),
        counts[place] == 0 ==> undelivered(labels, counts, upto).contains(labels[place]),
    decreases upto,
{
    let seen = delivered(labels, counts, upto);
    let unseen = undelivered(labels, counts, upto);
    if place == upto - 1 {
        if counts[place] > 0 {
            assert(seen[seen.len() - 1] == labels[place] + "="@ + decimal(counts[place] as nat));
        } else {
            assert(unseen[unseen.len() - 1] == labels[place]);
        }
    } else {
        commands_are_listed_by_count(labels, counts, upto - 1, place);
        let before_seen = delivered(labels, counts, upto - 1);
        let before_unseen = undelivered(labels, counts, upto - 1);
        if counts[place] > 0 {
            let entry = labels[place] + "="@ + decimal(counts[place] as nat);
            let i = choose|i: int| 0 <= i < before_seen.len() && before_seen[i] == entry;
            assert(seen[i] == entry);
        } else {
            let i = choose|i: int|
                0 <= i < before_unseen.len() && before_unseen[i] == labels[place];
            assert(unseen[i] == labels[place]);
        }
    }
}

/// Nothing else is listed: a delivered entry is of a command counted at least once,
/// an undelivered one of a command never counted, and neither of a reserved one.
pub proof fn listed_commands_have_the_count(
    labels: Seq<Seq<char>>,
    counts: Seq<u64>,
    upto: int,
    entry: Seq<char>,
)
    ensures
        delivered(labels, counts, upto).contains(entry) ==> exists|i: int|
            0 <= i < upto && (#[trigger] labels[i]) != "Reserved"@ && counts[i] > 0 && entry
                == labels[i] + "="@ + decimal(counts[i] as nat),
        undelivered(labels, counts, upto).contains(entry) ==> entry != "Reserved"@ && exists|i: int|
            0 <= i < upto && (#[trigger] labels[i]) == entry && counts[i] == 0,
        upto >= 0 ==> delivered(labels, counts, upto).len() + undelivered(
            labels,
            counts,
            upto,
        ).len() <= upto,
    decreases upto,
{
    if upto > 0 {
        listed_commands_have_the_count(labels, counts, upto - 1, entry);
        let before_seen = delivered(labels, counts, upto - 1);
        let before_unseen = undelivered(labels, counts, upto - 1);
        let seen = delivered(labels, counts, upto);
        let unseen = undelivered(labels, counts, upto);
        if seen.contains(entry) && !before_seen.contains(entry) {
            let k = choose|k: int| 0 <= k < seen.len() && seen[k] == entry;
            if k < before_seen.len() {
                assert(before_seen[k] == entry);
            }
            assert(labels[upto - 1] != "Reserved"@);
        }
        if unseen.contains(entry) && !before_unseen.contains(entry) {
            let k = choose|k: int| 0 <= k < unseen.len() && unseen[k] == entry;
            if k < before_unseen.len() {
                assert(before_unseen[k] == entry);
            }
            assert(labels[upto - 1] == entry);
        }
    }
}

/// An action has a line exactly if it committed or was refused.
pub proof fn active_actions_have_a_line(
    commits: Seq<u64>,
    denials: Seq<(u64, u32)>,
    action: Action,
)
    ensures
        ({
            let place = action.ordinal();
            let before = action_lines(commits, denials, place);
            let after = action_lines(commits, denials, place + 1);
            &&& commits[place] > 0 || denials[place].0 > 0 ==> after == before + action_line(
                action,
                commits[place],
                denials[place].0,
                denials[place].1,
            )
            &&& commits[place] == 0 && denials[place].0 == 0 ==> after == before
        }),
{
}

/// An action's line names the action, its commits, its refusals and the last status.
pub proof fn action_lines_name_everything(action: Action, commits: u64, refused: u64, code: u32)
    ensures
        mentions(action_line(action, commits, refused, code), action.label()),
        mentions(action_line(action, commits, refused, code), decimal(commits as nat)),
        mentions(action_line(action, commits, refused, code), decimal(refused as nat)),
        mentions(action_line(action, commits, refused, code), decimal(code as nat)),
{
    broadcast use {text_mentions_itself, halves_are_mentioned};

}

/// The counters' line shows all seven counters.
pub proof fn counter_lines_name_everything(workload: WorkloadView, stats: AuditStats)
    ensures
        mentions(counter_line(workload, stats), decimal(stats.replies_seen as nat)),
        mentions(counter_line(workload, stats), decimal(stats.replies_unknown as nat)),
        mentions(counter_line(workload, stats), decimal(workload.rejections as nat)),
        mentions(counter_line(workload, stats), decimal(workload.samples_none as nat)),
        mentions(counter_line(workload, stats), decimal(workload.resends as nat)),
        mentions(counter_line(workload, stats), decimal(stats.denials as nat)),
        mentions(counter_line(workload, stats), decimal(stats.evictions as nat)),
{
    broadcast use {text_mentions_itself, halves_are_mentioned};

}

/// A coverage report shows every listed command.
pub proof fn coverage_reports_show_both_sides(
    labels: Seq<Seq<char>>,
    counts: Seq<u64>,
    place: int,
)
    requires
        0 <= place < counts.len(),
        labels[place] != "Reserved"@,
    ensures
        mentions(command_coverage(labels, counts), labels[place]),
        counts[place] > 0 ==> mentions(
            command_coverage(labels, counts),
            labels[place] + "="@ + decimal(counts[place] as nat),
        ),
{
    broadcast use {text_mentions_itself, halves_are_mentioned};

    let upto = counts.len() as int;
    let seen = delivered(labels, counts, upto);
    let unseen = undelivered(labels, counts, upto);
    commands_are_listed_by_count(labels, counts, upto, place);
    if counts[place] > 0 {
        let entry = labels[place] + "="@ + decimal(counts[place] as nat);
        let i = choose|i: int| 0 <= i < seen.len() && seen[i] == entry;
        joined_parts_are_mentioned(seen, " "@, i);
        assert(mentions(command_coverage(labels, counts), entry));
        parts_of_parts_are_mentioned(
            command_coverage(labels, counts),
            entry,
            labels[place],
        );
    } else {
        let i = choose|i: int| 0 <= i < unseen.len() && unseen[i] == labels[place];
        joined_parts_are_mentioned(unseen, " "@, i);
    }
}

/// A session's knobs reach its options unchanged, the primary is spared exactly if
/// it is not to be crashed, and everything a session cannot set is as in a default
/// run: with the default knobs a session is a default run.
pub proof fn sessions_follow_their_knobs(
    knobs: SessionKnobs,
    options: WorkloadOptions,
    word: u32,
)
    requires
        session_fits(knobs, options),
    ensures
        options.namespaces@.len() == 1,
        options.namespaces@[0] == (IggyNamespace { stream_id: 1, topic_id: 1, partition_id: 0 }),
        options.crash_per_tick_ratio.covers(word) <==> knobs.crash_ratio.covers(word),
        options.restart_per_tick_ratio.covers(word) <==> knobs.restart_ratio.covers(word),
        options.ack_quorum_ratio.covers(word) <==> knobs.ack_quorum_ratio.covers(word),
        !options.redirects_on(word),
        knobs.crash_primary ==> !options.spare_primary,
        !knobs.crash_primary ==> options.spare_primary,
        options.client_count == knobs.clients,
        2 * options.min_survivors > knobs.replicas,
        2 * (options.min_survivors - 1) <= knobs.replicas,
        knobs.clients == 1 && knobs.plane == Plane::Mixed && knobs.crash_ratio.parts == 0
            && knobs.restart_ratio.parts == 0 && !knobs.crash_primary
            && knobs.ack_quorum_ratio.parts == 8_388_608 ==> options.has_defaults(
            knobs.seed,
            knobs.replicas,
        ),
{
}

} // verus!
