//! Why a run did not drain, as a multi-line report.
//!
//! A failed drain is either a wedge or a cluster that is merely slow. Once
//! crashes, restarts and packet loss are all in play, that distinction is the
//! whole diagnosis, so the report names what is still outstanding and what every
//! live replica thinks the world looks like.

use crate::action::Action;
use crate::cluster::{
    ClientEntry, ClusterReading, IggyNamespace, MetadataConsensus, ReplicaReading,
};
use crate::retry::OutstandingView;
use crate::text::{
    boolean, decimal, halves_are_mentioned, mentions, optional, push_boolean, push_decimal,
    push_optional, push_seed_note, seed_note, text_mentions_itself,
};
use crate::workload::{Workload, WorkloadView};
use vstd::prelude::*;
use vstd::string::*;

verus! {

/// The line of an outstanding request.
pub open spec fn outstanding_text(
    client: u128,
    request: u64,
    action: Action,
    target: u8,
    attempts: u32,
) -> Seq<char> {
    "  outstanding client="@ + decimal(client as nat) + " request="@ + decimal(request as nat)
        + " action=Some("@ + action.label() + ") last_target=replica "@ + decimal(target as nat)
        + " attempts="@ + decimal(attempts as nat) + "\n"@
}

/// The line of an outstanding request.
pub open spec fn outstanding_line(entry: OutstandingView) -> Seq<char> {
    outstanding_text(
        entry.client,
        entry.request,
        entry.in_flight.action,
        entry.target,
        entry.attempts,
    )
}

/// The lines of the outstanding requests, in key order.
pub open spec fn outstanding_lines(entries: Seq<OutstandingView>) -> Seq<char>
    decreases entries.len(),
{
    if entries.len() == 0 {
        Seq::empty()
    } else {
        outstanding_lines(entries.drop_last()) + outstanding_line(entries.last())
    }
}

/// What a replica's metadata plane thinks: a rejoining replica is invisible to
/// the quorum until it completes its view probe, so its status is the difference
/// between a slow cluster and one without a quorum.
pub open spec fn metadata_note(metadata: Option<MetadataConsensus>) -> Seq<char> {
    match metadata {
        Some(state) => " | metadata status="@ + state.status.label() + " view="@ + decimal(
            state.view as nat,
        ) + " log_view="@ + decimal(state.log_view as nat) + " commit="@ + decimal(
            state.commit_min as nat,
        ) + " primary="@ + boolean(state.is_primary),
        None => Seq::empty(),
    }
}

/// A primary as an optional number.
pub open spec fn widened(primary: Option<u8>) -> Option<u64> {
    match primary {
        Some(replica) => Some(replica as u64),
        None => None,
    }
}

/// What a replica thinks of a namespace's group.
pub open spec fn group_note(
    cluster: ClusterReading,
    reading: ReplicaReading,
    ns: IggyNamespace,
) -> Seq<char> {
    " | ns "@ + ns.label() + " view="@ + optional(reading.group_view(ns)) + " commit_offset="@
        + optional(reading.offset(ns)) + " primary="@ + optional(widened(cluster.primary(ns)))
}

/// What a replica thinks of the tracked groups.
pub open spec fn group_notes(
    cluster: ClusterReading,
    reading: ReplicaReading,
    namespaces: Seq<IggyNamespace>,
) -> Seq<char>
    decreases namespaces.len(),
{
    if namespaces.len() == 0 {
        Seq::empty()
    } else {
        group_notes(cluster, reading, namespaces.drop_last()) + group_note(
            cluster,
            reading,
            namespaces.last(),
        )
    }
}

/// The line of a client table row. The watermark says whether an outstanding
/// request is still expected, already answered, or ahead of what the replica will
/// accept.
pub open spec fn client_line(entry: ClientEntry) -> Seq<char> {
    "    client "@ + decimal(entry.client as nat) + ": watermark="@ + optional(entry.watermark)
        + " epoch="@ + optional(entry.epoch) + " cached_reply_request="@ + optional(
        entry.cached_reply_request,
    ) + "\n"@
}

/// The lines of a client table.
pub open spec fn client_lines(clients: Seq<ClientEntry>) -> Seq<char>
    decreases clients.len(),
{
    if clients.len() == 0 {
        Seq::empty()
    } else {
        client_lines(clients.drop_last()) + client_line(clients.last())
    }
}

/// The lines of one replica.
pub open spec fn replica_lines(
    cluster: ClusterReading,
    namespaces: Seq<IggyNamespace>,
    replica: int,
) -> Seq<char> {
    let reading = cluster.replicas@[replica];
    if reading.crashed {
        "  replica "@ + decimal(replica as nat) + ": CRASHED\n"@
    } else {
        "  replica "@ + decimal(replica as nat) + ": live"@ + metadata_note(reading.metadata)
            + group_notes(cluster, reading, namespaces) + "\n"@ + client_lines(reading.clients@)
    }
}

/// The lines of the replicas below `bound`.
pub open spec fn cluster_lines(
    cluster: ClusterReading,
    namespaces: Seq<IggyNamespace>,
    bound: int,
) -> Seq<char>
    decreases bound,
{
    if bound <= 0 {
        Seq::empty()
    } else {
        cluster_lines(cluster, namespaces, bound - 1) + replica_lines(
            cluster,
            namespaces,
            bound - 1,
        )
    }
}

/// The whole report.
pub open spec fn failure_report(cluster: ClusterReading, workload: WorkloadView) -> Seq<char> {
    "did not drain: "@ + decimal(workload.outstanding.len()) + " request(s) still outstanding"@
        + seed_note(workload.options.seed) + "\n"@ + outstanding_lines(workload.outstanding)
        + "  resends issued: "@ + decimal(workload.resends as nat) + "\n"@ + cluster_lines(
        cluster,
        workload.options.namespaces@,
        cluster.replicas@.len() as int,
    )
}

fn push_outstanding_line(
    out: &mut String,
    client: u128,
    request: u64,
    action: Action,
    target: u8,
    attempts: u32,
)
    ensures
        final(out)@ == old(out)@ + outstanding_text(client, request, action, target, attempts),
{
    out.append("  outstanding client=");
    push_decimal(out, client);
    out.append(" request=");
    push_decimal(out, request as u128);
    out.append(" action=Some(");
    out.append(action.name());
    out.append(") last_target=replica ");
    push_decimal(out, target as u128);
    out.append(" attempts=");
    push_decimal(out, attempts as u128);
    out.append("\n");
    assert(out@ =~= old(out)@ + outstanding_text(client, request, action, target, attempts));
}

fn push_outstanding(out: &mut String, workload: &Workload)
    ensures
        final(out)@ == old(out)@ + outstanding_lines(workload@.outstanding),
{
    let ghost start = out@;
    let ghost entries = workload@.outstanding;
    let summary = workload.outstanding_summary();
    let mut i: usize = 0;
    assert(entries.take(0) =~= Seq::empty());
    assert(out@ =~= start + outstanding_lines(entries.take(0)));
    while i < summary.len()
        invariant
            i <= summary.len(),
            summary@.len() == entries.len(),
            forall|j: int|
                0 <= j < entries.len() ==> #[trigger] summary@[j] == (
                    entries[j].client,
                    entries[j].request,
                    entries[j].in_flight.action,
                    entries[j].target,
                    entries[j].attempts,
                ),
            out@ == start + outstanding_lines(entries.take(i as int)),
        decreases summary.len() - i,
    {
        let (client, request, action, target, attempts) = summary[i];
        push_outstanding_line(out, client, request, action, target, attempts);
        proof {
            assert(entries.take(i + 1).drop_last() =~= entries.take(i as int));
            assert(out@ =~= start + outstanding_lines(entries.take(i + 1)));
        }
        i = i + 1;
    }
    assert(entries.take(i as int) =~= entries);
}

fn push_metadata_note(out: &mut String, metadata: Option<MetadataConsensus>)
    ensures
        final(out)@ == old(out)@ + metadata_note(metadata),
{
    match metadata {
        Some(state) => {
            out.append(" | metadata status=");
            out.append(state.status.name());
            out.append(" view=");
            push_decimal(out, state.view as u128);
            out.append(" log_view=");
            push_decimal(out, state.log_view as u128);
            out.append(" commit=");
            push_decimal(out, state.commit_min as u128);
            out.append(" primary=");
            push_boolean(out, state.is_primary);
        },
        None => {},
    }
    assert(out@ =~= old(out)@ + metadata_note(metadata));
}

fn push_group_note(
    out: &mut String,
    cluster: &ClusterReading,
    reading: &ReplicaReading,
    ns: IggyNamespace,
)
    ensures
        final(out)@ == old(out)@ + group_note(*cluster, *reading, ns),
{
    let primary: Option<u64> = match cluster.primary_index(ns) {
        Some(replica) => Some(replica as u64),
        None => None,
    };
    out.append(" | ns ");
    ns.push_label(out);
    out.append(" view=");
    push_optional(out, reading.consensus_view(ns));
    out.append(" commit_offset=");
    push_optional(out, reading.offsets(ns));
    out.append(" primary=");
    push_optional(out, primary);
    assert(out@ =~= old(out)@ + group_note(*cluster, *reading, ns));
}

fn push_group_notes(
    out: &mut String,
    cluster: &ClusterReading,
    reading: &ReplicaReading,
    namespaces: &[IggyNamespace],
)
    ensures
        final(out)@ == old(out)@ + group_notes(*cluster, *reading, namespaces@),
{
    let ghost start = out@;
    let mut i: usize = 0;
    assert(namespaces@.take(0) =~= Seq::empty());
    assert(out@ =~= start + group_notes(*cluster, *reading, namespaces@.take(0)));
    while i < namespaces.len()
        invariant
            i <= namespaces.len(),
            out@ == start + group_notes(*cluster, *reading, namespaces@.take(i as int)),
        decreases namespaces.len() - i,
    {
        push_group_note(out, cluster, reading, namespaces[i]);
        proof {
            assert(namespaces@.take(i + 1).drop_last() =~= namespaces@.take(i as int));
            assert(out@ =~= start + group_notes(*cluster, *reading, namespaces@.take(i + 1)));
        }
        i = i + 1;
    }
    assert(namespaces@.take(i as int) =~= namespaces@);
}

fn push_client_line(out: &mut String, entry: ClientEntry)
    ensures
        final(out)@ == old(out)@ + client_line(entry),
{
    out.append("    client ");
    push_decimal(out, entry.client);
    out.append(": watermark=");
    push_optional(out, entry.watermark);
    out.append(" epoch=");
    push_optional(out, entry.epoch);
    out.append(" cached_reply_request=");
    push_optional(out, entry.cached_reply_request);
    out.append("\n");
    assert(out@ =~= old(out)@ + client_line(entry));
}

fn push_client_lines(out: &mut String, clients: &[ClientEntry])
    ensures
        final(out)@ == old(out)@ + client_lines(clients@),
{
    let ghost start = out@;
    let mut i: usize = 0;
    assert(clients@.take(0) =~= Seq::empty());
    assert(out@ =~= start + client_lines(clients@.take(0)));
    while i < clients.len()
        invariant
            i <= clients.len(),
            out@ == start + client_lines(clients@.take(i as int)),
        decreases clients.len() - i,
    {
        push_client_line(out, clients[i]);
        proof {
            assert(clients@.take(i + 1).drop_last() =~= clients@.take(i as int));
            assert(out@ =~= start + client_lines(clients@.take(i + 1)));
        }
        i = i + 1;
    }
    assert(clients@.take(i as int) =~= clients@);
}

fn push_replica_lines(
    out: &mut String,
    cluster: &ClusterReading,
    namespaces: &[IggyNamespace],
    replica: usize,
)
    requires
        replica < cluster.replicas@.len(),
    ensures
        final(out)@ == old(out)@ + replica_lines(*cluster, namespaces@, replica as int),
{
    let reading = &cluster.replicas[replica];
    out.append("  replica ");
    push_decimal(out, replica as u128);
    if reading.crashed {
        out.append(": CRASHED\n");
    } else {
        out.append(": live");
        push_metadata_note(out, reading.metadata);
        push_group_notes(out, cluster, reading, namespaces);
        out.append("\n");
        push_client_lines(out, reading.clients.as_slice());
    }
    assert(out@ =~= old(out)@ + replica_lines(*cluster, namespaces@, replica as int));
}

/// Why the run did not drain.
pub fn quiesce_failure_report(cluster: &ClusterReading, workload: &Workload) -> (report: String)
    ensures
        report@ == failure_report(*cluster, workload@),
{
    let namespaces = workload.options().namespaces.as_slice();
    let mut report = String::new();
    report.append("did not drain: ");
    push_decimal(&mut report, workload.total_in_flight() as u128);
    report.append(" request(s) still outstanding");
    push_seed_note(&mut report, workload.options().seed);
    report.append("\n");
    push_outstanding(&mut report, workload);
    report.append("  resends issued: ");
    push_decimal(&mut report, workload.resends() as u128);
    report.append("\n");
    let ghost start = report@;
    let mut index: usize = 0;
    assert(report@ =~= start + cluster_lines(*cluster, namespaces@, 0));
    while index < cluster.replicas.len()
        invariant
            index <= cluster.replicas.len(),
            report@ == start + cluster_lines(*cluster, namespaces@, index as int),
        decreases cluster.replicas.len() - index,
    {
        push_replica_lines(&mut report, cluster, namespaces, index);
        index = index + 1;
        assert(report@ =~= start + cluster_lines(*cluster, namespaces@, index as int));
    }
    assert(report@ =~= failure_report(*cluster, workload@));
    report
}

/// The report of a list of outstanding requests is the reports of its parts, end to
/// end, and one request takes one line: none is left out, none comes twice.
pub proof fn every_outstanding_request_is_reported(
    front: Seq<OutstandingView>,
    entry: OutstandingView,
    back: Seq<OutstandingView>,
)
    ensures
        outstanding_lines(front + back) == outstanding_lines(front) + outstanding_lines(back),
        outstanding_lines(seq![entry]) == outstanding_text(
            entry.client,
            entry.request,
            entry.in_flight.action,
            entry.target,
            entry.attempts,
        ),
    decreases back.len(),
{
    assert(seq![entry].drop_last() =~= Seq::empty());
    assert(outstanding_lines(Seq::<OutstandingView>::empty()) =~= Seq::empty());
    assert(outstanding_lines(seq![entry]) =~= outstanding_line(entry));
    if back.len() == 0 {
        assert(front + back =~= front);
        assert(outstanding_lines(front) + outstanding_lines(back) =~= outstanding_lines(front));
    } else {
        every_outstanding_request_is_reported(front, entry, back.drop_last());
        assert((front + back).drop_last() =~= front + back.drop_last());
        assert(outstanding_lines(front + back) =~= outstanding_lines(front) + outstanding_lines(
            back,
        ));
    }
}

/// The report of a client table is the reports of its parts, end to end, one line a
/// client.
pub proof fn every_client_is_reported(
    front: Seq<ClientEntry>,
    entry: ClientEntry,
    back: Seq<ClientEntry>,
)
    ensures
        client_lines(front + back) == client_lines(front) + client_lines(back),
        client_lines(seq![entry]) == client_line(entry),
    decreases back.len(),
{
    assert(seq![entry].drop_last() =~= Seq::empty());
    assert(client_lines(Seq::<ClientEntry>::empty()) =~= Seq::empty());
    assert(client_lines(seq![entry]) =~= client_line(entry));
    if back.len() == 0 {
        assert(front + back =~= front);
        assert(client_lines(front) + client_lines(back) =~= client_lines(front));
    } else {
        every_client_is_reported(front, entry, back.drop_last());
        assert((front + back).drop_last() =~= front + back.drop_last());
        assert(client_lines(front + back) =~= client_lines(front) + client_lines(back));
    }
}

/// The notes on a list of namespaces are the notes on its parts, end to end, one
/// note a namespace.
pub proof fn every_namespace_is_reported(
    cluster: ClusterReading,
    reading: ReplicaReading,
    front: Seq<IggyNamespace>,
    ns: IggyNamespace,
    back: Seq<IggyNamespace>,
)
    ensures
        group_notes(cluster, reading, front + back) == group_notes(cluster, reading, front)
            + group_notes(cluster, reading, back),
        group_notes(cluster, reading, seq![ns]) == group_note(cluster, reading, ns),
    decreases back.len(),
{
    assert(seq![ns].drop_last() =~= Seq::empty());
    assert(group_notes(cluster, reading, Seq::<IggyNamespace>::empty()) =~= Seq::empty());
    assert(group_notes(cluster, reading, seq![ns]) =~= group_note(cluster, reading, ns));
    if back.len() == 0 {
        assert(front + back =~= front);
        assert(group_notes(cluster, reading, front) + group_notes(cluster, reading, back)
            =~= group_notes(cluster, reading, front));
    } else {
        every_namespace_is_reported(cluster, reading, front, ns, back.drop_last());
        assert((front + back).drop_last() =~= front + back.drop_last());
        assert(group_notes(cluster, reading, front + back) =~= group_notes(cluster, reading, front)
            + group_notes(cluster, reading, back));
    }
}

/// Every replica, crashed or live, has its lines in the report, in index order.
pub proof fn every_replica_is_reported(
    cluster: ClusterReading,
    namespaces: Seq<IggyNamespace>,
    replica: int,
    bound: int,
) -> (after: Seq<char>)
    requires
        0 <= replica < bound,
    ensures
        cluster_lines(cluster, namespaces, bound) == cluster_lines(cluster, namespaces, replica)
            + replica_lines(cluster, namespaces, replica) + after,
    decreases bound,
{
    if bound == replica + 1 {
        assert(cluster_lines(cluster, namespaces, bound) =~= cluster_lines(
            cluster,
            namespaces,
            replica,
        ) + replica_lines(cluster, namespaces, replica) + Seq::<char>::empty());
        Seq::empty()
    } else {
        let shorter = every_replica_is_reported(cluster, namespaces, replica, bound - 1);
        let after = shorter + replica_lines(cluster, namespaces, bound - 1);
        assert(cluster_lines(cluster, namespaces, bound) =~= cluster_lines(
            cluster,
            namespaces,
            replica,
        ) + replica_lines(cluster, namespaces, replica) + after);
        after
    }
}

/// A crashed replica shows nothing of the state it lost: two clusters in which it
/// is crashed report it alike.
pub proof fn crashed_replicas_are_reported_alike(
    left: ClusterReading,
    right: ClusterReading,
    left_namespaces: Seq<IggyNamespace>,
    right_namespaces: Seq<IggyNamespace>,
    replica: int,
)
    requires
        left.replicas@[replica].crashed,
        right.replicas@[replica].crashed,
    ensures
        replica_lines(left, left_namespaces, replica) == replica_lines(
            right,
            right_namespaces,
            replica,
        ),
{
}

/// The line of an outstanding request names the client, the request, the command,
/// the replica last tried and the attempts.
pub proof fn outstanding_lines_name_everything(
    client: u128,
    request: u64,
    action: Action,
    target: u8,
    attempts: u32,
)
    ensures
        ({
            let line = outstanding_text(client, request, action, target, attempts);
            &&& mentions(line, decimal(client as nat) + " request="@ + decimal(request as nat))
            &&& mentions(line, action.label())
            &&& mentions(line, decimal(target as nat) + " attempts="@ + decimal(attempts as nat))
        }),
{
    broadcast use {text_mentions_itself, halves_are_mentioned};

    let whose = decimal(client as nat) + " request="@ + decimal(request as nat);
    let tried = decimal(target as nat) + " attempts="@ + decimal(attempts as nat);
    assert(outstanding_text(client, request, action, target, attempts) =~= "  outstanding client="@
        + whose + " action=Some("@ + action.label() + ") last_target=replica "@ + tried + "\n"@);
}

/// A live replica's lines name it, all of its metadata state, every tracked
/// namespace with its view, offset and primary, and every client with its
/// watermark, epoch and cached reply.
pub proof fn replica_lines_name_everything(
    cluster: ClusterReading,
    namespaces: Seq<IggyNamespace>,
    replica: int,
    ns: IggyNamespace,
    entry: ClientEntry,
)
    ensures
        ({
            let reading = cluster.replicas@[replica];
            let lines = replica_lines(cluster, namespaces, replica);
            &&& mentions(lines, decimal(replica as nat))
            &&& !reading.crashed ==> {
                &&& mentions(lines, group_notes(cluster, reading, namespaces))
                &&& mentions(lines, client_lines(reading.clients@))
                &&& reading.metadata matches Some(state) ==> {
                    &&& mentions(lines, state.status.label())
                    &&& mentions(lines, decimal(state.view as nat))
                    &&& mentions(lines, decimal(state.log_view as nat))
                    &&& mentions(lines, decimal(state.commit_min as nat))
                    &&& mentions(lines, boolean(state.is_primary))
                }
            }
            &&& mentions(group_note(cluster, reading, ns), ns.label())
            &&& mentions(group_note(cluster, reading, ns), optional(reading.group_view(ns)))
            &&& mentions(group_note(cluster, reading, ns), optional(reading.offset(ns)))
            &&& cluster.primary(ns) matches Some(primary) ==> mentions(
                group_note(cluster, reading, ns),
                optional(Some(primary as u64)),
            )
            &&& cluster.primary(ns) is None ==> mentions(
                group_note(cluster, reading, ns),
                optional(None),
            )
            &&& mentions(client_line(entry), decimal(entry.client as nat))
            &&& mentions(client_line(entry), optional(entry.watermark))
            &&& mentions(client_line(entry), optional(entry.epoch))
            &&& mentions(client_line(entry), optional(entry.cached_reply_request))
        }),
{
    broadcast use {text_mentions_itself, halves_are_mentioned};

    let reading = cluster.replicas@[replica];
    if let Some(state) = reading.metadata {
        let note = metadata_note(reading.metadata);
        assert(mentions(note, state.status.label()));
        assert(mentions(note, decimal(state.view as nat)));
        assert(mentions(note, decimal(state.log_view as nat)));
        assert(mentions(note, decimal(state.commit_min as nat)));
        assert(mentions(note, boolean(state.is_primary)));
    }
}

/// A live replica is never reported as crashed, nor a crashed one as live.
pub proof fn crashed_and_live_are_told_apart(
    cluster: ClusterReading,
    namespaces: Seq<IggyNamespace>,
    replica: int,
)
    ensures
        ({
            let name = "  replica "@ + decimal(replica as nat);
            let lines = replica_lines(cluster, namespaces, replica);
            let mark = lines[name.len() + 2int];
            &&& cluster.replicas@[replica].crashed ==> mark == 'C'
            &&& !cluster.replicas@[replica].crashed ==> mark == 'l'
        }),
{
    let name = "  replica "@ + decimal(replica as nat);
    reveal_strlit(": CRASHED\n");
    reveal_strlit(": live");
    let reading = cluster.replicas@[replica];
    let lines = replica_lines(cluster, namespaces, replica);
    if reading.crashed {
        assert(lines =~= name + ": CRASHED\n"@);
    } else {
        let rest = metadata_note(reading.metadata) + group_notes(cluster, reading, namespaces)
            + "\n"@ + client_lines(reading.clients@);
        assert(lines =~= name + (": live"@ + rest));
    }
}

/// The report of a failed drain names how much is outstanding, the seed and the
/// resends, and holds the lines of every request and of every replica.
pub proof fn failure_reports_name_everything(cluster: ClusterReading, workload: WorkloadView)
    ensures
        ({
            let text = failure_report(cluster, workload);
            &&& mentions(text, decimal(workload.outstanding.len()))
            &&& mentions(text, seed_note(workload.options.seed))
            &&& mentions(text, decimal(workload.resends as nat))
            &&& mentions(text, outstanding_lines(workload.outstanding))
            &&& mentions(
                text,
                cluster_lines(
                    cluster,
                    workload.options.namespaces@,
                    cluster.replicas@.len() as int,
                ),
            )
        }),
{
    broadcast use {text_mentions_itself, halves_are_mentioned};

}

} // verus!
