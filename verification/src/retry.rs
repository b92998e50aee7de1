//! Outstanding requests, retained so a client can resend them.

use crate::action::Action;
use vstd::prelude::*;

verus! {

/// An encoded request and the header fields the driver reads.
#[derive(Debug)]
pub struct RequestMessage {
    pub client: u128,
    pub request: u64,
    /// Group the request is routed to.
    pub group: u64,
    /// The whole encoded message.
    pub bytes: Vec<u8>,
}

/// An encoded request and the header fields the driver reads.
pub ghost struct MessageView {
    pub client: u128,
    pub request: u64,
    pub group: u64,
    pub bytes: Seq<u8>,
}

impl View for RequestMessage {
    type V = MessageView;

    open spec fn view(&self) -> MessageView {
        MessageView {
            client: self.client,
            request: self.request,
            group: self.group,
            bytes: self.bytes@,
        }
    }
}

impl RequestMessage {
    /// A copy that shares nothing with the original.
    pub fn deep_copy(&self) -> (copy: RequestMessage)
        ensures
            copy@ == self@,
    {
        let mut bytes: Vec<u8> = Vec::new();
        let mut i: usize = 0;
        while i < self.bytes.len()
            invariant
                i <= self.bytes.len(),
                bytes@ == self.bytes@.take(i as int),
            decreases self.bytes.len() - i,
        {
            bytes.push(self.bytes[i]);
            i = i + 1;
            assert(bytes@ =~= self.bytes@.take(i as int));
        }
        assert(bytes@ =~= self.bytes@);
        RequestMessage { client: self.client, request: self.request, group: self.group, bytes }
    }
}

/// What is expected of an outstanding request's reply.
#[derive(Debug, Clone, Copy, PartialEq, Eq, Structural)]
pub struct InFlight {
    pub action: Action,
    /// The outcome the request was built to provoke, among the action's.
    pub outcome: u32,
    /// Group the request was routed to.
    pub request_namespace: u64,
}

/// An outstanding request.
///
/// The encoded message is kept verbatim rather than rebuilt, because rebuilding
/// would draw a fresh request id and a resend must reuse the original: that id is
/// what the metadata plane's client table dedups on, so a renumbered retry
/// commits a second time instead of returning the cached reply.
#[derive(Debug)]
pub struct Outstanding {
    pub client: u128,
    pub request: u64,
    pub message: RequestMessage,
    /// Replica the most recent attempt went to. A resend moves to the next one,
    /// so a client whose primary died eventually finds the new one.
    pub target: u8,
    /// Tick of the most recent attempt, not of the first.
    pub attempted_tick: u64,
    pub attempts: u32,
    pub in_flight: InFlight,
}

/// An outstanding request.
pub ghost struct OutstandingView {
    pub client: u128,
    pub request: u64,
    pub message: MessageView,
    pub target: u8,
    pub attempted_tick: u64,
    pub attempts: u32,
    pub in_flight: InFlight,
}

impl View for Outstanding {
    type V = OutstandingView;

    open spec fn view(&self) -> OutstandingView {
        OutstandingView {
            client: self.client,
            request: self.request,
            message: self.message@,
            target: self.target,
            attempted_tick: self.attempted_tick,
            attempts: self.attempts,
            in_flight: self.in_flight,
        }
    }
}

impl OutstandingView {
    /// The entry is the given client's given request.
    pub open spec fn is_for(self, client: u128, request: u64) -> bool {
        self.client == client && self.request == request
    }

    /// The request's reply is overdue.
    pub open spec fn overdue(self, now: u64, timeout: u64) -> bool {
        now - self.attempted_tick >= timeout
    }

    /// The entry after a resend to the next of `replica_count` replicas.
    pub open spec fn resent(self, now: u64, replica_count: u8) -> OutstandingView {
        OutstandingView {
            target: ((self.target + 1) % (replica_count as int)) as u8,
            attempted_tick: now,
            attempts: (self.attempts + 1) as u32,
            ..self
        }
    }
}

/// One (client, request) pair orders before another.
pub open spec fn key_before(
    left_client: u128,
    left_request: u64,
    right_client: u128,
    right_request: u64,
) -> bool {
    left_client < right_client || left_client == right_client && left_request < right_request
}

/// Entries in ascending (client, request) order, no pair twice.
pub open spec fn in_key_order(entries: Seq<OutstandingView>) -> bool {
    forall|i: int, j: int|
        0 <= i < j < entries.len() ==> key_before(
            (#[trigger] entries[i]).client,
            entries[i].request,
            (#[trigger] entries[j]).client,
            entries[j].request,
        )
}

/// Number of leading entries that order before a pair.
pub open spec fn rank(entries: Seq<OutstandingView>, client: u128, request: u64) -> int
    decreases entries.len(),
{
    if entries.len() == 0 {
        0
    } else if key_before(entries.last().client, entries.last().request, client, request) {
        entries.len() as int
    } else {
        rank(entries.drop_last(), client, request)
    }
}

/// A request is outstanding.
pub open spec fn holds(entries: Seq<OutstandingView>, client: u128, request: u64) -> bool {
    exists|i: int| 0 <= i < entries.len() && (#[trigger] entries[i]).is_for(client, request)
}

/// The entry of an outstanding request.
pub open spec fn entry_for(
    entries: Seq<OutstandingView>,
    client: u128,
    request: u64,
) -> OutstandingView {
    entries[rank(entries, client, request)]
}

/// The entries with one added at its place, replacing one of the same pair.
pub open spec fn with_entry(entries: Seq<OutstandingView>, entry: OutstandingView) -> Seq<
    OutstandingView,
> {
    let place = rank(entries, entry.client, entry.request);
    if place < entries.len() && entries[place].is_for(entry.client, entry.request) {
        entries.update(place, entry)
    } else {
        entries.insert(place, entry)
    }
}

/// The entries without the one of a pair.
pub open spec fn without_entry(entries: Seq<OutstandingView>, client: u128, request: u64) -> Seq<
    OutstandingView,
> {
    if holds(entries, client, request) {
        entries.remove(rank(entries, client, request))
    } else {
        entries
    }
}

/// Number of a client's entries.
pub open spec fn client_entries(entries: Seq<OutstandingView>, client: u128) -> nat
    decreases entries.len(),
{
    if entries.len() == 0 {
        0
    } else {
        client_entries(entries.drop_last(), client) + if entries.last().client == client {
            1nat
        } else {
            0
        }
    }
}

/// The overdue entries' next targets and messages, in order.
pub open spec fn resend_list(
    entries: Seq<OutstandingView>,
    now: u64,
    timeout: u64,
    replica_count: u8,
) -> Seq<(u8, MessageView)>
    decreases entries.len(),
{
    if entries.len() == 0 {
        Seq::empty()
    } else {
        let before = resend_list(entries.drop_last(), now, timeout, replica_count);
        let entry = entries.last();
        if entry.overdue(now, timeout) {
            before.push((entry.resent(now, replica_count).target, entry.message))
        } else {
            before
        }
    }
}

/// The entries after every overdue one was resent.
pub open spec fn after_resends(
    entries: Seq<OutstandingView>,
    now: u64,
    timeout: u64,
    replica_count: u8,
) -> Seq<OutstandingView> {
    entries.map_values(
        |entry: OutstandingView|
            if entry.overdue(now, timeout) {
                entry.resent(now, replica_count)
            } else {
                entry
            },
    )
}

/// Outstanding requests in (client, request) order.
#[derive(Debug)]
pub struct RetryBuffer {
    entries: Vec<Outstanding>,
}

/// The views of a list of entries.
pub open spec fn entry_views(entries: Seq<Outstanding>) -> Seq<OutstandingView> {
    entries.map_values(|entry: Outstanding| entry@)
}

/// A list of messages with the replicas they go to.
pub open spec fn message_views(messages: Seq<(u8, RequestMessage)>) -> Seq<(u8, MessageView)> {
    messages.map_values(|message: (u8, RequestMessage)| (message.0, message.1@))
}

impl View for RetryBuffer {
    type V = Seq<OutstandingView>;

    closed spec fn view(&self) -> Seq<OutstandingView> {
        entry_views(self.entries@)
    }
}

impl RetryBuffer {
    /// A buffer that holds nothing.
    pub fn new() -> (buffer: Self)
        ensures
            buffer@ == Seq::<OutstandingView>::empty(),
    {
        let buffer = RetryBuffer { entries: Vec::new() };
        assert(buffer@ =~= Seq::<OutstandingView>::empty());
        buffer
    }

    /// Number of outstanding requests.
    pub fn len(&self) -> (len: usize)
        ensures
            len == self@.len(),
    {
        self.entries.len()
    }

    /// The entry at a position of the order.
    pub fn get(&self, index: usize) -> (entry: &Outstanding)
        requires
            index < self@.len(),
        ensures
            entry@ == self@[index as int],
    {
        &self.entries[index]
    }

    fn place(&self, client: u128, request: u64) -> (place: usize)
        requires
            in_key_order(self@),
        ensures
            place == rank(self@, client, request),
            place <= self@.len(),
    {
        let mut place: usize = self.entries.len();
        assert(self@.take(place as int) =~= self@);
        while place > 0
            invariant
                place <= self.entries.len(),
                self@.len() == self.entries.len(),
                rank(self@, client, request) == rank(self@.take(place as int), client, request),
            decreases place,
        {
            let last = &self.entries[place - 1];
            assert(last@ == self@[place - 1]);
            assert(self@.take(place as int).drop_last() =~= self@.take(place - 1));
            if last.client < client || last.client == client && last.request < request {
                return place;
            }
            place = place - 1;
        }
        place
    }

    /// Position of an outstanding request's entry.
    pub fn find(&self, client: u128, request: u64) -> (found: Option<usize>)
        requires
            in_key_order(self@),
        ensures
            found is Some <==> holds(self@, client, request),
            found is Some ==> found->0 == rank(self@, client, request) && found->0 < self@.len()
                && self@[found->0 as int].is_for(client, request),
    {
        proof {
            rank_is_place(self@, client, request);
        }
        let place: usize = self.place(client, request);
        if place < self.entries.len() {
            let entry = &self.entries[place];
            assert(entry@ == self@[place as int]);
            if entry.client == client && entry.request == request {
                return Some(place);
            }
        }
        None
    }

    /// Adds an entry, replacing one of the same client and request.
    pub fn insert(&mut self, entry: Outstanding)
        requires
            in_key_order(old(self)@),
        ensures
            final(self)@ == with_entry(old(self)@, entry@),
            in_key_order(final(self)@),
    {
        proof {
            rank_is_place(self@, entry.client, entry.request);
        }
        let place: usize = self.place(entry.client, entry.request);
        let ghost added = entry@;
        if place < self.entries.len() && self.entries[place].client == entry.client
            && self.entries[place].request == entry.request {
            assert(self.entries@[place as int]@ == self@[place as int]);
            self.entries[place] = entry;
        } else {
            if place < self.entries.len() {
                assert(self.entries@[place as int]@ == self@[place as int]);
            }
            self.entries.insert(place, entry);
        }
        assert(self@ =~= with_entry(old(self)@, added));
    }

    /// Drops an outstanding request's entry; `false` if there is none.
    pub fn remove(&mut self, client: u128, request: u64) -> (removed: bool)
        requires
            in_key_order(old(self)@),
        ensures
            removed == holds(old(self)@, client, request),
            final(self)@ == without_entry(old(self)@, client, request),
            in_key_order(final(self)@),
    {
        match self.find(client, request) {
            Some(place) => {
                self.entries.remove(place);
                assert(self@ =~= without_entry(old(self)@, client, request));
                true
            },
            None => false,
        }
    }

    /// Number of a client's outstanding requests.
    pub fn count_client(&self, client: u128) -> (count: usize)
        ensures
            count == client_entries(self@, client),
    {
        let mut count: usize = 0;
        let mut i: usize = 0;
        assert(self@.take(0) =~= Seq::empty());
        while i < self.entries.len()
            invariant
                i <= self.entries.len(),
                self@.len() == self.entries.len(),
                count <= i,
                count == client_entries(self@.take(i as int), client),
            decreases self.entries.len() - i,
        {
            assert(self@.take(i + 1).drop_last() =~= self@.take(i as int));
            assert(self.entries@[i as int]@ == self@[i as int]);
            if self.entries[i].client == client {
                count = count + 1;
            }
            i = i + 1;
        }
        assert(self@.take(i as int) =~= self@);
        count
    }

    /// Marks every overdue entry as sent again, to the next replica, and returns
    /// what to send where.
    pub fn resend_overdue(&mut self, now: u64, timeout: u64, replica_count: u8) -> (due: Vec<
        (u8, RequestMessage),
    >)
        requires
            replica_count > 0,
            timeout > 0,
            forall|i: int|
                0 <= i < old(self)@.len() && (#[trigger] old(self)@[i]).overdue(now, timeout) ==> {
                    &&& old(self)@[i].attempts < u32::MAX
                    &&& old(self)@[i].target < 255
                },
        ensures
            message_views(due@) == resend_list(old(self)@, now, timeout, replica_count),
            final(self)@ == after_resends(old(self)@, now, timeout, replica_count),
    {
        let mut due: Vec<(u8, RequestMessage)> = Vec::new();
        let ghost start = self@;
        let ghost target = after_resends(start, now, timeout, replica_count);
        let mut i: usize = 0;
        assert(start.take(0) =~= Seq::empty());
        assert(message_views(due@) =~= Seq::empty());
        while i < self.entries.len()
            invariant
                i <= self.entries.len(),
                replica_count > 0,
                self@.len() == start.len(),
                target == after_resends(start, now, timeout, replica_count),
                forall|j: int| 0 <= j < i ==> #[trigger] self@[j] == target[j],
                forall|j: int| i <= j < self@.len() ==> #[trigger] self@[j] == start[j],
                timeout > 0,
                forall|j: int|
                    0 <= j < start.len() && (#[trigger] start[j]).overdue(now, timeout) ==> {
                        &&& start[j].attempts < u32::MAX
                        &&& start[j].target < 255
                    },
                message_views(due@) == resend_list(
                    start.take(i as int),
                    now,
                    timeout,
                    replica_count,
                ),
            decreases self.entries.len() - i,
        {
            let ghost before = self@;
            let ghost sent = due@;
            assert(self.entries@[i as int]@ == self@[i as int]);
            assert(start.take(i + 1).drop_last() =~= start.take(i as int));
            if self.entries[i].attempted_tick <= now && now - self.entries[i].attempted_tick
                >= timeout {
                let next: u8 = (self.entries[i].target + 1) % replica_count;
                self.entries[i].target = next;
                self.entries[i].attempted_tick = now;
                self.entries[i].attempts = self.entries[i].attempts + 1;
                due.push((next, self.entries[i].message.deep_copy()));
                assert(self@ =~= before.update(i as int, target[i as int]));
                assert(message_views(due@) =~= message_views(sent).push(
                    (target[i as int].target, start[i as int].message),
                ));
            }
            i = i + 1;
        }
        assert(start.take(i as int) =~= start);
        assert(self@ =~= target);
        due
    }
}

/// In an ordered list, the rank of a pair is the one place its entry can stand.
pub proof fn rank_is_place(entries: Seq<OutstandingView>, client: u128, request: u64)
    requires
        in_key_order(entries),
    ensures
        0 <= rank(entries, client, request) <= entries.len(),
        forall|i: int|
            0 <= i < rank(entries, client, request) ==> key_before(
                (#[trigger] entries[i]).client,
                entries[i].request,
                client,
                request,
            ),
        forall|i: int|
            rank(entries, client, request) <= i < entries.len() ==> !key_before(
                (#[trigger] entries[i]).client,
                entries[i].request,
                client,
                request,
            ),
        holds(entries, client, request) <==> rank(entries, client, request) < entries.len()
            && entries[rank(entries, client, request)].is_for(client, request),
    decreases entries.len(),
{
    let place = rank(entries, client, request);
    if entries.len() > 0 {
        let shorter = entries.drop_last();
        let last = entries.len() - 1;
        rank_is_place(shorter, client, request);
        assert forall|i: int| 0 <= i < place implies key_before(
            (#[trigger] entries[i]).client,
            entries[i].request,
            client,
            request,
        ) by {
            if i < last {
                assert(shorter[i] == entries[i]);
                assert(key_before(
                    entries[i].client,
                    entries[i].request,
                    entries[last].client,
                    entries[last].request,
                ));
            }
        }
        assert forall|i: int| place <= i < entries.len() implies !key_before(
            (#[trigger] entries[i]).client,
            entries[i].request,
            client,
            request,
        ) by {
            if i < last {
                assert(shorter[i] == entries[i]);
            }
        }
        if holds(entries, client, request) {
            let i = choose|i: int|
                0 <= i < entries.len() && (#[trigger] entries[i]).is_for(client, request);
            if i < place {
                assert(key_before(entries[i].client, entries[i].request, client, request));
            }
            if place < i {
                assert(!key_before(
                    entries[place].client,
                    entries[place].request,
                    client,
                    request,
                ));
            }
        }
    }
}

/// In an ordered list, the entry of a pair stands at the pair's rank.
pub proof fn entry_stands_at_rank(
    entries: Seq<OutstandingView>,
    place: int,
    client: u128,
    request: u64,
)
    requires
        in_key_order(entries),
        0 <= place < entries.len(),
        entries[place].is_for(client, request),
    ensures
        rank(entries, client, request) == place,
        holds(entries, client, request),
{
    rank_is_place(entries, client, request);
    let ranked = rank(entries, client, request);
    if place < ranked {
        assert(key_before(entries[place].client, entries[place].request, client, request));
    } else if ranked < place {
        assert(!key_before(entries[ranked].client, entries[ranked].request, client, request));
        assert(key_before(
            entries[ranked].client,
            entries[ranked].request,
            entries[place].client,
            entries[place].request,
        ));
    }
}

/// Adding an entry keeps the order, and the request is then outstanding with
/// exactly that entry.
pub proof fn inserted_entry_is_found(entries: Seq<OutstandingView>, entry: OutstandingView)
    requires
        in_key_order(entries),
    ensures
        in_key_order(with_entry(entries, entry)),
        holds(with_entry(entries, entry), entry.client, entry.request),
        entry_for(with_entry(entries, entry), entry.client, entry.request) == entry,
{
    let place = rank(entries, entry.client, entry.request);
    let after = with_entry(entries, entry);
    rank_is_place(entries, entry.client, entry.request);
    assert forall|i: int, j: int| 0 <= i < j < after.len() implies key_before(
        (#[trigger] after[i]).client,
        after[i].request,
        (#[trigger] after[j]).client,
        after[j].request,
    ) by {
        let shift = after.len() - entries.len();
        let si = if i < place {
            i
        } else {
            i - shift
        };
        let sj = if j < place {
            j
        } else {
            j - shift
        };
        if i != place && j != place {
            assert(after[i] == entries[si] && after[j] == entries[sj]);
        } else if i == place {
            assert(after[j] == entries[sj]);
            assert(!key_before(
                entries[sj].client,
                entries[sj].request,
                entry.client,
                entry.request,
            ));
            if shift == 0 {
                assert(key_before(
                    entries[place].client,
                    entries[place].request,
                    entries[sj].client,
                    entries[sj].request,
                ));
            } else if entries[sj].is_for(entry.client, entry.request) {
                entry_stands_at_rank(entries, sj, entry.client, entry.request);
            }
        } else {
            assert(after[i] == entries[si]);
        }
    }
    entry_stands_at_rank(after, place, entry.client, entry.request);
}

proof fn client_entries_insert(
    entries: Seq<OutstandingView>,
    place: int,
    entry: OutstandingView,
    client: u128,
)
    requires
        0 <= place <= entries.len(),
    ensures
        client_entries(entries.insert(place, entry), client) == client_entries(entries, client)
            + if entry.client == client {
            1nat
        } else {
            0
        },
    decreases entries.len(),
{
    let longer = entries.insert(place, entry);
    if place == entries.len() {
        assert(longer.drop_last() =~= entries);
    } else {
        client_entries_insert(entries.drop_last(), place, entry, client);
        assert(longer.drop_last() =~= entries.drop_last().insert(place, entry));
    }
}

/// Adding an entry raises its own client's count by at most one and leaves every
/// other client's count alone.
pub proof fn insert_counts_one_client(
    entries: Seq<OutstandingView>,
    entry: OutstandingView,
    client: u128,
)
    requires
        in_key_order(entries),
    ensures
        client != entry.client ==> client_entries(with_entry(entries, entry), client)
            == client_entries(entries, client),
        client_entries(with_entry(entries, entry), client) <= client_entries(entries, client) + 1,
        !holds(entries, entry.client, entry.request) ==> client_entries(
            with_entry(entries, entry),
            entry.client,
        ) == client_entries(entries, entry.client) + 1,
{
    let place = rank(entries, entry.client, entry.request);
    rank_is_place(entries, entry.client, entry.request);
    if place < entries.len() && entries[place].is_for(entry.client, entry.request) {
        let rest = entries.remove(place);
        client_entries_insert(rest, place, entries[place], client);
        client_entries_insert(rest, place, entry, client);
        assert(rest.insert(place, entries[place]) =~= entries);
        assert(rest.insert(place, entry) =~= entries.update(place, entry));
    } else {
        client_entries_insert(entries, place, entry, client);
        client_entries_insert(entries, place, entry, entry.client);
    }
}

/// Dropping an outstanding request frees exactly one of its client's slots and
/// none of anyone else's, and the request is gone.
pub proof fn release_frees_one_slot(
    entries: Seq<OutstandingView>,
    client: u128,
    request: u64,
    other: u128,
)
    requires
        in_key_order(entries),
        holds(entries, client, request),
    ensures
        client_entries(without_entry(entries, client, request), client) + 1 == client_entries(
            entries,
            client,
        ),
        other != client ==> client_entries(without_entry(entries, client, request), other)
            == client_entries(entries, other),
        without_entry(entries, client, request).len() + 1 == entries.len(),
        !holds(without_entry(entries, client, request), client, request),
{
    let place = rank(entries, client, request);
    rank_is_place(entries, client, request);
    let rest = entries.remove(place);
    assert(rest.insert(place, entries[place]) =~= entries);
    client_entries_insert(rest, place, entries[place], client);
    client_entries_insert(rest, place, entries[place], other);
    if holds(rest, client, request) {
        let i = choose|i: int| 0 <= i < rest.len() && (#[trigger] rest[i]).is_for(client, request);
        let j = if i < place {
            i
        } else {
            i + 1
        };
        assert(rest[i] == entries[j]);
        assert(j < place ==> key_before(
            entries[j].client,
            entries[j].request,
            entries[place].client,
            entries[place].request,
        ));
        assert(place < j ==> key_before(
            entries[place].client,
            entries[place].request,
            entries[j].client,
            entries[j].request,
        ));
    }
}

/// A resend reuses the retained message verbatim: only the target, the attempt's
/// tick and the attempt count of an entry change, so the request keeps its id,
/// its place in the order and its expected reply.
pub proof fn resends_keep_the_request(
    entries: Seq<OutstandingView>,
    now: u64,
    timeout: u64,
    replica_count: u8,
    client: u128,
)
    ensures
        after_resends(entries, now, timeout, replica_count).len() == entries.len(),
        forall|i: int|
            0 <= i < entries.len() ==> {
                let after = #[trigger] after_resends(entries, now, timeout, replica_count)[i];
                &&& after.is_for(entries[i].client, entries[i].request)
                &&& after.message == entries[i].message
                &&& after.in_flight == entries[i].in_flight
            },
        in_key_order(entries) ==> in_key_order(
            after_resends(entries, now, timeout, replica_count),
        ),
        client_entries(after_resends(entries, now, timeout, replica_count), client)
            == client_entries(entries, client),
    decreases entries.len(),
{
    let after = after_resends(entries, now, timeout, replica_count);
    if in_key_order(entries) {
        assert forall|i: int, j: int| 0 <= i < j < after.len() implies key_before(
            (#[trigger] after[i]).client,
            after[i].request,
            (#[trigger] after[j]).client,
            after[j].request,
        ) by {
            assert(key_before(
                entries[i].client,
                entries[i].request,
                entries[j].client,
                entries[j].request,
            ));
        }
    }
    if entries.len() > 0 {
        resends_keep_the_request(entries.drop_last(), now, timeout, replica_count, client);
        assert(after.drop_last() =~= after_resends(
            entries.drop_last(),
            now,
            timeout,
            replica_count,
        ));
    }
}

/// A resend raises the attempts of an overdue request by exactly one and moves it
/// to the next replica, and leaves every other request as it is: a request's
/// attempts are one more than its resends.
pub proof fn resend_raises_attempts_by_one(
    entries: Seq<OutstandingView>,
    now: u64,
    timeout: u64,
    replica_count: u8,
    index: int,
)
    requires
        replica_count > 0,
        0 <= index < entries.len(),
        entries[index].attempts < u32::MAX,
    ensures
        ({
            let before = entries[index];
            let after = after_resends(entries, now, timeout, replica_count)[index];
            if before.overdue(now, timeout) {
                &&& after.attempts == before.attempts + 1
                &&& after.attempted_tick == now
                &&& after.target == (before.target + 1) % (replica_count as int)
            } else {
                after == before
            }
        }),
{
    vstd::arithmetic::div_mod::lemma_mod_bound(entries[index].target + 1, replica_count as int);
}

/// Within one tick a request is resent at most once: right after the overdue
/// entries were resent, nothing is overdue.
pub proof fn nothing_is_overdue_twice(
    entries: Seq<OutstandingView>,
    now: u64,
    timeout: u64,
    replica_count: u8,
)
    requires
        timeout > 0,
    ensures
        resend_list(after_resends(entries, now, timeout, replica_count), now, timeout, replica_count)
            == Seq::<(u8, MessageView)>::empty(),
    decreases entries.len(),
{
    if entries.len() > 0 {
        nothing_is_overdue_twice(entries.drop_last(), now, timeout, replica_count);
        assert(after_resends(entries, now, timeout, replica_count).drop_last() =~= after_resends(
            entries.drop_last(),
            now,
            timeout,
            replica_count,
        ));
    }
}

/// A request sent at the current tick is not resent, so a driver whose clock
/// stands still never resends.
pub proof fn fresh_requests_are_not_resent(
    entries: Seq<OutstandingView>,
    now: u64,
    timeout: u64,
    replica_count: u8,
)
    requires
        timeout > 0,
        forall|i: int| 0 <= i < entries.len() ==> (#[trigger] entries[i]).attempted_tick == now,
    ensures
        resend_list(entries, now, timeout, replica_count) == Seq::<(u8, MessageView)>::empty(),
        after_resends(entries, now, timeout, replica_count) == entries,
    decreases entries.len(),
{
    assert(after_resends(entries, now, timeout, replica_count) =~= entries);
    if entries.len() > 0 {
        fresh_requests_are_not_resent(entries.drop_last(), now, timeout, replica_count);
    }
}

/// The replica that `resends` consecutive resends lead to.
pub open spec fn target_after(target: u8, resends: nat, replica_count: u8) -> u8
    decreases resends,
{
    if resends == 0 {
        target
    } else {
        ((target_after(target, (resends - 1) as nat, replica_count) + 1) % (
        replica_count as int)) as u8
    }
}

/// A client that keeps resending reaches every replica within one round: from any
/// target, some number of resends up to the number of replicas leads to the
/// wanted one.
pub proof fn resends_reach_every_replica(
    target: u8,
    wanted: u8,
    replica_count: u8,
) -> (resends: nat)
    requires
        target < replica_count,
        wanted < replica_count,
    ensures
        1 <= resends <= replica_count,
        target_after(target, resends, replica_count) == wanted,
{
    let resends = if wanted > target {
        (wanted - target) as nat
    } else {
        (wanted + replica_count - target) as nat
    };
    rotation_closed_form(target, resends, replica_count);
    let sum = (target + resends) as int;
    if sum >= replica_count {
        vstd::arithmetic::div_mod::lemma_mod_add_multiples_vanish(
            sum - replica_count,
            replica_count as int,
        );
        vstd::arithmetic::div_mod::lemma_small_mod(
            (sum - replica_count) as nat,
            replica_count as nat,
        );
    } else {
        vstd::arithmetic::div_mod::lemma_small_mod(sum as nat, replica_count as nat);
    }
    resends
}

proof fn rotation_closed_form(target: u8, resends: nat, replica_count: u8)
    requires
        target < replica_count,
    ensures
        target_after(target, resends, replica_count) == (target + resends) % (replica_count as int),
    decreases resends,
{
    if resends == 0 {
        vstd::arithmetic::div_mod::lemma_small_mod(target as nat, replica_count as nat);
    } else {
        rotation_closed_form(target, (resends - 1) as nat, replica_count);
        vstd::arithmetic::div_mod::lemma_add_mod_noop(
            target + resends - 1,
            1,
            replica_count as int,
        );
        let before = (target + resends - 1) % (replica_count as int);
        vstd::arithmetic::div_mod::lemma_mod_bound(target + resends - 1, replica_count as int);
        vstd::arithmetic::div_mod::lemma_add_mod_noop(before, 1, replica_count as int);
        vstd::arithmetic::div_mod::lemma_mod_bound(target + resends, replica_count as int);
        vstd::arithmetic::div_mod::lemma_mod_twice(target + resends - 1, replica_count as int);
    }
}

/// Requests are ordered by client, and a client's by request number: any two
/// different pairs are ordered one way.
pub proof fn requests_order_by_client_then_number(
    left_client: u128,
    left_request: u64,
    right_client: u128,
    right_request: u64,
)
    ensures
        left_client < right_client ==> key_before(
            left_client,
            left_request,
            right_client,
            right_request,
        ),
        left_client == right_client ==> (key_before(
            left_client,
            left_request,
            right_client,
            right_request,
        ) <==> left_request < right_request),
        left_client > right_client ==> !key_before(
            left_client,
            left_request,
            right_client,
            right_request,
        ),
{
}

/// A request is outstanding exactly if an entry carries its client and number, and
/// in an ordered buffer that entry is the one looked up.
pub proof fn lookup_finds_the_entry(
    entries: Seq<OutstandingView>,
    client: u128,
    request: u64,
    place: int,
)
    requires
        in_key_order(entries),
        0 <= place < entries.len(),
        entries[place].client == client,
        entries[place].request == request,
    ensures
        holds(entries, client, request),
        entry_for(entries, client, request) == entries[place],
{
    assert(entries[place].is_for(client, request));
    entry_stands_at_rank(entries, place, client, request);
}

/// What no entry carries is not outstanding.
pub proof fn lookup_misses_what_is_not_there(
    entries: Seq<OutstandingView>,
    client: u128,
    request: u64,
)
    requires
        forall|i: int|
            0 <= i < entries.len() ==> (#[trigger] entries[i]).client != client
                || entries[i].request != request,
    ensures
        !holds(entries, client, request),
{
}

/// Adding a request leaves every other request as it was.
pub proof fn insertion_keeps_other_requests(
    entries: Seq<OutstandingView>,
    entry: OutstandingView,
    client: u128,
    request: u64,
)
    requires
        in_key_order(entries),
        client != entry.client || request != entry.request,
    ensures
        holds(with_entry(entries, entry), client, request) == holds(entries, client, request),
        holds(entries, client, request) ==> entry_for(
            with_entry(entries, entry),
            client,
            request,
        ) == entry_for(entries, client, request),
{
    let place = rank(entries, entry.client, entry.request);
    let after = with_entry(entries, entry);
    rank_is_place(entries, entry.client, entry.request);
    rank_is_place(entries, client, request);
    inserted_entry_is_found(entries, entry);
    rank_is_place(after, client, request);
    let grown = after.len() - entries.len();
    if holds(entries, client, request) {
        let i = rank(entries, client, request);
        let j = if i < place {
            i
        } else {
            i + grown
        };
        assert(after[j] == entries[i]);
        lookup_finds_the_entry(after, client, request, j);
    } else if holds(after, client, request) {
        let j = rank(after, client, request);
        let i = if j < place {
            j
        } else {
            j - grown
        };
        assert(after[j].is_for(client, request));
        assert(after[j] == entries[i]);
    }
}

/// Taking a request out leaves every other request as it was.
pub proof fn removal_keeps_other_requests(
    entries: Seq<OutstandingView>,
    taken_client: u128,
    taken_request: u64,
    client: u128,
    request: u64,
)
    requires
        in_key_order(entries),
        client != taken_client || request != taken_request,
    ensures
        in_key_order(without_entry(entries, taken_client, taken_request)),
        holds(without_entry(entries, taken_client, taken_request), client, request) == holds(
            entries,
            client,
            request,
        ),
        holds(entries, client, request) ==> entry_for(
            without_entry(entries, taken_client, taken_request),
            client,
            request,
        ) == entry_for(entries, client, request),
{
    let after = without_entry(entries, taken_client, taken_request);
    if holds(entries, taken_client, taken_request) {
        let place = rank(entries, taken_client, taken_request);
        rank_is_place(entries, taken_client, taken_request);
        rank_is_place(entries, client, request);
        assert forall|i: int, j: int| 0 <= i < j < after.len() implies key_before(
            (#[trigger] after[i]).client,
            after[i].request,
            (#[trigger] after[j]).client,
            after[j].request,
        ) by {
            let si = if i < place {
                i
            } else {
                i + 1
            };
            let sj = if j < place {
                j
            } else {
                j + 1
            };
            assert(after[i] == entries[si]);
            assert(after[j] == entries[sj]);
        }
        rank_is_place(after, client, request);
        if holds(entries, client, request) {
            let i = rank(entries, client, request);
            let j = if i < place {
                i
            } else {
                i - 1
            };
            assert(after[j] == entries[i]);
            lookup_finds_the_entry(after, client, request, j);
        } else if holds(after, client, request) {
            let j = rank(after, client, request);
            let i = if j < place {
                j
            } else {
                j + 1
            };
            assert(after[j] == entries[i]);
            assert(entries[i].is_for(client, request));
        }
    }
}

/// A client's entries are counted one by one.
pub proof fn client_entries_add_up(
    left: Seq<OutstandingView>,
    right: Seq<OutstandingView>,
    entry: OutstandingView,
    client: u128,
)
    ensures
        client_entries(left + right, client) == client_entries(left, client) + client_entries(
            right,
            client,
        ),
        client_entries(seq![entry], client) == if entry.client == client {
            1nat
        } else {
            0
        },
        client_entries(Seq::empty(), client) == 0,
    decreases right.len(),
{
    reveal_with_fuel(client_entries, 2);
    assert(seq![entry].drop_last() =~= Seq::empty());
    if right.len() == 0 {
        assert(left + right =~= left);
    } else {
        client_entries_add_up(left, right.drop_last(), entry, client);
        assert((left + right).drop_last() =~= left + right.drop_last());
    }
}

/// A request is resent exactly when its timeout has passed since its last attempt:
/// then to the next replica, dated now, one attempt more, its message and
/// expectation as they were. Before that it is left alone.
pub proof fn resends_follow_the_timeout(
    entries: Seq<OutstandingView>,
    now: u64,
    timeout: u64,
    replica_count: u8,
    index: int,
)
    requires
        replica_count > 0,
        0 <= index < entries.len(),
        entries[index].attempts < u32::MAX,
    ensures
        ({
            let before = entries[index];
            let after = after_resends(entries, now, timeout, replica_count)[index];
            if before.attempted_tick + timeout <= now {
                &&& after.client == before.client
                &&& after.request == before.request
                &&& after.message == before.message
                &&& after.in_flight == before.in_flight
                &&& after.target == (before.target + 1) % (replica_count as int)
                &&& after.target < replica_count
                &&& after.attempted_tick == now
                &&& after.attempts == before.attempts + 1
            } else {
                after == before
            }
        }),
        after_resends(entries, now, timeout, replica_count).len() == entries.len(),
{
    vstd::arithmetic::div_mod::lemma_mod_bound(entries[index].target + 1, replica_count as int);
}

/// What is resent is, entry by entry and in order, the retained message of each
/// overdue request, to the replica after its last.
pub proof fn resend_list_is_entry_by_entry(
    left: Seq<OutstandingView>,
    right: Seq<OutstandingView>,
    entry: OutstandingView,
    now: u64,
    timeout: u64,
    replica_count: u8,
)
    requires
        replica_count > 0,
    ensures
        resend_list(left + right, now, timeout, replica_count) == resend_list(
            left,
            now,
            timeout,
            replica_count,
        ) + resend_list(right, now, timeout, replica_count),
        entry.attempted_tick + timeout <= now ==> resend_list(
            seq![entry],
            now,
            timeout,
            replica_count,
        ) == seq![(((entry.target + 1) % (replica_count as int)) as u8, entry.message)],
        entry.attempted_tick + timeout > now ==> resend_list(
            seq![entry],
            now,
            timeout,
            replica_count,
        ) == Seq::<(u8, MessageView)>::empty(),
    decreases right.len(),
{
    reveal_with_fuel(resend_list, 2);
    assert(seq![entry].drop_last() =~= Seq::empty());
    assert(Seq::<(u8, MessageView)>::empty().push(
        (((entry.target + 1) % (replica_count as int)) as u8, entry.message),
    ) =~= seq![(((entry.target + 1) % (replica_count as int)) as u8, entry.message)]);
    if right.len() == 0 {
        assert(left + right =~= left);
        assert(resend_list(left, now, timeout, replica_count) + resend_list(
            right,
            now,
            timeout,
            replica_count,
        ) =~= resend_list(left, now, timeout, replica_count));
    } else {
        resend_list_is_entry_by_entry(
            left,
            right.drop_last(),
            entry,
            now,
            timeout,
            replica_count,
        );
        assert((left + right).drop_last() =~= left + right.drop_last());
        assert(resend_list(left + right, now, timeout, replica_count) =~= resend_list(
            left,
            now,
            timeout,
            replica_count,
        ) + resend_list(right, now, timeout, replica_count));
    }
}

/// A retained message is known in full: client, number, group and every byte.
pub proof fn messages_are_known_in_full(left: RequestMessage, right: RequestMessage)
    ensures
        left@ == right@ <==> left.client == right.client && left.request == right.request
            && left.group == right.group && left.bytes@ == right.bytes@,
{
}

/// An outstanding request is known in full.
pub proof fn entries_are_known_in_full(entry: Outstanding)
    ensures
        entry@.client == entry.client,
        entry@.request == entry.request,
        entry@.message == entry.message@,
        entry@.target == entry.target,
        entry@.attempted_tick == entry.attempted_tick,
        entry@.attempts == entry.attempts,
        entry@.in_flight == entry.in_flight,
{
}

} // verus!
