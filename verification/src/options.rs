//! Knobs of a workload run.

use crate::action::Action;
use crate::cluster::IggyNamespace;
use crate::weights::{mixed_share, ActionWeights};
use vstd::prelude::*;

verus! {

/// Default [`WorkloadOptions::request_timeout_ticks`].
///
/// Four times the primary's commit-broadcast interval (50 ticks, see
/// [`crate::driver::QUIESCE_SETTLE_TICKS`]), so a request whose commit is merely
/// waiting on the next broadcast is never resent, while one lost to a dropped
/// packet or a crashed primary is retried long before the run's budget runs out.
pub const DEFAULT_REQUEST_TIMEOUT_TICKS: u64 = 200;

/// Default [`WorkloadOptions::crash_stability_ticks`]. Long enough that the
/// surviving primary commits past the crashed replica's log, so its rejoin has
/// something to repair.
pub const DEFAULT_CRASH_STABILITY_TICKS: u64 = 300;

/// Default [`WorkloadOptions::restart_stability_ticks`].
///
/// Long enough for a rejoined replica to finish catching up before it becomes a
/// crash candidate again, so a run does not consist entirely of half-repaired
/// replicas.
pub const DEFAULT_RESTART_STABILITY_TICKS: u64 = 500;

/// Number of parts in the ratio 1. A single-precision fraction drawn uniformly
/// from `[0, 1)` is a multiple of one such part.
pub const RATIO_ONE: u32 = 16_777_216;

/// A probability, counted in parts of [`RATIO_ONE`].
///
/// A roll is the upper 24 bits of a 32-bit generator output; it falls under the
/// ratio when it is below `parts`. A fraction `p` of `[0, 1]` corresponds to the
/// least number of parts that is not below `p * RATIO_ONE`: a roll read as a
/// fraction is below `p` exactly when it is below that number.
#[derive(Debug, Clone, Copy, PartialEq, Eq, Structural)]
pub struct Ratio {
    pub parts: u32,
}

impl Ratio {
    /// The generator output rolls under the ratio.
    pub open spec fn covers(self, word: u32) -> bool {
        (word as int) / 256 < self.parts
    }

    /// Whether the generator output rolls under the ratio.
    pub fn hit(self, word: u32) -> (hit: bool)
        ensures
            hit == self.covers(word),
    {
        word / 256 < self.parts
    }
}

/// A ratio of 0 is never rolled under, a ratio of 1 always is, and raising a
/// ratio only adds rolls.
pub proof fn ratio_is_a_probability(low: Ratio, high: Ratio, word: u32)
    requires
        low.parts <= high.parts,
    ensures
        low.parts == 0 ==> !low.covers(word),
        high.parts >= RATIO_ONE ==> high.covers(word),
        low.covers(word) ==> high.covers(word),
{
}

/// Workload generator knobs. The same `seed` reproduces the same action and
/// payload sequence bit for bit.
#[derive(Debug, Clone)]
pub struct WorkloadOptions {
    pub seed: u64,
    pub replica_count: u8,
    /// Number of clients driven. The generator itself is client-agnostic and
    /// tracks in-flight state per client id.
    pub client_count: u8,
    /// Namespaces whose partition groups exist before the run.
    pub namespaces: Vec<IggyNamespace>,
    pub weights: ActionWeights,
    /// Send-batch size is `batch_size_min` plus a draw below `batch_size_span`.
    pub batch_size_min: u32,
    pub batch_size_span: u32,
    /// Probability a `StoreConsumerOffset2` request asks for a quorum.
    pub ack_quorum_ratio: Ratio,
    /// Probability a request targets a non-primary replica (exercises the
    /// redirect / forward path).
    pub target_non_primary_ratio: Ratio,
    /// Probability that a request is intentionally constructed to fail
    /// validation. Currently unused; reserved.
    pub invalid_request_ratio: Ratio,
    /// Distinct consumer ids round-robined in `StoreConsumerOffset2`.
    pub consumer_pool_size: u32,
    /// Upper bound on the offset carried by `StoreConsumerOffset2`.
    pub max_offset: u64,
    /// Probability per tick that the driver crashes one eligible replica. A zero
    /// ratio disables injection entirely: the fault generator draws nothing.
    pub crash_per_tick_ratio: Ratio,
    /// Probability per tick that the driver restarts one crashed replica.
    /// Meaningless without `crash_per_tick_ratio`, since nothing is ever down.
    pub restart_per_tick_ratio: Ratio,
    /// Ticks a replica must stay down before it may be restarted. Keeps a crash
    /// long enough to actually matter: a replica restarted the tick after it
    /// crashed never falls behind, so nothing needs repairing.
    pub crash_stability_ticks: u64,
    /// Ticks a replica must stay up before it may be crashed again. Stops a
    /// single unlucky replica from being crash-looped while its peers never
    /// fail.
    pub restart_stability_ticks: u64,
    /// Leave the primary of every tracked namespace out of the crash pool.
    ///
    /// Setting this to `false` puts a view change under live traffic.
    pub spare_primary: bool,
    /// Floor on live replicas the driver will not crash below, preserving a
    /// commit quorum. Defaults to `replica_count / 2 + 1`.
    pub min_survivors: u8,
    /// Ticks a request may stay outstanding before the client resends it.
    ///
    /// Must clear the primary's commit-broadcast interval with room to spare,
    /// and stay well under the tick budget. `0` disables resending.
    pub request_timeout_ticks: u64,
}

impl WorkloadOptions {
    /// The default knobs for a seed, a cluster size and a set of namespaces.
    pub fn new(seed: u64, replica_count: u8, namespaces: Vec<IggyNamespace>) -> (result: Self)
        ensures
            result.seed == seed,
            result.replica_count == replica_count,
            result.client_count == 1,
            result.namespaces == namespaces,
            result.weights.wf(),
            forall|action: Action| #[trigger] result.weights.of(action) == mixed_share(action),
            result.batch_size_min == 1,
            result.batch_size_span == 4,
            result.ack_quorum_ratio.parts == RATIO_ONE / 2,
            result.target_non_primary_ratio.parts == 0,
            result.invalid_request_ratio.parts == 0,
            result.consumer_pool_size == 4,
            result.max_offset == 1_000_000,
            result.crash_per_tick_ratio.parts == 0,
            result.restart_per_tick_ratio.parts == 0,
            result.crash_stability_ticks == DEFAULT_CRASH_STABILITY_TICKS,
            result.restart_stability_ticks == DEFAULT_RESTART_STABILITY_TICKS,
            result.spare_primary,
            result.min_survivors == replica_count / 2 + 1,
            result.request_timeout_ticks == DEFAULT_REQUEST_TIMEOUT_TICKS,
            result.has_defaults(seed, replica_count),
    {
        WorkloadOptions {
            seed,
            replica_count,
            client_count: 1,
            namespaces,
            weights: ActionWeights::default(),
            batch_size_min: 1,
            batch_size_span: 4,
            ack_quorum_ratio: Ratio { parts: RATIO_ONE / 2 },
            target_non_primary_ratio: Ratio { parts: 0 },
            invalid_request_ratio: Ratio { parts: 0 },
            consumer_pool_size: 4,
            max_offset: 1_000_000,
            crash_per_tick_ratio: Ratio { parts: 0 },
            restart_per_tick_ratio: Ratio { parts: 0 },
            crash_stability_ticks: DEFAULT_CRASH_STABILITY_TICKS,
            restart_stability_ticks: DEFAULT_RESTART_STABILITY_TICKS,
            spare_primary: true,
            min_survivors: replica_count / 2 + 1,
            request_timeout_ticks: DEFAULT_REQUEST_TIMEOUT_TICKS,
        }
    }

    /// The knobs that are not given are the defaults.
    pub open spec fn has_defaults(self, seed: u64, replica_count: u8) -> bool {
        &&& self.seed == seed
        &&& self.replica_count == replica_count
        &&& self.client_count == 1
        &&& forall|action: Action| #[trigger] self.weights.of(action) == mixed_share(action)
        &&& self.batch_size_min == 1
        &&& self.batch_size_span == 4
        &&& self.ack_quorum_ratio.parts == RATIO_ONE / 2
        &&& self.target_non_primary_ratio.parts == 0
        &&& self.invalid_request_ratio.parts == 0
        &&& self.consumer_pool_size == 4
        &&& self.max_offset == 1_000_000
        &&& self.crash_per_tick_ratio.parts == 0
        &&& self.restart_per_tick_ratio.parts == 0
        &&& self.crash_stability_ticks == DEFAULT_CRASH_STABILITY_TICKS
        &&& self.restart_stability_ticks == DEFAULT_RESTART_STABILITY_TICKS
        &&& self.spare_primary
        &&& self.min_survivors == replica_count / 2 + 1
        &&& self.request_timeout_ticks == DEFAULT_REQUEST_TIMEOUT_TICKS
    }

    /// A request whose generator output is `word` goes to a non-primary replica.
    pub open spec fn redirects_on(self, word: u32) -> bool {
        self.target_non_primary_ratio.covers(word) && self.replica_count > 1
    }

    /// Whether a request whose generator output is `word` goes to a non-primary
    /// replica. A single-replica cluster has none.
    pub fn redirects(&self, word: u32) -> (redirects: bool)
        ensures
            redirects == self.redirects_on(word),
    {
        self.target_non_primary_ratio.hit(word) && self.replica_count > 1
    }
}

/// The default floor on survivors is a strict majority of the replicas, and any
/// two such majorities share a replica.
pub proof fn default_survivors_are_a_quorum(replica_count: u8)
    ensures
        2 * (replica_count / 2 + 1) > replica_count,
{
}

/// A ratio is a probability: of the 32-bit outputs exactly the lowest
/// `256 * parts` roll under it.
pub proof fn ratio_counts_its_rolls(ratio: Ratio, word: u32)
    ensures
        ratio.covers(word) <==> word < 256 * ratio.parts,
{
}

/// A request leaves the primary with the set probability, and never in a cluster
/// that has no other replica.
pub proof fn redirection_follows_its_ratio(options: WorkloadOptions, word: u32)
    ensures
        options.redirects_on(word) <==> options.replica_count >= 2 && word < 256
            * options.target_non_primary_ratio.parts,
{
}

/// The defaults clear the commit broadcast, which comes every 50 ticks: a request
/// waits for four of them, a crash outlasts that wait, and a restarted replica runs
/// longer than a crashed one stays down.
pub proof fn default_windows_clear_the_broadcast()
    ensures
        DEFAULT_REQUEST_TIMEOUT_TICKS == 4 * 50,
        DEFAULT_CRASH_STABILITY_TICKS == 6 * 50,
        DEFAULT_RESTART_STABILITY_TICKS == 10 * 50,
        DEFAULT_REQUEST_TIMEOUT_TICKS < DEFAULT_CRASH_STABILITY_TICKS
            < DEFAULT_RESTART_STABILITY_TICKS,
        RATIO_ONE == 65_536 * 256,
{
}

/// By default a run is serial and calm: one client, no faults, no redirection, the
/// primary spared; an offset asks for a quorum on half of all rolls; the floor on
/// survivors is the least majority; the windows are 200, 300 and 500 ticks. Nothing
/// but the seed and the replica count tells two default runs apart.
pub proof fn default_runs_are_serial_and_calm(
    options: WorkloadOptions,
    seed: u64,
    replica_count: u8,
    word: u32,
)
    requires
        options.has_defaults(seed, replica_count),
    ensures
        options.seed == seed,
        options.replica_count == replica_count,
        options.client_count == 1,
        !options.crash_per_tick_ratio.covers(word),
        !options.restart_per_tick_ratio.covers(word),
        !options.invalid_request_ratio.covers(word),
        !options.redirects_on(word),
        options.spare_primary,
        options.ack_quorum_ratio.covers(word) <==> word < 0x8000_0000,
        2 * options.min_survivors > replica_count,
        2 * (options.min_survivors - 1) <= replica_count,
        options.request_timeout_ticks == 200,
        options.crash_stability_ticks == 300,
        options.restart_stability_ticks == 500,
        options.batch_size_min + options.batch_size_span == 5,
        options.batch_size_span == 4,
        options.consumer_pool_size == 4,
        options.max_offset == 1_000_000,
        options.weights.of(Action::SendMessages) == 70,
        options.weights.of(Action::StoreConsumerOffset2) == 25,
        options.weights.of(Action::CreateStream) == 5,
{
    assert(options.weights.of(Action::SendMessages) == mixed_share(Action::SendMessages));
    assert(options.weights.of(Action::StoreConsumerOffset2) == mixed_share(
        Action::StoreConsumerOffset2,
    ));
    assert(options.weights.of(Action::CreateStream) == mixed_share(Action::CreateStream));
}

} // verus!
