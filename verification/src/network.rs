//! Network fault profiles.

use vstd::prelude::*;

verus! {

/// A probability, as the bits of a double-precision number: the network's own
/// representation, handed through unchanged.
#[derive(Debug, Clone, Copy, PartialEq, Eq, Structural)]
pub struct Probability {
    pub bits: u64,
}

/// Bits of the double nearest to 0.002.
pub const TWO_PER_MILLE: u64 = 0x3F60_624D_D2F1_A9FC;

/// Bits of the double nearest to 0.005.
pub const FIVE_PER_MILLE: u64 = 0x3F74_7AE1_47AE_147B;

/// Bits of the double nearest to 0.01.
pub const ONE_PERCENT: u64 = 0x3F84_7AE1_47AE_147B;

/// Bits of the double nearest to 0.02.
pub const TWO_PERCENT: u64 = 0x3F94_7AE1_47AE_147B;

/// Bits of the double nearest to 0.03.
pub const THREE_PERCENT: u64 = 0x3F9E_B851_EB85_1EB8;

/// Bits of the double nearest to 0.05.
pub const FIVE_PERCENT: u64 = 0x3FA9_9999_9999_999A;

/// Bits of the double nearest to 0.10.
pub const TEN_PERCENT: u64 = 0x3FB9_9999_9999_999A;

/// How an automatic partition picks its sides.
#[derive(Debug, Clone, Copy, PartialEq, Eq, Structural)]
pub enum PartitionMode {
    /// No automatic partitions.
    Disabled,
    UniformSize,
    UniformPartition,
    IsolateSingle,
}

/// Whether a partition blocks both directions or just one.
#[derive(Debug, Clone, Copy, PartialEq, Eq, Structural)]
pub enum PartitionSymmetry {
    Symmetric,
    Asymmetric,
}

/// Knobs of the simulated network.
#[derive(Debug, Clone, Copy, PartialEq, Eq, Structural)]
pub struct PacketSimulatorOptions {
    pub node_count: u8,
    pub client_count: u8,
    pub seed: u64,
    /// Chance a packet is dropped at delivery time.
    pub packet_loss_probability: Probability,
    /// Chance a packet is duplicated at delivery time.
    pub replay_probability: Probability,
    /// Minimum one-way delay, in ticks.
    pub one_way_delay_min: u64,
    /// Mean one-way delay, in ticks.
    pub one_way_delay_mean: u64,
    /// Maximum packets queued on a single link; beyond it the link drops.
    pub link_capacity: u8,
    pub partition_mode: PartitionMode,
    pub partition_symmetry: PartitionSymmetry,
    /// Per-tick chance a partition forms while connectivity is whole.
    pub partition_probability: Probability,
    /// Per-tick chance a standing partition heals.
    pub unpartition_probability: Probability,
    /// Minimum ticks a partition lasts once formed.
    pub partition_stability: u32,
    /// Minimum ticks of whole connectivity before another partition may form.
    pub unpartition_stability: u32,
    /// Per-tick chance any one path clogs (stops delivering, keeps queueing).
    pub path_clog_probability: Probability,
    /// Mean clog duration, in ticks.
    pub path_clog_duration_mean: u64,
}

/// Named network fault profile: one choice for how hostile the network is.
///
/// Progress falls off steeply with severity, because every lost frame costs a
/// resend timeout. All three still drain and converge; budget ticks accordingly
/// rather than reading a low reply count as a stall.
#[derive(Debug, Clone, Copy, PartialEq, Eq, Structural)]
pub enum Faults {
    /// Perfect network. Delays only, no loss and no partitions.
    Perfect,
    /// Occasional loss, duplication and short one-sided partitions. Meant to stay
    /// inside the range where a healthy cluster still drains.
    Light,
    /// Frequent loss, long partitions and clogged paths. Expected to stall
    /// progress for stretches; use with a generous tick budget.
    Heavy,
}

impl Faults {
    /// The profile over the network's default knobs.
    pub open spec fn profile(self, default: PacketSimulatorOptions) -> PacketSimulatorOptions {
        match self {
            Faults::Perfect => default,
            Faults::Light => PacketSimulatorOptions {
                packet_loss_probability: Probability { bits: TWO_PERCENT },
                replay_probability: Probability { bits: ONE_PERCENT },
                partition_probability: Probability { bits: FIVE_PER_MILLE },
                unpartition_probability: Probability { bits: FIVE_PERCENT },
                partition_stability: 20,
                unpartition_stability: 40,
                partition_mode: PartitionMode::IsolateSingle,
                partition_symmetry: PartitionSymmetry::Asymmetric,
                path_clog_probability: Probability { bits: TWO_PER_MILLE },
                path_clog_duration_mean: 10,
                ..default
            },
            Faults::Heavy => PacketSimulatorOptions {
                packet_loss_probability: Probability { bits: TEN_PERCENT },
                replay_probability: Probability { bits: THREE_PERCENT },
                one_way_delay_mean: 8,
                partition_probability: Probability { bits: TWO_PERCENT },
                unpartition_probability: Probability { bits: TWO_PERCENT },
                partition_stability: 50,
                unpartition_stability: 50,
                partition_mode: PartitionMode::UniformSize,
                partition_symmetry: PartitionSymmetry::Asymmetric,
                path_clog_probability: Probability { bits: ONE_PERCENT },
                path_clog_duration_mean: 25,
                ..default
            },
        }
    }

    /// Base network options for this profile, over the network's default knobs.
    /// The cluster shape and the seed are filled by the caller.
    pub fn options(self, default: PacketSimulatorOptions) -> (options: PacketSimulatorOptions)
        ensures
            options == self.profile(default),
    {
        match self {
            Faults::Perfect => default,
            Faults::Light => PacketSimulatorOptions {
                packet_loss_probability: Probability { bits: TWO_PERCENT },
                replay_probability: Probability { bits: ONE_PERCENT },
                partition_probability: Probability { bits: FIVE_PER_MILLE },
                unpartition_probability: Probability { bits: FIVE_PERCENT },
                partition_stability: 20,
                unpartition_stability: 40,
                partition_mode: PartitionMode::IsolateSingle,
                partition_symmetry: PartitionSymmetry::Asymmetric,
                path_clog_probability: Probability { bits: TWO_PER_MILLE },
                path_clog_duration_mean: 10,
                ..default
            },
            Faults::Heavy => PacketSimulatorOptions {
                packet_loss_probability: Probability { bits: TEN_PERCENT },
                replay_probability: Probability { bits: THREE_PERCENT },
                one_way_delay_mean: 8,
                partition_probability: Probability { bits: TWO_PERCENT },
                unpartition_probability: Probability { bits: TWO_PERCENT },
                partition_stability: 50,
                unpartition_stability: 50,
                partition_mode: PartitionMode::UniformSize,
                partition_symmetry: PartitionSymmetry::Asymmetric,
                path_clog_probability: Probability { bits: ONE_PERCENT },
                path_clog_duration_mean: 25,
                ..default
            },
        }
    }
}

/// Individually set network knobs, each overriding one field of a profile.
#[derive(Debug, Clone, Copy, PartialEq, Eq, Structural)]
pub struct NetworkOverrides {
    pub packet_loss: Option<Probability>,
    pub replay: Option<Probability>,
    pub one_way_delay_min: Option<u64>,
    pub one_way_delay_mean: Option<u64>,
    pub link_capacity: Option<u8>,
    pub partition_mode: Option<PartitionMode>,
    pub partition_symmetry: Option<PartitionSymmetry>,
    pub partition_prob: Option<Probability>,
    pub unpartition_prob: Option<Probability>,
    pub partition_stability: Option<u32>,
    pub unpartition_stability: Option<u32>,
    pub clog_prob: Option<Probability>,
    pub clog_duration_mean: Option<u64>,
}

/// The override where one is set, else the profile's value.
pub open spec fn chosen<T>(set: Option<T>, profile: T) -> T {
    match set {
        Some(value) => value,
        None => profile,
    }
}

impl NetworkOverrides {
    /// Nothing is overridden.
    pub open spec fn is_blank(self) -> bool {
        &&& self.packet_loss is None
        &&& self.replay is None
        &&& self.one_way_delay_min is None
        &&& self.one_way_delay_mean is None
        &&& self.link_capacity is None
        &&& self.partition_mode is None
        &&& self.partition_symmetry is None
        &&& self.partition_prob is None
        &&& self.unpartition_prob is None
        &&& self.partition_stability is None
        &&& self.unpartition_stability is None
        &&& self.clog_prob is None
        &&& self.clog_duration_mean is None
    }

    /// The knobs of a network of the given shape and seed.
    pub open spec fn over(
        self,
        profile: PacketSimulatorOptions,
        replicas: u8,
        clients: u8,
        seed: u64,
    ) -> PacketSimulatorOptions {
        PacketSimulatorOptions {
            node_count: replicas,
            client_count: clients,
            seed,
            packet_loss_probability: chosen(self.packet_loss, profile.packet_loss_probability),
            replay_probability: chosen(self.replay, profile.replay_probability),
            one_way_delay_min: chosen(self.one_way_delay_min, profile.one_way_delay_min),
            one_way_delay_mean: chosen(self.one_way_delay_mean, profile.one_way_delay_mean),
            link_capacity: chosen(self.link_capacity, profile.link_capacity),
            partition_mode: chosen(self.partition_mode, profile.partition_mode),
            partition_symmetry: chosen(self.partition_symmetry, profile.partition_symmetry),
            partition_probability: chosen(self.partition_prob, profile.partition_probability),
            unpartition_probability: chosen(
                self.unpartition_prob,
                profile.unpartition_probability,
            ),
            partition_stability: chosen(self.partition_stability, profile.partition_stability),
            unpartition_stability: chosen(
                self.unpartition_stability,
                profile.unpartition_stability,
            ),
            path_clog_probability: chosen(self.clog_prob, profile.path_clog_probability),
            path_clog_duration_mean: chosen(
                self.clog_duration_mean,
                profile.path_clog_duration_mean,
            ),
        }
    }
}

/// The chosen fault profile with any individually set knob applied over it, plus
/// the cluster shape and seed.
pub fn network_options(
    faults: Faults,
    overrides: &NetworkOverrides,
    default: PacketSimulatorOptions,
    replicas: u8,
    clients: u8,
    seed: u64,
) -> (options: PacketSimulatorOptions)
    ensures
        options == overrides.over(faults.profile(default), replicas, clients, seed),
{
    let mut options = faults.options(default);
    options.node_count = replicas;
    options.client_count = clients;
    options.seed = seed;
    if let Some(value) = overrides.packet_loss {
        options.packet_loss_probability = value;
    }
    if let Some(value) = overrides.replay {
        options.replay_probability = value;
    }
    if let Some(value) = overrides.one_way_delay_min {
        options.one_way_delay_min = value;
    }
    if let Some(value) = overrides.one_way_delay_mean {
        options.one_way_delay_mean = value;
    }
    if let Some(value) = overrides.link_capacity {
        options.link_capacity = value;
    }
    if let Some(value) = overrides.partition_mode {
        options.partition_mode = value;
    }
    if let Some(value) = overrides.partition_symmetry {
        options.partition_symmetry = value;
    }
    if let Some(value) = overrides.partition_prob {
        options.partition_probability = value;
    }
    if let Some(value) = overrides.unpartition_prob {
        options.unpartition_probability = value;
    }
    if let Some(value) = overrides.partition_stability {
        options.partition_stability = value;
    }
    if let Some(value) = overrides.unpartition_stability {
        options.unpartition_stability = value;
    }
    if let Some(value) = overrides.clog_prob {
        options.path_clog_probability = value;
    }
    if let Some(value) = overrides.clog_duration_mean {
        options.path_clog_duration_mean = value;
    }
    options
}

/// Without overrides the network is the profile's, apart from shape and seed.
pub proof fn profile_stands_without_overrides(
    overrides: NetworkOverrides,
    profile: PacketSimulatorOptions,
    replicas: u8,
    clients: u8,
    seed: u64,
)
    requires
        overrides.is_blank(),
    ensures
        overrides.over(profile, replicas, clients, seed) == (PacketSimulatorOptions {
            node_count: replicas,
            client_count: clients,
            seed,
            ..profile
        }),
{
}

/// A profile leaves the cluster shape, the seed, the least delay and the link
/// capacity to the defaults; the perfect one leaves everything, and only the heavy
/// one slows packets down.
pub proof fn profiles_leave_the_shape_alone(faults: Faults, default: PacketSimulatorOptions)
    ensures
        faults.profile(default).node_count == default.node_count,
        faults.profile(default).client_count == default.client_count,
        faults.profile(default).seed == default.seed,
        faults.profile(default).one_way_delay_min == default.one_way_delay_min,
        faults.profile(default).link_capacity == default.link_capacity,
        faults == Faults::Perfect ==> faults.profile(default) == default,
        faults != Faults::Heavy ==> faults.profile(default).one_way_delay_mean
            == default.one_way_delay_mean,
        faults == Faults::Heavy ==> faults.profile(default).one_way_delay_mean == 8,
{
}

/// The heavy profile is worse than the light one in every respect, whatever the
/// defaults: more loss, duplication, partitions and clogs, longer clogs and
/// partitions, slower healing, wider sides. (Positive doubles order as their bits
/// do.)
pub proof fn heavy_faults_are_worse_than_light(
    light_default: PacketSimulatorOptions,
    heavy_default: PacketSimulatorOptions,
)
    ensures
        ({
            let light = Faults::Light.profile(light_default);
            let heavy = Faults::Heavy.profile(heavy_default);
            &&& light.packet_loss_probability.bits < heavy.packet_loss_probability.bits
            &&& light.replay_probability.bits < heavy.replay_probability.bits
            &&& light.partition_probability.bits < heavy.partition_probability.bits
            &&& light.unpartition_probability.bits > heavy.unpartition_probability.bits
            &&& light.path_clog_probability.bits < heavy.path_clog_probability.bits
            &&& light.path_clog_duration_mean < heavy.path_clog_duration_mean
            &&& light.partition_stability < heavy.partition_stability
            &&& light.unpartition_stability < heavy.unpartition_stability
            &&& light.replay_probability.bits < light.packet_loss_probability.bits
            &&& heavy.replay_probability.bits < heavy.packet_loss_probability.bits
            &&& heavy.partition_probability == heavy.unpartition_probability
            &&& heavy.partition_stability == heavy.unpartition_stability
            &&& light.unpartition_stability == 2 * light.partition_stability
            &&& 5 * light.partition_stability == 2 * heavy.partition_stability
            &&& 5 * light.path_clog_duration_mean == 2 * heavy.path_clog_duration_mean
            &&& light.packet_loss_probability == heavy.partition_probability
            &&& light.replay_probability == heavy.path_clog_probability
            &&& light.path_clog_probability.bits < light.partition_probability.bits
            &&& light.partition_mode == PartitionMode::IsolateSingle
            &&& heavy.partition_mode == PartitionMode::UniformSize
            &&& light.partition_symmetry == PartitionSymmetry::Asymmetric
            &&& heavy.partition_symmetry == PartitionSymmetry::Asymmetric
        }),
{
}

/// A set knob decides its own field, whatever the profile; a knob that is not set
/// leaves the field to the profile; shape and seed are the caller's.
pub proof fn overrides_decide_their_own_field(
    overrides: NetworkOverrides,
    profile: PacketSimulatorOptions,
    replicas: u8,
    clients: u8,
    seed: u64,
)
    ensures
        ({
            let options = overrides.over(profile, replicas, clients, seed);
            &&& options.node_count == replicas
            &&& options.client_count == clients
            &&& options.seed == seed
            &&& overrides.packet_loss matches Some(value) ==> options.packet_loss_probability
                == value
            &&& overrides.packet_loss is None ==> options.packet_loss_probability
                == profile.packet_loss_probability
            &&& overrides.replay matches Some(value) ==> options.replay_probability == value
            &&& overrides.replay is None ==> options.replay_probability
                == profile.replay_probability
            &&& overrides.one_way_delay_min matches Some(value) ==> options.one_way_delay_min
                == value
            &&& overrides.one_way_delay_min is None ==> options.one_way_delay_min
                == profile.one_way_delay_min
            &&& overrides.one_way_delay_mean matches Some(value) ==> options.one_way_delay_mean
                == value
            &&& overrides.one_way_delay_mean is None ==> options.one_way_delay_mean
                == profile.one_way_delay_mean
            &&& overrides.link_capacity matches Some(value) ==> options.link_capacity == value
            &&& overrides.link_capacity is None ==> options.link_capacity == profile.link_capacity
            &&& overrides.partition_mode matches Some(value) ==> options.partition_mode == value
            &&& overrides.partition_mode is None ==> options.partition_mode
                == profile.partition_mode
            &&& overrides.partition_symmetry matches Some(value) ==> options.partition_symmetry
                == value
            &&& overrides.partition_symmetry is None ==> options.partition_symmetry
                == profile.partition_symmetry
            &&& overrides.partition_prob matches Some(value) ==> options.partition_probability
                == value
            &&& overrides.partition_prob is None ==> options.partition_probability
                == profile.partition_probability
            &&& overrides.unpartition_prob matches Some(value) ==> options.unpartition_probability
                == value
            &&& overrides.unpartition_prob is None ==> options.unpartition_probability
                == profile.unpartition_probability
            &&& overrides.partition_stability matches Some(value) ==> options.partition_stability
                == value
            &&& overrides.partition_stability is None ==> options.partition_stability
                == profile.partition_stability
            &&& overrides.unpartition_stability matches Some(value)
                ==> options.unpartition_stability == value
            &&& overrides.unpartition_stability is None ==> options.unpartition_stability
                == profile.unpartition_stability
            &&& overrides.clog_prob matches Some(value) ==> options.path_clog_probability == value
            &&& overrides.clog_prob is None ==> options.path_clog_probability
                == profile.path_clog_probability
            &&& overrides.clog_duration_mean matches Some(value)
                ==> options.path_clog_duration_mean == value
            &&& overrides.clog_duration_mean is None ==> options.path_clog_duration_mean
                == profile.path_clog_duration_mean
        }),
{
}

} // verus!
