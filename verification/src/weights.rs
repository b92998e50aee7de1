//! Sampling weights over the server commands.

use crate::action::{Action, ACTION_COUNT};
use vstd::arithmetic::div_mod::lemma_fundamental_div_mod;
use vstd::arithmetic::mul::lemma_mul_is_distributive_add;
use vstd::prelude::*;

verus! {

/// Sum of a list of weights.
pub open spec fn weight_total(weights: Seq<u8>) -> int
    decreases weights.len(),
{
    if weights.len() == 0 {
        0
    } else {
        weight_total(weights.drop_last()) + weights.last()
    }
}

/// Sum of the weights of a list of entries.
pub open spec fn entry_total(entries: Seq<(Action, u8)>) -> int
    decreases entries.len(),
{
    if entries.len() == 0 {
        0
    } else {
        entry_total(entries.drop_last()) + entries.last().1
    }
}

/// The weight that a list of entries gives an action: the listed one, or 0.
pub open spec fn listed_weight(entries: Seq<(Action, u8)>, action: Action) -> u8
    decreases entries.len(),
{
    if entries.len() == 0 {
        0
    } else if entries.last().0 == action {
        entries.last().1
    } else {
        listed_weight(entries.drop_last(), action)
    }
}

/// No action is listed twice.
pub open spec fn distinct_actions(entries: Seq<(Action, u8)>) -> bool {
    forall|i: int, j: int|
        0 <= i < j < entries.len() ==> #[trigger] entries[i].0 != #[trigger] entries[j].0
}

/// The share of 100 points that position `ordinal` of `count` gets in an even
/// spread: the quotient, and one extra point while the remainder lasts.
pub open spec fn even_share(count: int, ordinal: int) -> int {
    100int / count + if ordinal < 100int % count {
        1int
    } else {
        0
    }
}

/// Sum of the shares of the first `upto` positions of an even spread.
pub open spec fn even_share_total(count: int, upto: int) -> int
    decreases upto,
{
    if upto <= 0 {
        0
    } else {
        even_share_total(count, upto - 1) + even_share(count, upto - 1)
    }
}

/// Position whose cumulative bucket a draw falls into: the first one, from
/// `start` on, whose weight exceeds what is left of the draw.
pub open spec fn bucket(weights: Seq<u8>, start: int, draw: int) -> int
    decreases weights.len() - start,
{
    if start >= weights.len() || draw < weights[start] {
        start
    } else {
        bucket(weights, start + 1, draw - weights[start])
    }
}

/// Weight of an action in the partition-plane preset.
pub open spec fn partition_share(action: Action) -> u8 {
    match action {
        Action::SendMessages => 60u8,
        Action::StoreConsumerOffset2 => 25,
        Action::DeleteConsumerOffset2 => 5,
        Action::StoreConsumerOffset => 7,
        Action::DeleteConsumerOffset => 3,
        _ => 0,
    }
}

/// Weight of an action in the metadata-plane preset.
pub open spec fn metadata_share(action: Action) -> u8 {
    match action {
        Action::CreateStream => 12u8,
        Action::UpdateStream => 6,
        Action::DeleteStream => 6,
        Action::PurgeStream => 4,
        Action::CreateTopic => 12,
        Action::UpdateTopic => 6,
        Action::DeleteTopic => 6,
        Action::PurgeTopic => 4,
        Action::CreatePartitions => 6,
        Action::DeletePartitions => 4,
        Action::CreateConsumerGroup => 6,
        Action::DeleteConsumerGroup => 4,
        Action::CreateUser => 6,
        Action::UpdateUser => 3,
        Action::DeleteUser => 3,
        Action::ChangePassword => 3,
        Action::UpdatePermissions => 3,
        Action::CreatePersonalAccessToken => 3,
        Action::DeletePersonalAccessToken => 3,
        _ => 0,
    }
}

/// Weight of an action in the mixed preset.
pub open spec fn mixed_share(action: Action) -> u8 {
    match action {
        Action::CreateStream => 5u8,
        Action::SendMessages => 70,
        Action::StoreConsumerOffset2 => 25,
        _ => 0,
    }
}

/// Sum of the weights below a position: where its bucket of draws begins.
pub open spec fn bucket_start(weights: Seq<u8>, position: int) -> int {
    weight_total(weights.take(position))
}

/// Per-action sampling weights as percentages. Unlisted variants default to 0
/// (never picked). Listed weights sum to 100.
#[derive(Debug, Clone, Copy)]
pub struct ActionWeights {
    weights: [u8; ACTION_COUNT],
}

impl View for ActionWeights {
    type V = Seq<u8>;

    /// The weights in the actions' declaration order.
    closed spec fn view(&self) -> Seq<u8> {
        self.weights@
    }
}

impl ActionWeights {
    /// Weights over all actions that sum to 100.
    #[verifier::type_invariant]
    pub open spec fn wf(self) -> bool {
        &&& self@.len() == ACTION_COUNT
        &&& weight_total(self@) == 100
    }

    /// Weight of one action.
    pub open spec fn of(self, action: Action) -> u8 {
        self@[action.ordinal()]
    }

    /// The action whose bucket a draw below 100 falls into.
    pub open spec fn picked(self, draw: u32) -> Action {
        Action::at(bucket(self@, 0, draw as int))
    }

    /// The weights listed in `entries`, which name no action twice and sum to
    /// 100. Missing actions weigh 0.
    pub fn new(entries: &[(Action, u8)]) -> (result: Self)
        requires
            distinct_actions(entries@),
            entry_total(entries@) == 100,
        ensures
            result.wf(),
            forall|action: Action| #[trigger]
                result.of(action) == listed_weight(entries@, action),
    {
        let mut weights: [u8; ACTION_COUNT] = [0; ACTION_COUNT];
        proof {
            zero_weights_total(weights@);
        }
        let mut i: usize = 0;
        assert(entries@.take(0) =~= Seq::empty());
        while i < entries.len()
            invariant
                i <= entries.len(),
                distinct_actions(entries@),
                weights@.len() == ACTION_COUNT,
                weight_total(weights@) == entry_total(entries@.take(i as int)),
                forall|action: Action|
                    #![trigger action.ordinal()]
                    weights@[action.ordinal()] == listed_weight(entries@.take(i as int), action),
            decreases entries.len() - i,
        {
            let (action, weight) = entries[i];
            let index: usize = action.index();
            let ghost before = weights@;
            proof {
                let shorter = entries@.take(i as int);
                let longer = entries@.take(i + 1);
                assert(longer.drop_last() =~= shorter);
                unlisted_weight_is_zero(shorter, action);
                weight_total_update(before, action.ordinal(), weight);
            }
            weights[index] = weight;
            proof {
                assert(weights@ =~= before.update(action.ordinal(), weight));
                assert forall|other: Action|
                    #![trigger other.ordinal()]
                    weights@[other.ordinal()] == listed_weight(
                        entries@.take(i + 1),
                        other,
                    ) by {
                    assert(entries@.take(i + 1).drop_last() =~= entries@.take(i as int));
                    if other != action {
                        ordinal_is_injective(other, action);
                    }
                }
            }
            i = i + 1;
        }
        assert(entries@.take(i as int) =~= entries@);
        ActionWeights { weights }
    }

    /// Partition plane only: writes plus consumer-offset traffic, no metadata
    /// mutation. The regime that drains and converges most readily.
    pub fn partition_only() -> (result: Self)
        ensures
            result.wf(),
            forall|action: Action| #[trigger]
                result.of(action) == partition_share(action),
    {
        let entries: [(Action, u8); 5] = [
            (Action::SendMessages, 60),
            (Action::StoreConsumerOffset2, 25),
            (Action::DeleteConsumerOffset2, 5),
            (Action::StoreConsumerOffset, 7),
            (Action::DeleteConsumerOffset, 3),
        ];
        proof {
            reveal_with_fuel(entry_total, 6);
            reveal_with_fuel(listed_weight, 6);
        }
        Self::new(&entries)
    }

    /// Metadata plane only: every replicated metadata mutation, weighted so
    /// creates outrun deletes. `DeleteSegments` is excluded: it resolves against
    /// partition state, so it belongs to a mixed run.
    pub fn metadata_only() -> (result: Self)
        ensures
            result.wf(),
            forall|action: Action| #[trigger]
                result.of(action) == metadata_share(action),
    {
        let entries: [(Action, u8); 19] = [
            (Action::CreateStream, 12),
            (Action::UpdateStream, 6),
            (Action::DeleteStream, 6),
            (Action::PurgeStream, 4),
            (Action::CreateTopic, 12),
            (Action::UpdateTopic, 6),
            (Action::DeleteTopic, 6),
            (Action::PurgeTopic, 4),
            (Action::CreatePartitions, 6),
            (Action::DeletePartitions, 4),
            (Action::CreateConsumerGroup, 6),
            (Action::DeleteConsumerGroup, 4),
            (Action::CreateUser, 6),
            (Action::UpdateUser, 3),
            (Action::DeleteUser, 3),
            (Action::ChangePassword, 3),
            (Action::UpdatePermissions, 3),
            (Action::CreatePersonalAccessToken, 3),
            (Action::DeletePersonalAccessToken, 3),
        ];
        proof {
            reveal_with_fuel(entry_total, 20);
            reveal_with_fuel(listed_weight, 20);
        }
        Self::new(&entries)
    }

    /// Every action equally likely. Widest op coverage per tick, at the cost of
    /// a shallow population per entity kind.
    ///
    /// The number of actions does not divide 100, so the first `100 % ACTION_COUNT`
    /// actions carry one extra point. Spread that way, appending an action never
    /// breaks this preset.
    pub fn uniform() -> (result: Self)
        ensures
            result.wf(),
            forall|action: Action| #[trigger]
                result.of(action) == even_share(ACTION_COUNT as int, action.ordinal()),
    {
        let count: u8 = ACTION_COUNT as u8;
        let base: u8 = 100 / count;
        let remainder: u8 = 100 % count;
        let mut entries: Vec<(Action, u8)> = Vec::new();
        let mut index: usize = 0;
        while index < ACTION_COUNT
            invariant
                index <= ACTION_COUNT,
                base == 100int / (ACTION_COUNT as int),
                remainder == 100int % (ACTION_COUNT as int),
                entries@.len() == index,
                forall|i: int|
                    0 <= i < index ==> #[trigger] entries@[i] == (
                        Action::at(i),
                        even_share(ACTION_COUNT as int, i) as u8,
                    ),
                entry_total(entries@) == even_share_total(ACTION_COUNT as int, index as int),
            decreases ACTION_COUNT - index,
        {
            let extra: u8 = if index < remainder as usize {
                1
            } else {
                0
            };
            let ghost before = entries@;
            entries.push((Action::from_index(index), base + extra));
            assert(entries@.drop_last() =~= before);
            index = index + 1;
        }
        proof {
            even_shares_sum_to_hundred(ACTION_COUNT as int);
            assert forall|action: Action|
                #![trigger action.ordinal()]
                listed_weight(entries@, action) == even_share(
                    ACTION_COUNT as int,
                    action.ordinal(),
                ) by {
                listed_weight_in_order(entries@, action);
            }
        }
        Self::new(entries.as_slice())
    }

    /// Weight of one action, in percent.
    pub fn weight(&self, action: Action) -> (weight: u8)
        ensures
            weight == self.of(action),
            weight <= 100,
    {
        proof {
            use_type_invariant(self);
            weight_within_total(self@, action.ordinal());
        }
        self.weights[action.index()]
    }

    /// The action whose bucket the draw falls into, walking the actions in
    /// declaration order.
    pub fn pick(&self, draw: u32) -> (action: Action)
        requires
            draw < 100,
        ensures
            action == self.picked(draw),
    {
        proof {
            use_type_invariant(self);
            weight_total_skip(self@, 0);
            assert(self@.skip(0) =~= self@);
        }
        let mut left: u32 = draw;
        let mut index: usize = 0;
        while self.weights[index] as u32 <= left
            invariant
                index < ACTION_COUNT,
                self@.len() == ACTION_COUNT,
                self@ == self.weights@,
                left < weight_total(self@.skip(index as int)),
                bucket(self@, 0, draw as int) == bucket(self@, index as int, left as int),
            decreases ACTION_COUNT - index,
        {
            proof {
                weight_total_skip(self@, index as int);
                if index == ACTION_COUNT - 1 {
                    assert(self@.skip(index + 1) =~= Seq::<u8>::empty());
                }
            }
            left = left - self.weights[index] as u32;
            index = index + 1;
        }
        Action::from_index(index)
    }
}

impl Default for ActionWeights {
    /// Stream creates over a write-heavy base.
    fn default() -> (result: Self)
        ensures
            result.wf(),
            forall|action: Action| #[trigger]
                result.of(action) == mixed_share(action),
    {
        let entries: [(Action, u8); 3] = [
            (Action::CreateStream, 5),
            (Action::SendMessages, 70),
            (Action::StoreConsumerOffset2, 25),
        ];
        proof {
            reveal_with_fuel(entry_total, 4);
            reveal_with_fuel(listed_weight, 4);
        }
        Self::new(&entries)
    }
}

/// Which plane the sampled commands target. Each names a weight preset.
#[derive(Debug, Clone, Copy, PartialEq, Eq, Structural)]
pub enum Plane {
    /// Writes and consumer offsets only.
    Partition,
    /// Replicated metadata mutations only.
    Metadata,
    /// Stream creates over a write-heavy base.
    Mixed,
    /// Every action equally likely.
    Uniform,
}

impl Plane {
    /// Weight of an action in the plane's preset.
    pub open spec fn share(self, action: Action) -> int {
        match self {
            Plane::Partition => partition_share(action) as int,
            Plane::Metadata => metadata_share(action) as int,
            Plane::Mixed => mixed_share(action) as int,
            Plane::Uniform => even_share(ACTION_COUNT as int, action.ordinal()),
        }
    }

    /// The weight preset of the plane.
    pub fn weights(self) -> (result: ActionWeights)
        ensures
            result.wf(),
            forall|action: Action| #[trigger] result.of(action) == self.share(action),
    {
        match self {
            Plane::Partition => ActionWeights::partition_only(),
            Plane::Metadata => ActionWeights::metadata_only(),
            Plane::Mixed => ActionWeights::default(),
            Plane::Uniform => ActionWeights::uniform(),
        }
    }
}

proof fn ordinal_is_injective(left: Action, right: Action)
    requires
        left != right,
    ensures
        left.ordinal() != right.ordinal(),
{
    crate::action::action_order_is_bijective(left, left.ordinal());
    crate::action::action_order_is_bijective(right, right.ordinal());
}

proof fn zero_weights_total(weights: Seq<u8>)
    requires
        forall|i: int| 0 <= i < weights.len() ==> weights[i] == 0,
    ensures
        weight_total(weights) == 0,
    decreases weights.len(),
{
    if weights.len() > 0 {
        zero_weights_total(weights.drop_last());
    }
}

proof fn weight_total_update(weights: Seq<u8>, index: int, weight: u8)
    requires
        0 <= index < weights.len(),
    ensures
        weight_total(weights.update(index, weight)) == weight_total(weights) - weights[index]
            + weight,
    decreases weights.len(),
{
    let updated = weights.update(index, weight);
    if index == weights.len() - 1 {
        assert(updated.drop_last() =~= weights.drop_last());
    } else {
        assert(updated.drop_last() =~= weights.drop_last().update(index, weight));
        weight_total_update(weights.drop_last(), index, weight);
    }
}

proof fn weight_total_nonnegative(weights: Seq<u8>)
    ensures
        weight_total(weights) >= 0,
    decreases weights.len(),
{
    if weights.len() > 0 {
        weight_total_nonnegative(weights.drop_last());
    }
}

proof fn weight_within_total(weights: Seq<u8>, index: int)
    requires
        0 <= index < weights.len(),
    ensures
        weights[index] <= weight_total(weights),
    decreases weights.len(),
{
    weight_total_nonnegative(weights.drop_last());
    if index < weights.len() - 1 {
        weight_within_total(weights.drop_last(), index);
    }
}

proof fn weight_total_skip(weights: Seq<u8>, start: int)
    requires
        0 <= start < weights.len(),
    ensures
        weight_total(weights.skip(start)) == weights[start] + weight_total(
            weights.skip(start + 1),
        ),
    decreases weights.len(),
{
    let tail = weights.skip(start);
    if start == weights.len() - 1 {
        assert(tail.drop_last() =~= Seq::empty());
        assert(weights.skip(start + 1) =~= Seq::empty());
    } else {
        let shorter = weights.drop_last();
        weight_total_skip(shorter, start);
        assert(tail.drop_last() =~= shorter.skip(start));
        assert(weights.skip(start + 1).drop_last() =~= shorter.skip(start + 1));
    }
}

proof fn bucket_bounds(weights: Seq<u8>, start: int, draw: int)
    requires
        0 <= start <= weights.len(),
        0 <= draw,
        bucket_start(weights, start) + draw < weight_total(weights),
    ensures
        start <= bucket(weights, start, draw) < weights.len(),
        bucket_start(weights, bucket(weights, start, draw)) <= bucket_start(weights, start) + draw
            < bucket_start(weights, bucket(weights, start, draw) + 1),
    decreases weights.len() - start,
{
    assert(weights.take(weights.len() as int) =~= weights);
    if start < weights.len() {
        assert(weights.take(start + 1).drop_last() =~= weights.take(start));
        if draw >= weights[start] {
            bucket_bounds(weights, start + 1, draw - weights[start]);
        }
    }
}

proof fn bucket_start_monotone(weights: Seq<u8>, low: int, high: int)
    requires
        0 <= low <= high <= weights.len(),
    ensures
        bucket_start(weights, low) <= bucket_start(weights, high),
    decreases high - low,
{
    if low < high {
        assert(weights.take(high).drop_last() =~= weights.take(high - 1));
        bucket_start_monotone(weights, low, high - 1);
    }
}

/// Weights are percentages: of the 100 possible draws, exactly as many pick an
/// action as its weight says, and they are consecutive.
pub proof fn draws_per_action_match_weight(weights: ActionWeights, action: Action, draw: u32)
    requires
        weights.wf(),
        draw < 100,
    ensures
        weights.picked(draw) == action <==> bucket_start(weights@, action.ordinal()) <= draw
            < bucket_start(weights@, action.ordinal()) + weights.of(action),
{
    let k = bucket(weights@, 0, draw as int);
    let o = action.ordinal();
    assert(weights@.take(0) =~= Seq::empty());
    bucket_bounds(weights@, 0, draw as int);
    crate::action::action_order_is_bijective(action, k);
    assert(weights@.take(o + 1).drop_last() =~= weights@.take(o));
    if k < o {
        bucket_start_monotone(weights@, k + 1, o);
    } else if o < k {
        bucket_start_monotone(weights@, o + 1, k);
    }
}

/// An action of weight 0 is never picked.
pub proof fn zero_weight_is_never_picked(weights: ActionWeights, draw: u32)
    requires
        weights.wf(),
        draw < 100,
    ensures
        weights.of(weights.picked(draw)) > 0,
{
    draws_per_action_match_weight(weights, weights.picked(draw), draw);
}

proof fn unlisted_weight_is_zero(entries: Seq<(Action, u8)>, action: Action)
    requires
        forall|i: int| 0 <= i < entries.len() ==> #[trigger] entries[i].0 != action,
    ensures
        listed_weight(entries, action) == 0,
    decreases entries.len(),
{
    if entries.len() > 0 {
        unlisted_weight_is_zero(entries.drop_last(), action);
    }
}

proof fn listed_weight_in_order(entries: Seq<(Action, u8)>, action: Action)
    requires
        entries.len() <= ACTION_COUNT,
        forall|i: int| 0 <= i < entries.len() ==> #[trigger] entries[i].0 == Action::at(i),
    ensures
        action.ordinal() < entries.len() ==> listed_weight(entries, action)
            == entries[action.ordinal()].1,
    decreases entries.len(),
{
    if entries.len() > 0 {
        let last = entries.len() - 1;
        crate::action::action_order_is_bijective(action, last);
        listed_weight_in_order(entries.drop_last(), action);
    }
}

proof fn even_shares_closed_form(count: int, upto: int)
    requires
        count > 0,
        0 <= upto,
    ensures
        even_share_total(count, upto) == (100int / count) * upto + if upto < 100int % count {
            upto
        } else {
            100int % count
        },
    decreases upto,
{
    if upto > 0 {
        even_shares_closed_form(count, upto - 1);
        lemma_mul_is_distributive_add(100int / count, upto - 1, 1);
    } else {
        assert((100int / count) * 0 == 0) by (nonlinear_arith);
        vstd::arithmetic::div_mod::lemma_mod_bound(100, count);
    }
}

/// However many actions there are, the even spread hands out exactly 100
/// points, so adding an action never breaks the uniform preset.
pub proof fn even_shares_sum_to_hundred(count: int)
    requires
        count > 0,
    ensures
        even_share_total(count, count) == 100,
        forall|ordinal: int|
            0 <= ordinal ==> 0 <= #[trigger] even_share(count, ordinal) <= 100,
{
    even_shares_closed_form(count, count);
    lemma_fundamental_div_mod(100, count);
    vstd::arithmetic::div_mod::lemma_mod_bound(100, count);
    assert(count * (100int / count) == (100int / count) * count) by (nonlinear_arith);
    assert(0 <= 100int / count <= 100 && (100int % count > 0 ==> 100int / count < 100)) by (nonlinear_arith)
        requires
            count > 0,
            100 == count * (100int / count) + 100int % count,
            0 <= 100int % count < count,
    ;
}

proof fn listed_weight_of_entry(entries: Seq<(Action, u8)>, place: int)
    requires
        distinct_actions(entries),
        0 <= place < entries.len(),
    ensures
        listed_weight(entries, entries[place].0) == entries[place].1,
    decreases entries.len(),
{
    if place < entries.len() - 1 {
        assert(entries[place].0 != entries[entries.len() - 1].0);
        listed_weight_of_entry(entries.drop_last(), place);
    }
}

/// A list of entries gives each listed action its listed weight and every other
/// action none.
pub proof fn entries_give_their_weights(entries: Seq<(Action, u8)>, action: Action)
    requires
        distinct_actions(entries),
    ensures
        forall|i: int|
            0 <= i < entries.len() && (#[trigger] entries[i]).0 == action ==> listed_weight(
                entries,
                action,
            ) == entries[i].1,
        (forall|i: int| 0 <= i < entries.len() ==> (#[trigger] entries[i]).0 != action)
            ==> listed_weight(entries, action) == 0,
{
    assert forall|i: int|
        0 <= i < entries.len() && (#[trigger] entries[i]).0 == action implies listed_weight(
        entries,
        action,
    ) == entries[i].1 by {
        listed_weight_of_entry(entries, i);
    }
    if forall|i: int| 0 <= i < entries.len() ==> (#[trigger] entries[i]).0 != action {
        unlisted_weight_is_zero(entries, action);
    }
}

/// Totals add up: over two stretches of weights, and over single ones.
pub proof fn weights_add_up(left: Seq<u8>, right: Seq<u8>, weight: u8)
    ensures
        weight_total(left + right) == weight_total(left) + weight_total(right),
        weight_total(seq![weight]) == weight,
        weight_total(Seq::empty()) == 0,
    decreases right.len(),
{
    reveal_with_fuel(weight_total, 2);
    assert(seq![weight].drop_last() =~= Seq::empty());
    if right.len() == 0 {
        assert(left + right =~= left);
    } else {
        weights_add_up(left, right.drop_last(), weight);
        assert((left + right).drop_last() =~= left + right.drop_last());
    }
}

/// Totals of entries add up the same way.
pub proof fn entries_add_up(left: Seq<(Action, u8)>, right: Seq<(Action, u8)>, entry: (Action, u8))
    ensures
        entry_total(left + right) == entry_total(left) + entry_total(right),
        entry_total(seq![entry]) == entry.1,
        entry_total(Seq::empty()) == 0,
    decreases right.len(),
{
    reveal_with_fuel(entry_total, 2);
    assert(seq![entry].drop_last() =~= Seq::empty());
    if right.len() == 0 {
        assert(left + right =~= left);
    } else {
        entries_add_up(left, right.drop_last(), entry);
        assert((left + right).drop_last() =~= left + right.drop_last());
    }
}

/// Draws pick in declaration order: a higher draw never picks an earlier action,
/// and every action that weighs something is picked by some draw.
pub proof fn draws_pick_in_declaration_order(weights: ActionWeights, low: u32, high: u32)
    requires
        weights.wf(),
        low <= high < 100,
    ensures
        weights.picked(low).ordinal() <= weights.picked(high).ordinal(),
{
    let first = weights.picked(low);
    let second = weights.picked(high);
    draws_per_action_match_weight(weights, first, low);
    draws_per_action_match_weight(weights, second, high);
    if second.ordinal() < first.ordinal() {
        let o = second.ordinal();
        assert(weights@.take(o + 1).drop_last() =~= weights@.take(o));
        bucket_start_monotone(weights@, o + 1, first.ordinal());
    }
}

/// The draws of an action start where those of the actions before it end.
pub proof fn draws_of_an_action_are_consecutive(weights: ActionWeights, action: Action, offset: int)
    requires
        weights.wf(),
        0 <= offset < weights@[action.ordinal()],
    ensures
        ({
            let draw = weight_total(weights@.take(action.ordinal())) + offset;
            &&& 0 <= draw < 100
            &&& weights.picked(draw as u32) == action
        }),
{
    let o = action.ordinal();
    assert(weights@.take(o + 1).drop_last() =~= weights@.take(o));
    weight_total_nonnegative(weights@.take(o));
    bucket_start_monotone(weights@, o + 1, weights@.len() as int);
    assert(weights@.take(weights@.len() as int) =~= weights@);
    let draw = weight_total(weights@.take(o)) + offset;
    draws_per_action_match_weight(weights, action, draw as u32);
}

/// The even spread is fair: no two shares differ by more than one point, and an
/// earlier position never gets less than a later one.
pub proof fn even_spread_is_fair(count: int, earlier: int, later: int)
    requires
        count > 0,
        0 <= earlier < later < count,
    ensures
        even_share(count, later) <= even_share(count, earlier) <= even_share(count, later) + 1,
        even_share_total(count, earlier + 1) - even_share_total(count, earlier) == even_share(
            count,
            earlier,
        ),
{
}

/// The two planes do not overlap: no command of the partition preset is one of the
/// metadata preset, and `DeleteSegments` is in neither.
pub proof fn planes_do_not_overlap(action: Action)
    ensures
        partition_share(action) == 0 || metadata_share(action) == 0,
        partition_share(Action::DeleteSegments) == 0,
        metadata_share(Action::DeleteSegments) == 0,
        metadata_share(Action::CreateStream) > metadata_share(Action::DeleteStream),
        metadata_share(Action::CreateTopic) > metadata_share(Action::DeleteTopic),
        metadata_share(Action::CreateUser) > metadata_share(Action::DeleteUser),
        Plane::Partition.share(action) == partition_share(action),
        Plane::Metadata.share(action) == metadata_share(action),
        Plane::Mixed.share(action) == mixed_share(action),
        Plane::Uniform.share(action) == 3 || Plane::Uniform.share(action) == 4,
{
}

} // verus!
