//! Assignment rules for network exchange boundaries.
//!
//! The planner has two decisions to make when a query plan crosses a stage boundary:
//!
//! 1. that a boundary is needed, and how many producer and consumer tasks it has;
//! 2. which upstream task and partition each consumer-local output slot reads.
//!
//! This module makes the second decision. An [`ExchangeLayout`] is built once per boundary, and
//! the boundary then asks it to resolve every local slot into the upstream reads it stands for.
use std::ops::Range;
use std::sync::Arc;
use vstd::arithmetic::div_mod::*;
use vstd::arithmetic::mul::*;
use vstd::prelude::*;

use crate::error::{ExchangeKind, ExchangeParameter, PlanError, PlanFailure};

verus! {

/// Upstream read target for one consumer-local output slot.
#[derive(Debug, PartialEq)]
pub enum SlotReadPlan {
    /// Read the same partition from each producer task.
    Fanout { producer_tasks: Range<usize>, producer_partition: usize },
    /// Read one partition from one producer task.
    Single { producer_task: usize, producer_partition: usize },
}

/// What an exchange layout amounts to: its kind and its three counts.
///
/// `partitions` counts the slots of one consumer task for shuffle and broadcast exchanges, and
/// the partitions of one producer task for coalesce exchanges.
pub struct ExchangeShape {
    pub kind: ExchangeKind,
    pub producer_tasks: nat,
    pub consumer_tasks: nat,
    pub partitions: nat,
}

/// The first element of the `idx`-th of `groups` contiguous, balanced groups of `0..total`: the
/// remainder of the division is handed out, one element each, to the leading groups.
pub open spec fn group_start(total: nat, groups: nat, idx: nat) -> nat {
    idx * (total / groups) + if idx < total % groups {
        idx
    } else {
        total % groups
    }
}

/// The number of elements of the `idx`-th group.
pub open spec fn group_len(total: nat, groups: nat, idx: nat) -> nat {
    total / groups + if idx < total % groups {
        1nat
    } else {
        0nat
    }
}

impl ExchangeShape {
    /// Every count that a layout divides or multiplies by is positive.
    pub open spec fn valid(self) -> bool {
        &&& self.kind != ExchangeKind::Coalesce ==> self.producer_tasks > 0
        &&& self.consumer_tasks > 0
        &&& self.partitions > 0
    }

    /// The largest number of producer tasks that one consumer task of a coalesce reads.
    pub open spec fn max_input_tasks(self) -> nat {
        crate::arithmetic::ceil_div(self.producer_tasks, self.consumer_tasks)
    }

    /// The number of output slots that every consumer task advertises.
    pub open spec fn slots_per_consumer(self) -> nat {
        if self.kind == ExchangeKind::Coalesce {
            self.max_input_tasks() * self.partitions
        } else {
            self.partitions
        }
    }

    /// The number of partitions that every producer task exposes.
    pub open spec fn partitions_per_producer(self) -> nat {
        if self.kind == ExchangeKind::Coalesce {
            self.partitions
        } else {
            self.partitions * self.consumer_tasks
        }
    }

    /// Whether slot `slot` of consumer task `consumer` reads anything.
    pub open spec fn has_slot(self, consumer: nat, slot: nat) -> bool {
        if self.kind == ExchangeKind::Coalesce {
            &&& consumer < self.consumer_tasks
            &&& slot / self.partitions < group_len(self.producer_tasks, self.consumer_tasks, consumer)
        } else {
            consumer < self.consumer_tasks && slot < self.partitions
        }
    }

    /// The partition that slot `slot` of consumer task `consumer` reads from its producer tasks.
    pub open spec fn slot_partition(self, consumer: nat, slot: nat) -> nat {
        if self.kind == ExchangeKind::Coalesce {
            slot % self.partitions
        } else {
            consumer * self.partitions + slot
        }
    }

    /// The producer task that slot `slot` of consumer task `consumer` of a coalesce reads.
    pub open spec fn slot_task(self, consumer: nat, slot: nat) -> nat {
        group_start(self.producer_tasks, self.consumer_tasks, consumer) + slot / self.partitions
    }

    /// Whether slot `slot` of consumer task `consumer` reads partition `partition` of producer
    /// task `task`.
    pub open spec fn reads(self, consumer: nat, slot: nat, task: nat, partition: nat) -> bool {
        &&& self.has_slot(consumer, slot)
        &&& partition == self.slot_partition(consumer, slot)
        &&& if self.kind == ExchangeKind::Coalesce {
            task == self.slot_task(consumer, slot)
        } else {
            task < self.producer_tasks
        }
    }

    /// The read plan of a slot.
    pub open spec fn resolved(self, consumer: nat, slot: nat) -> Option<SlotReadPlan> {
        if !self.has_slot(consumer, slot) {
            None
        } else if self.kind == ExchangeKind::Coalesce {
            Some(
                SlotReadPlan::Single {
                    producer_task: self.slot_task(consumer, slot) as usize,
                    producer_partition: self.slot_partition(consumer, slot) as usize,
                },
            )
        } else {
            Some(
                SlotReadPlan::Fanout {
                    producer_tasks: Range { start: 0, end: self.producer_tasks as usize },
                    producer_partition: self.slot_partition(consumer, slot) as usize,
                },
            )
        }
    }
}

/// Consecutive groups meet, the first starts at zero and the last ends at `total`.
pub proof fn lemma_group_bounds(total: nat, groups: nat, idx: nat)
    requires
        groups > 0,
        idx < groups,
    ensures
        group_start(total, groups, 0) == 0,
        group_start(total, groups, idx + 1) == group_start(total, groups, idx) + group_len(
            total,
            groups,
            idx,
        ),
        group_start(total, groups, groups) == total,
        group_start(total, groups, idx + 1) <= total,
{
    let base = (total / groups) as int;
    let extra = (total % groups) as int;
    assert(total == groups * base + extra) by {
        lemma_fundamental_div_mod(total as int, groups as int);
    }
    assert(0 * base == 0);
    assert((idx + 1) * base == idx * base + base) by (nonlinear_arith);
    assert(0 <= extra < groups) by {
        lemma_mod_bound(total as int, groups as int);
    }
    assert((idx + 1) * base <= groups * base) by (nonlinear_arith)
        requires
            idx + 1 <= groups,
            base >= 0,
    ;
    if idx < extra {
        assert((idx + 1) * base + (idx + 1) <= groups * base + extra);
    }
}

/// Groups are ordered by their index.
pub proof fn lemma_group_order(total: nat, groups: nat, a: nat, b: nat)
    requires
        groups > 0,
        a <= b <= groups,
    ensures
        group_start(total, groups, a) <= group_start(total, groups, b),
    decreases b - a,
{
    if a < b {
        lemma_group_bounds(total, groups, (b - 1) as nat);
        lemma_group_order(total, groups, a, (b - 1) as nat);
    }
}


impl Clone for SlotReadPlan {
    fn clone(&self) -> (copy: Self)
        ensures
            copy == *self,
    {
        match self {
            SlotReadPlan::Fanout { producer_tasks, producer_partition } => SlotReadPlan::Fanout {
                producer_tasks: producer_tasks.start..producer_tasks.end,
                producer_partition: *producer_partition,
            },
            SlotReadPlan::Single { producer_task, producer_partition } => SlotReadPlan::Single {
                producer_task: *producer_task,
                producer_partition: *producer_partition,
            },
        }
    }
}

/// Splits `0..total` into `groups` contiguous ranges whose lengths differ by at most one.
pub fn split_ranges(total: usize, groups: usize) -> (ranges: Vec<Range<usize>>)
    ensures
        ranges@.len() == groups,
        forall|i: int|
            #![trigger ranges@[i]]
            0 <= i < groups ==> {
                &&& ranges@[i].start == group_start(total as nat, groups as nat, i as nat)
                &&& ranges@[i].end == group_start(total as nat, groups as nat, (i + 1) as nat)
            },
{
    let mut ranges: Vec<Range<usize>> = Vec::new();
    if groups == 0 {
        return ranges;
    }
    let base: usize = total / groups;
    let extra: usize = total % groups;
    let mut start: usize = 0;
    let mut idx: usize = 0;
    proof {
        lemma_group_bounds(total as nat, groups as nat, 0);
    }
    while idx < groups
        invariant
            groups > 0,
            idx <= groups,
            base == total / groups,
            extra == total % groups,
            start == group_start(total as nat, groups as nat, idx as nat),
            ranges@.len() == idx,
            forall|i: int|
                #![trigger ranges@[i]]
                0 <= i < idx ==> {
                    &&& ranges@[i].start == group_start(total as nat, groups as nat, i as nat)
                    &&& ranges@[i].end == group_start(total as nat, groups as nat, (i + 1) as nat)
                },
        decreases groups - idx,
    {
        proof {
            lemma_group_bounds(total as nat, groups as nat, idx as nat);
        }
        let one_more: usize = if idx < extra {
            1
        } else {
            0
        };
        let end: usize = start + (base + one_more);
        ranges.push(start..end);
        start = end;
        idx = idx + 1;
    }
    ranges
}

/// Assignment for hash repartitioned data crossing a network boundary.
#[derive(Debug, PartialEq)]
pub struct ShuffleExchangeLayout {
    producer_task_count: usize,
    consumer_task_count: usize,
    partitions_per_consumer: usize,
}

impl View for ShuffleExchangeLayout {
    type V = ExchangeShape;

    closed spec fn view(&self) -> ExchangeShape {
        ExchangeShape {
            kind: ExchangeKind::Shuffle,
            producer_tasks: self.producer_task_count as nat,
            consumer_tasks: self.consumer_task_count as nat,
            partitions: self.partitions_per_consumer as nat,
        }
    }
}

impl ShuffleExchangeLayout {
    #[verifier::type_invariant]
    spec fn positive_counts(self) -> bool {
        self@.valid()
    }

    /// Every consumer task reads from all producer tasks.
    pub fn producer_task_range(&self, _consumer_task_idx: usize) -> (range: Range<usize>)
        ensures
            range.start == 0,
            range.end == self@.producer_tasks,
    {
        0..self.producer_task_count
    }

    /// The reads that stand behind one slot, if the slot exists.
    pub fn resolve_slot(&self, consumer_task_idx: usize, local_partition_idx: usize) -> (plan:
        Option<SlotReadPlan>)
        requires
            self@.has_slot(consumer_task_idx as nat, local_partition_idx as nat)
                ==> self@.slot_partition(consumer_task_idx as nat, local_partition_idx as nat)
                <= usize::MAX,
        ensures
            plan == self@.resolved(consumer_task_idx as nat, local_partition_idx as nat),
    {
        if consumer_task_idx >= self.consumer_task_count || local_partition_idx
            >= self.partitions_per_consumer {
            return None;
        }
        proof {
            lemma_mul_nonnegative(consumer_task_idx as int, self.partitions_per_consumer as int);
        }
        Some(
            SlotReadPlan::Fanout {
                producer_tasks: self.producer_task_range(consumer_task_idx),
                producer_partition: consumer_task_idx * self.partitions_per_consumer
                    + local_partition_idx,
            },
        )
    }
}

/// Assignment for broadcast data crossing a network boundary.
#[derive(Debug, PartialEq)]
pub struct BroadcastExchangeLayout {
    producer_task_count: usize,
    consumer_task_count: usize,
    partitions_per_consumer: usize,
}

impl View for BroadcastExchangeLayout {
    type V = ExchangeShape;

    closed spec fn view(&self) -> ExchangeShape {
        ExchangeShape {
            kind: ExchangeKind::Broadcast,
            producer_tasks: self.producer_task_count as nat,
            consumer_tasks: self.consumer_task_count as nat,
            partitions: self.partitions_per_consumer as nat,
        }
    }
}

impl BroadcastExchangeLayout {
    #[verifier::type_invariant]
    spec fn positive_counts(self) -> bool {
        self@.valid()
    }

    /// Every consumer task reads from all producer tasks.
    pub fn producer_task_range(&self, _consumer_task_idx: usize) -> (range: Range<usize>)
        ensures
            range.start == 0,
            range.end == self@.producer_tasks,
    {
        0..self.producer_task_count
    }

    /// The reads that stand behind one slot, if the slot exists.
    pub fn resolve_slot(&self, consumer_task_idx: usize, local_partition_idx: usize) -> (plan:
        Option<SlotReadPlan>)
        requires
            self@.has_slot(consumer_task_idx as nat, local_partition_idx as nat)
                ==> self@.slot_partition(consumer_task_idx as nat, local_partition_idx as nat)
                <= usize::MAX,
        ensures
            plan == self@.resolved(consumer_task_idx as nat, local_partition_idx as nat),
    {
        if consumer_task_idx >= self.consumer_task_count || local_partition_idx
            >= self.partitions_per_consumer {
            return None;
        }
        proof {
            lemma_mul_nonnegative(consumer_task_idx as int, self.partitions_per_consumer as int);
        }
        Some(
            SlotReadPlan::Fanout {
                producer_tasks: self.producer_task_range(consumer_task_idx),
                producer_partition: consumer_task_idx * self.partitions_per_consumer
                    + local_partition_idx,
            },
        )
    }
}

/// Assignment for preserving partitioning while merging producer task groups.
#[derive(Debug, PartialEq)]
pub struct CoalesceExchangeLayout {
    producer_task_count: usize,
    consumer_task_count: usize,
    partitions_per_producer_task: usize,
    producer_task_ranges: Vec<Range<usize>>,
}

impl View for CoalesceExchangeLayout {
    type V = ExchangeShape;

    closed spec fn view(&self) -> ExchangeShape {
        ExchangeShape {
            kind: ExchangeKind::Coalesce,
            producer_tasks: self.producer_task_count as nat,
            consumer_tasks: self.consumer_task_count as nat,
            partitions: self.partitions_per_producer_task as nat,
        }
    }
}

impl CoalesceExchangeLayout {
    #[verifier::type_invariant]
    spec fn ranges_are_balanced_groups(self) -> bool {
        &&& self@.valid()
        &&& self.producer_task_ranges@.len() == self.consumer_task_count
        &&& forall|i: int|
            #![trigger self.producer_task_ranges@[i]]
            0 <= i < self.producer_task_ranges@.len() ==> {
                &&& self.producer_task_ranges@[i].start == group_start(
                    self.producer_task_count as nat,
                    self.consumer_task_count as nat,
                    i as nat,
                )
                &&& self.producer_task_ranges@[i].end == group_start(
                    self.producer_task_count as nat,
                    self.consumer_task_count as nat,
                    (i + 1) as nat,
                )
            }
    }

    /// The size of the largest group of producer tasks.
    pub fn max_input_task_count_per_consumer(&self) -> (count: usize)
        ensures
            count == self@.max_input_tasks(),
    {
        proof {
            use_type_invariant(self);
        }
        let ghost total = self.producer_task_count as nat;
        let ghost groups = self.consumer_task_count as nat;
        let mut count: usize = 0;
        let mut idx: usize = 0;
        while idx < self.producer_task_ranges.len()
            invariant
                self.ranges_are_balanced_groups(),
                total == self.producer_task_count,
                groups == self.consumer_task_count,
                groups > 0,
                idx <= self.producer_task_ranges@.len(),
                idx == 0 ==> count == 0,
                idx > 0 ==> count == group_len(total, groups, 0),
            decreases self.producer_task_ranges@.len() - idx,
        {
            proof {
                lemma_group_bounds(total, groups, idx as nat);
            }
            let len: usize = self.producer_task_ranges[idx].end - self.producer_task_ranges[idx].start;
            if len > count {
                count = len;
            }
            idx = idx + 1;
        }
        count
    }

    /// The number of output slots that every consumer task advertises: enough for the largest
    /// group. Consumers of smaller groups leave the slots past their group empty.
    pub fn max_partition_count_per_consumer(&self) -> (count: usize)
        requires
            self@.slots_per_consumer() <= usize::MAX,
        ensures
            count == self@.slots_per_consumer(),
    {
        self.max_input_task_count_per_consumer() * self.partitions_per_producer_task
    }

    /// The read that stands behind one slot, if the consumer's group reaches that far.
    pub fn resolve_slot(&self, consumer_task_idx: usize, local_partition_idx: usize) -> (plan:
        Option<SlotReadPlan>)
        ensures
            plan == self@.resolved(consumer_task_idx as nat, local_partition_idx as nat),
    {
        proof {
            use_type_invariant(self);
        }
        if consumer_task_idx >= self.producer_task_ranges.len() {
            return None;
        }
        let start: usize = self.producer_task_ranges[consumer_task_idx].start;
        let end: usize = self.producer_task_ranges[consumer_task_idx].end;
        let producer_task_offset: usize = local_partition_idx / self.partitions_per_producer_task;
        let producer_partition: usize = local_partition_idx % self.partitions_per_producer_task;
        proof {
            lemma_group_bounds(
                self.producer_task_count as nat,
                self.consumer_task_count as nat,
                consumer_task_idx as nat,
            );
        }
        if producer_task_offset >= end - start {
            return None;
        }
        Some(
            SlotReadPlan::Single {
                producer_task: start + producer_task_offset,
                producer_partition,
            },
        )
    }
}

/// Network exchange slot assignment for a distributed boundary.
///
/// Each exchange kind keeps its own arithmetic; [`ExchangeLayout::resolve_slot`] is the one
/// runtime entry point over all of them.
#[derive(Debug, PartialEq)]
pub enum ExchangeLayout {
    Shuffle(ShuffleExchangeLayout),
    Coalesce(CoalesceExchangeLayout),
    Broadcast(BroadcastExchangeLayout),
}

impl View for ExchangeLayout {
    type V = ExchangeShape;

    open spec fn view(&self) -> ExchangeShape {
        match self {
            ExchangeLayout::Shuffle(layout) => layout@,
            ExchangeLayout::Coalesce(layout) => layout@,
            ExchangeLayout::Broadcast(layout) => layout@,
        }
    }
}

/// The error that refuses an exchange layout: the first count, in the order of the arguments,
/// that must be positive and is not.
pub open spec fn exchange_refusal(shape: ExchangeShape) -> Option<PlanFailure> {
    let coalesce = shape.kind == ExchangeKind::Coalesce;
    if shape.producer_tasks == 0 && !coalesce {
        Some(
            PlanFailure::ZeroExchangeParameter {
                exchange: shape.kind,
                parameter: ExchangeParameter::ProducerTaskCount,
            },
        )
    } else if shape.consumer_tasks == 0 {
        Some(
            PlanFailure::ZeroExchangeParameter {
                exchange: shape.kind,
                parameter: ExchangeParameter::ConsumerTaskCount,
            },
        )
    } else if shape.partitions == 0 {
        Some(
            PlanFailure::ZeroExchangeParameter {
                exchange: shape.kind,
                parameter: if coalesce {
                    ExchangeParameter::PartitionsPerProducerTask
                } else {
                    ExchangeParameter::PartitionsPerConsumer
                },
            },
        )
    } else {
        None
    }
}

impl ExchangeLayout {
    /// Lays out a shuffle: every consumer reads its own slice of the hash partitions from all
    /// producers.
    pub fn try_shuffle(
        producer_task_count: usize,
        consumer_task_count: usize,
        partitions_per_consumer: usize,
    ) -> (layout: Result<Arc<Self>, PlanError>)
        ensures
            ({
                let shape = ExchangeShape {
                    kind: ExchangeKind::Shuffle,
                    producer_tasks: producer_task_count as nat,
                    consumer_tasks: consumer_task_count as nat,
                    partitions: partitions_per_consumer as nat,
                };
                match exchange_refusal(shape) {
                    Some(failure) => layout matches Err(error) && error@ == failure,
                    None => layout matches Ok(layout) && layout@ == shape,
                }
            }),
    {
        if producer_task_count == 0 {
            return Err(
                PlanError::ZeroExchangeParameter {
                    exchange: ExchangeKind::Shuffle,
                    parameter: ExchangeParameter::ProducerTaskCount,
                },
            );
        }
        if consumer_task_count == 0 {
            return Err(
                PlanError::ZeroExchangeParameter {
                    exchange: ExchangeKind::Shuffle,
                    parameter: ExchangeParameter::ConsumerTaskCount,
                },
            );
        }
        if partitions_per_consumer == 0 {
            return Err(
                PlanError::ZeroExchangeParameter {
                    exchange: ExchangeKind::Shuffle,
                    parameter: ExchangeParameter::PartitionsPerConsumer,
                },
            );
        }
        Ok(
            Arc::new(
                ExchangeLayout::Shuffle(
                    ShuffleExchangeLayout {
                        producer_task_count,
                        consumer_task_count,
                        partitions_per_consumer,
                    },
                ),
            ),
        )
    }

    /// Lays out a coalesce: every consumer reads one contiguous group of producer tasks, keeping
    /// their partitions as they are. A coalesce of no producer tasks is allowed.
    pub fn try_coalesce(
        producer_task_count: usize,
        consumer_task_count: usize,
        partitions_per_producer_task: usize,
    ) -> (layout: Result<Arc<Self>, PlanError>)
        ensures
            ({
                let shape = ExchangeShape {
                    kind: ExchangeKind::Coalesce,
                    producer_tasks: producer_task_count as nat,
                    consumer_tasks: consumer_task_count as nat,
                    partitions: partitions_per_producer_task as nat,
                };
                match exchange_refusal(shape) {
                    Some(failure) => layout matches Err(error) && error@ == failure,
                    None => layout matches Ok(layout) && layout@ == shape,
                }
            }),
    {
        if consumer_task_count == 0 {
            return Err(
                PlanError::ZeroExchangeParameter {
                    exchange: ExchangeKind::Coalesce,
                    parameter: ExchangeParameter::ConsumerTaskCount,
                },
            );
        }
        if partitions_per_producer_task == 0 {
            return Err(
                PlanError::ZeroExchangeParameter {
                    exchange: ExchangeKind::Coalesce,
                    parameter: ExchangeParameter::PartitionsPerProducerTask,
                },
            );
        }
        Ok(
            Arc::new(
                ExchangeLayout::Coalesce(
                    CoalesceExchangeLayout {
                        producer_task_count,
                        consumer_task_count,
                        partitions_per_producer_task,
                        producer_task_ranges: split_ranges(
                            producer_task_count,
                            consumer_task_count,
                        ),
                    },
                ),
            ),
        )
    }

    /// Lays out a broadcast: every consumer reads its own copy of the partitions from all
    /// producers.
    pub fn try_broadcast(
        producer_task_count: usize,
        consumer_task_count: usize,
        partitions_per_consumer: usize,
    ) -> (layout: Result<Arc<Self>, PlanError>)
        ensures
            ({
                let shape = ExchangeShape {
                    kind: ExchangeKind::Broadcast,
                    producer_tasks: producer_task_count as nat,
                    consumer_tasks: consumer_task_count as nat,
                    partitions: partitions_per_consumer as nat,
                };
                match exchange_refusal(shape) {
                    Some(failure) => layout matches Err(error) && error@ == failure,
                    None => layout matches Ok(layout) && layout@ == shape,
                }
            }),
    {
        if producer_task_count == 0 {
            return Err(
                PlanError::ZeroExchangeParameter {
                    exchange: ExchangeKind::Broadcast,
                    parameter: ExchangeParameter::ProducerTaskCount,
                },
            );
        }
        if consumer_task_count == 0 {
            return Err(
                PlanError::ZeroExchangeParameter {
                    exchange: ExchangeKind::Broadcast,
                    parameter: ExchangeParameter::ConsumerTaskCount,
                },
            );
        }
        if partitions_per_consumer == 0 {
            return Err(
                PlanError::ZeroExchangeParameter {
                    exchange: ExchangeKind::Broadcast,
                    parameter: ExchangeParameter::PartitionsPerConsumer,
                },
            );
        }
        Ok(
            Arc::new(
                ExchangeLayout::Broadcast(
                    BroadcastExchangeLayout {
                        producer_task_count,
                        consumer_task_count,
                        partitions_per_consumer,
                    },
                ),
            ),
        )
    }

    pub fn producer_task_count(&self) -> (count: usize)
        ensures
            count == self@.producer_tasks,
    {
        match self {
            ExchangeLayout::Shuffle(layout) => layout.producer_task_count,
            ExchangeLayout::Coalesce(layout) => layout.producer_task_count,
            ExchangeLayout::Broadcast(layout) => layout.producer_task_count,
        }
    }

    pub fn consumer_task_count(&self) -> (count: usize)
        ensures
            count == self@.consumer_tasks,
    {
        match self {
            ExchangeLayout::Shuffle(layout) => layout.consumer_task_count,
            ExchangeLayout::Coalesce(layout) => layout.consumer_task_count,
            ExchangeLayout::Broadcast(layout) => layout.consumer_task_count,
        }
    }

    /// The number of output slots that every consumer task advertises.
    pub fn max_partition_count_per_consumer(&self) -> (count: usize)
        requires
            self@.slots_per_consumer() <= usize::MAX,
        ensures
            count == self@.slots_per_consumer(),
    {
        match self {
            ExchangeLayout::Shuffle(layout) => layout.partitions_per_consumer,
            ExchangeLayout::Coalesce(layout) => layout.max_partition_count_per_consumer(),
            ExchangeLayout::Broadcast(layout) => layout.partitions_per_consumer,
        }
    }

    /// The number of partitions that every producer task exposes.
    pub fn partitions_per_producer_task(&self) -> (count: usize)
        requires
            self@.kind == ExchangeKind::Coalesce || self@.partitions_per_producer() <= usize::MAX,
        ensures
            count == self@.partitions_per_producer(),
    {
        match self {
            ExchangeLayout::Shuffle(layout) => layout.partitions_per_consumer
                * layout.consumer_task_count,
            ExchangeLayout::Coalesce(layout) => layout.partitions_per_producer_task,
            ExchangeLayout::Broadcast(layout) => layout.partitions_per_consumer
                * layout.consumer_task_count,
        }
    }

    /// For a coalesce, the size of the largest group of producer tasks.
    pub fn max_input_task_count_per_consumer(&self) -> (count: Option<usize>)
        ensures
            match count {
                Some(count) => self@.kind == ExchangeKind::Coalesce && count
                    == self@.max_input_tasks(),
                None => self@.kind != ExchangeKind::Coalesce,
            },
    {
        match self {
            ExchangeLayout::Coalesce(layout) => Some(layout.max_input_task_count_per_consumer()),
            ExchangeLayout::Shuffle(_) | ExchangeLayout::Broadcast(_) => None,
        }
    }

    /// The reads that stand behind slot `local_partition_idx` of consumer task
    /// `consumer_task_idx`, or `None` where the slot reads nothing.
    pub fn resolve_slot(&self, consumer_task_idx: usize, local_partition_idx: usize) -> (plan:
        Option<SlotReadPlan>)
        requires
            self@.kind == ExchangeKind::Coalesce || (self@.has_slot(consumer_task_idx as nat, local_partition_idx as nat)
                ==> self@.slot_partition(consumer_task_idx as nat, local_partition_idx as nat)
                <= usize::MAX),
        ensures
            plan == self@.resolved(consumer_task_idx as nat, local_partition_idx as nat),
    {
        match self {
            ExchangeLayout::Shuffle(layout) => layout.resolve_slot(
                consumer_task_idx,
                local_partition_idx,
            ),
            ExchangeLayout::Coalesce(layout) => layout.resolve_slot(
                consumer_task_idx,
                local_partition_idx,
            ),
            ExchangeLayout::Broadcast(layout) => layout.resolve_slot(
                consumer_task_idx,
                local_partition_idx,
            ),
        }
    }
}


/// The groups of a split have sizes that differ by at most one, the larger ones first, and the
/// largest has the size of the quotient rounded up.
pub proof fn law_groups_are_balanced(total: nat, groups: nat, a: nat, b: nat)
    requires
        a <= b < groups,
    ensures
        group_len(total, groups, b) <= group_len(total, groups, a) <= group_len(total, groups, b)
            + 1,
        group_len(total, groups, 0) == crate::arithmetic::ceil_div(total, groups),
{
}

/// The group that holds an element.
proof fn lemma_group_of(total: nat, groups: nat, element: nat, upto: nat) -> (idx: nat)
    requires
        groups > 0,
        upto <= groups,
        element < group_start(total, groups, upto),
    ensures
        idx < upto,
        group_start(total, groups, idx) <= element < group_start(total, groups, idx + 1),
    decreases upto,
{
    lemma_group_bounds(total, groups, 0);
    let last = (upto - 1) as nat;
    if group_start(total, groups, last) <= element {
        last
    } else {
        lemma_group_of(total, groups, element, last)
    }
}

/// The groups of a split are disjoint and cover `0..total`: every element lies in exactly one.
pub proof fn law_groups_partition_the_tasks(total: nat, groups: nat, element: nat)
    requires
        groups > 0,
        element < total,
    ensures
        exists|idx: nat|
            idx < groups && #[trigger] group_start(total, groups, idx) <= element < group_start(
                total,
                groups,
                idx,
            ) + group_len(total, groups, idx),
        forall|i: nat, j: nat|
            i < groups && j < groups && #[trigger] group_start(total, groups, i) <= element
                < group_start(total, groups, i) + group_len(total, groups, i)
                && #[trigger] group_start(total, groups, j) <= element < group_start(
                total,
                groups,
                j,
            ) + group_len(total, groups, j) ==> i == j,
{
    lemma_group_bounds(total, groups, (groups - 1) as nat);
    let idx = lemma_group_of(total, groups, element, groups);
    lemma_group_bounds(total, groups, idx);
    assert forall|i: nat, j: nat|
        i < groups && j < groups && #[trigger] group_start(total, groups, i) <= element
            < group_start(total, groups, i) + group_len(total, groups, i)
            && #[trigger] group_start(total, groups, j) <= element < group_start(total, groups, j)
            + group_len(total, groups, j) implies i == j by {
        lemma_group_bounds(total, groups, i);
        lemma_group_bounds(total, groups, j);
        if i < j {
            lemma_group_order(total, groups, i + 1, j);
        } else if j < i {
            lemma_group_order(total, groups, j + 1, i);
        }
    }
}

/// The unused slots of the first `upto` consumers of a coalesce, counted in producer tasks.
pub open spec fn padding_tasks(total: nat, groups: nat, upto: nat) -> nat
    decreases upto,
{
    if upto == 0 {
        0
    } else {
        padding_tasks(total, groups, (upto - 1) as nat) + (crate::arithmetic::ceil_div(total, groups) - group_len(
            total,
            groups,
            (upto - 1) as nat,
        )) as nat
    }
}

/// All consumers of a coalesce together advertise room for `groups` times the largest group; what
/// the `total` producer tasks do not fill is padding.
pub proof fn law_padding_fills_uneven_groups(total: nat, groups: nat)
    requires
        groups > 0,
    ensures
        padding_tasks(total, groups, groups) + total == groups * crate::arithmetic::ceil_div(total, groups),
{
    lemma_padding(total, groups, groups);
    lemma_group_bounds(total, groups, (groups - 1) as nat);
}

proof fn lemma_padding(total: nat, groups: nat, upto: nat)
    requires
        groups > 0,
        upto <= groups,
    ensures
        padding_tasks(total, groups, upto) + group_start(total, groups, upto) == upto * crate::arithmetic::ceil_div(
            total,
            groups,
        ),
    decreases upto,
{
    let size = crate::arithmetic::ceil_div(total, groups);
    if upto == 0 {
        lemma_group_bounds(total, groups, 0);
        assert(0 * size == 0);
    } else {
        let prior = (upto - 1) as nat;
        lemma_padding(total, groups, prior);
        lemma_group_bounds(total, groups, prior);
        law_groups_are_balanced(total, groups, 0, prior);
        assert(upto * size == prior * size + size) by (nonlinear_arith)
            requires
                upto == prior + 1,
        ;
    }
}

/// A hash partition of a shuffle (and a copy of a broadcast) is routed by plain division: its
/// quotient by the number of slots per consumer is the consumer task, its remainder the slot.
pub proof fn law_fanout_routing(shape: ExchangeShape, consumer: nat, slot: nat)
    requires
        shape.valid(),
        shape.kind != ExchangeKind::Coalesce,
        shape.has_slot(consumer, slot),
    ensures
        shape.slot_partition(consumer, slot) / shape.partitions == consumer,
        shape.slot_partition(consumer, slot) % shape.partitions == slot,
        shape.slot_partition(consumer, slot) < shape.partitions_per_producer(),
{
    let partition = shape.slot_partition(consumer, slot);
    lemma_fundamental_div_mod_converse(
        partition as int,
        shape.partitions as int,
        consumer as int,
        slot as int,
    );
    assert(consumer * shape.partitions + slot < shape.partitions * shape.consumer_tasks)
        by (nonlinear_arith)
        requires
            consumer + 1 <= shape.consumer_tasks,
            slot < shape.partitions,
    ;
}

/// A slot that reads something lies below the advertised slot count of its consumer task, and
/// what it reads lies within what the producer tasks expose.
pub proof fn law_reads_are_in_bounds(
    shape: ExchangeShape,
    consumer: nat,
    slot: nat,
    task: nat,
    partition: nat,
)
    requires
        shape.valid(),
        shape.reads(consumer, slot, task, partition),
    ensures
        slot < shape.slots_per_consumer(),
        task < shape.producer_tasks,
        partition < shape.partitions_per_producer(),
{
    if shape.kind == ExchangeKind::Coalesce {
        lemma_group_bounds(shape.producer_tasks, shape.consumer_tasks, consumer);
        law_groups_are_balanced(shape.producer_tasks, shape.consumer_tasks, 0, consumer);
        lemma_fundamental_div_mod(slot as int, shape.partitions as int);
        lemma_mod_bound(slot as int, shape.partitions as int);
        let k = shape.partitions;
        let quotient = slot / k;
        let rest = slot % k;
        let largest = shape.max_input_tasks();
        assert(k * quotient + rest < largest * k) by (nonlinear_arith)
            requires
                quotient + 1 <= largest,
                rest < k,
        ;
    } else {
        law_fanout_routing(shape, consumer, slot);
    }
}

/// The central law of an exchange: every partition of every producer task is read by exactly one
/// slot of one consumer task. Nothing is lost and nothing is delivered twice.
pub proof fn law_every_partition_is_read_exactly_once(
    shape: ExchangeShape,
    task: nat,
    partition: nat,
)
    requires
        shape.valid(),
        task < shape.producer_tasks,
        partition < shape.partitions_per_producer(),
    ensures
        exists|consumer: nat, slot: nat| #[trigger] shape.reads(consumer, slot, task, partition),
        forall|c1: nat, s1: nat, c2: nat, s2: nat| #[trigger]
            shape.reads(c1, s1, task, partition) && #[trigger] shape.reads(c2, s2, task, partition)
                ==> c1 == c2 && s1 == s2,
{
    let k = shape.partitions;
    if shape.kind == ExchangeKind::Coalesce {
        let total = shape.producer_tasks;
        let groups = shape.consumer_tasks;
        lemma_group_bounds(total, groups, (groups - 1) as nat);
        let consumer = lemma_group_of(total, groups, task, groups);
        lemma_group_bounds(total, groups, consumer);
        let offset = (task - group_start(total, groups, consumer)) as nat;
        let slot = offset * k + partition;
        lemma_fundamental_div_mod_converse(slot as int, k as int, offset as int, partition as int);
        assert(shape.reads(consumer, slot, task, partition));
        assert forall|c1: nat, s1: nat, c2: nat, s2: nat| #[trigger]
            shape.reads(c1, s1, task, partition) && #[trigger] shape.reads(
                c2,
                s2,
                task,
                partition,
            ) implies c1 == c2 && s1 == s2 by {
            law_groups_partition_the_tasks(total, groups, task);
            assert(group_start(total, groups, c1) <= task);
            assert(group_start(total, groups, c2) <= task);
            lemma_fundamental_div_mod(s1 as int, k as int);
            lemma_fundamental_div_mod(s2 as int, k as int);
        }
    } else {
        let consumer = partition / k;
        let slot = partition % k;
        lemma_fundamental_div_mod(partition as int, k as int);
        lemma_mod_bound(partition as int, k as int);
        assert(consumer < shape.consumer_tasks) by (nonlinear_arith)
            requires
                k * consumer + slot == partition,
                partition < k * shape.consumer_tasks,
                slot >= 0,
                k > 0,
        ;
        lemma_mul_is_commutative(k as int, consumer as int);
        assert(shape.reads(consumer, slot, task, partition));
        assert forall|c1: nat, s1: nat, c2: nat, s2: nat| #[trigger]
            shape.reads(c1, s1, task, partition) && #[trigger] shape.reads(
                c2,
                s2,
                task,
                partition,
            ) implies c1 == c2 && s1 == s2 by {
            law_fanout_routing(shape, c1, s1);
            law_fanout_routing(shape, c2, s2);
        }
    }
}

/// The slots of a coalesce read the producer tasks in ascending order, and the partitions of each
/// task in ascending order: from slot to slot of a consumer task, and from consumer task to
/// consumer task. The slots of a consumer task that read nothing come last.
pub proof fn law_coalesced_slots_read_in_order(
    shape: ExchangeShape,
    c1: nat,
    s1: nat,
    c2: nat,
    s2: nat,
)
    requires
        shape.valid(),
        shape.kind == ExchangeKind::Coalesce,
        shape.has_slot(c2, s2),
        c1 < c2 && shape.has_slot(c1, s1) || c1 == c2 && s1 < s2,
    ensures
        shape.has_slot(c1, s1),
        shape.slot_task(c1, s1) < shape.slot_task(c2, s2) || shape.slot_task(c1, s1)
            == shape.slot_task(c2, s2) && shape.slot_partition(c1, s1) < shape.slot_partition(
            c2,
            s2,
        ),
{
    let k = shape.partitions;
    lemma_fundamental_div_mod(s1 as int, k as int);
    lemma_fundamental_div_mod(s2 as int, k as int);
    if c1 == c2 {
        lemma_div_is_ordered(s1 as int, s2 as int, k as int);
    } else {
        lemma_group_bounds(shape.producer_tasks, shape.consumer_tasks, c1);
        lemma_group_order(shape.producer_tasks, shape.consumer_tasks, c1 + 1, c2);
    }
}

/// What [`ExchangeLayout::resolve_slot`] answers for a slot and the relation of slots to producer
/// partitions are one and the same.
pub proof fn law_resolved_slots_are_the_reads(
    shape: ExchangeShape,
    consumer: nat,
    slot: nat,
    task: nat,
    partition: nat,
)
    requires
        shape.valid(),
        shape.producer_tasks <= usize::MAX,
        shape.partitions_per_producer() <= usize::MAX,
    ensures
        shape.reads(consumer, slot, task, partition) <==> match shape.resolved(consumer, slot) {
            Some(SlotReadPlan::Fanout { producer_tasks, producer_partition }) => {
                &&& producer_tasks.start <= task < producer_tasks.end
                &&& partition == producer_partition
            },
            Some(SlotReadPlan::Single { producer_task, producer_partition }) => {
                task == producer_task && partition == producer_partition
            },
            None => false,
        },
{
    if shape.has_slot(consumer, slot) {
        if shape.kind == ExchangeKind::Coalesce {
            law_reads_are_in_bounds(
                shape,
                consumer,
                slot,
                shape.slot_task(consumer, slot),
                shape.slot_partition(consumer, slot),
            );
        } else {
            law_fanout_routing(shape, consumer, slot);
        }
    }
}

}
