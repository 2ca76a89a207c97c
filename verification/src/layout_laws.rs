//! When an exchange layout is refused, and how wide it is.
use vstd::prelude::*;

use crate::error::{ExchangeKind, ExchangeParameter, PlanFailure};
use crate::exchange_assignment::{ExchangeShape, SlotReadPlan};

verus! {

/// Whether none of the counts that an exchange needs is zero. A coalesce can do without producer
/// tasks.
pub open spec fn needs_are_met(shape: ExchangeShape) -> bool {
    &&& shape.producer_tasks > 0 || shape.kind is Coalesce
    &&& shape.consumer_tasks > 0
    &&& shape.partitions > 0
}

/// A layout is refused exactly if a count that it needs is zero, whatever the other counts are, and
/// the error names the exchange and the first of its counts that is zero.
pub proof fn law_layouts_are_refused_for_zeros_only(shape: ExchangeShape)
    ensures
        crate::exchange_assignment::exchange_refusal(shape) is None <==> needs_are_met(shape),
        crate::exchange_assignment::exchange_refusal(shape) is None <==> shape.valid(),
        crate::exchange_assignment::exchange_refusal(shape) matches Some(failure) ==> (failure
            matches PlanFailure::ZeroExchangeParameter { exchange, parameter } && exchange
            == shape.kind && match parameter {
            ExchangeParameter::ProducerTaskCount => shape.producer_tasks == 0 && !(
            shape.kind is Coalesce),
            ExchangeParameter::ConsumerTaskCount => shape.consumer_tasks == 0 && (
            shape.producer_tasks > 0 || shape.kind is Coalesce),
            ExchangeParameter::PartitionsPerConsumer => shape.partitions == 0
                && shape.consumer_tasks > 0 && shape.producer_tasks > 0 && !(
            shape.kind is Coalesce),
            ExchangeParameter::PartitionsPerProducerTask => shape.partitions == 0
                && shape.consumer_tasks > 0 && shape.kind is Coalesce,
        }),
{
}

/// With more of anything that it counts, a layout that is accepted stays accepted.
pub proof fn law_larger_layouts_are_accepted(a: ExchangeShape, b: ExchangeShape)
    requires
        a.kind == b.kind,
        a.producer_tasks <= b.producer_tasks,
        a.consumer_tasks <= b.consumer_tasks,
        a.partitions <= b.partitions,
        crate::exchange_assignment::exchange_refusal(a) is None,
    ensures
        crate::exchange_assignment::exchange_refusal(b) is None,
{
}

/// A shuffle or a broadcast has a read for every slot of every consumer task and for no other: the
/// slot reads the same partition from all producer tasks, and the consumer tasks divide the
/// partitions among them in their order, each taking as many as it has slots.
pub proof fn law_fanout_slots_read_all_producers(shape: ExchangeShape, consumer: nat, slot: nat)
    requires
        needs_are_met(shape),
        !(shape.kind is Coalesce),
        shape.producer_tasks <= usize::MAX,
        shape.partitions * shape.consumer_tasks <= usize::MAX,
    ensures
        match shape.resolved(consumer, slot) {
            Some(SlotReadPlan::Fanout { producer_tasks, producer_partition }) => {
                &&& consumer < shape.consumer_tasks && slot < shape.partitions
                &&& producer_tasks.start == 0 && producer_tasks.end == shape.producer_tasks
                &&& producer_partition == shape.partitions * consumer + slot
            },
            Some(SlotReadPlan::Single { .. }) => false,
            None => consumer >= shape.consumer_tasks || slot >= shape.partitions,
        },
        shape.slots_per_consumer() == shape.partitions,
        shape.partitions_per_producer() == shape.partitions * shape.consumer_tasks,
{
    let (c, k, p, s) = (
        consumer as int,
        shape.consumer_tasks as int,
        shape.partitions as int,
        slot as int,
    );
    if c < k && s < p {
        assert(c * p + s == p * c + s < p * k) by (nonlinear_arith)
            requires
                0 <= c < k,
                0 <= s < p,
        ;
    }
}

/// A coalesce has a read for every partition of every producer task: the slots of a consumer task go
/// through the partitions of its first task, then through those of the next one. The tasks of one
/// consumer follow those of the consumers before it, the tasks are spread as evenly as can be, and
/// the consumers with one task more come first.
pub proof fn law_coalesced_slots_read_one_task_each(shape: ExchangeShape, consumer: nat, slot: nat)
    requires
        needs_are_met(shape),
        shape.kind is Coalesce,
        consumer < shape.consumer_tasks,
        shape.producer_tasks <= usize::MAX,
        shape.partitions <= usize::MAX,
    ensures
        ({
            let (tasks, consumers, partitions) = (
                shape.producer_tasks as int,
                shape.consumer_tasks as int,
                shape.partitions as int,
            );
            let start = shape.slot_task(consumer, 0) as int;
            match shape.resolved(consumer, slot) {
                Some(SlotReadPlan::Single { producer_task, producer_partition }) => {
                    &&& producer_partition < partitions
                    &&& (producer_task - start) * partitions + producer_partition == slot
                    &&& start <= producer_task < tasks
                    &&& (producer_task - start) * consumers + consumer < tasks
                },
                Some(SlotReadPlan::Fanout { .. }) => false,
                None => (slot as int / partitions) * consumers + consumer >= tasks,
            }
        }),
        shape.slot_task(0, 0) == 0,
        shape.partitions_per_producer() == shape.partitions,
{
    let (t, k, p, c, s) = (
        shape.producer_tasks as int,
        shape.consumer_tasks as int,
        shape.partitions as int,
        consumer as int,
        slot as int,
    );
    vstd::arithmetic::div_mod::lemma_fundamental_div_mod(t, k);
    vstd::arithmetic::div_mod::lemma_mod_bound(t, k);
    vstd::arithmetic::div_mod::lemma_fundamental_div_mod(s, p);
    vstd::arithmetic::div_mod::lemma_mod_bound(s, p);
    vstd::arithmetic::div_mod::lemma_div_basics(p);
    crate::exchange_assignment::lemma_group_bounds(
        shape.producer_tasks,
        shape.consumer_tasks,
        consumer,
    );
    crate::exchange_assignment::lemma_group_bounds(shape.producer_tasks, shape.consumer_tasks, 0);
    let (base, extra, step) = (t / k, t % k, s / p);
    let length = crate::exchange_assignment::group_len(
        shape.producer_tasks,
        shape.consumer_tasks,
        consumer,
    ) as int;
    assert(step >= 0) by (nonlinear_arith)
        requires
            s == p * step + s % p,
            0 <= s % p < p,
            s >= 0,
    ;
    assert(step < length <==> step * k + c < t) by (nonlinear_arith)
        requires
            t == k * base + extra,
            0 <= extra < k,
            0 <= c < k,
            step >= 0,
            length == base + if c < extra {
                1int
            } else {
                0int
            },
    ;
    assert(step * p == p * step) by (nonlinear_arith);
}

/// Every consumer task of a coalesce has as many slots as the one that reads the most tasks uses,
/// which is the first one, and no more.
pub proof fn law_coalesces_have_no_slots_to_spare(shape: ExchangeShape)
    requires
        needs_are_met(shape),
        shape.kind is Coalesce,
    ensures
        ({
            let (tasks, consumers, most) = (
                shape.producer_tasks as int,
                shape.consumer_tasks as int,
                shape.max_input_tasks() as int,
            );
            &&& most * consumers >= tasks
            &&& tasks > 0 ==> most > 0 && (most - 1) * consumers < tasks
            &&& tasks == 0 ==> most == 0
            &&& shape.slots_per_consumer() == most * shape.partitions
            &&& tasks > 0 ==> shape.slots_per_consumer() > 0 && shape.has_slot(
                0,
                (shape.slots_per_consumer() - 1) as nat,
            )
            &&& !shape.has_slot(0, shape.slots_per_consumer())
        }),
{
    let (t, k, p) = (
        shape.producer_tasks as int,
        shape.consumer_tasks as int,
        shape.partitions as int,
    );
    crate::arithmetic::lemma_round_up(shape.producer_tasks, shape.consumer_tasks);
    let most = shape.max_input_tasks() as int;
    assert(t > 0 ==> most > 0 && (most - 1) * k < t) by (nonlinear_arith)
        requires
            t <= most * k < t + k,
            k > 0,
    ;
    assert(t == 0 ==> most == 0) by (nonlinear_arith)
        requires
            t <= most * k < t + k,
            k > 0,
            most >= 0,
    ;
    crate::exchange_assignment::law_groups_are_balanced(
        shape.producer_tasks,
        shape.consumer_tasks,
        0,
        0,
    );
    let slots = most * p;
    vstd::arithmetic::div_mod::lemma_div_multiples_vanish(most, p);
    assert(p * most == slots) by (nonlinear_arith)
        requires
            slots == most * p,
    ;
    if t > 0 {
        assert(slots > 0) by (nonlinear_arith)
            requires
                slots == most * p,
                most > 0,
                p > 0,
        ;
        let last = slots - 1;
        vstd::arithmetic::div_mod::lemma_fundamental_div_mod(last, p);
        vstd::arithmetic::div_mod::lemma_mod_bound(last, p);
        let q = last / p;
        assert(q < most) by (nonlinear_arith)
            requires
                last == p * q + last % p,
                0 <= last % p,
                last < most * p,
                p > 0,
        ;
    }
}

/// A coalesce into tasks that each read a group of the input tasks exposes the partitions of the
/// largest group; it is refused for zeros, and where these partitions cannot be counted.
pub proof fn law_coalesced_partitions_cover_the_largest_group(
    partitions: usize,
    consumer_tasks: usize,
    input_tasks: usize,
    most: nat,
)
    requires
        most * consumer_tasks >= input_tasks,
        most > 0 ==> (most - 1) * consumer_tasks < input_tasks,
    ensures
        match crate::network_coalesce::coalesced_partitions(partitions, consumer_tasks, input_tasks) {
            Ok(count) => consumer_tasks > 0 && partitions > 0 && count == partitions * most,
            Err(PlanFailure::TooManyPartitions { operator }) => {
                &&& consumer_tasks > 0 && partitions > 0
                &&& partitions * most > usize::MAX
                &&& operator == "NetworkCoalesceExec"@
            },
            Err(PlanFailure::ZeroExchangeParameter { exchange, .. }) => {
                exchange is Coalesce && (consumer_tasks == 0 || partitions == 0)
            },
            Err(_) => false,
        },
{
    if consumer_tasks > 0 {
        let (t, k, m) = (input_tasks as int, consumer_tasks as int, most as int);
        crate::arithmetic::lemma_round_up(input_tasks as nat, consumer_tasks as nat);
        let other = crate::arithmetic::ceil_div(input_tasks as nat, consumer_tasks as nat) as int;
        assert(m == other) by (nonlinear_arith)
            requires
                t <= other * k < t + k,
                m * k >= t,
                m > 0 ==> (m - 1) * k < t,
                k > 0,
                m >= 0,
                t >= 0,
                other >= 0,
        ;
    }
}

}
