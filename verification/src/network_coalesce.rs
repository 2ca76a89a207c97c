//! The boundary that coalesces the tasks of a stage into fewer ones.
//!
//! A coalesce reads whole partitions from the tasks of its input stage, without repartitioning
//! them. Each consumer task reads a contiguous group of producer tasks. The output is sized by the
//! largest group; consumer tasks with a smaller one have nothing to read for the partitions that
//! are left over.
use std::ops::Range;
use std::sync::Arc;
use vstd::prelude::*;
use vstd::string::*;

use crate::error::{ExchangeKind, ExecutionError, PlanError, PlanFailure};
use crate::exchange_assignment::{ExchangeLayout, ExchangeShape, SlotReadPlan};
use crate::plan::{PartitionScheme, PlanNode, QueryId};
use crate::stage::{unassigned_tasks, Stage};
use crate::text::push_decimal;
use crate::worker_connection_pool::{WorkerConnectionPool, WorkerRequest};

verus! {

/// The operator that coalesces the tasks of its input stage.
#[derive(Debug)]
pub struct NetworkCoalesceExec {
    /// The number of output partitions.
    pub partition_count: usize,
    /// The partitioning scheme, which is that of the input.
    pub scheme: PartitionScheme,
    pub input_stage: Stage,
    /// The connections to the workers that run the input tasks.
    pub worker_connections: WorkerConnectionPool,
    pub layout: Arc<ExchangeLayout>,
}

/// What one output partition of a coalesce reads.
#[derive(Debug, PartialEq)]
pub struct CoalesceRead {
    /// The input task to read from.
    pub producer_task: usize,
    /// The partitions to ask that task for over the one connection to it.
    pub target_partitions: Range<usize>,
    /// The partition among them to read.
    pub producer_partition: usize,
}

/// The stream of one output partition of a coalesce.
#[derive(Debug, PartialEq, Eq)]
pub struct CoalesceStream {
    /// The input task that is read.
    pub task: usize,
    /// The queue with the messages of the partition, among those of the connection to the task.
    pub queue: usize,
    /// The request that opens the connection, if it is not open yet.
    pub request: Option<WorkerRequest>,
}

impl NetworkCoalesceExec {
    /// Whether the operator is a coalesce of stage `num`, which runs `input`, under `shape`, with
    /// no worker assigned to any task yet.
    pub open spec fn coalesces(
        self,
        input: Arc<PlanNode>,
        query_id: QueryId,
        num: usize,
        shape: ExchangeShape,
    ) -> bool {
        &&& self.partition_count == input.partition_count * shape.max_input_tasks()
        &&& self.scheme@ == input.plan().op.scheme
        &&& self.input_stage.query_id == query_id
        &&& self.input_stage.num == num
        &&& self.input_stage.plan == Some(input)
        &&& self.input_stage.tasks@.len() == shape.producer_tasks
        &&& forall|i: int|
            0 <= i < self.input_stage.tasks@.len() ==> (
            #[trigger] self.input_stage.tasks@[i]).url is None
        &&& self.worker_connections.is_empty_for(shape.producer_tasks)
        &&& self.layout@ == shape
    }

    /// Builds a coalesce of `input_task_count` tasks into `task_count` tasks.
    pub fn try_new(
        input: Arc<PlanNode>,
        query_id: QueryId,
        num: usize,
        task_count: usize,
        input_task_count: usize,
    ) -> (exec: Result<Self, PlanError>)
        ensures
            ({
                let shape = ExchangeShape {
                    kind: ExchangeKind::Coalesce,
                    producer_tasks: input_task_count as nat,
                    consumer_tasks: task_count as nat,
                    partitions: input.partition_count as nat,
                };
                match crate::exchange_assignment::exchange_refusal(shape) {
                    Some(failure) => exec matches Err(error) && error@ == failure,
                    None => coalesce_is(exec, input, query_id, num, shape),
                }
            }),
    {
        let layout = match ExchangeLayout::try_coalesce(
            input_task_count,
            task_count,
            input.partition_count,
        ) {
            Ok(layout) => layout,
            Err(error) => {
                return Err(error);
            },
        };
        Self::try_new_from_layout(input, query_id, num, layout)
    }

    /// Builds a coalesce boundary from an already derived exchange layout.
    pub fn try_new_from_layout(
        input: Arc<PlanNode>,
        query_id: QueryId,
        num: usize,
        layout: Arc<ExchangeLayout>,
    ) -> (exec: Result<Self, PlanError>)
        ensures
            if layout@.kind != ExchangeKind::Coalesce {
                exec matches Err(error) && error@ == PlanFailure::NotACoalesceLayout
            } else {
                coalesce_is(exec, input, query_id, num, layout@)
            },
    {
        let max_input_task_count: usize = match layout.max_input_task_count_per_consumer() {
            Some(count) => count,
            None => {
                return Err(PlanError::NotACoalesceLayout);
            },
        };
        let input_task_count: usize = layout.producer_task_count();
        let partition_count: usize = match input.partition_count.checked_mul(max_input_task_count) {
            Some(partition_count) => partition_count,
            None => {
                return Err(
                    PlanError::TooManyPartitions { operator: "NetworkCoalesceExec".to_owned() },
                );
            },
        };
        Ok(
            NetworkCoalesceExec {
                partition_count,
                scheme: crate::network_boundary::copy_scheme(&input.op.scheme),
                input_stage: Stage {
                    query_id,
                    num,
                    plan: Some(input),
                    tasks: unassigned_tasks(input_task_count),
                },
                worker_connections: WorkerConnectionPool::new(input_task_count),
                layout,
            },
        )
    }

    /// The stage that the operator reads from.
    pub fn input_stage(&self) -> (stage: &Stage)
        ensures
            *stage == self.input_stage,
    {
        &self.input_stage
    }

    /// The operator reading from another stage, with nothing else changed but that its connections
    /// are not shared.
    pub fn with_input_stage(&self, input_stage: Stage) -> (exec: Self)
        ensures
            exec.input_stage == input_stage,
            exec.partition_count == self.partition_count,
            exec.scheme@ == self.scheme@,
            exec.worker_connections.is_empty_for(self.worker_connections.connections@.len()),
            exec.layout == self.layout,
    {
        NetworkCoalesceExec {
            partition_count: self.partition_count,
            scheme: crate::network_boundary::copy_scheme(&self.scheme),
            input_stage,
            worker_connections: self.worker_connections.clone(),
            layout: crate::plan::share(&self.layout),
        }
    }

    /// The text of the operator in a plan.
    pub open spec fn description(self) -> Seq<char> {
        "[Stage "@ + crate::text::decimal(self.input_stage.num as nat)
            + "] => NetworkCoalesceExec: output_partitions="@ + crate::text::decimal(
            self.partition_count as nat,
        ) + ", input_tasks="@ + crate::text::decimal(self.input_stage.tasks@.len())
    }

    /// Describes the operator in one line.
    pub fn describe(&self) -> (text: String)
        ensures
            text@ == self.description(),
    {
        let mut text = String::new();
        text.append("[Stage ");
        push_decimal(&mut text, self.input_stage.num as u128);
        text.append("] => NetworkCoalesceExec: output_partitions=");
        push_decimal(&mut text, self.partition_count as u128);
        text.append(", input_tasks=");
        push_decimal(&mut text, self.input_stage.tasks.len() as u128);
        assert(text@ =~= self.description());
        text
    }

    /// What output partition `partition` reads in consumer `task_index` of `task_count`.
    pub open spec fn read(self, task_index: usize, task_count: usize, partition: usize) -> Result<
        Option<(usize, usize)>,
        ExecutionError,
    > {
        if task_index >= task_count {
            Err(ExecutionError::InvalidTaskContext { task_index, task_count })
        } else {
            match self.layout@.resolved(task_index as nat, partition as nat) {
                Some(SlotReadPlan::Single { producer_task, producer_partition }) => Ok(
                    Some((producer_task, producer_partition)),
                ),
                _ => Ok(None),
            }
        }
    }

    /// Decides what output partition `partition` reads in consumer `task_index` of `task_count`:
    /// nothing, where the consumer reads a smaller group of input tasks than the largest one.
    pub fn read_of(&self, task_index: usize, task_count: usize, partition: usize) -> (read: Result<
        Option<CoalesceRead>,
        ExecutionError,
    >)
        requires
            self.layout@.kind == ExchangeKind::Coalesce,
        ensures
            match self.read(task_index, task_count, partition) {
                Err(refusal) => read == Err::<Option<CoalesceRead>, ExecutionError>(refusal),
                Ok(None) => read matches Ok(None),
                Ok(Some((producer_task, producer_partition))) => {
                    &&& read matches Ok(Some(read))
                    &&& read.producer_task == producer_task
                    &&& read.producer_partition == producer_partition
                    &&& read.target_partitions.start == 0
                    &&& read.target_partitions.end == self.layout@.partitions_per_producer()
                },
            },
    {
        if task_index >= task_count {
            return Err(ExecutionError::InvalidTaskContext { task_index, task_count });
        }
        match self.layout.resolve_slot(task_index, partition) {
            Some(SlotReadPlan::Single { producer_task, producer_partition }) => {
                Ok(
                    Some(
                        CoalesceRead {
                            producer_task,
                            target_partitions: Range {
                                start: 0,
                                end: self.layout.partitions_per_producer_task(),
                            },
                            producer_partition,
                        },
                    ),
                )
            },
            _ => Ok(None),
        }
    }

    /// Whether nothing but the connection to `task` differs between two states of an operator.
    pub open spec fn differs_at(self, other: Self, task: int) -> bool {
        &&& self.partition_count == other.partition_count
        &&& self.scheme == other.scheme
        &&& self.input_stage == other.input_stage
        &&& self.layout == other.layout
        &&& self.worker_connections.connections@.len()
            == other.worker_connections.connections@.len()
        &&& forall|i: int|
            #![trigger self.worker_connections.connections@[i]]
            0 <= i < self.worker_connections.connections@.len() && i != task
                ==> self.worker_connections.connections@[i]
                == other.worker_connections.connections@[i]
    }

    /// Whether streaming `partition` of input task `task` came out as it should. The connection to
    /// the task is opened by the first read, for all partitions of the task; its outcome is kept.
    /// From an open connection every partition is streamed once.
    pub open spec fn streams(
        self,
        after: Self,
        plan_proto: Option<Vec<u8>>,
        task: usize,
        partition: usize,
        stream: Result<Option<CoalesceStream>, ExecutionError>,
    ) -> bool {
        let slots = self.worker_connections.connections@;
        let slots_after = after.worker_connections.connections@;
        let partitions = self.layout@.partitions_per_producer() as usize;
        &&& after.differs_at(self, task as int)
        &&& if task >= slots.len() {
            stream == Err::<Option<CoalesceStream>, ExecutionError>(
                ExecutionError::NoConnectionSlot { task, slots: slots.len() as usize },
            )
        } else {
            match slots[task as int] {
                Some(Err(error)) => {
                    &&& slots_after[task as int] == slots[task as int]
                    &&& stream == Err::<Option<CoalesceStream>, ExecutionError>(error)
                },
                Some(Ok(connection)) => {
                    &&& slots_after[task as int] matches Some(Ok(left))
                    &&& left@ == connection@.remove(partition)
                    &&& stream_is(
                        stream,
                        task,
                        crate::worker_connection_pool::handed_out(connection@, partition),
                    )
                    &&& stream matches Ok(Some(stream)) ==> stream.request is None
                },
                None => match crate::worker_connection_pool::request_refusal(
                    self.input_stage,
                    plan_proto is Some,
                    task,
                ) {
                    Some(refusal) => {
                        &&& slots_after[task as int] matches Some(Err(error))
                        &&& error == refusal
                        &&& stream == Err::<Option<CoalesceStream>, ExecutionError>(refusal)
                    },
                    None => {
                        let queues = crate::worker_connection_pool::all_queues(0, partitions);
                        &&& slots_after[task as int] matches Some(Ok(left))
                        &&& left@ == queues.remove(partition)
                        &&& stream_is(
                            stream,
                            task,
                            crate::worker_connection_pool::handed_out(queues, partition),
                        )
                        &&& stream matches Ok(Some(stream)) ==> (stream.request matches Some(
                            request,
                        ) && request.asks_for(
                            self.input_stage,
                            plan_proto->0@,
                            0,
                            partitions,
                            task,
                        ))
                    },
                },
            }
        }
    }

    /// Opens the stream of output partition `partition` in consumer `task_index` of `task_count`:
    /// none, where the consumer has nothing to read for it. A request is part of the stream where
    /// its connection was opened by this call.
    pub fn execute(
        &mut self,
        plan_proto: Option<Vec<u8>>,
        task_index: usize,
        task_count: usize,
        partition: usize,
    ) -> (stream: Result<Option<CoalesceStream>, ExecutionError>)
        requires
            old(self).layout@.kind == ExchangeKind::Coalesce,
        ensures
            match old(self).read(task_index, task_count, partition) {
                Err(refusal) => {
                    &&& *final(self) == *old(self)
                    &&& stream == Err::<Option<CoalesceStream>, ExecutionError>(refusal)
                },
                Ok(None) => *final(self) == *old(self) && stream matches Ok(None),
                Ok(Some((producer_task, producer_partition))) => old(self).streams(
                    *final(self),
                    plan_proto,
                    producer_task,
                    producer_partition,
                    stream,
                ),
            },
    {
        let read = match self.read_of(task_index, task_count, partition) {
            Ok(Some(read)) => read,
            Ok(None) => {
                return Ok(None);
            },
            Err(error) => {
                return Err(error);
            },
        };
        let task: usize = read.producer_task;
        let request = match self.worker_connections.get_or_init_worker_connection(
            &self.input_stage,
            plan_proto,
            read.target_partitions,
            task,
        ) {
            Ok(request) => request,
            Err(error) => {
                return Err(error);
            },
        };
        match self.worker_connections.stream_partition(task, read.producer_partition) {
            Ok(queue) => Ok(Some(CoalesceStream { task, queue, request })),
            Err(error) => Err(error),
        }
    }
}

/// Whether a stream is that of the queue that was handed out, if one was.
pub open spec fn stream_is(
    stream: Result<Option<CoalesceStream>, ExecutionError>,
    task: usize,
    queue: Result<usize, ExecutionError>,
) -> bool {
    match queue {
        Ok(queue) => stream matches Ok(Some(stream)) && stream.task == task && stream.queue
            == queue,
        Err(error) => stream == Err::<Option<CoalesceStream>, ExecutionError>(error),
    }
}

/// Whether the construction of a coalesce came out as it should: it fails exactly where the output
/// partitions cannot be counted.
pub open spec fn coalesce_is(
    exec: Result<NetworkCoalesceExec, PlanError>,
    input: Arc<PlanNode>,
    query_id: QueryId,
    num: usize,
    shape: ExchangeShape,
) -> bool {
    if input.partition_count * shape.max_input_tasks() > usize::MAX {
        exec matches Err(error) && error@ == (PlanFailure::TooManyPartitions {
            operator: "NetworkCoalesceExec"@,
        })
    } else {
        exec matches Ok(exec) && exec.coalesces(input, query_id, num, shape)
    }
}

/// The number of output partitions of a coalesce of `input_tasks` tasks with `partitions`
/// partitions each into `consumer_tasks` tasks, unless it is refused.
pub open spec fn coalesced_partitions(
    partitions: usize,
    consumer_tasks: usize,
    input_tasks: usize,
) -> Result<usize, PlanFailure> {
    let shape = ExchangeShape {
        kind: ExchangeKind::Coalesce,
        producer_tasks: input_tasks as nat,
        consumer_tasks: consumer_tasks as nat,
        partitions: partitions as nat,
    };
    match crate::exchange_assignment::exchange_refusal(shape) {
        Some(failure) => Err(failure),
        None => if partitions * shape.max_input_tasks() > usize::MAX {
            Err(PlanFailure::TooManyPartitions { operator: "NetworkCoalesceExec"@ })
        } else {
            Ok((partitions * shape.max_input_tasks()) as usize)
        },
    }
}

/// The first read of a task that can be asked for is streamed: every partition that a coalesce
/// reads is among those that its connection carries.
pub proof fn law_read_partitions_are_carried(shape: ExchangeShape, consumer: nat, slot: nat)
    requires
        shape.kind == ExchangeKind::Coalesce,
        0 < shape.partitions <= usize::MAX,
    ensures
        shape.resolved(consumer, slot) matches Some(
            SlotReadPlan::Single { producer_partition, .. },
        ) ==> crate::worker_connection_pool::handed_out(
            crate::worker_connection_pool::all_queues(0, shape.partitions_per_producer() as usize),
            producer_partition,
        ) == Ok::<usize, ExecutionError>(producer_partition),
{
    assert(slot % shape.partitions < shape.partitions) by (nonlinear_arith)
        requires
            shape.partitions > 0,
    ;
}

/// Two output partitions of one consumer never ask for the same partition of the same input task.
pub proof fn law_reads_of_a_consumer_are_distinct(
    shape: ExchangeShape,
    consumer: nat,
    a: nat,
    b: nat,
)
    requires
        shape.kind == ExchangeKind::Coalesce,
        0 < shape.partitions,
        a != b,
    ensures
        !(shape.slot_task(consumer, a) == shape.slot_task(consumer, b) && shape.slot_partition(
            consumer,
            a,
        ) == shape.slot_partition(consumer, b)),
{
    vstd::arithmetic::div_mod::lemma_fundamental_div_mod(a as int, shape.partitions as int);
    vstd::arithmetic::div_mod::lemma_fundamental_div_mod(b as int, shape.partitions as int);
}

}
