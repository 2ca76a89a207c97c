//! Connections to the workers that run the tasks of an input stage.
//!
//! Rather than one stream per partition, there is one stream per task, which interleaves the
//! messages of several partitions. The messages are handed out locally to one queue per partition.
use std::collections::hash_map::RandomState;
use std::ops::Range;
use vstd::prelude::*;

use dashmap::DashMap;

use crate::app_metadata::StageKey;
use crate::error::ExecutionError;
use crate::plan::QueryId;
use crate::stage::Stage;

verus! {

/// The concurrent map of the dashmap crate.
#[verifier::external_type_specification]
#[verifier::external_body]
#[verifier::reject_recursive_types(K)]
#[verifier::reject_recursive_types(V)]
#[verifier::reject_recursive_types(S)]
pub struct ExDashMap<K, V, S>(DashMap<K, V, S>);

/// The entries of a concurrent map that nothing else has access to.
pub uninterp spec fn entries_of(map: DashMap<usize, usize, RandomState>) -> Map<usize, usize>;

/// An empty map, by `DashMap::new`.
#[verifier::external_body]
fn new_map() -> (map: DashMap<usize, usize, RandomState>)
    ensures
        entries_of(map).dom() == Set::<usize>::empty(),
{
    DashMap::new()
}

/// Adds an entry, by `DashMap::insert`: a former entry for the key is replaced and returned.
#[verifier::external_body]
fn insert_entry(map: &mut DashMap<usize, usize, RandomState>, key: usize, value: usize) -> (former:
    Option<usize>)
    ensures
        entries_of(*final(map)) == entries_of(*old(map)).insert(key, value),
        former == (if entries_of(*old(map)).dom().contains(key) {
            Some(entries_of(*old(map))[key])
        } else {
            None
        }),
{
    map.insert(key, value)
}

/// Takes an entry out, by `DashMap::remove`, which returns it if it was there.
#[verifier::external_body]
fn remove_entry(map: &mut DashMap<usize, usize, RandomState>, key: usize) -> (removed: Option<
    (usize, usize),
>)
    ensures
        entries_of(*final(map)) == entries_of(*old(map)).remove(key),
        removed == (if entries_of(*old(map)).dom().contains(key) {
            Some((key, entries_of(*old(map))[key]))
        } else {
            None
        }),
{
    map.remove(&key)
}

/// The request that starts the stream of one task.
#[derive(Debug, PartialEq, Eq)]
pub struct DoGet {
    pub plan_proto: Vec<u8>,
    pub target_partition_start: u64,
    pub target_partition_end: u64,
    pub stage_key: Option<StageKey>,
    pub target_task_index: u64,
    pub target_task_count: u64,
}

/// A request, and the worker to send it to.
#[derive(Debug, PartialEq, Eq)]
pub struct WorkerRequest {
    pub url: String,
    pub message: DoGet,
}

impl WorkerRequest {
    /// Whether the request asks for partitions `start..end` of task `task` of `stage`, which runs
    /// the encoded plan `plan_proto`.
    pub open spec fn asks_for(
        self,
        stage: Stage,
        plan_proto: Seq<u8>,
        start: usize,
        end: usize,
        task: usize,
    ) -> bool {
        &&& task < stage.tasks@.len()
        &&& stage.tasks@[task as int].url matches Some(url)
        &&& self.url@ == url@
        &&& self.message.plan_proto@ == plan_proto
        &&& self.message.target_partition_start == start
        &&& self.message.target_partition_end == end
        &&& self.message.stage_key matches Some(key)
        &&& key.query_id@ == stage.query_id.bytes@
        &&& key.stage_id == stage.num
        &&& key.task_number == task
        &&& self.message.target_task_index == task
        &&& self.message.target_task_count == stage.tasks@.len()
    }
}

/// Why a stage cannot be asked for a task, if it cannot: the plan has to be encoded, and the task
/// has to exist and to be assigned to a worker.
pub open spec fn request_refusal(stage: Stage, has_plan: bool, task: usize) -> Option<
    ExecutionError,
> {
    if !has_plan {
        Some(ExecutionError::PlanNotEncoded)
    } else if task >= stage.tasks@.len() {
        Some(ExecutionError::TaskNotFound { task })
    } else if stage.tasks@[task as int].url is None {
        Some(ExecutionError::UnassignedTask)
    } else {
        None
    }
}

/// The bytes of a query id.
fn query_id_bytes(query_id: &QueryId) -> (bytes: Vec<u8>)
    ensures
        bytes@ == query_id.bytes@,
{
    let mut bytes: Vec<u8> = Vec::new();
    let mut i: usize = 0;
    while i < 16
        invariant
            i <= 16,
            bytes@ == query_id.bytes@.take(i as int),
        decreases 16 - i,
    {
        bytes.push(query_id.bytes[i]);
        assert(bytes@ =~= query_id.bytes@.take(i + 1));
        i = i + 1;
    }
    assert(bytes@ =~= query_id.bytes@);
    bytes
}

/// A connection to one worker: which partitions it carries, and which of the queues that hold their
/// messages have not been handed out yet. The `i`-th partition has the `i`-th queue.
#[derive(Debug)]
pub struct WorkerConnection {
    start: usize,
    end: usize,
    per_partition_rx: DashMap<usize, usize, RandomState>,
}

/// The queues of partitions `start..end`.
pub open spec fn all_queues(start: usize, end: usize) -> Map<usize, usize> {
    Map::new(|p: usize| start <= p < end, |p: usize| (p - start) as usize)
}

/// The queue for `partition` among those that are left: every queue is handed out once.
pub open spec fn handed_out(queues: Map<usize, usize>, partition: usize) -> Result<
    usize,
    ExecutionError,
> {
    if queues.dom().contains(partition) {
        Ok(queues[partition])
    } else {
        Err(ExecutionError::NoPartitionStream { partition })
    }
}

impl View for WorkerConnection {
    type V = Map<usize, usize>;

    /// The queues that have not been handed out, by partition.
    closed spec fn view(&self) -> Map<usize, usize> {
        entries_of(self.per_partition_rx)
    }
}

impl WorkerConnection {
    /// The first partition that the connection carries.
    pub closed spec fn first(self) -> usize {
        self.start
    }

    /// The end of the partitions that the connection carries.
    pub closed spec fn last(self) -> usize {
        self.end
    }

    /// Prepares a connection for some partitions of a task, and the request that opens it.
    pub fn init(
        input_stage: &Stage,
        plan_proto: Option<Vec<u8>>,
        target_partitions: Range<usize>,
        target_task: usize,
    ) -> (opened: Result<(Self, WorkerRequest), ExecutionError>)
        ensures
            match request_refusal(*input_stage, plan_proto is Some, target_task) {
                Some(refusal) => opened matches Err(error) && error == refusal,
                None => {
                    &&& opened matches Ok((connection, request))
                    &&& request.asks_for(
                        *input_stage,
                        plan_proto->0@,
                        target_partitions.start,
                        target_partitions.end,
                        target_task,
                    )
                    &&& connection.first() == target_partitions.start
                    &&& connection.last() == target_partitions.end
                    &&& connection@ == all_queues(target_partitions.start, target_partitions.end)
                },
            },
    {
        let plan_proto = match plan_proto {
            Some(plan_proto) => plan_proto,
            None => {
                return Err(ExecutionError::PlanNotEncoded);
            },
        };
        if target_task >= input_stage.tasks.len() {
            return Err(ExecutionError::TaskNotFound { task: target_task });
        }
        let url = match &input_stage.tasks[target_task].url {
            Some(url) => url.clone(),
            None => {
                return Err(ExecutionError::UnassignedTask);
            },
        };
        let start: usize = target_partitions.start;
        let end: usize = target_partitions.end;
        let message = DoGet {
            plan_proto,
            target_partition_start: start as u64,
            target_partition_end: end as u64,
            stage_key: Some(
                StageKey::new(
                    query_id_bytes(&input_stage.query_id),
                    input_stage.num as u64,
                    target_task as u64,
                ),
            ),
            target_task_index: target_task as u64,
            target_task_count: input_stage.tasks.len() as u64,
        };
        let mut per_partition_rx = new_map();
        let mut partition: usize = start;
        assert(entries_of(per_partition_rx) =~= all_queues(start, partition));
        while partition < end
            invariant
                start <= partition,
                partition <= end || partition == start,
                entries_of(per_partition_rx) == all_queues(start, partition),
            decreases end - partition,
        {
            insert_entry(&mut per_partition_rx, partition, partition - start);
            assert(entries_of(per_partition_rx) =~= all_queues(start, (partition + 1) as usize));
            partition = partition + 1;
        }
        assert(entries_of(per_partition_rx) =~= all_queues(start, end));
        Ok((WorkerConnection { start, end, per_partition_rx }, WorkerRequest { url, message }))
    }

    /// The number of queues that the connection hands messages out to.
    pub fn queue_count(&self) -> (count: usize)
        ensures
            count == (if self.first() <= self.last() {
                self.last() - self.first()
            } else {
                0
            }),
    {
        if self.start <= self.end {
            self.end - self.start
        } else {
            0
        }
    }

    /// The queue for a message of `partition`. A message of a partition that the connection does
    /// not carry is an error.
    pub fn queue_of(&self, partition: u64) -> (queue: Result<usize, ExecutionError>)
        ensures
            if self.first() <= partition < self.last() {
                queue == Ok::<usize, ExecutionError>((partition - self.first()) as usize)
            } else {
                queue == Err::<usize, ExecutionError>(
                    ExecutionError::UnexpectedPartition {
                        received: partition,
                        start: self.first(),
                        end: self.last(),
                    },
                )
            },
    {
        if self.start as u64 <= partition && partition < self.end as u64 {
            Ok((partition - self.start as u64) as usize)
        } else {
            Err(
                ExecutionError::UnexpectedPartition {
                    received: partition,
                    start: self.start,
                    end: self.end,
                },
            )
        }
    }

    /// Hands out the queue with the messages of `partition`. Every queue is handed out once.
    pub fn stream_partition(&mut self, partition: usize) -> (queue: Result<usize, ExecutionError>)
        ensures
            final(self).first() == old(self).first(),
            final(self).last() == old(self).last(),
            final(self)@ == old(self)@.remove(partition),
            queue == handed_out(old(self)@, partition),
    {
        match remove_entry(&mut self.per_partition_rx, partition) {
            Some((_, queue)) => Ok(queue),
            None => Err(ExecutionError::NoPartitionStream { partition }),
        }
    }
}

/// Lazily opened connections, one per task of the input stage.
#[derive(Debug)]
pub struct WorkerConnectionPool {
    pub connections: Vec<Option<Result<WorkerConnection, ExecutionError>>>,
}

impl WorkerConnectionPool {
    /// Whether the pool has an empty slot for each of `input_tasks` tasks.
    pub open spec fn is_empty_for(self, input_tasks: nat) -> bool {
        &&& self.connections@.len() == input_tasks
        &&& forall|i: int| 0 <= i < input_tasks ==> (#[trigger] self.connections@[i]) is None
    }

    /// A pool with an empty slot for each input task.
    pub fn new(input_tasks: usize) -> (pool: Self)
        ensures
            pool.is_empty_for(input_tasks as nat),
    {
        let mut connections: Vec<Option<Result<WorkerConnection, ExecutionError>>> = Vec::new();
        while connections.len() < input_tasks
            invariant
                connections@.len() <= input_tasks,
                forall|i: int| 0 <= i < connections@.len() ==> (#[trigger] connections@[i]) is None,
            decreases input_tasks - connections@.len(),
        {
            connections.push(None);
        }
        WorkerConnectionPool { connections }
    }

    /// Opens the connection to `target_task`, unless that was tried before: the first outcome is
    /// kept. A request is returned if a connection was opened by this call.
    pub fn get_or_init_worker_connection(
        &mut self,
        input_stage: &Stage,
        plan_proto: Option<Vec<u8>>,
        target_partitions: Range<usize>,
        target_task: usize,
    ) -> (opened: Result<Option<WorkerRequest>, ExecutionError>)
        ensures
            final(self).connections@.len() == old(self).connections@.len(),
            if target_task >= old(self).connections@.len() {
                &&& opened == Err::<Option<WorkerRequest>, ExecutionError>(
                    ExecutionError::NoConnectionSlot {
                        task: target_task,
                        slots: old(self).connections@.len() as usize,
                    },
                )
                &&& final(self).connections@ == old(self).connections@
            } else {
                match old(self).connections@[target_task as int] {
                    Some(Ok(_)) => {
                        &&& opened == Ok::<Option<WorkerRequest>, ExecutionError>(None)
                        &&& final(self).connections@ == old(self).connections@
                    },
                    Some(Err(error)) => {
                        &&& opened == Err::<Option<WorkerRequest>, ExecutionError>(error)
                        &&& final(self).connections@ == old(self).connections@
                    },
                    None => {
                        &&& final(self).connections@ == old(self).connections@.update(
                            target_task as int,
                            final(self).connections@[target_task as int],
                        )
                        &&& match request_refusal(*input_stage, plan_proto is Some, target_task) {
                            Some(refusal) => {
                                &&& opened == Err::<Option<WorkerRequest>, ExecutionError>(refusal)
                                &&& final(self).connections@[target_task as int] == Some(
                                    Err::<WorkerConnection, ExecutionError>(refusal),
                                )
                            },
                            None => {
                                &&& opened matches Ok(Some(request))
                                &&& request.asks_for(
                                    *input_stage,
                                    plan_proto->0@,
                                    target_partitions.start,
                                    target_partitions.end,
                                    target_task,
                                )
                                &&& final(self).connections@[target_task as int] matches Some(
                                    Ok(connection),
                                )
                                &&& connection.first() == target_partitions.start
                                &&& connection.last() == target_partitions.end
                                &&& connection@ == all_queues(
                                    target_partitions.start,
                                    target_partitions.end,
                                )
                            },
                        }
                    },
                }
            },
    {
        if target_task >= self.connections.len() {
            return Err(
                ExecutionError::NoConnectionSlot {
                    task: target_task,
                    slots: self.connections.len(),
                },
            );
        }
        match &self.connections[target_task] {
            Some(Ok(_)) => {
                return Ok(None);
            },
            Some(Err(error)) => {
                return Err(error.clone());
            },
            None => {},
        }
        match WorkerConnection::init(input_stage, plan_proto, target_partitions, target_task) {
            Ok((connection, request)) => {
                self.connections.set(target_task, Some(Ok(connection)));
                Ok(Some(request))
            },
            Err(error) => {
                let returned = error.clone();
                self.connections.set(target_task, Some(Err(error)));
                Err(returned)
            },
        }
    }
}

impl WorkerConnectionPool {
    /// Hands out the queue with the messages of `partition` from the open connection to
    /// `target_task`.
    pub fn stream_partition(&mut self, target_task: usize, partition: usize) -> (queue: Result<
        usize,
        ExecutionError,
    >)
        requires
            target_task < old(self).connections@.len(),
            old(self).connections@[target_task as int] matches Some(Ok(_)),
        ensures
            final(self).connections@ == old(self).connections@.update(
                target_task as int,
                final(self).connections@[target_task as int],
            ),
            final(self).connections@[target_task as int] matches Some(Ok(after)) && (old(
                self,
            ).connections@[target_task as int] matches Some(Ok(before)) && {
                &&& after.first() == before.first()
                &&& after.last() == before.last()
                &&& after@ == before@.remove(partition)
                &&& queue == handed_out(before@, partition)
            }),
    {
        match &mut self.connections[target_task] {
            Some(Ok(connection)) => connection.stream_partition(partition),
            _ => Err(ExecutionError::NoPartitionStream { partition }),
        }
    }
}

impl Clone for WorkerConnectionPool {
    /// A pool of the same size; connections are not shared between pools.
    fn clone(&self) -> (copy: Self)
        ensures
            copy.is_empty_for(self.connections@.len()),
    {
        WorkerConnectionPool::new(self.connections.len())
    }
}

/// How far the stream of a connection has got.
#[derive(Debug, Clone, Copy, PartialEq, Eq, Structural)]
pub enum FeedState {
    /// The worker is being looked up.
    Connecting,
    /// The request is on its way.
    Requesting,
    /// Messages are arriving.
    Receiving,
    /// Nothing more will arrive.
    Finished,
}

/// What happened on the stream of a connection.
#[derive(Debug, Clone, Copy, PartialEq, Eq, Structural)]
pub enum FeedEvent {
    /// The pending step succeeded.
    Succeeded,
    /// The pending step, or the stream, failed.
    Failed,
    /// A message arrived whose metadata cannot be decoded.
    Undecodable,
    /// A message of `size` bytes arrived for a partition.
    Message { partition: u64, size: usize },
    /// The stream ended.
    Ended,
    /// Nobody reads the queue any more that a message was put into.
    QueueDropped,
}

/// What to do about an event.
#[derive(Debug, PartialEq, Eq)]
pub enum FeedAction {
    /// Send the request.
    SendRequest,
    /// Wait for the next message.
    Receive,
    /// Put the message into a queue, together with a reservation of `reserve` bytes of the memory
    /// pool, which is released when the message leaves the queue.
    Forward { queue: usize, reserve: usize },
    /// Put the failure that happened into every queue.
    FanOutFailure,
    /// Put this error into every queue.
    FanOutError { error: ExecutionError },
    /// Stop reading the stream.
    Stop,
}

impl WorkerConnection {
    /// The state after an event.
    pub open spec fn state_after(self, state: FeedState, event: FeedEvent) -> FeedState {
        match (state, event) {
            (FeedState::Connecting, FeedEvent::Succeeded) => FeedState::Requesting,
            (FeedState::Requesting, FeedEvent::Succeeded) => FeedState::Receiving,
            (FeedState::Receiving, FeedEvent::Succeeded) => FeedState::Receiving,
            (FeedState::Receiving, FeedEvent::Message { partition, .. }) if self.first()
                <= partition < self.last() => FeedState::Receiving,
            _ => FeedState::Finished,
        }
    }

    /// The action on an event: failures reach every queue, and messages the queue of their
    /// partition, where their bytes count as reserved.
    pub open spec fn action_on(self, state: FeedState, event: FeedEvent) -> FeedAction {
        match (state, event) {
            (FeedState::Finished, _) => FeedAction::Stop,
            (FeedState::Connecting, FeedEvent::Succeeded) => FeedAction::SendRequest,
            (_, FeedEvent::Succeeded) => FeedAction::Receive,
            (_, FeedEvent::Failed) => FeedAction::FanOutFailure,
            (FeedState::Receiving, FeedEvent::Undecodable) => FeedAction::FanOutFailure,
            (FeedState::Receiving, FeedEvent::Message { partition, size }) => if self.first()
                <= partition < self.last() {
                FeedAction::Forward {
                    queue: (partition - self.first()) as usize,
                    reserve: size,
                }
            } else {
                FeedAction::FanOutError {
                    error: ExecutionError::UnexpectedPartition {
                        received: partition,
                        start: self.first(),
                        end: self.last(),
                    },
                }
            },
            _ => FeedAction::Stop,
        }
    }

    /// Decides what to do about an event on the stream.
    pub fn on_event(&self, state: FeedState, event: FeedEvent) -> (next: (FeedState, FeedAction))
        ensures
            next.0 == self.state_after(state, event),
            next.1 == self.action_on(state, event),
    {
        match (state, event) {
            (FeedState::Finished, _) => (FeedState::Finished, FeedAction::Stop),
            (FeedState::Connecting, FeedEvent::Succeeded) => {
                (FeedState::Requesting, FeedAction::SendRequest)
            },
            (FeedState::Requesting, FeedEvent::Succeeded) => {
                (FeedState::Receiving, FeedAction::Receive)
            },
            (FeedState::Receiving, FeedEvent::Succeeded) => {
                (FeedState::Receiving, FeedAction::Receive)
            },
            (_, FeedEvent::Failed) => (FeedState::Finished, FeedAction::FanOutFailure),
            (FeedState::Receiving, FeedEvent::Undecodable) => {
                (FeedState::Finished, FeedAction::FanOutFailure)
            },
            (FeedState::Receiving, FeedEvent::Message { partition, size }) => {
                match self.queue_of(partition) {
                    Ok(queue) => {
                        (FeedState::Receiving, FeedAction::Forward { queue, reserve: size })
                    },
                    Err(error) => (FeedState::Finished, FeedAction::FanOutError { error }),
                }
            },
            _ => (FeedState::Finished, FeedAction::Stop),
        }
    }
}

/// Every failure of a stream that is not over is put into every queue, and ends it.
pub proof fn law_failures_reach_every_queue(connection: WorkerConnection, state: FeedState)
    requires
        state != FeedState::Finished,
    ensures
        connection.action_on(state, FeedEvent::Failed) == FeedAction::FanOutFailure,
        connection.state_after(state, FeedEvent::Failed) == FeedState::Finished,
{
}

/// A message goes to the queue that is handed out for its partition, and exactly its bytes are
/// reserved while it waits there.
pub proof fn law_messages_reach_their_partition(
    connection: WorkerConnection,
    partition: usize,
    size: usize,
)
    requires
        connection.first() <= partition < connection.last(),
    ensures
        connection.action_on(
            FeedState::Receiving,
            FeedEvent::Message { partition: partition as u64, size },
        ) == (FeedAction::Forward {
            queue: all_queues(connection.first(), connection.last())[partition],
            reserve: size,
        }),
{
}

/// Distinct partitions have distinct queues.
pub proof fn law_partitions_have_queues_of_their_own(start: usize, end: usize, a: usize, b: usize)
    requires
        start <= a < b < end,
    ensures
        all_queues(start, end)[a] != all_queues(start, end)[b],
        all_queues(start, end)[b] < end - start,
{
}

/// A queue that was handed out is not handed out again.
pub proof fn law_queues_are_handed_out_once(queues: Map<usize, usize>, partition: usize)
    ensures
        !queues.remove(partition).dom().contains(partition),
        forall|other: usize|
            other != partition ==> (#[trigger] queues.remove(partition).dom().contains(other)
                <==> queues.dom().contains(other)),
{
}

}
