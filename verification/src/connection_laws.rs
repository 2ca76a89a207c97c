//! What is asked of workers, and where what they send ends up.
use http::{HeaderMap, HeaderValue};
use std::ops::Range;
use vstd::prelude::*;

use crate::config::DistributedConfig;
use crate::error::ExecutionError;
use crate::network_coalesce::{CoalesceStream, NetworkCoalesceExec};
use crate::request_headers::manually_propagate_distributed_config;
use crate::stage::Stage;
use crate::worker_connection_pool::{
    FeedAction, FeedEvent, FeedState, WorkerConnection, WorkerRequest,
};

verus! {

/// A connection is refused only where the plan is not encoded, the stage has no such task, or the
/// task has no worker. Otherwise the worker of the task is asked for the given partitions of that
/// task, and there is a queue for each of these partitions and for no other.
pub proof fn law_connections_ask_for_their_task(
    stage: &Stage,
    plan_proto: Option<Vec<u8>>,
    partitions: Range<usize>,
    task: usize,
    opened: Result<(WorkerConnection, WorkerRequest), ExecutionError>,
)
    requires
        call_ensures(WorkerConnection::init, (stage, plan_proto, partitions, task), opened),
    ensures
        match opened {
            Err(ExecutionError::PlanNotEncoded) => plan_proto is None,
            Err(ExecutionError::TaskNotFound { task: missing }) => plan_proto is Some && missing
                == task && task >= stage.tasks@.len(),
            Err(ExecutionError::UnassignedTask) => plan_proto is Some && task < stage.tasks@.len()
                && stage.tasks@[task as int].url is None,
            Err(_) => false,
            Ok((connection, request)) => {
                &&& plan_proto is Some
                &&& task < stage.tasks@.len()
                &&& stage.tasks@[task as int].url is Some
                &&& request.url@ == stage.tasks@[task as int].url->0@
                &&& request.message.plan_proto@ == plan_proto->0@
                &&& request.message.target_partition_start == partitions.start
                &&& request.message.target_partition_end == partitions.end
                &&& request.message.target_task_index == task
                &&& request.message.target_task_count == stage.tasks@.len()
                &&& request.message.stage_key is Some
                &&& request.message.stage_key->0.query_id@ == stage.query_id.bytes@
                &&& request.message.stage_key->0.stage_id == stage.num
                &&& request.message.stage_key->0.task_number == task
                &&& connection.first() == partitions.start
                &&& connection.last() == partitions.end
                &&& forall|p: usize|
                    #![trigger connection@.dom().contains(p)]
                    connection@.dom().contains(p) <==> partitions.start <= p < partitions.end
                &&& forall|p: usize|
                    #![trigger connection@[p]]
                    partitions.start <= p < partitions.end ==> connection@[p] + partitions.start
                        == p
            },
        },
{
}

/// A message goes to the queue that its partition was given, counted from the first partition of the
/// connection; a message of any other partition goes nowhere, and the error names the partition and
/// those that were asked for.
pub proof fn law_messages_are_put_into_their_queue(
    connection: &WorkerConnection,
    partition: u64,
    queue: Result<usize, ExecutionError>,
)
    requires
        call_ensures(WorkerConnection::queue_of, (connection, partition), queue),
    ensures
        match queue {
            Ok(queue) => connection.first() + queue == partition && partition < connection.last(),
            Err(ExecutionError::UnexpectedPartition { received, start, end }) => {
                &&& received == partition && start == connection.first() && end
                    == connection.last()
                &&& partition < start || partition >= end
            },
            Err(_) => false,
        },
{
}

/// A feed connects, sends its request, and receives, in this order; whatever fails, or what nobody
/// waits for, finishes it. Only a feed that receives puts messages anywhere, each into the queue of
/// its partition with its size reserved. Failures are told to every queue, the end of the stream is
/// not, and a feed that is finished does nothing more.
pub proof fn law_feeds_connect_request_and_receive(
    connection: &WorkerConnection,
    state: FeedState,
    event: FeedEvent,
    next: (FeedState, FeedAction),
)
    requires
        call_ensures(WorkerConnection::on_event, (connection, state, event), next),
    ensures
        state is Finished ==> next.0 is Finished && next.1 is Stop,
        state is Connecting && event is Succeeded ==> next.0 is Requesting && next.1 is SendRequest,
        state is Requesting && event is Succeeded ==> next.0 is Receiving && next.1 is Receive,
        state is Receiving && event is Succeeded ==> next.0 is Receiving && next.1 is Receive,
        !(state is Finished) && event is Failed ==> next.0 is Finished && next.1 is FanOutFailure,
        state is Receiving && event is Undecodable ==> next.0 is Finished
            && next.1 is FanOutFailure,
        event is Ended || event is QueueDropped ==> next.0 is Finished && next.1 is Stop,
        state is Receiving ==> (event matches FeedEvent::Message { partition, size } ==> if partition
            >= connection.first() && partition < connection.last() {
            &&& next.0 is Receiving
            &&& next.1 matches FeedAction::Forward { queue, reserve } && queue + connection.first()
                == partition && reserve == size
        } else {
            &&& next.0 is Finished
            &&& next.1 == (FeedAction::FanOutError {
                error: ExecutionError::UnexpectedPartition {
                    received: partition,
                    start: connection.first(),
                    end: connection.last(),
                },
            })
        }),
        next.1 is Forward ==> state is Receiving && event is Message,
        !(state is Receiving) && (event is Message || event is Undecodable) ==> next.0 is Finished
            && next.1 is Stop,
{
}

/// The settings for workers are one header, which says in a word whether metrics are collected; it
/// replaces what the request said of that before, and all other headers stay as they are.
pub proof fn law_workers_are_told_to_collect_metrics(
    headers: HeaderMap<HeaderValue>,
    config: &DistributedConfig,
    propagated: Result<HeaderMap<HeaderValue>, ExecutionError>,
    name: Seq<char>,
)
    requires
        call_ensures(manually_propagate_distributed_config, (headers, config), propagated),
    ensures
        match propagated {
            Ok(told) => {
                let (before, after) = (
                    crate::request_headers::headers_of(headers),
                    crate::request_headers::headers_of(told),
                );
                let own = "distributed.collect_metrics"@;
                &&& after.dom().contains(own)
                &&& after[own].len() == 1
                &&& after[own][0] == if config.collect_metrics {
                    seq![116u8, 114u8, 117u8, 101u8]
                } else {
                    seq![102u8, 97u8, 108u8, 115u8, 101u8]
                }
                &&& name != own ==> (after.dom().contains(name) <==> before.dom().contains(name))
                &&& name != own && before.dom().contains(name) ==> after[name] == before[name]
            },
            Err(error) => error is TooManyHeaders && crate::request_headers::headers_of(
                headers,
            ).dom().len() > 6553,
        },
{
    reveal_strlit("true");
    reveal_strlit("false");
    assert(crate::request_headers::visible_bytes("true"@) =~= seq![116u8, 114u8, 117u8, 101u8]);
    assert(crate::request_headers::visible_bytes("false"@) =~= seq![
        102u8,
        97u8,
        108u8,
        115u8,
        101u8,
    ]);
}

/// A read of a coalesce opens the connection to its task if there was none yet, with a request for
/// all partitions of the task, and only then. It gets the queue of its partition, which no later
/// read gets; a connection that failed keeps failing in the same way.
pub proof fn law_connections_are_opened_once(
    before: NetworkCoalesceExec,
    after: NetworkCoalesceExec,
    plan_proto: Option<Vec<u8>>,
    task: usize,
    partition: usize,
    stream: Result<Option<CoalesceStream>, ExecutionError>,
)
    requires
        before.streams(after, plan_proto, task, partition, stream),
    ensures
        ({
            let slots = before.worker_connections.connections@;
            let slots_after = after.worker_connections.connections@;
            let partitions = before.layout@.partitions_per_producer() as usize;
            &&& slots_after.len() == slots.len()
            &&& forall|i: int|
                #![trigger slots_after[i]]
                0 <= i < slots.len() && i != task ==> slots_after[i] == slots[i]
            &&& task >= slots.len() ==> stream is Err
            &&& task < slots.len() ==> slots_after[task as int] is Some
            &&& task < slots.len() ==> (slots[task as int] matches Some(Err(error)) ==> stream
                == Err::<Option<CoalesceStream>, ExecutionError>(error))
            &&& stream matches Ok(given) ==> {
                &&& given is Some
                &&& task < slots.len()
                &&& given->0.task == task
                &&& given->0.request is Some <==> slots[task as int] is None
                &&& slots_after[task as int] matches Some(Ok(left)) && !left@.dom().contains(
                    partition,
                )
                &&& given->0.request matches Some(request) ==> {
                    &&& given->0.queue == partition
                    &&& partition < partitions
                    &&& plan_proto is Some
                    &&& request.message.plan_proto@ == plan_proto->0@
                    &&& request.message.target_partition_start == 0
                    &&& request.message.target_partition_end == partitions
                    &&& request.message.target_task_index == task
                }
                &&& slots[task as int] matches Some(Ok(connection)) ==> connection@.dom().contains(
                    partition,
                ) && given->0.queue == connection@[partition]
            }
            &&& after.input_stage == before.input_stage
            &&& after.layout == before.layout
            &&& after.partition_count == before.partition_count
        }),
{
}

}
