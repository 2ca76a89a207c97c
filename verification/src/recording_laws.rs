//! How the state of runs, queues, encoders and connections changes, and what stays as it is.
use std::ops::Range;
use vstd::prelude::*;

use datafusion::arrow::ipc::writer::IpcWriteOptions;

use crate::app_metadata::{AppMetadata, FlightAppMetadata};
use crate::benchmark_run::{BenchmarkRun, QueryIter, RunContext};
use crate::data_type::Schema;
use crate::error::ExecutionError;
use crate::memory_footprint::{FlightMessage, MemoryFootPrint};
use crate::multiplexed_flight::{
    EncodedMessage, EncoderInput, EncoderOutput, MultiplexedFlightDataEncoder,
};
use crate::network_coalesce::NetworkCoalesceExec;
use crate::select_all::{Merged, MergedStreams};
use crate::stage::Stage;
use crate::worker_connection_pool::{WorkerConnection, WorkerConnectionPool, WorkerRequest};

verus! {

/// Starting a case adds it behind all others, which stay as they are: it has the given name and
/// start, no iterations, and has not failed.
pub proof fn law_started_cases_come_last(id: &str, start_time: u64)
    ensures
        forall|run: &mut BenchmarkRun| #[trigger]
            call_ensures(BenchmarkRun::start_new_case, (run, id, start_time), ()) ==> {
                let (before, after) = ((*run).queries@, final(run).queries@);
                &&& after.len() == before.len() + 1
                &&& after.take(before.len() as int) == before
                &&& after.last().query@ == id@
                &&& after.last().start_time == start_time
                &&& after.last().iterations@.len() == 0
                &&& after.last().success
                &&& final(run).context == (*run).context
                &&& final(run).current_case == Some(before.len() as usize)
            },
{
    assert forall|run: &mut BenchmarkRun| #[trigger]
        call_ensures(BenchmarkRun::start_new_case, (run, id, start_time), ()) implies {
        let (before, after) = ((*run).queries@, final(run).queries@);
        &&& after.len() == before.len() + 1
        &&& after.take(before.len() as int) == before
        &&& after.last().query@ == id@
        &&& after.last().start_time == start_time
        &&& after.last().iterations@.len() == 0
        &&& after.last().success
        &&& final(run).context == (*run).context
        &&& final(run).current_case == Some(before.len() as usize)
    } by {
        let (before, after) = ((*run).queries@, final(run).queries@);
        assert(after.take(before.len() as int) =~= after.drop_last());
    }
}

/// An iteration is added to the case that was started last, behind its other iterations; everything
/// else stays as it is.
pub proof fn law_iterations_are_added_to_the_last_case(iteration: QueryIter, i: int)
    ensures
        forall|run: &mut BenchmarkRun| #[trigger]
            call_ensures(BenchmarkRun::write_iter, (run, iteration), ()) ==> {
                let (before, after) = ((*run).queries@, final(run).queries@);
                let (old_case, new_case) = (before.last(), after.last());
                &&& after.len() == before.len()
                &&& 0 <= i < before.len() - 1 ==> after[i] == before[i]
                &&& new_case.query@ == old_case.query@
                &&& new_case.start_time == old_case.start_time
                &&& new_case.success == old_case.success
                &&& new_case.iterations@.len() == old_case.iterations@.len() + 1
                &&& new_case.iterations@.last() == iteration
                &&& new_case.iterations@.drop_last() == old_case.iterations@
                &&& final(run).context == (*run).context
            },
{
    assert forall|run: &mut BenchmarkRun| #[trigger]
        call_ensures(BenchmarkRun::write_iter, (run, iteration), ()) implies {
        let (before, after) = ((*run).queries@, final(run).queries@);
        let (old_case, new_case) = (before.last(), after.last());
        &&& after.len() == before.len()
        &&& 0 <= i < before.len() - 1 ==> after[i] == before[i]
        &&& new_case.query@ == old_case.query@
        &&& new_case.start_time == old_case.start_time
        &&& new_case.success == old_case.success
        &&& new_case.iterations@.len() == old_case.iterations@.len() + 1
        &&& new_case.iterations@.last() == iteration
        &&& new_case.iterations@.drop_last() == old_case.iterations@
        &&& final(run).context == (*run).context
    } by {
        let (before, after) = ((*run).queries@, final(run).queries@);
        if 0 <= i < before.len() - 1 {
            assert(after.drop_last()[i] == before.drop_last()[i]);
        }
        assert(after.last().iterations@.drop_last() =~= before.last().iterations@);
    }
}

/// Marking a failure marks the case that was started last, and keeps all its iterations and all
/// other cases.
pub proof fn law_failures_mark_the_last_case(i: int)
    ensures
        forall|run: &mut BenchmarkRun| #[trigger]
            call_ensures(BenchmarkRun::mark_failed, (run,), ()) ==> {
                let (before, after) = ((*run).queries@, final(run).queries@);
                &&& after.len() == before.len()
                &&& 0 <= i < before.len() - 1 ==> after[i] == before[i]
                &&& after.last().query@ == before.last().query@
                &&& after.last().start_time == before.last().start_time
                &&& after.last().iterations@ == before.last().iterations@
                &&& !after.last().success
                &&& final(run).context == (*run).context
            },
{
    assert forall|run: &mut BenchmarkRun| #[trigger]
        call_ensures(BenchmarkRun::mark_failed, (run,), ()) && 0 <= i < (*run).queries@.len() - 1 implies final(run).queries@[i] == (*run).queries@[i] by {
        let (before, after) = ((*run).queries@, final(run).queries@);
        assert(after.drop_last()[i] == before.drop_last()[i]);
    }
}

/// Messages of merged streams are read in the order in which they came: one that arrives waits
/// behind all others, and the one at the front is taken. The memory that is reserved for a message
/// when it arrives is released when it is taken.
pub proof fn law_merged_messages_are_read_in_order<M: MemoryFootPrint, E>(
    message: Result<M, E>,
    reserve: usize,
    taken: Merged<M, E>,
)
    ensures
        forall|merged: &mut MergedStreams<M, E>| #[trigger]
            call_ensures(MergedStreams::<M, E>::arrive, (merged, message), reserve) ==> {
                let (before, after) = ((*merged)@, final(merged)@);
                &&& after.waiting.len() == before.waiting.len() + 1
                &&& after.waiting.last() == message
                &&& after.waiting.drop_last() == before.waiting
                &&& after.open == before.open
                &&& reserve == crate::memory_footprint::reserved_for(message)
            },
        forall|merged: &mut MergedStreams<M, E>| #[trigger]
            call_ensures(MergedStreams::<M, E>::take, (merged,), taken) ==> {
                let (before, after) = ((*merged)@, final(merged)@);
                &&& after.open == before.open
                &&& match taken {
                    Merged::Message { message, release } => {
                        &&& before.waiting == seq![message] + after.waiting
                        &&& release == crate::memory_footprint::reserved_for(message)
                    },
                    Merged::Pending => before.waiting.len() == 0 && after.waiting.len() == 0
                        && before.open > 0,
                    Merged::End => before.waiting.len() == 0 && after.waiting.len() == 0
                        && before.open == 0,
                }
            },
        forall|merged: &mut MergedStreams<M, E>| #[trigger]
            call_ensures(MergedStreams::<M, E>::end, (merged,), ()) ==> {
                &&& final(merged)@.waiting == (*merged)@.waiting
                &&& final(merged)@.open + 1 == (*merged)@.open || (*merged)@.open == 0
            },
{
    assert forall|merged: &mut MergedStreams<M, E>| #[trigger]
        call_ensures(MergedStreams::<M, E>::arrive, (merged, message), reserve) implies final(merged)@.waiting.drop_last() == (*merged)@.waiting by {
        assert(final(merged)@.waiting.drop_last() =~= (*merged)@.waiting);
    }
    assert forall|merged: &mut MergedStreams<M, E>| #[trigger]
        call_ensures(MergedStreams::<M, E>::take, (merged,), taken) implies (taken matches Merged::Message {
        message,
        release,
    } ==> (*merged)@.waiting == seq![message] + final(merged)@.waiting) by {
        if let Merged::Message { message, release } = taken {
            assert((*merged)@.waiting =~= seq![message] + final(merged)@.waiting);
        }
    }
}

/// An encoder sends the message that has waited longest, and keeps the others; it asks for input
/// only where none waits and its input is not over, and else ends.
pub proof fn law_encoders_send_what_waited_longest(output: EncoderOutput)
    ensures
        forall|encoder: &mut MultiplexedFlightDataEncoder| #[trigger]
            call_ensures(MultiplexedFlightDataEncoder::poll_next, (encoder,), output) ==> {
                let (before, after) = ((*encoder)@, final(encoder)@);
                &&& after.done == before.done
                &&& after.tracker == before.tracker
                &&& match output {
                    EncoderOutput::Message(message) => before.queue == seq![message@]
                        + after.queue,
                    EncoderOutput::NeedsInput => before.queue.len() == 0 && !before.done
                        && after.queue.len() == 0,
                    EncoderOutput::End => before.queue.len() == 0 && before.done
                        && after.queue.len() == 0,
                }
            },
{
    assert forall|encoder: &mut MultiplexedFlightDataEncoder| #[trigger]
        call_ensures(MultiplexedFlightDataEncoder::poll_next, (encoder,), output) implies {
        let (before, after) = ((*encoder)@, final(encoder)@);
        &&& after.done == before.done
        &&& after.tracker == before.tracker
        &&& match output {
            EncoderOutput::Message(message) => before.queue == seq![message@] + after.queue,
            EncoderOutput::NeedsInput => before.queue.len() == 0 && !before.done
                && after.queue.len() == 0,
            EncoderOutput::End => before.queue.len() == 0 && before.done && after.queue.len() == 0,
        }
    } by {
        crate::stream_laws::law_messages_leave_in_order((*encoder)@);
        if let EncoderOutput::Message(message) = output {
            assert(output@ == crate::multiplexed_flight::OutputView::Message(message@));
        }
    }
}

/// An encoder takes its input in without losing what waits, unless a batch fails: the end and the
/// failure of the input only mark it as over.
pub proof fn law_encoders_keep_what_waits(
    taken: Result<(), crate::multiplexed_flight::EncoderFailure>,
)
    ensures
        forall|encoder: &mut MultiplexedFlightDataEncoder| #[trigger]
            call_ensures(
                MultiplexedFlightDataEncoder::on_input,
                (encoder, EncoderInput::Exhausted),
                taken,
            ) ==> final(encoder)@.queue == (*encoder)@.queue && final(encoder)@.done && taken is Ok,
        forall|encoder: &mut MultiplexedFlightDataEncoder| #[trigger]
            call_ensures(
                MultiplexedFlightDataEncoder::on_input,
                (encoder, EncoderInput::Failed),
                taken,
            ) ==> final(encoder)@.queue == (*encoder)@.queue && final(encoder)@.done && (
            taken matches Err(failure) && failure is Input),
{
}

/// A queue is handed out once: the reader of a partition gets the queue that was made for it, and
/// whoever asks again, or for a partition that was not asked for, gets an error that names it. The
/// queues of other partitions stay.
pub proof fn law_queues_are_taken_once(
    partition: usize,
    other: usize,
    queue: Result<usize, ExecutionError>,
)
    ensures
        forall|connection: &mut WorkerConnection| #[trigger]
            call_ensures(WorkerConnection::stream_partition, (connection, partition), queue) ==> {
                let (before, after) = ((*connection)@, final(connection)@);
                &&& !after.dom().contains(partition)
                &&& other != partition ==> (after.dom().contains(other) <==> before.dom().contains(
                    other,
                ))
                &&& other != partition && before.dom().contains(other) ==> after[other]
                    == before[other]
                &&& queue is Ok <==> before.dom().contains(partition)
                &&& queue matches Ok(queue) ==> queue == before[partition]
                &&& queue matches Err(error) ==> error == (ExecutionError::NoPartitionStream {
                    partition,
                })
                &&& final(connection).first() == (*connection).first()
                &&& final(connection).last() == (*connection).last()
            },
{
}

/// A pool opens the connection to a task at most once: the first outcome is kept, whatever it was,
/// and only a call that opened a connection gives a request. Other connections are not touched, and
/// a task that the pool has no slot for is refused.
pub proof fn law_pools_keep_the_first_outcome(
    stage: &Stage,
    plan_proto: Option<Vec<u8>>,
    partitions: Range<usize>,
    task: usize,
    other: int,
    opened: Result<Option<WorkerRequest>, ExecutionError>,
)
    ensures
        forall|pool: &mut WorkerConnectionPool| #[trigger]
            call_ensures(
                WorkerConnectionPool::get_or_init_worker_connection,
                (pool, stage, plan_proto, partitions, task),
                opened,
            ) ==> {
                let (before, after) = ((*pool).connections@, final(pool).connections@);
                &&& after.len() == before.len()
                &&& 0 <= other < before.len() && other != task ==> after[other] == before[other]
                &&& task >= before.len() ==> opened is Err && after == before
                &&& task < before.len() && before[task as int] is Some ==> after[task as int]
                    == before[task as int]
                &&& task < before.len() ==> after[task as int] is Some
                &&& task < before.len() ==> (opened is Ok <==> after[task as int]->0 is Ok)
                &&& opened matches Ok(given) ==> (given is Some <==> before[task as int] is None)
                &&& opened matches Ok(Some(request)) ==> {
                    &&& plan_proto is Some
                    &&& task < stage.tasks@.len()
                    &&& request.message.target_partition_start == partitions.start
                    &&& request.message.target_partition_end == partitions.end
                    &&& request.message.target_task_index == task
                }
            },
{
}

/// Setting the content of metadata replaces it and keeps the partition.
pub proof fn law_metadata_keeps_its_partition(content: AppMetadata)
    ensures
        forall|metadata: &mut FlightAppMetadata| #[trigger]
            call_ensures(FlightAppMetadata::set_content, (metadata, content), ()) ==> final(metadata).content == Some(content) && final(metadata).partition == (*metadata).partition,
{
}

/// What is newly made holds what it was given and nothing else: runs have no cases, merged streams
/// and pools have nothing in them, and metadata has no content.
pub proof fn law_new_values_start_empty<M: MemoryFootPrint, E>(
    context: RunContext,
    run: BenchmarkRun,
    count: usize,
    merged: MergedStreams<M, E>,
    pool: WorkerConnectionPool,
    partition: u64,
    metadata: FlightAppMetadata,
    i: int,
)
    requires
        call_ensures(BenchmarkRun::new, (context,), run),
        call_ensures(MergedStreams::<M, E>::new, (count,), merged),
        call_ensures(WorkerConnectionPool::new, (count,), pool),
        call_ensures(FlightAppMetadata::new, (partition,), metadata),
    ensures
        run.context == context,
        run.queries@.len() == 0,
        run.current_case is None,
        merged@.waiting.len() == 0,
        merged@.open == count,
        pool.connections@.len() == count,
        0 <= i < count ==> pool.connections@[i] is None,
        metadata.partition == partition,
        metadata.content is None,
{
}

/// A message that metadata is attached to keeps its bytes, and carries the metadata.
pub proof fn law_marked_messages_keep_their_bytes(
    encoded: EncodedMessage,
    app_metadata: Vec<u8>,
    message: FlightMessage,
)
    requires
        call_ensures(EncodedMessage::with_app_metadata, (encoded, app_metadata), message),
    ensures
        message.data_header@ == encoded.data_header@,
        message.data_body@ == encoded.data_body@,
        message.app_metadata@ == app_metadata@,
{
    assert(message@.data_header == encoded@.data_header);
}

/// A coalesce that reads from another stage is the same otherwise, with no connection open.
pub proof fn law_coalesces_keep_their_layout(
    exec: &NetworkCoalesceExec,
    stage: Stage,
    moved: NetworkCoalesceExec,
    i: int,
)
    requires
        call_ensures(NetworkCoalesceExec::with_input_stage, (exec, stage), moved),
    ensures
        moved.input_stage == stage,
        moved.partition_count == exec.partition_count,
        moved.scheme@ == exec.scheme@,
        moved.layout == exec.layout,
        moved.worker_connections.connections@.len() == exec.worker_connections.connections@.len(),
        0 <= i < moved.worker_connections.connections@.len()
            ==> moved.worker_connections.connections@[i] is None,
{
}

/// A new encoder has one message waiting, that of the schema as it was given but for the order flags
/// of columns that are no dictionaries.
pub proof fn law_new_encoders_start_with_their_schema(
    schema: &Schema,
    options: IpcWriteOptions,
    encoder: MultiplexedFlightDataEncoder,
)
    requires
        schema.dictionaries() <= i64::MAX,
        call_ensures(MultiplexedFlightDataEncoder::new, (schema, options), encoder),
    ensures
        encoder@.options == options,
        !encoder@.done,
        encoder@.queue.len() == 1,
        encoder@.queue[0].data_header == crate::schema_message::schema_header(
            schema@.without_idle_flags(),
            options,
        ),
        encoder@.queue[0].data_body.len() == 0,
        encoder@.queue[0].app_metadata.len() == 0,
{
    let prepared = choose|prepared: Schema|
        #![trigger schema.is_prepared_as(&prepared)]
        crate::multiplexed_flight::starts_stream(encoder@, *schema, prepared);
    crate::stream_laws::law_streams_begin_with_the_given_schema(encoder@, *schema, prepared);
}

}
