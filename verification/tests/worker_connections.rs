use std::sync::Arc;

use datafusion::execution::memory_pool::{MemoryConsumer, MemoryPool, UnboundedMemoryPool};
use http::{HeaderMap, HeaderValue};

use datafusion_distributed::app_metadata::{
    AppMetadata, FlightAppMetadata, MetricsCollection, MetricsSetProto, StageKey, TaskMetrics,
};
use datafusion_distributed::config::{DistributedConfig, LOCAL_EXCHANGE_SPLIT_MODE_OFF};
use datafusion_distributed::error::ExecutionError;
use datafusion_distributed::memory_footprint::MemoryFootPrint;
use datafusion_distributed::plan::QueryId;
use datafusion_distributed::request_headers::manually_propagate_distributed_config;
use datafusion_distributed::select_all::{Merged, MergedStreams};
use datafusion_distributed::stage::{unassigned_tasks, ExecutionTask, Stage};
use datafusion_distributed::worker_connection_pool::{
    FeedAction, FeedEvent, FeedState, WorkerConnection, WorkerConnectionPool,
};

fn stage() -> Stage {
    Stage {
        query_id: QueryId { bytes: [9; 16] },
        num: 3,
        plan: None,
        tasks: vec![
            ExecutionTask {
                url: Some("http://first".to_string()),
            },
            ExecutionTask {
                url: Some("http://second".to_string()),
            },
            ExecutionTask { url: None },
        ],
    }
}

fn connection() -> WorkerConnection {
    WorkerConnection::init(&stage(), Some(vec![1, 2]), 4..7, 1)
        .unwrap()
        .0
}

#[test]
fn requests_name_the_stage_the_task_and_the_partitions() {
    let (_, request) = WorkerConnection::init(&stage(), Some(vec![1, 2]), 4..7, 1).unwrap();
    assert_eq!(request.url, "http://second");
    let message = request.message;
    assert_eq!(message.plan_proto, vec![1, 2]);
    assert_eq!(message.target_partition_start, 4);
    assert_eq!(message.target_partition_end, 7);
    assert_eq!(
        message.stage_key,
        Some(StageKey::new(vec![9; 16], 3, 1))
    );
    assert_eq!(message.target_task_index, 1);
    assert_eq!(message.target_task_count, 3);
}

fn refusal(plan: Option<Vec<u8>>, task: usize) -> ExecutionError {
    match WorkerConnection::init(&stage(), plan, 0..1, task) {
        Ok(_) => panic!("the connection should be refused"),
        Err(error) => error,
    }
}

#[test]
fn requests_need_a_plan_a_task_and_a_worker() {
    assert_eq!(refusal(None, 9), ExecutionError::PlanNotEncoded);
    assert_eq!(
        refusal(Some(vec![]), 3).message(),
        "ProgrammingError: Task 3 not found"
    );
    assert_eq!(
        refusal(Some(vec![]), 2).message(),
        "ProgrammingError: task is unassigned, cannot proceed"
    );
    assert_eq!(
        refusal(None, 0).message(),
        "The plan of the stage is not encoded"
    );
}

#[test]
fn queues_are_handed_out_once() {
    let mut connection = connection();
    assert_eq!(connection.queue_count(), 3);
    assert_eq!(connection.stream_partition(5), Ok(1));
    let error = connection.stream_partition(5).unwrap_err();
    assert_eq!(
        error.message(),
        "WorkerConnection has no stream for target partition 5. Was it already consumed?"
    );
    assert_eq!(
        connection.stream_partition(7),
        Err(ExecutionError::NoPartitionStream { partition: 7 })
    );
    assert_eq!(connection.stream_partition(4), Ok(0));
    assert_eq!(connection.stream_partition(6), Ok(2));
}

#[test]
fn messages_go_to_the_queue_of_their_partition() {
    let connection = connection();
    assert_eq!(connection.queue_of(4), Ok(0));
    assert_eq!(connection.queue_of(6), Ok(2));
    assert_eq!(
        connection.queue_of(3).unwrap_err().message(),
        "Received partition 3 in Flight metadata, but available partitions are 4..7"
    );
    assert!(connection.queue_of(7).is_err());
    assert!(connection.queue_of(u64::MAX).is_err());
}

#[test]
fn streams_are_read_until_they_fail_or_end() {
    let connection = connection();
    let step = |state, event| connection.on_event(state, event);
    assert_eq!(
        step(FeedState::Connecting, FeedEvent::Succeeded),
        (FeedState::Requesting, FeedAction::SendRequest)
    );
    assert_eq!(
        step(FeedState::Requesting, FeedEvent::Succeeded),
        (FeedState::Receiving, FeedAction::Receive)
    );
    assert_eq!(
        step(FeedState::Receiving, FeedEvent::Message { partition: 5, size: 70 }),
        (FeedState::Receiving, FeedAction::Forward { queue: 1, reserve: 70 })
    );
    assert_eq!(
        step(FeedState::Receiving, FeedEvent::Succeeded),
        (FeedState::Receiving, FeedAction::Receive)
    );
    assert_eq!(
        step(FeedState::Receiving, FeedEvent::Message { partition: 8, size: 70 }),
        (
            FeedState::Finished,
            FeedAction::FanOutError {
                error: ExecutionError::UnexpectedPartition {
                    received: 8,
                    start: 4,
                    end: 7
                }
            }
        )
    );
    for state in [
        FeedState::Connecting,
        FeedState::Requesting,
        FeedState::Receiving,
    ] {
        assert_eq!(
            step(state, FeedEvent::Failed),
            (FeedState::Finished, FeedAction::FanOutFailure)
        );
    }
    assert_eq!(
        step(FeedState::Receiving, FeedEvent::Undecodable),
        (FeedState::Finished, FeedAction::FanOutFailure)
    );
    assert_eq!(
        step(FeedState::Receiving, FeedEvent::Ended),
        (FeedState::Finished, FeedAction::Stop)
    );
    assert_eq!(
        step(FeedState::Receiving, FeedEvent::QueueDropped),
        (FeedState::Finished, FeedAction::Stop)
    );
    assert_eq!(
        step(FeedState::Finished, FeedEvent::Message { partition: 5, size: 70 }),
        (FeedState::Finished, FeedAction::Stop)
    );
}

#[test]
fn connections_are_opened_once_per_task() {
    let mut pool = WorkerConnectionPool::new(3);
    let opened = pool
        .get_or_init_worker_connection(&stage(), Some(vec![1]), 0..2, 0)
        .unwrap();
    assert_eq!(opened.unwrap().url, "http://first");
    let again = pool
        .get_or_init_worker_connection(&stage(), None, 5..9, 0)
        .unwrap();
    assert_eq!(again, None);
    match &mut pool.connections[0] {
        Some(Ok(connection)) => assert_eq!(connection.stream_partition(1), Ok(1)),
        _ => panic!("the first connection is open"),
    }
    assert!(pool.connections[1].is_none());
}

#[test]
fn failed_connections_stay_failed() {
    let mut pool = WorkerConnectionPool::new(3);
    let failed = pool.get_or_init_worker_connection(&stage(), Some(vec![1]), 0..2, 2);
    assert_eq!(failed, Err(ExecutionError::UnassignedTask));
    let mut assigned = stage();
    assigned.tasks[2].url = Some("http://third".to_string());
    let again = pool.get_or_init_worker_connection(&assigned, Some(vec![1]), 0..2, 2);
    assert_eq!(again, Err(ExecutionError::UnassignedTask));
    let fresh = pool
        .clone()
        .get_or_init_worker_connection(&assigned, Some(vec![1]), 0..2, 2);
    assert!(fresh.unwrap().is_some());
}

#[test]
fn pools_know_their_size() {
    let mut pool = WorkerConnectionPool::new(1);
    let error = pool
        .get_or_init_worker_connection(&stage(), Some(vec![1]), 0..2, 1)
        .unwrap_err();
    assert_eq!(
        error.message(),
        "WorkerConnections: Task index 1 not found, only have 1 tasks"
    );
    assert!(unassigned_tasks(2).iter().all(|task| task.url.is_none()));
}

fn config(collect_metrics: bool) -> DistributedConfig {
    DistributedConfig {
        max_tasks_per_stage: 0,
        broadcast_joins: false,
        children_isolator_unions: false,
        collect_metrics,
        local_exchange_split_mode: LOCAL_EXCHANGE_SPLIT_MODE_OFF.to_string(),
        local_exchange_split_max_owned_partitions: 0,
        local_exchange_split_target_partitions_per_task: 0,
    }
}

#[test]
fn the_metrics_setting_travels_with_the_request() {
    let mut headers = HeaderMap::new();
    headers.insert("x-other", HeaderValue::from_static("kept"));
    headers.append("distributed.collect_metrics", HeaderValue::from_static("a"));
    headers.append("distributed.collect_metrics", HeaderValue::from_static("b"));
    let headers = manually_propagate_distributed_config(headers, &config(true)).unwrap();
    assert_eq!(headers.len(), 2);
    assert_eq!(headers.get("x-other").unwrap(), "kept");
    assert_eq!(headers.get("distributed.collect_metrics").unwrap(), "true");
    let headers = manually_propagate_distributed_config(headers, &config(false)).unwrap();
    assert_eq!(headers.get("distributed.collect_metrics").unwrap(), "false");
    assert_eq!(headers.len(), 2);
}

#[test]
fn requests_have_room_for_a_few_thousand_headers() {
    let mut headers = HeaderMap::new();
    for i in 0..6553 {
        let name = http::header::HeaderName::from_bytes(format!("h{i}").as_bytes()).unwrap();
        headers.insert(name, HeaderValue::from_static("v"));
    }
    let headers = manually_propagate_distributed_config(headers, &config(true)).unwrap();
    assert_eq!(headers.len(), 6554);

    let mut full = HeaderMap::new();
    let mut i = 0;
    loop {
        let name = http::header::HeaderName::from_bytes(format!("h{i}").as_bytes()).unwrap();
        if full.try_insert(name, HeaderValue::from_static("v")).is_err() {
            break;
        }
        i += 1;
    }
    let error = manually_propagate_distributed_config(full, &config(true)).unwrap_err();
    assert_eq!(error, ExecutionError::TooManyHeaders);
    assert_eq!(error.message(), "The request has no room for another header");
}

#[test]
fn metadata_starts_without_content() {
    let mut metadata = FlightAppMetadata::new(7);
    assert_eq!(metadata.partition, 7);
    assert_eq!(metadata.content, None);
    let metrics = || MetricsCollection {
        tasks: vec![TaskMetrics {
            stage_key: Some(StageKey::new(vec![1], 2, 3)),
            metrics: vec![MetricsSetProto { encoded: vec![4] }],
        }],
    };
    metadata.set_content(AppMetadata::MetricsCollection(metrics()));
    assert_eq!(metadata.partition, 7);
    assert_eq!(
        metadata.content,
        Some(AppMetadata::MetricsCollection(metrics()))
    );
}

struct Weight(usize);

impl MemoryFootPrint for Weight {
    fn footprint(&self) -> u128 {
        self.0 as u128
    }

    fn get_memory_size(&self) -> usize {
        self.0
    }
}

#[test]
fn memory_reservation() {
    let pool: Arc<dyn MemoryPool> = Arc::new(UnboundedMemoryPool::default());
    let reservation = MemoryConsumer::new("queue").register(&pool);
    let mut merged: MergedStreams<Weight, String> = MergedStreams::new(2);
    for size in [1, 2, 3] {
        reservation.grow(merged.arrive(Ok(Weight(size))));
    }
    merged.end();
    for size in [4, 5] {
        reservation.grow(merged.arrive(Ok(Weight(size))));
    }
    assert_eq!(pool.reserved(), 15);

    for i in [1, 2, 3] {
        match merged.take() {
            Merged::Message { message, release } => {
                assert_eq!(message.map(|weight| weight.0), Ok(i));
                reservation.shrink(release);
            }
            _ => panic!("a message is waiting"),
        }
    }
    assert_eq!(pool.reserved(), 9);

    drop(merged);
    drop(reservation);
    assert_eq!(pool.reserved(), 0);
}

#[test]
fn merged_streams_end_when_all_of_them_have() {
    let mut merged: MergedStreams<Weight, String> = MergedStreams::new(2);
    assert!(matches!(merged.take(), Merged::Pending));
    merged.end();
    assert!(matches!(merged.take(), Merged::Pending));
    // Nothing is reserved for failures.
    assert_eq!(merged.arrive(Err("broken".to_string())), 0);
    merged.end();
    match merged.take() {
        Merged::Message { message, release } => {
            assert_eq!(message.map(|weight| weight.0), Err("broken".to_string()));
            assert_eq!(release, 0);
        }
        _ => panic!("a message is waiting"),
    }
    assert!(matches!(merged.take(), Merged::End));
    assert!(matches!(merged.take(), Merged::End));
    assert!(matches!(MergedStreams::<Weight, String>::new(0).take(), Merged::End));
}
