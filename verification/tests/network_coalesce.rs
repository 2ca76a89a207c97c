use std::sync::Arc;

use datafusion_distributed::error::{ExecutionError, PlanError};
use datafusion_distributed::exchange_assignment::ExchangeLayout;
use datafusion_distributed::network_coalesce::{CoalesceStream, NetworkCoalesceExec};
use datafusion_distributed::plan::{
    CardinalityEffect, Operator, OperatorKind, PartitionRule, PartitionScheme, PlanNode, QueryId,
};
use datafusion_distributed::stage::{ExecutionTask, Stage};

const NIL: QueryId = QueryId { bytes: [0; 16] };

#[derive(Clone, Copy)]
struct Case {
    name: &'static str,
    input_tasks: usize,
    consumer_tasks: usize,
}

fn child_with(partition_count: usize) -> Arc<PlanNode> {
    Arc::new(PlanNode {
        op: Arc::new(Operator {
            name: "EmptyExec".to_string(),
            handle: None,
            kind: OperatorKind::Other,
            fetch: None,
            cardinality_effect: CardinalityEffect::Unknown,
            scheme: PartitionScheme::Unknown,
            equal_exprs: vec![],
            benefits_from_input_partitioning: vec![],
            required_input_distribution: vec![],
            partition_rule: PartitionRule::Constant,
            rebuildable: true,
            input_stage: None,
        }),
        partition_count,
        task_count: None,
        children: vec![],
    })
}

fn expected_groups(input_tasks: usize, consumer_tasks: usize) -> Vec<(usize, usize)> {
    assert!(consumer_tasks > 0, "consumer_tasks must be non-zero");

    let base_tasks_per_group = input_tasks / consumer_tasks;
    let groups_with_extra_task = input_tasks % consumer_tasks;
    let mut groups = Vec::with_capacity(consumer_tasks);
    let mut start_task = 0;

    for task_index in 0..consumer_tasks {
        let len = base_tasks_per_group + usize::from(task_index < groups_with_extra_task);
        groups.push((start_task, len));
        start_task += len;
    }

    groups
}

fn assert_case(case: Case) {
    const STAGE_NUM: usize = 1;

    let child = child_with(1);
    let child_partitions = child.partition_count;

    let layout =
        ExchangeLayout::try_coalesce(case.input_tasks, case.consumer_tasks, child_partitions)
            .unwrap();
    let exec =
        NetworkCoalesceExec::try_new_from_layout(Arc::clone(&child), NIL, STAGE_NUM, layout)
            .unwrap();

    // Output partitions are sized by the maximum group size.
    let max_group_size = case.input_tasks.div_ceil(case.consumer_tasks).max(1);
    assert_eq!(exec.partition_count, child_partitions * max_group_size);

    let groups = expected_groups(case.input_tasks, case.consumer_tasks);
    assert_eq!(groups.len(), case.consumer_tasks);

    let mut seen = vec![false; case.input_tasks];
    let mut expected_start = 0;
    let mut padding_slots = 0;

    for (index, (start, len)) in groups.into_iter().enumerate() {
        assert_eq!(
            start, expected_start,
            "case {} group {} should be contiguous",
            case.name, index
        );
        assert!(
            start + len <= case.input_tasks,
            "case {} group {} exceeds input task count",
            case.name,
            index
        );

        for (offset, seen_task) in seen.iter_mut().skip(start).take(len).enumerate() {
            let task = start + offset;
            assert!(
                !*seen_task,
                "case {} input task {} appears twice",
                case.name, task
            );
            *seen_task = true;
        }

        // The consumer reads exactly the tasks of its group.
        for slot in 0..exec.partition_count {
            let read = exec.read_of(index, case.consumer_tasks, slot).unwrap();
            if slot < len {
                let read = read.unwrap();
                assert_eq!(read.producer_task, start + slot);
                assert_eq!(read.producer_partition, 0);
                assert_eq!(read.target_partitions, 0..1);
            } else {
                assert_eq!(read, None);
            }
        }

        expected_start = start + len;
        padding_slots += max_group_size - len;
    }

    assert_eq!(
        expected_start, case.input_tasks,
        "case {} groups should cover all input tasks",
        case.name
    );
    assert!(
        seen.iter().all(|v| *v),
        "case {} missing at least one input task",
        case.name
    );

    let total_slots = case.consumer_tasks * max_group_size;
    let total_padding = total_slots - case.input_tasks;
    assert_eq!(
        padding_slots, total_padding,
        "case {} padding slots mismatch",
        case.name
    );
}

#[test]
fn validates_partition_coverage_one_to_many() {
    assert_case(Case {
        name: "1_to_n",
        input_tasks: 1,
        consumer_tasks: 3,
    })
}

#[test]
fn validates_partition_coverage_many_to_one() {
    assert_case(Case {
        name: "n_to_1",
        input_tasks: 4,
        consumer_tasks: 1,
    })
}

#[test]
fn validates_partition_coverage_many_to_fewer() {
    assert_case(Case {
        name: "n_to_m_n_gt_m",
        input_tasks: 5,
        consumer_tasks: 2,
    })
}

#[test]
fn validates_partition_coverage_fewer_to_many() {
    assert_case(Case {
        name: "m_to_n_n_gt_m",
        input_tasks: 2,
        consumer_tasks: 5,
    })
}

#[test]
fn coalesces_describe_themselves() {
    let exec = NetworkCoalesceExec::try_new(child_with(8), NIL, 2, 1, 2).unwrap();
    assert_eq!(
        exec.describe(),
        "[Stage 2] => NetworkCoalesceExec: output_partitions=16, input_tasks=2"
    );
    assert_eq!(exec.worker_connections.connections.len(), 2);
    assert!(exec.input_stage().tasks.iter().all(|task| task.url.is_none()));
}

#[test]
fn coalesces_need_a_coalesce_layout() {
    let layout = ExchangeLayout::try_shuffle(2, 1, 8).unwrap();
    let error = NetworkCoalesceExec::try_new_from_layout(child_with(8), NIL, 1, layout).unwrap_err();
    assert_eq!(error, PlanError::NotACoalesceLayout);
    assert_eq!(
        error.message(),
        "NetworkCoalesceExec requires a coalesce exchange layout"
    );
}

#[test]
fn coalesces_refuse_what_they_cannot_count() {
    let error = NetworkCoalesceExec::try_new(child_with(usize::MAX), NIL, 1, 1, 2).unwrap_err();
    assert_eq!(
        error.message(),
        "NetworkCoalesceExec would expose more partitions than can be counted"
    );
    let error = NetworkCoalesceExec::try_new(child_with(1), NIL, 1, 0, 2).unwrap_err();
    assert_eq!(
        error.message(),
        "coalesce exchange requires consumer_task_count > 0"
    );
}

#[test]
fn invalid_task_contexts_are_refused() {
    let exec = NetworkCoalesceExec::try_new(child_with(8), NIL, 2, 1, 2).unwrap();
    let error = exec.read_of(1, 1, 0).unwrap_err();
    assert_eq!(
        error,
        ExecutionError::InvalidTaskContext {
            task_index: 1,
            task_count: 1
        }
    );
    assert_eq!(
        error.message(),
        "NetworkCoalesceExec invalid task context: task_index=1 >= task_count=1"
    );
    let read = exec.read_of(0, 1, 9).unwrap().unwrap();
    assert_eq!((read.producer_task, read.producer_partition), (1, 1));
    assert_eq!(read.target_partitions, 0..8);
}

#[test]
fn input_stages_can_be_replaced() {
    let exec = NetworkCoalesceExec::try_new(child_with(8), NIL, 2, 1, 2).unwrap();
    let assigned = Stage {
        query_id: NIL,
        num: 5,
        plan: None,
        tasks: vec![ExecutionTask {
            url: Some("http://worker".to_string()),
        }],
    };
    let exec = exec.with_input_stage(assigned);
    assert_eq!(
        exec.describe(),
        "[Stage 5] => NetworkCoalesceExec: output_partitions=16, input_tasks=1"
    );
}

fn assigned(urls: &[Option<&str>]) -> NetworkCoalesceExec {
    let tasks = urls.len();
    NetworkCoalesceExec::try_new(child_with(2), NIL, 2, 1, tasks)
        .unwrap()
        .with_input_stage(Stage {
            query_id: NIL,
            num: 2,
            plan: None,
            tasks: urls
                .iter()
                .map(|url| ExecutionTask {
                    url: url.map(|url| url.to_string()),
                })
                .collect(),
        })
}

#[test]
fn connections_are_opened_by_the_first_read_of_a_task() {
    let mut exec = assigned(&[Some("http://a"), Some("http://b")]);
    let first = exec.execute(Some(vec![1]), 0, 1, 3).unwrap().unwrap();
    assert_eq!((first.task, first.queue), (1, 1));
    let request = first.request.unwrap();
    assert_eq!(request.url, "http://b");
    assert_eq!(request.message.target_partition_start, 0);
    assert_eq!(request.message.target_partition_end, 2);
    assert_eq!(request.message.target_task_index, 1);

    let second = exec.execute(Some(vec![1]), 0, 1, 2).unwrap().unwrap();
    assert_eq!(
        second,
        CoalesceStream {
            task: 1,
            queue: 0,
            request: None
        }
    );
    assert!(exec.worker_connections.connections[0].is_none());

    // Every partition is streamed once.
    assert_eq!(
        exec.execute(Some(vec![1]), 0, 1, 3),
        Err(ExecutionError::NoPartitionStream { partition: 1 })
    );
    assert_eq!(exec.execute(Some(vec![1]), 0, 1, 4), Ok(None));
    assert_eq!(
        exec.execute(Some(vec![1]), 2, 2, 0),
        Err(ExecutionError::InvalidTaskContext {
            task_index: 2,
            task_count: 2
        })
    );
}

#[test]
fn refused_connections_stay_refused() {
    let mut exec = assigned(&[None]);
    assert_eq!(
        exec.execute(Some(vec![1]), 0, 1, 0),
        Err(ExecutionError::UnassignedTask)
    );
    assert_eq!(
        exec.execute(None, 0, 1, 1),
        Err(ExecutionError::UnassignedTask)
    );

    let mut exec = assigned(&[Some("http://a")]);
    assert_eq!(
        exec.execute(None, 0, 1, 1),
        Err(ExecutionError::PlanNotEncoded)
    );
}
