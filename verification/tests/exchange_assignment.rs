use datafusion_distributed::error::{ExchangeKind, ExchangeParameter, PlanError};
use datafusion_distributed::exchange_assignment::{split_ranges, ExchangeLayout, SlotReadPlan};

#[test]
fn shuffle_layout_preserves_scaled_fanout_assignment() {
    let layout = ExchangeLayout::try_shuffle(3, 2, 4).unwrap();

    assert_eq!(layout.max_partition_count_per_consumer(), 4);
    assert_eq!(layout.partitions_per_producer_task(), 8);
    assert_eq!(
        layout.resolve_slot(1, 2),
        Some(SlotReadPlan::Fanout {
            producer_tasks: 0..3,
            producer_partition: 6,
        })
    );
    assert_eq!(layout.resolve_slot(1, 4), None);
}

#[test]
fn coalesce_layout_assigns_task_groups() {
    let layout = ExchangeLayout::try_coalesce(3, 2, 4).unwrap();

    assert_eq!(layout.max_input_task_count_per_consumer(), Some(2));
    assert_eq!(layout.max_partition_count_per_consumer(), 8);
    assert_eq!(
        layout.resolve_slot(0, 4),
        Some(SlotReadPlan::Single {
            producer_task: 1,
            producer_partition: 0,
        })
    );
    assert_eq!(
        layout.resolve_slot(1, 3),
        Some(SlotReadPlan::Single {
            producer_task: 2,
            producer_partition: 3,
        })
    );
    assert_eq!(layout.resolve_slot(1, 4), None);
}

#[test]
fn broadcast_layout_preserves_per_consumer_partition_assignment() {
    let layout = ExchangeLayout::try_broadcast(2, 3, 4).unwrap();

    assert_eq!(layout.max_partition_count_per_consumer(), 4);
    assert_eq!(layout.partitions_per_producer_task(), 12);
    assert_eq!(
        layout.resolve_slot(2, 1),
        Some(SlotReadPlan::Fanout {
            producer_tasks: 0..2,
            producer_partition: 9,
        })
    );
    assert_eq!(layout.resolve_slot(2, 4), None);
}

#[test]
fn coalesced_slots_read_in_order() {
    let layout = ExchangeLayout::try_coalesce(5, 2, 3).unwrap();
    let mut reads = vec![];
    for consumer in 0..2 {
        for slot in 0..layout.max_partition_count_per_consumer() {
            match layout.resolve_slot(consumer, slot) {
                Some(SlotReadPlan::Single {
                    producer_task,
                    producer_partition,
                }) => reads.push((producer_task, producer_partition)),
                // Slots without a read come last.
                other => {
                    assert_eq!(other, None);
                    assert!(consumer == 1 && slot >= 6);
                }
            }
        }
    }
    let all: Vec<_> = (0..5).flat_map(|task| (0..3).map(move |p| (task, p))).collect();
    assert_eq!(reads, all);
}

#[test]
fn layouts_report_their_counts() {
    let shuffle = ExchangeLayout::try_shuffle(3, 2, 4).unwrap();
    assert_eq!(shuffle.producer_task_count(), 3);
    assert_eq!(shuffle.consumer_task_count(), 2);
    assert_eq!(shuffle.max_input_task_count_per_consumer(), None);

    let coalesce = ExchangeLayout::try_coalesce(5, 2, 3).unwrap();
    assert_eq!(coalesce.producer_task_count(), 5);
    assert_eq!(coalesce.consumer_task_count(), 2);
    assert_eq!(coalesce.partitions_per_producer_task(), 3);
    assert_eq!(coalesce.max_partition_count_per_consumer(), 9);
}

fn refusal(exchange: ExchangeKind, parameter: ExchangeParameter) -> PlanError {
    PlanError::ZeroExchangeParameter {
        exchange,
        parameter,
    }
}

#[test]
fn layouts_refuse_zero_counts() {
    assert_eq!(
        ExchangeLayout::try_shuffle(0, 0, 0).unwrap_err(),
        refusal(ExchangeKind::Shuffle, ExchangeParameter::ProducerTaskCount)
    );
    assert_eq!(
        ExchangeLayout::try_shuffle(1, 0, 0).unwrap_err(),
        refusal(ExchangeKind::Shuffle, ExchangeParameter::ConsumerTaskCount)
    );
    let error = ExchangeLayout::try_shuffle(1, 1, 0).unwrap_err();
    assert_eq!(
        error.message(),
        "shuffle exchange requires partitions_per_consumer > 0"
    );
    assert_eq!(
        ExchangeLayout::try_coalesce(0, 0, 1).unwrap_err().message(),
        "coalesce exchange requires consumer_task_count > 0"
    );
    assert_eq!(
        ExchangeLayout::try_coalesce(0, 1, 0).unwrap_err().message(),
        "coalesce exchange requires partitions_per_producer_task > 0"
    );
    assert_eq!(
        ExchangeLayout::try_broadcast(0, 1, 1)
            .unwrap_err()
            .message(),
        "broadcast exchange requires producer_task_count > 0"
    );
    assert!(ExchangeLayout::try_coalesce(0, 1, 1).is_ok());
}

#[test]
fn ranges_are_balanced_and_cover_everything() {
    assert_eq!(split_ranges(5, 2), vec![0..3, 3..5]);
    assert_eq!(split_ranges(2, 5), vec![0..1, 1..2, 2..2, 2..2, 2..2]);
    assert_eq!(split_ranges(0, 2), vec![0..0, 0..0]);
    assert!(split_ranges(7, 0).is_empty());
}

#[test]
fn every_partition_of_a_coalesce_is_read_once() {
    let layout = ExchangeLayout::try_coalesce(5, 2, 3).unwrap();
    let mut seen = vec![0; 15];
    for consumer in 0..2 {
        for slot in 0..layout.max_partition_count_per_consumer() {
            match layout.resolve_slot(consumer, slot) {
                Some(SlotReadPlan::Single {
                    producer_task,
                    producer_partition,
                }) => seen[producer_task * 3 + producer_partition] += 1,
                Some(_) => panic!("a coalesce reads one task at a time"),
                None => assert_eq!((consumer, slot / 3), (1, 2)),
            }
        }
    }
    assert!(seen.iter().all(|count| *count == 1));
}

#[test]
fn every_partition_of_a_shuffle_is_read_once_by_one_consumer() {
    let layout = ExchangeLayout::try_shuffle(3, 2, 4).unwrap();
    let mut seen = vec![0; 3 * 8];
    for consumer in 0..2 {
        for slot in 0..4 {
            match layout.resolve_slot(consumer, slot) {
                Some(SlotReadPlan::Fanout {
                    producer_tasks,
                    producer_partition,
                }) => {
                    assert_eq!(producer_partition / 4, consumer);
                    for task in producer_tasks {
                        seen[task * 8 + producer_partition] += 1;
                    }
                }
                _ => panic!("a shuffle reads all tasks"),
            }
        }
    }
    assert!(seen.iter().all(|count| *count == 1));
    assert_eq!(layout.resolve_slot(2, 0), None);
}
