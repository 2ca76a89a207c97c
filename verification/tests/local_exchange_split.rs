use std::sync::Arc;

use datafusion_distributed::arithmetic::lcm;
use datafusion_distributed::config::{
    DistributedConfig, LOCAL_EXCHANGE_SPLIT_MODE_FINAL_AGG,
    LOCAL_EXCHANGE_SPLIT_MODE_FINAL_AGG_AND_JOIN, LOCAL_EXCHANGE_SPLIT_MODE_OFF,
};
use datafusion_distributed::distribution::satisfies_hash;
use datafusion_distributed::error::PlanError;
use datafusion_distributed::insert_local_exchange_split::{
    hash_requirement, insert_local_exchange_split_for_stage,
    stage_contains_local_exchange_split_candidate, try_insert_split_on_unary_path,
};
use datafusion_distributed::plan::{
    AggregateMode, CardinalityEffect, Distribution, LocalPartitionCount, Operator, OperatorKind,
    PartitionMode, PartitionRule, PartitionScheme, PlanNode,
};
use datafusion_distributed::split_input::{max_owned_partition_count, SplitInput};

const KEY: usize = 0;

fn operator(name: &str, kind: OperatorKind) -> Operator {
    Operator {
        name: name.to_string(),
        handle: None,
        kind,
        fetch: None,
        cardinality_effect: CardinalityEffect::Unknown,
        scheme: PartitionScheme::Unknown,
        equal_exprs: vec![],
        benefits_from_input_partitioning: vec![],
        required_input_distribution: vec![],
        partition_rule: PartitionRule::Constant,
        rebuildable: true,
        input_stage: None,
    }
}

fn node(op: Operator, partition_count: usize, children: Vec<Arc<PlanNode>>) -> Arc<PlanNode> {
    Arc::new(PlanNode {
        op: Arc::new(op),
        partition_count,
        task_count: None,
        children,
    })
}

fn empty_key_exec() -> Arc<PlanNode> {
    node(operator("EmptyExec", OperatorKind::Other), 1, vec![])
}

fn shuffle_of(partitions: usize) -> Arc<PlanNode> {
    let repartition = node(
        Operator {
            scheme: PartitionScheme::Hash(vec![KEY]),
            ..operator("RepartitionExec", OperatorKind::Repartition)
        },
        partitions,
        vec![empty_key_exec()],
    );
    node(
        Operator {
            scheme: PartitionScheme::Hash(vec![KEY]),
            ..operator("NetworkShuffleExec", OperatorKind::NetworkShuffle)
        },
        partitions,
        vec![repartition],
    )
}

fn shuffle_key_exec() -> Arc<PlanNode> {
    shuffle_of(2)
}

fn unary(name: &str, kind: OperatorKind, child: Arc<PlanNode>) -> Arc<PlanNode> {
    let count = child.partition_count;
    let scheme = match &child.op.scheme {
        PartitionScheme::Hash(exprs) => PartitionScheme::Hash(exprs.clone()),
        _ => PartitionScheme::Unknown,
    };
    node(
        Operator {
            scheme,
            partition_rule: PartitionRule::Inherit(0),
            ..operator(name, kind)
        },
        count,
        vec![child],
    )
}

fn join(mode: PartitionMode, left: Arc<PlanNode>, right: Arc<PlanNode>) -> Arc<PlanNode> {
    let count = right.partition_count;
    let (benefits, required) = match mode {
        PartitionMode::Partitioned => (
            vec![true, true],
            vec![
                Distribution::HashPartitioned(vec![KEY]),
                Distribution::HashPartitioned(vec![KEY]),
            ],
        ),
        _ => (
            vec![false, true],
            vec![Distribution::SinglePartition, Distribution::Unspecified],
        ),
    };
    node(
        Operator {
            scheme: PartitionScheme::Hash(vec![KEY]),
            benefits_from_input_partitioning: benefits,
            required_input_distribution: required,
            partition_rule: PartitionRule::Inherit(1),
            ..operator("HashJoinExec", OperatorKind::HashJoin(mode))
        },
        count,
        vec![left, right],
    )
}

fn final_agg(child: Arc<PlanNode>) -> Arc<PlanNode> {
    let count = child.partition_count;
    node(
        Operator {
            scheme: PartitionScheme::Hash(vec![KEY]),
            benefits_from_input_partitioning: vec![true],
            required_input_distribution: vec![Distribution::HashPartitioned(vec![KEY])],
            partition_rule: PartitionRule::Inherit(0),
            ..operator(
                "AggregateExec",
                OperatorKind::Aggregate(AggregateMode::FinalPartitioned),
            )
        },
        count,
        vec![child],
    )
}

fn coalesce(child: Arc<PlanNode>) -> Arc<PlanNode> {
    node(
        operator("CoalescePartitionsExec", OperatorKind::CoalescePartitions),
        1,
        vec![child],
    )
}

fn split_candidate(
    owned_partition_count: usize,
    output_partition_count: usize,
    can_insert_split: bool,
) -> SplitInput {
    SplitInput {
        plan: empty_key_exec(),
        hash_exprs: vec![KEY],
        base_partition_count: 2,
        owned_partition_count,
        output_partition_count,
        already_split: !can_insert_split,
    }
}

fn config(mode: &str, max_owned: usize, target_partitions_per_task: usize) -> DistributedConfig {
    DistributedConfig {
        max_tasks_per_stage: 0,
        broadcast_joins: false,
        children_isolator_unions: false,
        collect_metrics: false,
        local_exchange_split_mode: mode.to_string(),
        local_exchange_split_max_owned_partitions: max_owned,
        local_exchange_split_target_partitions_per_task: target_partitions_per_task,
    }
}

fn split_test_config(target_partitions_per_task: usize) -> DistributedConfig {
    config(
        LOCAL_EXCHANGE_SPLIT_MODE_FINAL_AGG_AND_JOIN,
        2,
        target_partitions_per_task,
    )
}

fn describe(plan: &PlanNode, indent: usize) -> String {
    let mut text = format!(
        "{}{}: {}\n",
        "  ".repeat(indent),
        plan.op.name,
        plan.partition_count
    );
    for child in &plan.children {
        text += &describe(child, indent + 1);
    }
    text
}

fn assert_unchanged(plan: Arc<PlanNode>, d_cfg: &DistributedConfig, tasks: usize) {
    let before = describe(&plan, 0);
    let rewritten = insert_local_exchange_split_for_stage(plan, d_cfg, tasks).unwrap();
    assert!(!rewritten.transformed);
    assert_eq!(describe(&rewritten.data, 0), before);
}

#[test]
fn join_target_uses_target_when_divisible() {
    let left = split_candidate(1, 1, true);
    let right = split_candidate(2, 2, true);
    assert_eq!(left.aligned_target_partition_count(&right, 8), Some(8));
}

#[test]
fn join_target_uses_common_multiple() {
    let left = split_candidate(2, 2, true);
    let right = split_candidate(3, 3, true);
    assert_eq!(left.aligned_target_partition_count(&right, 8), Some(12));
}

#[test]
fn join_target_rejects_existing_wide_side_that_cannot_be_matched() {
    let left = split_candidate(5, 5, true);
    let right = split_candidate(3, 12, false);
    assert_eq!(left.aligned_target_partition_count(&right, 8), None);
}

#[test]
fn join_target_matches_existing_split_side() {
    let left = split_candidate(1, 1, true);
    let right = split_candidate(1, 8, false);
    assert_eq!(left.aligned_target_partition_count(&right, 8), Some(8));
}

#[test]
fn join_target_needs_one_producer_count_and_a_target() {
    let left = split_candidate(1, 1, true);
    let mut right = split_candidate(1, 1, true);
    assert_eq!(left.aligned_target_partition_count(&right, 0), None);
    right.base_partition_count = 3;
    assert_eq!(left.aligned_target_partition_count(&right, 8), None);
    assert_eq!(
        left.aligned_target_partition_count(&split_candidate(0, 0, true), 8),
        None
    );
}

#[test]
fn target_partition_count_uses_next_multiple_of_owned_count() {
    assert_eq!(
        split_candidate(2, 2, true).inferred_target_partition_count(8),
        Some(8)
    );
    assert_eq!(
        split_candidate(3, 3, true).inferred_target_partition_count(8),
        Some(9)
    );
    assert_eq!(
        split_candidate(8, 8, true).inferred_target_partition_count(8),
        None
    );
}

#[test]
fn split_after_shuffle_rejects_partition_local_fetch() {
    let shuffle = shuffle_key_exec();
    let limit = node(
        Operator {
            fetch: Some(10),
            partition_rule: PartitionRule::Inherit(0),
            ..operator("LocalLimitExec", OperatorKind::Other)
        },
        2,
        vec![shuffle],
    );
    let rewritten = try_insert_split_on_unary_path(limit, &split_test_config(8), 2, Some(4));

    assert!(rewritten.is_none());
}

#[test]
fn partitioned_join_preserves_counts_when_only_one_side_can_split() {
    let plan = coalesce(join(
        PartitionMode::Partitioned,
        shuffle_key_exec(),
        empty_key_exec(),
    ));
    assert_unchanged(plan, &split_test_config(8), 2);
}

#[test]
fn nested_partitioned_join_preserves_parent_required_count() {
    let inner_join = join(
        PartitionMode::Partitioned,
        shuffle_key_exec(),
        shuffle_key_exec(),
    );
    let plan = coalesce(join(
        PartitionMode::Partitioned,
        inner_join,
        shuffle_key_exec(),
    ));
    assert_unchanged(plan, &split_test_config(8), 2);
}

#[test]
fn partitioned_join_requirement_flows_through_collect_left_stream_child() {
    let inner_join = join(
        PartitionMode::Partitioned,
        shuffle_key_exec(),
        shuffle_key_exec(),
    );
    let collect_left_join = join(PartitionMode::CollectLeft, empty_key_exec(), inner_join);
    let plan = coalesce(join(
        PartitionMode::Partitioned,
        collect_left_join,
        shuffle_key_exec(),
    ));
    assert_unchanged(plan, &split_test_config(8), 2);
}

#[test]
fn final_agg_inserts_split() {
    let plan = unary(
        "SortExec",
        OperatorKind::Other,
        final_agg(shuffle_of(4)),
    );
    let rewritten =
        insert_local_exchange_split_for_stage(plan, &split_test_config(8), 2).unwrap();
    assert!(rewritten.transformed);
    assert_eq!(
        describe(&rewritten.data, 0),
        "SortExec: 8\n  AggregateExec: 8\n    LocalExchangeSplitExec: 8\n      \
         NetworkShuffleExec: 4\n        RepartitionExec: 4\n          EmptyExec: 1\n"
    );
    let split = &rewritten.data.children[0].children[0];
    match &split.op.kind {
        OperatorKind::LocalExchangeSplit {
            base_partition_count,
            local_partition_count,
        } => {
            assert_eq!(*base_partition_count, 4);
            assert_eq!(local_partition_count.get(), 2);
        }
        other => panic!("not a split: {other:?}"),
    }
    assert_eq!(split.op.scheme, PartitionScheme::Hash(vec![KEY]));
}

#[test]
fn final_agg_respects_owned_partition_cap() {
    let capped = config(LOCAL_EXCHANGE_SPLIT_MODE_FINAL_AGG_AND_JOIN, 0, 8);
    assert_unchanged(final_agg(shuffle_of(4)), &capped, 2);
    let one_task = config(LOCAL_EXCHANGE_SPLIT_MODE_FINAL_AGG_AND_JOIN, 3, 8);
    assert_unchanged(final_agg(shuffle_of(4)), &one_task, 1);
}

#[test]
fn off_mode_skips_final_agg_split() {
    let off = config(LOCAL_EXCHANGE_SPLIT_MODE_OFF, 2, 8);
    assert_unchanged(final_agg(shuffle_of(4)), &off, 2);
    assert_eq!(
        stage_contains_local_exchange_split_candidate(&final_agg(shuffle_of(4)), &off),
        Ok(false)
    );
}

#[test]
fn partitioned_join_splits_both_sides() {
    let plan = join(PartitionMode::Partitioned, shuffle_of(4), shuffle_of(4));
    let rewritten =
        insert_local_exchange_split_for_stage(plan, &split_test_config(8), 2).unwrap();
    assert!(rewritten.transformed);
    let side = "  LocalExchangeSplitExec: 8\n    NetworkShuffleExec: 4\n      \
                RepartitionExec: 4\n        EmptyExec: 1\n";
    assert_eq!(
        describe(&rewritten.data, 0),
        format!("HashJoinExec: 8\n{side}{side}")
    );
}

#[test]
fn joins_are_left_alone_where_only_aggregates_are_split() {
    let d_cfg = config(LOCAL_EXCHANGE_SPLIT_MODE_FINAL_AGG, 2, 8);
    let plan = join(
        PartitionMode::Partitioned,
        final_agg(shuffle_of(4)),
        final_agg(shuffle_of(4)),
    );
    assert_unchanged(plan, &d_cfg, 2);
    let split =
        insert_local_exchange_split_for_stage(final_agg(shuffle_of(4)), &d_cfg, 2).unwrap();
    assert!(split.transformed);
}

#[test]
fn splits_do_not_reach_below_a_fetch_or_behind_a_boundary() {
    let top_k = node(
        Operator {
            fetch: Some(3),
            partition_rule: PartitionRule::Inherit(0),
            ..operator("SortExec", OperatorKind::Other)
        },
        4,
        vec![final_agg(shuffle_of(4))],
    );
    assert_unchanged(top_k, &split_test_config(8), 2);

    let behind = node(
        operator("NetworkCoalesceExec", OperatorKind::NetworkCoalesce),
        8,
        vec![final_agg(shuffle_of(4))],
    );
    assert_unchanged(behind, &split_test_config(8), 2);
}

#[test]
fn an_existing_split_satisfies_the_count_it_has() {
    let split = node(
        Operator {
            scheme: PartitionScheme::Hash(vec![KEY]),
            partition_rule: PartitionRule::Scaled(2),
            ..operator(
                "LocalExchangeSplitExec",
                OperatorKind::LocalExchangeSplit {
                    base_partition_count: 4,
                    local_partition_count: LocalPartitionCount::new(2).unwrap(),
                },
            )
        },
        8,
        vec![shuffle_of(4)],
    );
    let d_cfg = split_test_config(8);
    let input = SplitInput::find_on_unary_path(Arc::clone(&split), &d_cfg, 2).unwrap();
    assert!(input.already_split);
    assert_eq!(input.owned_partition_count, 4);
    let kept = try_insert_split_on_unary_path(Arc::clone(&split), &d_cfg, 2, Some(8)).unwrap();
    assert!(!kept.transformed);
    assert!(try_insert_split_on_unary_path(split, &d_cfg, 2, Some(16)).is_none());
    assert!(LocalPartitionCount::new(0).is_none());
}

fn union_of_aggregates(partitions: usize) -> Arc<PlanNode> {
    node(
        Operator {
            partition_rule: PartitionRule::Sum,
            ..operator("UnionExec", OperatorKind::Union)
        },
        2 * partitions,
        vec![
            final_agg(shuffle_of(partitions)),
            final_agg(shuffle_of(partitions)),
        ],
    )
}

#[test]
fn unions_widen_with_their_inputs() {
    let union = union_of_aggregates(4);
    let rewritten =
        insert_local_exchange_split_for_stage(union, &split_test_config(8), 2).unwrap();
    assert_eq!(rewritten.data.partition_count, 16);
}

#[test]
fn joins_over_unions_stay_aligned() {
    for mode in [
        LOCAL_EXCHANGE_SPLIT_MODE_FINAL_AGG,
        LOCAL_EXCHANGE_SPLIT_MODE_FINAL_AGG_AND_JOIN,
    ] {
        let plan = join(
            PartitionMode::Partitioned,
            union_of_aggregates(2),
            shuffle_of(4),
        );
        assert_unchanged(plan, &config(mode, 2, 8), 2);
    }
}

#[test]
fn targets_may_be_any() {
    // Every count that can be counted is a target, and one that cannot is none.
    assert_eq!(
        split_candidate(3, 3, true).inferred_target_partition_count(usize::MAX),
        Some(usize::MAX)
    );
    assert_eq!(
        split_candidate(4, 4, true).inferred_target_partition_count(usize::MAX),
        None
    );
    let off = config(LOCAL_EXCHANGE_SPLIT_MODE_OFF, 2, usize::MAX);
    assert_unchanged(final_agg(shuffle_of(4)), &off, 2);
    let on = config(LOCAL_EXCHANGE_SPLIT_MODE_FINAL_AGG, 2, usize::MAX);
    assert_unchanged(shuffle_of(4), &on, 2);
    assert_unchanged(final_agg(shuffle_of(4)), &on, 2);
}

#[test]
fn unknown_modes_are_refused() {
    let error = insert_local_exchange_split_for_stage(
        empty_key_exec(),
        &config("sometimes", 2, 8),
        2,
    )
    .unwrap_err();
    assert_eq!(
        error,
        PlanError::UnknownSplitMode {
            mode: "sometimes".to_string()
        }
    );
    assert_eq!(
        error.message(),
        "Unknown local exchange split mode sometimes"
    );
}

#[test]
fn operators_that_cannot_be_rebuilt_fail_the_pass() {
    let aggregate = final_agg(shuffle_of(4));
    let stubborn = node(
        Operator {
            rebuildable: false,
            ..operator("CustomExec", OperatorKind::Other)
        },
        4,
        vec![aggregate],
    );
    let error =
        insert_local_exchange_split_for_stage(stubborn, &split_test_config(8), 2).unwrap_err();
    assert_eq!(error.message(), "Cannot rebuild CustomExec with new children");
}

#[test]
fn hash_requirements_need_a_consumer_that_benefits() {
    let aggregate = final_agg(shuffle_of(4));
    assert_eq!(hash_requirement(&aggregate, 0), Some(vec![KEY]));
    assert_eq!(hash_requirement(&aggregate, 1), None);
    let collect = join(PartitionMode::CollectLeft, empty_key_exec(), empty_key_exec());
    assert_eq!(hash_requirement(&collect, 0), None);
    assert_eq!(hash_requirement(&collect, 1), None);
}

fn hashed(count: usize, exprs: Vec<usize>, equal_exprs: Vec<(usize, usize)>) -> Arc<PlanNode> {
    node(
        Operator {
            scheme: PartitionScheme::Hash(exprs),
            equal_exprs,
            ..operator("CustomExec", OperatorKind::Other)
        },
        count,
        vec![],
    )
}

#[test]
fn hash_partitioning_satisfies_equal_keys_only() {
    assert!(satisfies_hash(&hashed(4, vec![1, 2], vec![]), &vec![1, 2]));
    assert!(!satisfies_hash(&hashed(4, vec![1, 2], vec![]), &vec![2, 1]));
    assert!(!satisfies_hash(&hashed(4, vec![1], vec![]), &vec![1, 2]));
    assert!(!satisfies_hash(&hashed(4, vec![1, 2], vec![]), &vec![1]));
    assert!(!satisfies_hash(&hashed(4, vec![], vec![]), &vec![]));
    assert!(satisfies_hash(&hashed(1, vec![], vec![]), &vec![1]));
    let equal = vec![(1, 5), (6, 5), (7, 8)];
    assert!(satisfies_hash(&hashed(4, vec![1], equal.clone()), &vec![6]));
    assert!(satisfies_hash(&hashed(4, vec![6], equal.clone()), &vec![1]));
    assert!(!satisfies_hash(&hashed(4, vec![1], equal.clone()), &vec![7]));
    assert!(satisfies_hash(&hashed(4, vec![2, 7], equal), &vec![2, 8]));
    let round_robin = node(
        Operator {
            scheme: PartitionScheme::RoundRobin,
            ..operator("RepartitionExec", OperatorKind::Repartition)
        },
        4,
        vec![],
    );
    assert!(!satisfies_hash(&round_robin, &vec![1]));
    assert!(!satisfies_hash(
        &node(operator("CustomExec", OperatorKind::Other), 2, vec![]),
        &vec![1]
    ));
}

#[test]
fn aggregates_by_other_keys_are_not_split() {
    let aggregate = final_agg(shuffle_of(4));
    let other_keys = node(
        Operator {
            scheme: PartitionScheme::Hash(vec![7]),
            benefits_from_input_partitioning: vec![true],
            required_input_distribution: vec![Distribution::HashPartitioned(vec![7])],
            partition_rule: PartitionRule::Inherit(0),
            ..operator(
                "AggregateExec",
                OperatorKind::Aggregate(AggregateMode::FinalPartitioned),
            )
        },
        4,
        vec![Arc::clone(&aggregate.children[0])],
    );
    assert_unchanged(other_keys, &split_test_config(8), 2);
}

#[test]
fn least_common_multiples_detect_overflow() {
    assert_eq!(lcm(4, 6), Some(12));
    assert_eq!(lcm(5, 5), Some(5));
    assert_eq!(lcm(0, 3), Some(0));
    assert_eq!(lcm(3, 0), Some(0));
    assert_eq!(lcm(0, 0), None);
    assert_eq!(lcm(usize::MAX, usize::MAX - 1), None);
    assert_eq!(lcm(usize::MAX, 1), Some(usize::MAX));
}

#[test]
fn owned_partitions_are_rounded_up() {
    assert_eq!(max_owned_partition_count(5, 2), 3);
    assert_eq!(max_owned_partition_count(4, 2), 2);
    assert_eq!(max_owned_partition_count(4, 0), 0);
    assert_eq!(max_owned_partition_count(0, 3), 0);
}
