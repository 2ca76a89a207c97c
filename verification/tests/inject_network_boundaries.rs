use std::sync::Arc;

use datafusion_distributed::config::{
    DistributedConfig, LOCAL_EXCHANGE_SPLIT_MODE_FINAL_AGG_AND_JOIN,
};
use datafusion_distributed::error::PlanError;
use datafusion_distributed::inject_network_boundaries::{inject_network_boundaries, Planner};
use datafusion_distributed::plan::{
    AggregateMode, CardinalityEffect, Distribution, Operator, OperatorKind, PartitionMode,
    PartitionRule, PartitionScheme, Plan, PlanNode, QueryId,
};
use datafusion_distributed::scale_factor::{
    calculate_scale_factor, ScaleFactor, TaskScale, UnscaledTasks,
};
use datafusion_distributed::task_count::{TaskCountAnnotation, TaskEstimation};
use datafusion_distributed::task_estimator::{NoTaskEstimates, TaskEstimator};
use datafusion_distributed::union_layout::{ProportionalUnions, UnionLayout};

const QUERY: QueryId = QueryId { bytes: [7; 16] };

struct CardinalityFactor(f64);

impl CardinalityFactor {
    fn value(&self, factor: &ScaleFactor) -> f64 {
        match factor {
            ScaleFactor::One => 1.0,
            ScaleFactor::Divided(inner) => self.value(inner) / self.0,
            ScaleFactor::Multiplied(inner) => self.value(inner) * self.0,
            ScaleFactor::Larger(a, b) => self.value(a).max(self.value(b)),
        }
    }
}

impl TaskScale for CardinalityFactor {
    fn scaled(&self, _: ScaleFactor, _: usize) -> usize {
        unreachable!()
    }

    fn scale(&self, factor: &ScaleFactor, tasks: usize) -> usize {
        (self.value(factor) * tasks as f64).ceil() as usize
    }
}

type Rule = fn(&PlanNode) -> Option<TaskEstimation>;

/// Files are read by three tasks, unless a rule on top says otherwise.
struct FileEstimator {
    rule: Rule,
}

fn no_rule(_: &PlanNode) -> Option<TaskEstimation> {
    None
}

impl TaskEstimator for FileEstimator {
    fn estimated(&self, _: Plan) -> Option<TaskCountAnnotation> {
        unreachable!()
    }

    fn scaled_leaf(&self, _: Plan, _: usize) -> Option<Plan> {
        unreachable!()
    }

    fn task_estimation(&self, plan: &Arc<PlanNode>) -> Option<TaskEstimation> {
        (self.rule)(plan).or_else(|| {
            (plan.op.name == "DataSourceExec").then(|| TaskEstimation::desired(3))
        })
    }

    fn scale_up_leaf_node(&self, plan: &Arc<PlanNode>, tasks: usize) -> Option<Arc<PlanNode>> {
        (plan.op.name == "DataSourceExec" && tasks > 1).then(|| {
            node(
                operator("PartitionIsolatorExec", OperatorKind::Other),
                plan.partition_count,
                vec![Arc::clone(plan)],
            )
        })
    }
}

fn operator(name: &str, kind: OperatorKind) -> Operator {
    Operator {
        name: name.to_string(),
        handle: None,
        kind,
        fetch: None,
        cardinality_effect: CardinalityEffect::Unknown,
        scheme: PartitionScheme::Unknown,
        equal_exprs: vec![],
        benefits_from_input_partitioning: vec![],
        required_input_distribution: vec![],
        partition_rule: PartitionRule::Constant,
        rebuildable: true,
        input_stage: None,
    }
}

fn node(op: Operator, partition_count: usize, children: Vec<Arc<PlanNode>>) -> Arc<PlanNode> {
    Arc::new(PlanNode {
        op: Arc::new(op),
        partition_count,
        task_count: None,
        children,
    })
}

fn scheme_of(plan: &PlanNode) -> PartitionScheme {
    match &plan.op.scheme {
        PartitionScheme::Hash(exprs) => PartitionScheme::Hash(exprs.clone()),
        PartitionScheme::RoundRobin => PartitionScheme::RoundRobin,
        PartitionScheme::Unknown => PartitionScheme::Unknown,
    }
}

fn unary(name: &str, effect: CardinalityEffect, child: Arc<PlanNode>) -> Arc<PlanNode> {
    let count = child.partition_count;
    node(
        Operator {
            cardinality_effect: effect,
            scheme: scheme_of(&child),
            partition_rule: PartitionRule::Inherit(0),
            ..operator(name, OperatorKind::Other)
        },
        count,
        vec![child],
    )
}

fn source() -> Arc<PlanNode> {
    node(operator("DataSourceExec", OperatorKind::Other), 3, vec![])
}

fn build_side_source() -> Arc<PlanNode> {
    node(
        Operator {
            handle: Some(1),
            ..operator("DataSourceExec", OperatorKind::Other)
        },
        3,
        vec![],
    )
}

fn filter(child: Arc<PlanNode>) -> Arc<PlanNode> {
    unary("FilterExec", CardinalityEffect::LowerEqual, child)
}

fn projection(child: Arc<PlanNode>) -> Arc<PlanNode> {
    unary("ProjectionExec", CardinalityEffect::Equal, child)
}

fn sort(child: Arc<PlanNode>) -> Arc<PlanNode> {
    unary("SortExec", CardinalityEffect::Equal, child)
}

fn repartition(scheme: PartitionScheme, child: Arc<PlanNode>) -> Arc<PlanNode> {
    node(
        Operator {
            cardinality_effect: CardinalityEffect::Equal,
            scheme,
            ..operator("RepartitionExec", OperatorKind::Repartition)
        },
        4,
        vec![child],
    )
}

fn hash_repartition(child: Arc<PlanNode>) -> Arc<PlanNode> {
    repartition(PartitionScheme::Hash(vec![0]), child)
}

fn round_robin(child: Arc<PlanNode>) -> Arc<PlanNode> {
    repartition(PartitionScheme::RoundRobin, child)
}

fn aggregate(mode: AggregateMode, child: Arc<PlanNode>) -> Arc<PlanNode> {
    let count = child.partition_count;
    node(
        Operator {
            cardinality_effect: CardinalityEffect::LowerEqual,
            scheme: scheme_of(&child),
            benefits_from_input_partitioning: vec![true],
            required_input_distribution: vec![match mode {
                AggregateMode::FinalPartitioned => Distribution::HashPartitioned(vec![0]),
                _ => Distribution::Unspecified,
            }],
            partition_rule: PartitionRule::Inherit(0),
            ..operator("AggregateExec", OperatorKind::Aggregate(mode))
        },
        count,
        vec![child],
    )
}

fn two_phase_aggregate(child: Arc<PlanNode>) -> Arc<PlanNode> {
    aggregate(
        AggregateMode::FinalPartitioned,
        hash_repartition(aggregate(AggregateMode::Partial, child)),
    )
}

fn fold(name: &str, kind: OperatorKind, child: Arc<PlanNode>) -> Arc<PlanNode> {
    node(operator(name, kind), 1, vec![child])
}

fn coalesce(child: Arc<PlanNode>) -> Arc<PlanNode> {
    fold(
        "CoalescePartitionsExec",
        OperatorKind::CoalescePartitions,
        child,
    )
}

fn broadcast(child: Arc<PlanNode>) -> Arc<PlanNode> {
    let count = child.partition_count;
    node(
        Operator {
            partition_rule: PartitionRule::Inherit(0),
            ..operator("BroadcastExec", OperatorKind::Broadcast)
        },
        count,
        vec![child],
    )
}

fn collect_left_join(left: Arc<PlanNode>, right: Arc<PlanNode>) -> Arc<PlanNode> {
    let count = right.partition_count;
    node(
        Operator {
            partition_rule: PartitionRule::Inherit(1),
            ..operator(
                "HashJoinExec",
                OperatorKind::HashJoin(PartitionMode::CollectLeft),
            )
        },
        count,
        vec![left, right],
    )
}

fn union(children: Vec<Arc<PlanNode>>) -> Arc<PlanNode> {
    let count = children.iter().map(|child| child.partition_count).sum();
    node(
        Operator {
            partition_rule: PartitionRule::Sum,
            ..operator("UnionExec", OperatorKind::Union)
        },
        count,
        children,
    )
}

fn config() -> DistributedConfig {
    DistributedConfig {
        max_tasks_per_stage: 0,
        broadcast_joins: false,
        children_isolator_unions: true,
        collect_metrics: false,
        local_exchange_split_mode: LOCAL_EXCHANGE_SPLIT_MODE_FINAL_AGG_AND_JOIN.to_string(),
        local_exchange_split_max_owned_partitions: 2,
        local_exchange_split_target_partitions_per_task: 8,
    }
}

fn plan_with(
    plan: Arc<PlanNode>,
    d_cfg: &DistributedConfig,
    workers: usize,
    rule: Rule,
) -> Arc<PlanNode> {
    let planner = Planner {
        d_cfg,
        workers: Ok(workers),
        query_id: QUERY,
        estimator: &FileEstimator { rule },
        unions: &ProportionalUnions,
        scale: &CardinalityFactor(1.5),
    };
    planner.inject(plan).unwrap()
}

fn annotate(plan: Arc<PlanNode>) -> String {
    describe(&plan_with(plan, &config(), 4, no_rule), 0)
}

fn annotate_broadcast(plan: Arc<PlanNode>, workers: usize, rule: Rule) -> String {
    let d_cfg = DistributedConfig {
        broadcast_joins: true,
        ..config()
    };
    describe(&plan_with(plan, &d_cfg, workers, rule), 0)
}

fn describe(plan: &PlanNode, indent: usize) -> String {
    let mut text = format!(
        "{}{}: task_count={:?}\n",
        "  ".repeat(indent),
        plan.op.name,
        plan.task_count.unwrap()
    );
    for child in &plan.children {
        text += &describe(child, indent + 1);
    }
    text
}

fn lines(text: &str) -> String {
    text.lines().map(|line| format!("{line}\n")).collect()
}

#[test]
fn test_select_all() {
    assert_eq!(annotate(source()), "DataSourceExec: task_count=Desired(3)\n");
}

#[test]
fn test_aggregation() {
    let plan = projection(fold(
        "SortPreservingMergeExec",
        OperatorKind::SortPreservingMerge,
        sort(projection(two_phase_aggregate(source()))),
    ));
    assert_eq!(
        annotate(plan),
        lines(
            "ProjectionExec: task_count=Maximum(1)
  SortPreservingMergeExec: task_count=Maximum(1)
    NetworkCoalesceExec: task_count=Maximum(1)
      SortExec: task_count=Desired(2)
        ProjectionExec: task_count=Desired(2)
          AggregateExec: task_count=Desired(2)
            LocalExchangeSplitExec: task_count=Desired(2)
              NetworkShuffleExec: task_count=Desired(2)
                RepartitionExec: task_count=Desired(3)
                  AggregateExec: task_count=Desired(3)
                    PartitionIsolatorExec: task_count=Desired(3)
                      DataSourceExec: task_count=Desired(3)"
        )
    );
}

#[test]
fn test_left_join() {
    let plan = collect_left_join(coalesce(source()), source());
    assert_eq!(
        annotate(plan),
        lines(
            "HashJoinExec: task_count=Maximum(1)
  CoalescePartitionsExec: task_count=Maximum(1)
    DataSourceExec: task_count=Maximum(1)
  DataSourceExec: task_count=Maximum(1)"
        )
    );
}

#[test]
fn test_left_join_distributed() {
    let side = || projection(two_phase_aggregate(filter(round_robin(source()))));
    let plan = collect_left_join(coalesce(side()), side());
    assert_eq!(
        annotate(plan),
        lines(
            "HashJoinExec: task_count=Maximum(1)
  CoalescePartitionsExec: task_count=Maximum(1)
    NetworkCoalesceExec: task_count=Maximum(1)
      ProjectionExec: task_count=Desired(2)
        AggregateExec: task_count=Desired(2)
          LocalExchangeSplitExec: task_count=Desired(2)
            NetworkShuffleExec: task_count=Desired(2)
              RepartitionExec: task_count=Desired(3)
                AggregateExec: task_count=Desired(3)
                  FilterExec: task_count=Desired(3)
                    RepartitionExec: task_count=Desired(3)
                      PartitionIsolatorExec: task_count=Desired(3)
                        DataSourceExec: task_count=Desired(3)
  ProjectionExec: task_count=Maximum(1)
    AggregateExec: task_count=Maximum(1)
      NetworkShuffleExec: task_count=Maximum(1)
        RepartitionExec: task_count=Desired(3)
          AggregateExec: task_count=Desired(3)
            FilterExec: task_count=Desired(3)
              RepartitionExec: task_count=Desired(3)
                PartitionIsolatorExec: task_count=Desired(3)
                  DataSourceExec: task_count=Desired(3)"
        )
    );
}

#[test]
fn test_inner_join() {
    let plan = collect_left_join(coalesce(source()), source());
    assert_eq!(
        annotate(plan),
        lines(
            "HashJoinExec: task_count=Maximum(1)
  CoalescePartitionsExec: task_count=Maximum(1)
    DataSourceExec: task_count=Maximum(1)
  DataSourceExec: task_count=Maximum(1)"
        )
    );
}

#[test]
fn test_distinct() {
    assert_eq!(
        annotate(two_phase_aggregate(source())),
        lines(
            "AggregateExec: task_count=Desired(2)
  LocalExchangeSplitExec: task_count=Desired(2)
    NetworkShuffleExec: task_count=Desired(2)
      RepartitionExec: task_count=Desired(3)
        AggregateExec: task_count=Desired(3)
          PartitionIsolatorExec: task_count=Desired(3)
            DataSourceExec: task_count=Desired(3)"
        )
    );
}

#[test]
fn test_union_all() {
    let plan = union(vec![
        filter(round_robin(source())),
        projection(filter(round_robin(source()))),
    ]);
    assert_eq!(
        annotate(plan),
        lines(
            "ChildrenIsolatorUnionExec: task_count=Desired(4)
  FilterExec: task_count=Maximum(2)
    RepartitionExec: task_count=Maximum(2)
      PartitionIsolatorExec: task_count=Maximum(2)
        DataSourceExec: task_count=Maximum(2)
  ProjectionExec: task_count=Maximum(2)
    FilterExec: task_count=Maximum(2)
      RepartitionExec: task_count=Maximum(2)
        PartitionIsolatorExec: task_count=Maximum(2)
          DataSourceExec: task_count=Maximum(2)"
        )
    );
}

#[test]
fn test_subquery() {
    assert_eq!(
        annotate(filter(round_robin(source()))),
        lines(
            "FilterExec: task_count=Desired(3)
  RepartitionExec: task_count=Desired(3)
    PartitionIsolatorExec: task_count=Desired(3)
      DataSourceExec: task_count=Desired(3)"
        )
    );
}

#[test]
fn test_window_function() {
    let plan = projection(unary(
        "BoundedWindowAggExec",
        CardinalityEffect::Equal,
        sort(hash_repartition(source())),
    ));
    assert_eq!(
        annotate(plan),
        lines(
            "ProjectionExec: task_count=Desired(3)
  BoundedWindowAggExec: task_count=Desired(3)
    SortExec: task_count=Desired(3)
      NetworkShuffleExec: task_count=Desired(3)
        RepartitionExec: task_count=Desired(3)
          PartitionIsolatorExec: task_count=Desired(3)
            DataSourceExec: task_count=Desired(3)"
        )
    );
}

#[test]
fn test_children_isolator_union() {
    let plan = union(vec![
        filter(round_robin(source())),
        projection(filter(round_robin(source()))),
        projection(filter(round_robin(source()))),
    ]);
    assert_eq!(
        annotate(plan),
        lines(
            "ChildrenIsolatorUnionExec: task_count=Desired(4)
  FilterExec: task_count=Maximum(1)
    RepartitionExec: task_count=Maximum(1)
      DataSourceExec: task_count=Maximum(1)
  ProjectionExec: task_count=Maximum(1)
    FilterExec: task_count=Maximum(1)
      RepartitionExec: task_count=Maximum(1)
        DataSourceExec: task_count=Maximum(1)
  ProjectionExec: task_count=Maximum(2)
    FilterExec: task_count=Maximum(2)
      RepartitionExec: task_count=Maximum(2)
        PartitionIsolatorExec: task_count=Maximum(2)
          DataSourceExec: task_count=Maximum(2)"
        )
    );
}

fn one_task_repartitions(plan: &PlanNode) -> Option<TaskEstimation> {
    matches!(plan.op.kind, OperatorKind::Repartition).then(|| TaskEstimation::maximum(1))
}

#[test]
fn test_intermediate_task_estimator() {
    let plan = plan_with(
        two_phase_aggregate(source()),
        &config(),
        4,
        one_task_repartitions,
    );
    assert_eq!(
        describe(&plan, 0),
        lines(
            "AggregateExec: task_count=Desired(1)
  NetworkShuffleExec: task_count=Desired(1)
    RepartitionExec: task_count=Maximum(1)
      AggregateExec: task_count=Maximum(1)
        DataSourceExec: task_count=Maximum(1)"
        )
    );
}

fn one_task_filters(plan: &PlanNode) -> Option<TaskEstimation> {
    (plan.op.name == "FilterExec").then(|| TaskEstimation::maximum(1))
}

#[test]
fn test_union_all_limited_by_intermediate_estimator() {
    let plan = union(vec![
        filter(round_robin(source())),
        projection(filter(round_robin(source()))),
    ]);
    assert_eq!(
        describe(&plan_with(plan, &config(), 4, one_task_filters), 0),
        lines(
            "ChildrenIsolatorUnionExec: task_count=Desired(2)
  FilterExec: task_count=Maximum(1)
    RepartitionExec: task_count=Maximum(1)
      DataSourceExec: task_count=Maximum(1)
  ProjectionExec: task_count=Maximum(1)
    FilterExec: task_count=Maximum(1)
      RepartitionExec: task_count=Maximum(1)
        DataSourceExec: task_count=Maximum(1)"
        )
    );
}

#[test]
fn test_broadcast_join_annotation() {
    let plan = collect_left_join(coalesce(broadcast(source())), source());
    assert_eq!(
        annotate_broadcast(plan, 4, no_rule),
        lines(
            "HashJoinExec: task_count=Desired(3)
  CoalescePartitionsExec: task_count=Desired(3)
    NetworkBroadcastExec: task_count=Desired(3)
      BroadcastExec: task_count=Desired(3)
        PartitionIsolatorExec: task_count=Desired(3)
          DataSourceExec: task_count=Desired(3)
  PartitionIsolatorExec: task_count=Desired(3)
    DataSourceExec: task_count=Desired(3)"
        )
    );
}

#[test]
fn test_broadcast_datasource_as_build_child() {
    let one_group = || node(operator("DataSourceExec", OperatorKind::Other), 1, vec![]);
    let plan = collect_left_join(coalesce(broadcast(one_group())), one_group());
    let annotated = annotate_broadcast(plan, 4, no_rule);
    assert!(annotated.contains("Broadcast"));
    assert_eq!(
        annotated,
        lines(
            "HashJoinExec: task_count=Desired(3)
  CoalescePartitionsExec: task_count=Desired(3)
    NetworkBroadcastExec: task_count=Desired(3)
      BroadcastExec: task_count=Desired(3)
        PartitionIsolatorExec: task_count=Desired(3)
          DataSourceExec: task_count=Desired(3)
  PartitionIsolatorExec: task_count=Desired(3)
    DataSourceExec: task_count=Desired(3)"
        )
    );
}

#[test]
fn test_broadcast_disabled_default() {
    let annotated = annotate(collect_left_join(coalesce(source()), source()));
    assert!(!annotated.contains("Broadcast"));
    assert_eq!(
        annotated,
        lines(
            "HashJoinExec: task_count=Maximum(1)
  CoalescePartitionsExec: task_count=Maximum(1)
    DataSourceExec: task_count=Maximum(1)
  DataSourceExec: task_count=Maximum(1)"
        )
    );
}

fn one_task_build_side(plan: &PlanNode) -> Option<TaskEstimation> {
    (plan.op.handle == Some(1)).then(|| TaskEstimation::maximum(1))
}

#[test]
fn test_broadcast_one_to_many() {
    let plan = collect_left_join(coalesce(broadcast(build_side_source())), source());
    assert_eq!(
        annotate_broadcast(plan, 3, one_task_build_side),
        lines(
            "HashJoinExec: task_count=Desired(3)
  CoalescePartitionsExec: task_count=Desired(3)
    NetworkBroadcastExec: task_count=Desired(3)
      BroadcastExec: task_count=Maximum(1)
        DataSourceExec: task_count=Maximum(1)
  PartitionIsolatorExec: task_count=Desired(3)
    DataSourceExec: task_count=Desired(3)"
        )
    );
}

fn one_task_broadcast_builds(plan: &PlanNode) -> Option<TaskEstimation> {
    (matches!(plan.op.kind, OperatorKind::CoalescePartitions)
        && matches!(plan.children[0].op.kind, OperatorKind::Broadcast))
    .then(|| TaskEstimation::maximum(1))
}

#[test]
fn test_broadcast_build_coalesce_caps_join_stage() {
    let plan = collect_left_join(coalesce(broadcast(source())), source());
    assert_eq!(
        annotate_broadcast(plan, 3, one_task_broadcast_builds),
        lines(
            "HashJoinExec: task_count=Maximum(1)
  CoalescePartitionsExec: task_count=Maximum(1)
    NetworkBroadcastExec: task_count=Maximum(1)
      BroadcastExec: task_count=Desired(3)
        PartitionIsolatorExec: task_count=Desired(3)
          DataSourceExec: task_count=Desired(3)
  DataSourceExec: task_count=Maximum(1)"
        )
    );
}

#[test]
fn test_broadcast_multi_join_chain() {
    let inner = collect_left_join(coalesce(broadcast(source())), source());
    let plan = collect_left_join(coalesce(broadcast(inner)), source());
    assert_eq!(
        annotate_broadcast(plan, 4, no_rule),
        lines(
            "HashJoinExec: task_count=Desired(3)
  CoalescePartitionsExec: task_count=Desired(3)
    NetworkBroadcastExec: task_count=Desired(3)
      BroadcastExec: task_count=Desired(3)
        HashJoinExec: task_count=Desired(3)
          CoalescePartitionsExec: task_count=Desired(3)
            NetworkBroadcastExec: task_count=Desired(3)
              BroadcastExec: task_count=Desired(3)
                PartitionIsolatorExec: task_count=Desired(3)
                  DataSourceExec: task_count=Desired(3)
          PartitionIsolatorExec: task_count=Desired(3)
            DataSourceExec: task_count=Desired(3)
  PartitionIsolatorExec: task_count=Desired(3)
    DataSourceExec: task_count=Desired(3)"
        )
    );
}

#[test]
fn test_broadcast_union_children_isolator_annotation() {
    let side = || collect_left_join(coalesce(broadcast(source())), source());
    let plan = union(vec![side(), side(), side()]);
    assert_eq!(
        annotate_broadcast(plan, 4, no_rule),
        lines(
            "ChildrenIsolatorUnionExec: task_count=Desired(4)
  HashJoinExec: task_count=Maximum(1)
    CoalescePartitionsExec: task_count=Maximum(1)
      NetworkBroadcastExec: task_count=Maximum(1)
        BroadcastExec: task_count=Desired(3)
          PartitionIsolatorExec: task_count=Desired(3)
            DataSourceExec: task_count=Desired(3)
    DataSourceExec: task_count=Maximum(1)
  HashJoinExec: task_count=Maximum(1)
    CoalescePartitionsExec: task_count=Maximum(1)
      NetworkBroadcastExec: task_count=Maximum(1)
        BroadcastExec: task_count=Desired(3)
          PartitionIsolatorExec: task_count=Desired(3)
            DataSourceExec: task_count=Desired(3)
    DataSourceExec: task_count=Maximum(1)
  HashJoinExec: task_count=Maximum(2)
    CoalescePartitionsExec: task_count=Maximum(2)
      NetworkBroadcastExec: task_count=Maximum(2)
        BroadcastExec: task_count=Desired(3)
          PartitionIsolatorExec: task_count=Desired(3)
            DataSourceExec: task_count=Desired(3)
    PartitionIsolatorExec: task_count=Maximum(2)
      DataSourceExec: task_count=Maximum(2)"
        )
    );
}

fn stage_nums(plan: &PlanNode, nums: &mut Vec<usize>) {
    let before = nums.len();
    for child in &plan.children {
        stage_nums(child, nums);
    }
    if let Some(stage) = plan.op.input_stage {
        assert!(nums[before..].iter().all(|num| *num < stage.num));
        assert_eq!(stage.query_id, QUERY);
        assert!(stage.tasks <= 2);
        nums.push(stage.num);
    }
}

#[test]
fn stages_are_numbered_from_one_and_respect_the_cap() {
    let d_cfg = DistributedConfig {
        max_tasks_per_stage: 2,
        ..config()
    };
    let side = || two_phase_aggregate(two_phase_aggregate(source()));
    let plan = coalesce(union(vec![side(), side()]));
    let planned = plan_with(plan, &d_cfg, 9, no_rule);
    let mut nums = vec![];
    stage_nums(&planned, &mut nums);
    assert_eq!(nums, vec![1, 2, 3, 4, 5]);
    assert_eq!(planned.task_count, Some(TaskCountAnnotation::Maximum(1)));
}

#[test]
fn boundaries_expose_the_partitions_of_their_stage() {
    let plan = plan_with(
        coalesce(two_phase_aggregate(source())),
        &config(),
        4,
        no_rule,
    );
    let network_coalesce = &plan.children[0];
    assert_eq!(network_coalesce.op.name, "NetworkCoalesceExec");
    assert_eq!(network_coalesce.partition_count, 16);
    let aggregate = &network_coalesce.children[0];
    assert_eq!(aggregate.partition_count, 8);
    let shuffle = &aggregate.children[0].children[0];
    assert_eq!(shuffle.op.name, "NetworkShuffleExec");
    assert_eq!(shuffle.partition_count, 4);
    assert_eq!(shuffle.op.scheme, PartitionScheme::Hash(vec![0]));
    assert_eq!(shuffle.op.input_stage.unwrap().tasks, 3);
}

#[test]
fn workers_are_listed_only_where_they_cap_the_tasks() {
    let planner = |d_cfg| Planner {
        d_cfg,
        workers: Err("no cluster".to_string()),
        query_id: QUERY,
        estimator: &NoTaskEstimates,
        unions: &ProportionalUnions,
        scale: &UnscaledTasks,
    };
    let d_cfg = config();
    let error = planner(&d_cfg).inject(filter(source())).unwrap_err();
    assert_eq!(error.message(), "no cluster");
    let planned = planner(&d_cfg).inject(source()).unwrap();
    assert_eq!(planned.task_count, Some(TaskCountAnnotation::Maximum(1)));
    let capped = DistributedConfig {
        max_tasks_per_stage: 5,
        ..config()
    };
    let planned = planner(&capped).inject(filter(source())).unwrap();
    assert_eq!(planned.task_count, Some(TaskCountAnnotation::Maximum(1)));
    assert_eq!(planner(&capped).max_tasks(), Ok(5));
}

#[test]
fn without_workers_one_task_is_left() {
    let planner = Planner {
        d_cfg: &config(),
        workers: Ok(0),
        query_id: QUERY,
        estimator: &FileEstimator { rule: no_rule },
        unions: &ProportionalUnions,
        scale: &UnscaledTasks,
    };
    assert_eq!(planner.max_tasks(), Ok(1));
    let planned = planner.inject(filter(source())).unwrap();
    assert_eq!(planned.task_count, Some(TaskCountAnnotation::Desired(1)));
}

#[test]
fn unions_without_tasks_cannot_be_divided() {
    fn no_tasks(plan: &PlanNode) -> Option<TaskEstimation> {
        plan.children
            .is_empty()
            .then(|| TaskEstimation::desired(0))
    }
    let planner = Planner {
        d_cfg: &config(),
        workers: Ok(2),
        query_id: QUERY,
        estimator: &FileEstimator { rule: no_tasks },
        unions: &ProportionalUnions,
        scale: &UnscaledTasks,
    };
    let error = planner.inject(union(vec![source(), source()])).unwrap_err();
    assert_eq!(error, PlanError::UnionTaskCounts);
    assert_eq!(
        error.message(),
        "Cannot divide the tasks of a union among its children"
    );
}

#[test]
fn propagation_needs_recorded_counts_below_unions() {
    let planner = Planner {
        d_cfg: &config(),
        workers: Ok(2),
        query_id: QUERY,
        estimator: &NoTaskEstimates,
        unions: &ProportionalUnions,
        scale: &UnscaledTasks,
    };
    let error = planner
        .propagate_task_count_until_network_boundaries(
            &union(vec![source()]),
            TaskCountAnnotation::Desired(2),
        )
        .unwrap_err();
    assert_eq!(
        error.message(),
        "Missing task count for node DataSourceExec. This is a bug in Distributed DataFusion's \
         planner, please report it."
    );
}

#[test]
fn coalesces_without_partitions_are_refused() {
    let empty = node(operator("EmptyExec", OperatorKind::Other), 0, vec![]);
    let planner = Planner {
        d_cfg: &config(),
        workers: Ok(2),
        query_id: QUERY,
        estimator: &NoTaskEstimates,
        unions: &ProportionalUnions,
        scale: &UnscaledTasks,
    };
    let error = planner.inject(coalesce(filter(empty))).unwrap_err();
    assert_eq!(
        error.message(),
        "coalesce exchange requires partitions_per_producer_task > 0"
    );
}

#[test]
fn scale_factors_follow_cardinality_effects() {
    let stage = hash_repartition(aggregate(AggregateMode::Partial, filter(source())));
    let factor = calculate_scale_factor(&stage);
    assert_eq!(
        factor,
        ScaleFactor::Divided(Box::new(ScaleFactor::Divided(Box::new(ScaleFactor::One))))
    );
    let scale = CardinalityFactor(1.5);
    assert!((scale.value(&factor) - 0.444).abs() < 0.001);
    assert_eq!(scale.scale(&factor, 9), 4);

    let explode = unary("UnnestExec", CardinalityEffect::GreaterEqual, source());
    let wide = collect_left_join(filter(source()), explode);
    let factor = calculate_scale_factor(&wide);
    assert_eq!(scale.value(&factor), 1.5);
    assert_eq!(scale.scale(&factor, 3), 5);
    assert_eq!(UnscaledTasks.scale(&factor, 3), 3);
}

#[test]
fn scale_factors_do_not_look_behind_boundaries() {
    let planned = plan_with(two_phase_aggregate(source()), &config(), 4, no_rule);
    let split = &planned.children[0];
    assert_eq!(calculate_scale_factor(split), ScaleFactor::One);
    assert_eq!(
        calculate_scale_factor(&planned),
        ScaleFactor::Divided(Box::new(ScaleFactor::One))
    );
}

fn shares(counts: &[usize], tasks: usize) -> Vec<usize> {
    let partitions = vec![4; counts.len()];
    ProportionalUnions
        .isolate(&counts.to_vec(), &partitions, tasks)
        .unwrap()
        .child_tasks
}

#[test]
fn union_tasks_are_divided_in_proportion() {
    assert_eq!(shares(&[3, 3], 4), vec![2, 2]);
    assert_eq!(shares(&[3, 3, 3], 4), vec![1, 1, 2]);
    assert_eq!(shares(&[5, 5], 5), vec![2, 3]);
    assert_eq!(shares(&[5, 2], 5), vec![3, 2]);
    assert_eq!(shares(&[1, 1, 1], 2), vec![1, 1, 1]);
    let union = ProportionalUnions
        .isolate(&vec![1, 1], &vec![3, 5], 2)
        .unwrap();
    assert_eq!(union.partition_count, 5);
    assert!(ProportionalUnions.isolate(&vec![], &vec![], 2).is_none());
}

fn query_ids(plan: &PlanNode) -> Vec<[u8; 16]> {
    let mut ids: Vec<[u8; 16]> = plan
        .op
        .input_stage
        .iter()
        .map(|stage| stage.query_id.bytes)
        .collect();
    for child in &plan.children {
        ids.extend(query_ids(child));
    }
    ids
}

#[test]
fn every_query_gets_an_id_of_its_own() {
    let d_cfg = config();
    let plan = || coalesce(two_phase_aggregate(source()));
    let inject = |plan| {
        inject_network_boundaries(
            plan,
            &d_cfg,
            Ok(4),
            &FileEstimator { rule: no_rule },
            &ProportionalUnions,
            &CardinalityFactor(1.5),
        )
        .unwrap()
    };
    let first = query_ids(&inject(plan()));
    let second = query_ids(&inject(plan()));
    assert_eq!(first.len(), 2);
    assert_eq!(first[0], first[1]);
    assert_ne!(first[0], second[0]);
    assert_eq!(first[0][6] >> 4, 4);
    assert_eq!(first[0][8] >> 6, 2);
}

#[test]
fn task_counts_are_merged_and_limited() {
    let desired = TaskCountAnnotation::Desired;
    let maximum = TaskCountAnnotation::Maximum;
    assert_eq!(desired(2).merge(desired(3)), desired(3));
    assert_eq!(desired(5).merge(maximum(3)), maximum(3));
    assert_eq!(maximum(3).merge(desired(5)), maximum(3));
    assert_eq!(maximum(2).merge(maximum(4)), maximum(2));
    assert_eq!(desired(7).limit(4), desired(4));
    assert_eq!(maximum(3).limit(4), maximum(3));
    assert_eq!(desired(7).as_usize(), 7);
}
