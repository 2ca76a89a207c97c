//! Injects network boundaries into a plan, wherever one stage has to end and the next to begin.
//!
//! The walk goes bottom-up. Leaves are estimated, and the task counts of the children are
//! reconciled at each parent. Where an operator has to end a stage, the stage is closed: the
//! reconciled count is recorded throughout it, its leaves are scaled, and the operators that need
//! the final count, such as local exchange splits, are inserted. The closed stage is then put
//! behind a network boundary, which starts the stage above it. At the root the head stage is
//! closed in the same way, without a boundary.
use std::sync::Arc;
use vstd::prelude::*;

use crate::config::DistributedConfig;
use crate::error::{PlanError, PlanFailure};
use crate::insert_local_exchange_split::insert_local_exchange_split_for_stage;
use crate::network_boundary::{boundary_above, BoundaryKind};
use crate::network_coalesce::NetworkCoalesceExec;
use crate::plan::{
    share, InputStage, KindView, Operator, OperatorKind, OperatorView, PartitionMode,
    PartitionRule, PartitionScheme, Plan, PlanNode, QueryId,
};
use crate::scale_factor::{calculate_scale_factor, ScaleFactor, TaskScale};
use crate::task_count::TaskCountAnnotation;
use crate::task_estimator::TaskEstimator;
use crate::union_layout::{UnionLayout, UnionShape};

verus! {

/// What the planner goes by: the configuration, the cap on the tasks of a stage, and the rules of
/// the collaborators.
pub struct PlanningRules {
    pub config: DistributedConfig,
    pub max_tasks: Result<usize, PlanFailure>,
    pub query_id: QueryId,
    pub estimated: spec_fn(Plan) -> Option<TaskCountAnnotation>,
    pub scaled_leaf: spec_fn(Plan, usize) -> Option<Plan>,
    pub isolated: spec_fn(Seq<usize>, Seq<usize>, usize) -> Option<UnionShape>,
    pub scaled: spec_fn(ScaleFactor, usize) -> usize,
}

impl Plan {
    /// The plan with a task count recorded on every node.
    pub open spec fn annotated_throughout(self, task_count: TaskCountAnnotation) -> Plan
        decreases self,
    {
        Plan {
            task_count: Some(task_count),
            children: Seq::new(
                self.children.len(),
                |i: int|
                    if 0 <= i < self.children.len() {
                        self.children[i].annotated_throughout(task_count)
                    } else {
                        arbitrary()
                    },
            ),
            ..self
        }
    }

    /// The plan with a task count recorded on every node of the stage, network boundaries included.
    pub open spec fn annotated_within_stage(self, task_count: TaskCountAnnotation) -> Plan
        decreases self,
    {
        if self.is_network_boundary() {
            self.annotated(task_count)
        } else {
            Plan {
                task_count: Some(task_count),
                children: Seq::new(
                    self.children.len(),
                    |i: int|
                        if 0 <= i < self.children.len() {
                            self.children[i].annotated_within_stage(task_count)
                        } else {
                            arbitrary()
                        },
                ),
                ..self
            }
        }
    }

    /// The task counts recorded on the first `n` children; fails at the first child without one.
    pub open spec fn child_task_counts(self, n: nat) -> Result<Seq<usize>, PlanFailure>
        decreases n,
    {
        if n == 0 || n > self.children.len() {
            Ok(Seq::empty())
        } else {
            match self.child_task_counts((n - 1) as nat) {
                Err(failure) => Err(failure),
                Ok(counts) => match self.children[n - 1].task_count {
                    Some(task_count) => Ok(counts.push(task_count.count())),
                    None => Err(
                        PlanFailure::MissingTaskCount { operator: self.children[n - 1].op.name },
                    ),
                },
            }
        }
    }

    /// The numbers of partitions of the children.
    pub open spec fn child_partition_counts(self) -> Seq<usize> {
        self.children.map_values(|child: Plan| child.partition_count)
    }

    /// The operator of a union that isolates its children and has `count` partitions.
    pub open spec fn isolating_union(self, count: usize) -> Plan {
        Plan {
            op: OperatorView {
                name: "ChildrenIsolatorUnionExec"@,
                kind: KindView::ChildrenIsolatorUnion,
                partition_rule: PartitionRule::Constant,
                rebuildable: true,
                ..self.op
            },
            partition_count: count,
            ..self
        }
    }

    /// Whether the plan is a repartitioning by hash, above which a stage ends.
    pub open spec fn is_hash_repartition(self) -> bool {
        self.op.kind is Repartition && self.op.scheme is Hash
    }

    /// The task count of the root, which has been recorded.
    pub open spec fn recorded(self) -> TaskCountAnnotation {
        self.task_count->0
    }
}

impl KindView {
    /// Whether the operator folds all partitions into one.
    pub open spec fn folds_partitions(self) -> bool {
        self is CoalescePartitions || self is SortPreservingMerge
    }
}

/// The task counts that a list of plans has recorded, merged into `start` from left to right.
pub open spec fn merged_counts(
    start: TaskCountAnnotation,
    plans: Seq<Plan>,
    n: nat,
) -> TaskCountAnnotation
    decreases n,
{
    if n == 0 || n > plans.len() {
        start
    } else {
        merged_counts(start, plans, (n - 1) as nat).merged(plans[n - 1].recorded())
    }
}

/// The task counts that a list of plans has recorded, added up.
pub open spec fn added_counts(plans: Seq<Plan>, n: nat) -> nat
    decreases n,
{
    if n == 0 || n > plans.len() {
        0
    } else {
        added_counts(plans, (n - 1) as nat) + plans[n - 1].recorded().count() as nat
    }
}

/// The stage number after `num`.
pub open spec fn following(num: usize) -> usize {
    if num == usize::MAX {
        0
    } else {
        (num + 1) as usize
    }
}

impl PlanningRules {
    /// Whether the plan is a union whose children are run in tasks of their own.
    pub open spec fn isolates(self, plan: Plan) -> bool {
        self.config.children_isolator_unions && plan.op.kind is Union
    }

    /// The plan with `task_count` recorded in its stage, and the leaves of the stage scaled for it.
    pub open spec fn propagated(self, plan: Plan, task_count: TaskCountAnnotation) -> Result<
        Plan,
        PlanFailure,
    >
        decreases plan, 1nat, 0nat,
    {
        if plan.is_leaf() {
            match (self.scaled_leaf)(plan, task_count.count()) {
                Some(leaf) => Ok(leaf.annotated_throughout(task_count)),
                None => Ok(plan.annotated(task_count)),
            }
        } else if plan.is_network_boundary() {
            Ok(plan.annotated(task_count))
        } else if self.isolates(plan) {
            match plan.child_task_counts(plan.children.len()) {
                Err(failure) => Err(failure),
                Ok(counts) => match (self.isolated)(
                    counts,
                    plan.child_partition_counts(),
                    task_count.count(),
                ) {
                    None => Err(PlanFailure::UnionTaskCounts),
                    Some(union) => match self.propagated_children(
                        plan,
                        union.child_tasks.map_values(
                            |tasks: usize| TaskCountAnnotation::Maximum(tasks),
                        ),
                        plan.children.len(),
                    ) {
                        Err(failure) => Err(failure),
                        Ok(children) => match plan.isolating_union(union.partition_count).rebuilt(
                            children,
                        ) {
                            Err(failure) => Err(failure),
                            Ok(union) => Ok(union.annotated(task_count)),
                        },
                    },
                },
            }
        } else {
            match self.propagated_children(
                plan,
                Seq::new(plan.children.len(), |i: int| task_count),
                plan.children.len(),
            ) {
                Err(failure) => Err(failure),
                Ok(children) => match plan.rebuilt(children) {
                    Err(failure) => Err(failure),
                    Ok(plan) => Ok(plan.annotated(task_count)),
                },
            }
        }
    }

    /// The first `n` children with their task counts recorded in the stage.
    pub open spec fn propagated_children(
        self,
        plan: Plan,
        task_counts: Seq<TaskCountAnnotation>,
        n: nat,
    ) -> Result<Seq<Plan>, PlanFailure>
        decreases plan, 0nat, n,
    {
        if n == 0 || n > plan.children.len() {
            Ok(Seq::empty())
        } else {
            match self.propagated_children(plan, task_counts, (n - 1) as nat) {
                Err(failure) => Err(failure),
                Ok(done) => match self.propagated(plan.children[n - 1], task_counts[n - 1]) {
                    Err(failure) => Err(failure),
                    Ok(child) => Ok(done.push(child)),
                },
            }
        }
    }

    /// The plan as the top of a closed stage that runs with `task_count`.
    pub open spec fn closed_stage(self, plan: Plan, task_count: TaskCountAnnotation) -> Result<
        Plan,
        PlanFailure,
    > {
        match self.propagated(plan, task_count) {
            Err(failure) => Err(failure),
            Ok(plan) => self.finalized_stage(plan, task_count),
        }
    }

    /// The stage with local exchange splits inserted, and the task count recorded on the nodes that
    /// this rebuilt.
    pub open spec fn finalized_stage(self, plan: Plan, task_count: TaskCountAnnotation) -> Result<
        Plan,
        PlanFailure,
    > {
        match plan.split_stage(self.config, task_count.count()) {
            Err(failure) => Err(failure),
            Ok(rewrite) => Ok(
                if rewrite.changed {
                    rewrite.plan.annotated_within_stage(task_count)
                } else {
                    rewrite.plan
                },
            ),
        }
    }

    /// The task count that an operator starts from, given its processed children: a union that
    /// isolates its children wants all their tasks, a join that collects its left side wants one
    /// unless it may broadcast, and any other operator goes by the counts of its children.
    pub open spec fn reconciled(self, plan: Plan, children: Seq<Plan>) -> TaskCountAnnotation {
        if self.isolates(plan) {
            let total = added_counts(children, children.len());
            TaskCountAnnotation::Desired(
                if total > usize::MAX {
                    usize::MAX
                } else {
                    total as usize
                },
            )
        } else if plan.op.kind == KindView::HashJoin(PartitionMode::CollectLeft)
            && !self.config.broadcast_joins {
            TaskCountAnnotation::Maximum(1)
        } else {
            let estimate = match (self.estimated)(plan) {
                Some(task_count) => task_count,
                None => TaskCountAnnotation::Desired(1),
            };
            merged_counts(estimate, children, children.len())
        }
    }

    /// The stage that runs `plan` with `task_count`, closed and behind a boundary that keeps the
    /// number of partitions, with the task count that the next stage starts from.
    pub open spec fn cut(
        self,
        plan: Plan,
        boundary: BoundaryKind,
        task_count: TaskCountAnnotation,
        num: usize,
    ) -> Result<(Plan, usize), PlanFailure> {
        match self.closed_stage(plan, task_count) {
            Err(failure) => Err(failure),
            Ok(plan) => {
                let stage = InputStage { query_id: self.query_id, num, tasks: task_count.count() };
                let next = (self.scaled)(plan.scale_factor(), task_count.count());
                Ok(
                    (
                        plan.behind_boundary(boundary, plan.partition_count, stage).annotated(
                            TaskCountAnnotation::Desired(next),
                        ),
                        following(num),
                    ),
                )
            },
        }
    }

    /// The stage that runs `plan` with `task_count`, closed and behind a coalesce into one task.
    pub open spec fn cut_to_one_task(
        self,
        plan: Plan,
        task_count: TaskCountAnnotation,
        num: usize,
    ) -> Result<(Plan, usize), PlanFailure> {
        match self.closed_stage(plan, task_count) {
            Err(failure) => Err(failure),
            Ok(plan) => {
                let stage = InputStage { query_id: self.query_id, num, tasks: task_count.count() };
                match crate::network_coalesce::coalesced_partitions(
                    plan.partition_count,
                    1,
                    task_count.count(),
                ) {
                    Err(failure) => Err(failure),
                    Ok(count) => Ok(
                        (
                            plan.behind_boundary(BoundaryKind::Coalesce, count, stage).annotated(
                                TaskCountAnnotation::Maximum(1),
                            ),
                            following(num),
                        ),
                    ),
                }
            },
        }
    }

    /// The plan with network boundaries injected, under a parent of the given kind if it has one,
    /// with stages numbered from `num` on; and the next free number.
    pub open spec fn injected(self, plan: Plan, parent: Option<KindView>, num: usize) -> Result<
        (Plan, usize),
        PlanFailure,
    >
        decreases plan, 1nat, 0nat,
    {
        if plan.is_leaf() {
            match (self.estimated)(plan) {
                Some(task_count) => match self.max_tasks {
                    Ok(max_tasks) => Ok((plan.annotated(task_count.limited(max_tasks)), num)),
                    Err(failure) => Err(failure),
                },
                None => Ok((plan.annotated(TaskCountAnnotation::Maximum(1)), num)),
            }
        } else {
            match self.injected_children(plan, num, plan.children.len()) {
                Err(failure) => Err(failure),
                Ok((children, num)) => match (plan.rebuilt(children), self.max_tasks) {
                    (Err(failure), _) => Err(failure),
                    (Ok(_), Err(failure)) => Err(failure),
                    (Ok(rebuilt), Ok(max_tasks)) => self.delimited(
                        rebuilt,
                        parent,
                        self.reconciled(plan, children).limited(max_tasks),
                        num,
                    ),
                },
            }
        }
    }

    /// The first `n` children with network boundaries injected, and the next free stage number.
    pub open spec fn injected_children(self, plan: Plan, num: usize, n: nat) -> Result<
        (Seq<Plan>, usize),
        PlanFailure,
    >
        decreases plan, 0nat, n,
    {
        if n == 0 || n > plan.children.len() {
            Ok((Seq::empty(), num))
        } else {
            match self.injected_children(plan, num, (n - 1) as nat) {
                Err(failure) => Err(failure),
                Ok((done, num)) => match self.injected(
                    plan.children[n - 1],
                    Some(plan.op.kind),
                    num,
                ) {
                    Err(failure) => Err(failure),
                    Ok((child, num)) => Ok((done.push(child), num)),
                },
            }
        }
    }

    /// The processed plan, with its stage ended where it has to be: above a repartitioning by hash,
    /// below an operator that folds partitions, and at the root.
    pub open spec fn delimited(
        self,
        plan: Plan,
        parent: Option<KindView>,
        task_count: TaskCountAnnotation,
        num: usize,
    ) -> Result<(Plan, usize), PlanFailure> {
        if plan.is_hash_repartition() {
            self.cut(plan, BoundaryKind::Shuffle, task_count, num)
        } else if !(plan.op.kind is Repartition) && parent is Some && parent->0.folds_partitions() {
            if plan.op.kind is Broadcast {
                self.cut(plan, BoundaryKind::Broadcast, task_count, num)
            } else {
                self.cut_to_one_task(plan, task_count, num)
            }
        } else if parent is None {
            match self.closed_stage(plan, task_count) {
                Err(failure) => Err(failure),
                Ok(plan) => Ok((plan, num)),
            }
        } else {
            Ok((plan.annotated(task_count), num))
        }
    }
}

/// The planner: the configuration, what is known of the cluster, and the collaborators.
pub struct Planner<'a, E: TaskEstimator, U: UnionLayout, S: TaskScale> {
    pub d_cfg: &'a DistributedConfig,
    /// The number of workers, or why they could not be listed.
    pub workers: Result<usize, String>,
    pub query_id: QueryId,
    pub estimator: &'a E,
    pub unions: &'a U,
    pub scale: &'a S,
}

/// The result of planning, against what it should be.
pub open spec fn planned_is(
    planned: Result<Arc<PlanNode>, PlanError>,
    expected: Result<Plan, PlanFailure>,
) -> bool {
    match expected {
        Ok(plan) => planned matches Ok(planned) && planned.plan() == plan,
        Err(failure) => planned matches Err(error) && error@ == failure,
    }
}

/// The result of planning with stage numbers, against what it should be.
pub open spec fn numbered_is(
    planned: Result<(Arc<PlanNode>, usize), PlanError>,
    expected: Result<(Plan, usize), PlanFailure>,
) -> bool {
    match expected {
        Ok((plan, num)) => planned matches Ok((planned, next)) && planned.plan() == plan && next
            == num,
        Err(failure) => planned matches Err(error) && error@ == failure,
    }
}

/// The kind of a parent, if there is one.
pub open spec fn parent_kind(parent: Option<&PlanNode>) -> Option<KindView> {
    match parent {
        Some(node) => Some(node.plan().op.kind),
        None => None,
    }
}

/// Records a task count on every node of a plan.
fn record_task_count_throughout(plan: &PlanNode, task_count: TaskCountAnnotation) -> (recorded:
    Arc<PlanNode>)
    ensures
        recorded.plan() == plan.plan().annotated_throughout(task_count),
    decreases plan.plan(),
{
    proof {
        crate::plan::lemma_plan_children(plan);
    }
    let mut children: Vec<Arc<PlanNode>> = Vec::new();
    let mut i: usize = 0;
    while i < plan.children.len()
        invariant
            i <= plan.children@.len(),
            plan.plan().children.len() == plan.children@.len(),
            forall|j: int|
                #![trigger plan.children@[j]]
                0 <= j < plan.children@.len() ==> plan.plan().children[j]
                    == plan.children@[j].plan(),
            children@.len() == i,
            forall|j: int|
                0 <= j < i ==> (#[trigger] children@[j]).plan()
                    == plan.plan().children[j].annotated_throughout(task_count),
        decreases plan.children@.len() - i,
    {
        assert(plan.plan().children[i as int] == plan.children@[i as int].plan());
        children.push(record_task_count_throughout(&plan.children[i], task_count));
        i = i + 1;
    }
    let node = Arc::new(
        PlanNode {
            op: share(&plan.op),
            partition_count: plan.partition_count,
            task_count: Some(task_count),
            children,
        },
    );
    proof {
        crate::plan::lemma_plan_children(&*node);
        assert(node.plan().children =~= plan.plan().annotated_throughout(task_count).children);
    }
    node
}

/// Re-records task counts after a stage-local rewrite rebuilt plan nodes.
fn record_task_count_within_stage(plan: &PlanNode, task_count: TaskCountAnnotation) -> (recorded:
    Arc<PlanNode>)
    ensures
        recorded.plan() == plan.plan().annotated_within_stage(task_count),
    decreases plan.plan(),
{
    if plan.is_network_boundary() {
        return plan.with_task_count(task_count);
    }
    proof {
        crate::plan::lemma_plan_children(plan);
    }
    let mut children: Vec<Arc<PlanNode>> = Vec::new();
    let mut i: usize = 0;
    while i < plan.children.len()
        invariant
            i <= plan.children@.len(),
            plan.plan().children.len() == plan.children@.len(),
            forall|j: int|
                #![trigger plan.children@[j]]
                0 <= j < plan.children@.len() ==> plan.plan().children[j]
                    == plan.children@[j].plan(),
            children@.len() == i,
            forall|j: int|
                0 <= j < i ==> (#[trigger] children@[j]).plan()
                    == plan.plan().children[j].annotated_within_stage(task_count),
        decreases plan.children@.len() - i,
    {
        assert(plan.plan().children[i as int] == plan.children@[i as int].plan());
        children.push(record_task_count_within_stage(&plan.children[i], task_count));
        i = i + 1;
    }
    let node = Arc::new(
        PlanNode {
            op: share(&plan.op),
            partition_count: plan.partition_count,
            task_count: Some(task_count),
            children,
        },
    );
    proof {
        crate::plan::lemma_plan_children(&*node);
        assert(node.plan().children =~= plan.plan().annotated_within_stage(task_count).children);
    }
    node
}

/// A child without a recorded task count fails the whole list.
proof fn lemma_child_task_counts_failure(plan: Plan, n: nat, m: nat)
    requires
        n <= m <= plan.children.len(),
        plan.child_task_counts(n) is Err,
    ensures
        plan.child_task_counts(m) == plan.child_task_counts(n),
    decreases m - n,
{
    if n < m {
        lemma_child_task_counts_failure(plan, n, (m - 1) as nat);
    }
}

/// The task counts recorded on the children of a plan.
fn child_task_counts(plan: &PlanNode) -> (counts: Result<Vec<usize>, PlanError>)
    ensures
        match plan.plan().child_task_counts(plan.plan().children.len()) {
            Ok(expected) => counts matches Ok(counts) && counts@ == expected,
            Err(failure) => counts matches Err(error) && error@ == failure,
        },
{
    proof {
        crate::plan::lemma_plan_children(plan);
    }
    let mut counts: Vec<usize> = Vec::new();
    let mut i: usize = 0;
    while i < plan.children.len()
        invariant
            i <= plan.children@.len(),
            plan.plan().children.len() == plan.children@.len(),
            forall|j: int|
                #![trigger plan.children@[j]]
                0 <= j < plan.children@.len() ==> plan.plan().children[j]
                    == plan.children@[j].plan(),
            plan.plan().child_task_counts(i as nat) == Ok::<Seq<usize>, PlanFailure>(counts@),
        decreases plan.children@.len() - i,
    {
        assert(plan.plan().children[i as int] == plan.children@[i as int].plan());
        match plan.children[i].recorded_task_count() {
            Ok(task_count) => {
                counts.push(task_count.as_usize());
            },
            Err(error) => {
                proof {
                    lemma_child_task_counts_failure(
                        plan.plan(),
                        (i + 1) as nat,
                        plan.plan().children.len(),
                    );
                }
                return Err(error);
            },
        }
        i = i + 1;
    }
    Ok(counts)
}

/// The numbers of partitions of the children of a plan.
fn child_partition_counts(plan: &PlanNode) -> (counts: Vec<usize>)
    ensures
        counts@ == plan.plan().child_partition_counts(),
{
    proof {
        crate::plan::lemma_plan_children(plan);
    }
    let mut counts: Vec<usize> = Vec::new();
    let mut i: usize = 0;
    while i < plan.children.len()
        invariant
            i <= plan.children@.len(),
            plan.plan().children.len() == plan.children@.len(),
            forall|j: int|
                #![trigger plan.children@[j]]
                0 <= j < plan.children@.len() ==> plan.plan().children[j]
                    == plan.children@[j].plan(),
            counts@ == plan.plan().child_partition_counts().take(i as int),
        decreases plan.children@.len() - i,
    {
        assert(plan.plan().children[i as int] == plan.children@[i as int].plan());
        counts.push(plan.children[i].partition_count);
        assert(counts@ =~= plan.plan().child_partition_counts().take(i + 1));
        i = i + 1;
    }
    assert(counts@ =~= plan.plan().child_partition_counts());
    counts
}

/// Turns a union into one that isolates its children.
fn isolating_union(plan: &PlanNode, partition_count: usize) -> (union: PlanNode)
    ensures
        union.plan() == plan.plan().isolating_union(partition_count),
{
    let mut children: Vec<Arc<PlanNode>> = Vec::new();
    let mut i: usize = 0;
    while i < plan.children.len()
        invariant
            i <= plan.children@.len(),
            children@ == plan.children@.take(i as int),
        decreases plan.children@.len() - i,
    {
        children.push(share(&plan.children[i]));
        assert(children@ =~= plan.children@.take(i + 1));
        i = i + 1;
    }
    assert(children@ =~= plan.children@);
    let op = Operator {
        name: "ChildrenIsolatorUnionExec".to_owned(),
        handle: plan.op.handle,
        kind: OperatorKind::ChildrenIsolatorUnion,
        fetch: plan.op.fetch,
        cardinality_effect: plan.op.cardinality_effect,
        scheme: crate::network_boundary::copy_scheme(&plan.op.scheme),
        equal_exprs: crate::split_input::copy_pairs(&plan.op.equal_exprs),
        benefits_from_input_partitioning: crate::plan::copy_flags(
            &plan.op.benefits_from_input_partitioning,
        ),
        required_input_distribution: crate::plan::copy_distributions(
            &plan.op.required_input_distribution,
        ),
        partition_rule: PartitionRule::Constant,
        rebuildable: true,
        input_stage: plan.op.input_stage,
    };
    let union = PlanNode {
        op: Arc::new(op),
        partition_count,
        task_count: plan.task_count,
        children,
    };
    proof {
        crate::plan::lemma_plan_children(plan);
        crate::plan::lemma_plan_children(&union);
    }
    union
}

impl<'a, E: TaskEstimator, U: UnionLayout, S: TaskScale> Planner<'a, E, U, S> {
    /// The rules that the planner goes by.
    pub open spec fn rules(&self) -> PlanningRules {
        PlanningRules {
            config: *self.d_cfg,
            max_tasks: if self.d_cfg.max_tasks_per_stage != 0 {
                Ok(self.d_cfg.max_tasks_per_stage)
            } else {
                match self.workers {
                    Ok(workers) => Ok(
                        if workers == 0 {
                            1
                        } else {
                            workers
                        },
                    ),
                    Err(reason) => Err(PlanFailure::WorkersUnavailable { reason: reason@ }),
                }
            },
            query_id: self.query_id,
            estimated: |plan: Plan| self.estimator.estimated(plan),
            scaled_leaf: |plan: Plan, tasks: usize| self.estimator.scaled_leaf(plan, tasks),
            isolated: |counts: Seq<usize>, partitions: Seq<usize>, tasks: usize|
                self.unions.isolated(counts, partitions, tasks),
            scaled: |factor: ScaleFactor, tasks: usize| self.scale.scaled(factor, tasks),
        }
    }

    /// The cap on the number of tasks of a stage: the configured one, or else the number of
    /// workers.
    pub fn max_tasks(&self) -> (max_tasks: Result<usize, PlanError>)
        ensures
            match self.rules().max_tasks {
                Ok(expected) => max_tasks == Ok::<usize, PlanError>(expected),
                Err(failure) => max_tasks matches Err(error) && error@ == failure,
            },
    {
        if self.d_cfg.max_tasks_per_stage != 0 {
            return Ok(self.d_cfg.max_tasks_per_stage);
        }
        match &self.workers {
            Ok(workers) => {
                if *workers == 0 {
                    Ok(1)
                } else {
                    Ok(*workers)
                }
            },
            Err(reason) => Err(PlanError::WorkersUnavailable { reason: reason.clone() }),
        }
    }

    /// Walks `plan` top-down and records `task_count` for every node up until the next network
    /// boundary, scaling leaves and rebuilding intermediate nodes as needed.
    pub fn propagate_task_count_until_network_boundaries(
        &self,
        plan: &Arc<PlanNode>,
        task_count: TaskCountAnnotation,
    ) -> (propagated: Result<Arc<PlanNode>, PlanError>)
        ensures
            planned_is(propagated, self.rules().propagated(plan.plan(), task_count)),
        decreases plan.plan(), 1nat,
    {
        proof {
            crate::plan::lemma_plan_children(&**plan);
        }
        if plan.children.len() == 0 {
            return match self.estimator.scale_up_leaf_node(plan, task_count.as_usize()) {
                None => Ok(plan.with_task_count(task_count)),
                // The scaled up leaf might be more than one node.
                Some(scaled_up) => Ok(record_task_count_throughout(&scaled_up, task_count)),
            };
        }
        if plan.is_network_boundary() {
            // The boundary is recorded, and its input belongs to another stage.
            return Ok(plan.with_task_count(task_count));
        }
        let is_union = match &plan.op.kind {
            OperatorKind::Union => true,
            _ => false,
        };
        if self.d_cfg.children_isolator_unions && is_union {
            // Each child runs in tasks of its own, as if it were not distributed any further.
            let counts = match child_task_counts(plan) {
                Ok(counts) => counts,
                Err(error) => {
                    return Err(error);
                },
            };
            proof {
                lemma_child_task_counts_length(plan.plan(), plan.plan().children.len());
            }
            let partitions = child_partition_counts(plan);
            let union = match self.unions.isolate(&counts, &partitions, task_count.as_usize()) {
                Some(union) => union,
                None => {
                    return Err(PlanError::UnionTaskCounts);
                },
            };
            let mut task_counts: Vec<TaskCountAnnotation> = Vec::new();
            let mut i: usize = 0;
            while i < union.child_tasks.len()
                invariant
                    i <= union.child_tasks@.len(),
                    task_counts@ == union.child_tasks@.map_values(
                        |tasks: usize| TaskCountAnnotation::Maximum(tasks),
                    ).take(i as int),
                decreases union.child_tasks@.len() - i,
            {
                task_counts.push(TaskCountAnnotation::Maximum(union.child_tasks[i]));
                assert(task_counts@ =~= union.child_tasks@.map_values(
                    |tasks: usize| TaskCountAnnotation::Maximum(tasks),
                ).take(i + 1));
                i = i + 1;
            }
            assert(task_counts@ =~= union.child_tasks@.map_values(
                |tasks: usize| TaskCountAnnotation::Maximum(tasks),
            ));
            let new_children = match self.propagate_into_children(plan, &task_counts) {
                Ok(new_children) => new_children,
                Err(error) => {
                    return Err(error);
                },
            };
            return match isolating_union(plan, union.partition_count).with_new_children(
                new_children,
            ) {
                Ok(union) => Ok(union.with_task_count(task_count)),
                Err(error) => Err(error),
            };
        }
        let mut task_counts: Vec<TaskCountAnnotation> = Vec::new();
        while task_counts.len() < plan.children.len()
            invariant
                task_counts@.len() <= plan.children@.len(),
                forall|j: int|
                    0 <= j < task_counts@.len() ==> #[trigger] task_counts@[j] == task_count,
            decreases plan.children@.len() - task_counts@.len(),
        {
            task_counts.push(task_count);
        }
        assert(task_counts@ =~= Seq::new(plan.plan().children.len(), |i: int| task_count));
        let new_children = match self.propagate_into_children(plan, &task_counts) {
            Ok(new_children) => new_children,
            Err(error) => {
                return Err(error);
            },
        };
        match plan.with_new_children(new_children) {
            Ok(plan) => Ok(plan.with_task_count(task_count)),
            Err(error) => Err(error),
        }
    }

    /// Propagates a task count of its own into each child.
    fn propagate_into_children(
        &self,
        plan: &Arc<PlanNode>,
        task_counts: &Vec<TaskCountAnnotation>,
    ) -> (children: Result<Vec<Arc<PlanNode>>, PlanError>)
        requires
            task_counts@.len() == plan.children@.len(),
        ensures
            match self.rules().propagated_children(
                plan.plan(),
                task_counts@,
                plan.plan().children.len(),
            ) {
                Ok(expected) => children matches Ok(children) && crate::plan::plans(children@)
                    == expected,
                Err(failure) => children matches Err(error) && error@ == failure,
            },
        decreases plan.plan(), 0nat,
    {
        proof {
            crate::plan::lemma_plan_children(&**plan);
        }
        let mut children: Vec<Arc<PlanNode>> = Vec::new();
        let mut i: usize = 0;
        assert(crate::plan::plans(children@) =~= Seq::<Plan>::empty());
        while i < plan.children.len()
            invariant
                i <= plan.children@.len(),
                task_counts@.len() == plan.children@.len(),
                plan.plan().children.len() == plan.children@.len(),
                forall|j: int|
                    #![trigger plan.children@[j]]
                    0 <= j < plan.children@.len() ==> plan.plan().children[j]
                        == plan.children@[j].plan(),
                self.rules().propagated_children(plan.plan(), task_counts@, i as nat) == Ok::<
                    Seq<Plan>,
                    PlanFailure,
                >(crate::plan::plans(children@)),
            decreases plan.children@.len() - i,
        {
            assert(plan.plan().children[i as int] == plan.children@[i as int].plan());
            match self.propagate_task_count_until_network_boundaries(
                &plan.children[i],
                task_counts[i],
            ) {
                Ok(child) => {
                    proof {
                        crate::plan::lemma_plans_push(children@, child);
                    }
                    children.push(child);
                },
                Err(error) => {
                    proof {
                        lemma_propagated_children_failure(
                            self.rules(),
                            plan.plan(),
                            task_counts@,
                            (i + 1) as nat,
                            plan.plan().children.len(),
                        );
                    }
                    return Err(error);
                },
            }
            i = i + 1;
        }
        Ok(children)
    }

    /// Records the final task count through one stage and applies stage-local rewrites that need
    /// that task count before a network boundary is built from the stage's properties.
    pub fn close_stage(&self, plan: &Arc<PlanNode>, task_count: TaskCountAnnotation) -> (closed:
        Result<Arc<PlanNode>, PlanError>)
        ensures
            planned_is(closed, self.rules().closed_stage(plan.plan(), task_count)),
    {
        match self.propagate_task_count_until_network_boundaries(plan, task_count) {
            Ok(plan) => self.finalize_closed_stage(plan, task_count),
            Err(error) => Err(error),
        }
    }

    /// Applies rewrites that are allowed to change only the closed stage, not producer stages
    /// behind any network boundaries it reads from.
    pub fn finalize_closed_stage(
        &self,
        plan: Arc<PlanNode>,
        task_count: TaskCountAnnotation,
    ) -> (finalized: Result<Arc<PlanNode>, PlanError>)
        ensures
            planned_is(finalized, self.rules().finalized_stage(plan.plan(), task_count)),
    {
        match insert_local_exchange_split_for_stage(plan, self.d_cfg, task_count.as_usize()) {
            Ok(transformed) => {
                if transformed.transformed {
                    Ok(record_task_count_within_stage(&transformed.data, task_count))
                } else {
                    Ok(transformed.data)
                }
            },
            Err(error) => Err(error),
        }
    }
}

/// A child that cannot be planned fails the whole list.
proof fn lemma_propagated_children_failure(
    rules: PlanningRules,
    plan: Plan,
    task_counts: Seq<TaskCountAnnotation>,
    n: nat,
    m: nat,
)
    requires
        n <= m <= plan.children.len(),
        rules.propagated_children(plan, task_counts, n) is Err,
    ensures
        rules.propagated_children(plan, task_counts, m) == rules.propagated_children(
            plan,
            task_counts,
            n,
        ),
    decreases m - n,
{
    if n < m {
        lemma_propagated_children_failure(rules, plan, task_counts, n, (m - 1) as nat);
    }
}

/// There is one task count for each child.
proof fn lemma_child_task_counts_length(plan: Plan, n: nat)
    requires
        n <= plan.children.len(),
    ensures
        plan.child_task_counts(n) matches Ok(counts) ==> counts.len() == n,
    decreases n,
{
    if n > 0 {
        lemma_child_task_counts_length(plan, (n - 1) as nat);
    }
}

/// The top of a closed stage has the task count of the stage.
pub proof fn lemma_closed_stage_is_recorded(
    rules: PlanningRules,
    plan: Plan,
    task_count: TaskCountAnnotation,
)
    requires
        rules.closed_stage(plan, task_count) is Ok,
    ensures
        rules.closed_stage(plan, task_count)->Ok_0.task_count == Some(task_count),
{
    let propagated = rules.propagated(plan, task_count)->Ok_0;
    assert(propagated.task_count == Some(task_count));
    let config = rules.config;
    let tasks = task_count.count();
    if propagated.split_stage(config, tasks) matches Ok(rewrite) && !rewrite.changed && propagated
        .with_splits(config, tasks, None) == Ok::<crate::split_input::Rewrite, PlanFailure>(
        rewrite,
    ) {
        crate::split_laws::law_untransformed_plans_are_unchanged(propagated, config, tasks, None);
    }
}

/// Every processed plan has a task count recorded at its root.
pub proof fn lemma_injected_is_recorded(
    rules: PlanningRules,
    plan: Plan,
    parent: Option<KindView>,
    num: usize,
)
    requires
        rules.injected(plan, parent, num) is Ok,
    ensures
        rules.injected(plan, parent, num)->Ok_0.0.task_count is Some,
{
    if !plan.is_leaf() {
        let (children, next) = rules.injected_children(plan, num, plan.children.len())->Ok_0;
        let rebuilt = plan.rebuilt(children)->Ok_0;
        let task_count = rules.reconciled(plan, children).limited(rules.max_tasks->Ok_0);
        if rules.closed_stage(rebuilt, task_count) is Ok {
            lemma_closed_stage_is_recorded(rules, rebuilt, task_count);
        }
    }
}

proof fn lemma_injected_children_failure(
    rules: PlanningRules,
    plan: Plan,
    num: usize,
    n: nat,
    m: nat,
)
    requires
        n <= m <= plan.children.len(),
        rules.injected_children(plan, num, n) is Err,
    ensures
        rules.injected_children(plan, num, m) == rules.injected_children(plan, num, n),
    decreases m - n,
{
    if n < m {
        lemma_injected_children_failure(rules, plan, num, n, (m - 1) as nat);
    }
}

impl<'a, E: TaskEstimator, U: UnionLayout, S: TaskScale> Planner<'a, E, U, S> {
    /// Reconciles the task counts of processed children with what the operator itself asks for.
    fn reconcile_task_count(&self, plan: &Arc<PlanNode>, children: &Vec<Arc<PlanNode>>) -> (task_count:
        TaskCountAnnotation)
        requires
            forall|i: int|
                0 <= i < children@.len() ==> (#[trigger] children@[i]).plan().task_count is Some,
        ensures
            task_count == self.rules().reconciled(plan.plan(), crate::plan::plans(children@)),
    {
        let ghost processed = crate::plan::plans(children@);
        let is_union = match &plan.op.kind {
            OperatorKind::Union => true,
            _ => false,
        };
        let collects_left = match &plan.op.kind {
            OperatorKind::HashJoin(PartitionMode::CollectLeft) => true,
            _ => false,
        };
        if self.d_cfg.children_isolator_unions && is_union {
            // A union has the chance to decide how many tasks it should run on: with many
            // children, parallelism is increased by running all of them at once.
            let mut count: usize = 0;
            let mut i: usize = 0;
            while i < children.len()
                invariant
                    i <= children@.len(),
                    processed == crate::plan::plans(children@),
                    forall|j: int|
                        0 <= j < children@.len() ==> (#[trigger] children@[j]).plan().task_count
                            is Some,
                    count == (if added_counts(processed, i as nat) > usize::MAX {
                        usize::MAX as nat
                    } else {
                        added_counts(processed, i as nat)
                    }),
                decreases children@.len() - i,
            {
                assert(children@[i as int].plan().task_count is Some);
                assert(processed[i as int] == children@[i as int].plan());
                if let Some(task_count) = children[i].task_count {
                    count = count.saturating_add(task_count.as_usize());
                }
                i = i + 1;
            }
            TaskCountAnnotation::Desired(count)
        } else if collects_left && !self.d_cfg.broadcast_joins {
            // Joins that collect their left side are distributed only where they may broadcast it.
            TaskCountAnnotation::Maximum(1)
        } else {
            // The biggest count of the children decides, unless one of them declares a maximum,
            // which the rest of the stage has to respect.
            let mut task_count = match self.estimator.task_estimation(plan) {
                Some(estimation) => estimation.task_count,
                None => TaskCountAnnotation::Desired(1),
            };
            let ghost start = task_count;
            let mut i: usize = 0;
            while i < children.len()
                invariant
                    i <= children@.len(),
                    processed == crate::plan::plans(children@),
                    forall|j: int|
                        0 <= j < children@.len() ==> (#[trigger] children@[j]).plan().task_count
                            is Some,
                    task_count == merged_counts(start, processed, i as nat),
                decreases children@.len() - i,
            {
                assert(children@[i as int].plan().task_count is Some);
                assert(processed[i as int] == children@[i as int].plan());
                if let Some(child) = children[i].task_count {
                    task_count = task_count.merge(child);
                }
                i = i + 1;
            }
            task_count
        }
    }

    /// Closes a stage and puts it behind a shuffle or broadcast boundary.
    fn cut_stage(
        &self,
        plan: &Arc<PlanNode>,
        boundary: BoundaryKind,
        task_count: TaskCountAnnotation,
        num: usize,
    ) -> (cut: Result<(Arc<PlanNode>, usize), PlanError>)
        ensures
            numbered_is(cut, self.rules().cut(plan.plan(), boundary, task_count, num)),
    {
        let plan = match self.close_stage(plan, task_count) {
            Ok(plan) => plan,
            Err(error) => {
                return Err(error);
            },
        };
        let factor = calculate_scale_factor(&plan);
        let tasks: usize = self.scale.scale(&factor, task_count.as_usize());
        let stage = InputStage { query_id: self.query_id, num, tasks: task_count.as_usize() };
        let partition_count: usize = plan.partition_count;
        let above = boundary_above(plan, boundary, partition_count, stage);
        Ok((above.with_task_count(TaskCountAnnotation::Desired(tasks)), next_stage_num(num)))
    }

    /// Closes a stage and puts it behind a coalesce into one task.
    fn cut_stage_to_one_task(
        &self,
        plan: &Arc<PlanNode>,
        task_count: TaskCountAnnotation,
        num: usize,
    ) -> (cut: Result<(Arc<PlanNode>, usize), PlanError>)
        ensures
            numbered_is(cut, self.rules().cut_to_one_task(plan.plan(), task_count, num)),
    {
        let plan = match self.close_stage(plan, task_count) {
            Ok(plan) => plan,
            Err(error) => {
                return Err(error);
            },
        };
        let tasks: usize = task_count.as_usize();
        let coalesce = match NetworkCoalesceExec::try_new(
            share(&plan),
            self.query_id,
            num,
            1,
            tasks,
        ) {
            Ok(coalesce) => coalesce,
            Err(error) => {
                return Err(error);
            },
        };
        let stage = InputStage { query_id: self.query_id, num, tasks };
        let above = boundary_above(plan, BoundaryKind::Coalesce, coalesce.partition_count, stage);
        // The parent folds all partitions into one, so the stage above this boundary must run in
        // exactly one task.
        Ok((above.with_task_count(TaskCountAnnotation::Maximum(1)), next_stage_num(num)))
    }

    /// Injects network boundaries into `plan`, numbering the stages from `num` on. Every plan that
    /// is returned has a task count recorded at its root.
    pub fn inject_below(&self, plan: Arc<PlanNode>, parent: Option<&PlanNode>, num: usize) -> (injected:
        Result<(Arc<PlanNode>, usize), PlanError>)
        ensures
            numbered_is(injected, self.rules().injected(plan.plan(), parent_kind(parent), num)),
            injected matches Ok((node, _)) ==> node.plan().task_count is Some,
        decreases plan.plan(), 1nat,
    {
        proof {
            crate::plan::lemma_plan_children(&*plan);
            if self.rules().injected(plan.plan(), parent_kind(parent), num) is Ok {
                lemma_injected_is_recorded(self.rules(), plan.plan(), parent_kind(parent), num);
            }
        }
        if plan.children.len() == 0 {
            return match self.estimator.task_estimation(&plan) {
                Some(estimate) => match self.max_tasks() {
                    Ok(max_tasks) => Ok(
                        (plan.with_task_count(estimate.task_count.limit(max_tasks)), num),
                    ),
                    Err(error) => Err(error),
                },
                // How many tasks this leaf should run on could not be determined, so it is not
                // distributed.
                None => Ok((plan.with_task_count(TaskCountAnnotation::Maximum(1)), num)),
            };
        }
        let (processed_children, num) = match self.inject_into_children(&plan, num) {
            Ok(processed) => processed,
            Err(error) => {
                return Err(error);
            },
        };
        let task_count = self.reconcile_task_count(&plan, &processed_children);
        let plan = match plan.with_new_children(processed_children) {
            Ok(plan) => plan,
            Err(error) => {
                return Err(error);
            },
        };
        let task_count = match self.max_tasks() {
            Ok(max_tasks) => task_count.limit(max_tasks),
            Err(error) => {
                return Err(error);
            },
        };
        self.delimit(plan, parent, task_count, num)
    }

    /// Ends the stage of a processed plan where it has to end.
    fn delimit(
        &self,
        plan: Arc<PlanNode>,
        parent: Option<&PlanNode>,
        task_count: TaskCountAnnotation,
        num: usize,
    ) -> (delimited: Result<(Arc<PlanNode>, usize), PlanError>)
        ensures
            numbered_is(
                delimited,
                self.rules().delimited(plan.plan(), parent_kind(parent), task_count, num),
            ),
    {
        let is_repartition = match &plan.op.kind {
            OperatorKind::Repartition => true,
            _ => false,
        };
        let is_hashed = match &plan.op.scheme {
            PartitionScheme::Hash(_) => true,
            _ => false,
        };
        // Upon reaching a repartitioning by hash, a shuffle is introduced right above it.
        if is_repartition && is_hashed {
            return self.cut_stage(&plan, BoundaryKind::Shuffle, task_count, num);
        }
        let folds = match parent {
            Some(parent) => match &parent.op.kind {
                OperatorKind::CoalescePartitions | OperatorKind::SortPreservingMerge => true,
                _ => false,
            },
            None => false,
        };
        if !is_repartition && folds {
            let is_broadcast = match &plan.op.kind {
                OperatorKind::Broadcast => true,
                _ => false,
            };
            // A broadcast underneath a folding parent means the build side will cross stages.
            if is_broadcast {
                return self.cut_stage(&plan, BoundaryKind::Broadcast, task_count, num);
            }
            return self.cut_stage_to_one_task(&plan, task_count, num);
        }
        if parent.is_none() {
            // The head stage never crossed a boundary on the way up.
            return match self.close_stage(&plan, task_count) {
                Ok(plan) => Ok((plan, num)),
                Err(error) => Err(error),
            };
        }
        Ok((plan.with_task_count(task_count), num))
    }

    /// Injects network boundaries into the children of a plan, from left to right.
    fn inject_into_children(&self, plan: &Arc<PlanNode>, num: usize) -> (injected: Result<
        (Vec<Arc<PlanNode>>, usize),
        PlanError,
    >)
        ensures
            match self.rules().injected_children(plan.plan(), num, plan.plan().children.len()) {
                Ok((children, next)) => {
                    &&& injected matches Ok((nodes, after))
                    &&& crate::plan::plans(nodes@) == children
                    &&& after == next
                    &&& forall|i: int|
                        0 <= i < nodes@.len() ==> (#[trigger] nodes@[i]).plan().task_count is Some
                },
                Err(failure) => injected matches Err(error) && error@ == failure,
            },
        decreases plan.plan(), 0nat,
    {
        proof {
            crate::plan::lemma_plan_children(&**plan);
        }
        let mut children: Vec<Arc<PlanNode>> = Vec::new();
        let mut next: usize = num;
        let mut i: usize = 0;
        assert(crate::plan::plans(children@) =~= Seq::<Plan>::empty());
        while i < plan.children.len()
            invariant
                i <= plan.children@.len(),
                plan.plan().children.len() == plan.children@.len(),
                forall|j: int|
                    #![trigger plan.children@[j]]
                    0 <= j < plan.children@.len() ==> plan.plan().children[j]
                        == plan.children@[j].plan(),
                self.rules().injected_children(plan.plan(), num, i as nat) == Ok::<
                    (Seq<Plan>, usize),
                    PlanFailure,
                >((crate::plan::plans(children@), next)),
                forall|j: int|
                    0 <= j < children@.len() ==> (#[trigger] children@[j]).plan().task_count
                        is Some,
            decreases plan.children@.len() - i,
        {
            assert(plan.plan().children[i as int] == plan.children@[i as int].plan());
            match self.inject_below(share(&plan.children[i]), Some(plan), next) {
                Ok((child, after)) => {
                    proof {
                        crate::plan::lemma_plans_push(children@, child);
                    }
                    children.push(child);
                    next = after;
                },
                Err(error) => {
                    proof {
                        lemma_injected_children_failure(
                            self.rules(),
                            plan.plan(),
                            num,
                            (i + 1) as nat,
                            plan.plan().children.len(),
                        );
                    }
                    return Err(error);
                },
            }
            i = i + 1;
        }
        Ok((children, next))
    }

    /// Injects network boundaries into a whole plan. The stages below the head stage are numbered
    /// from one, those of a child before that of its parent.
    pub fn inject(&self, plan: Arc<PlanNode>) -> (injected: Result<Arc<PlanNode>, PlanError>)
        ensures
            planned_is(injected, self.rules().injected_plan(plan.plan())),
    {
        match self.inject_below(plan, None, 1) {
            Ok((plan, _)) => Ok(plan),
            Err(error) => Err(error),
        }
    }
}

impl PlanningRules {
    /// The whole plan with network boundaries injected.
    pub open spec fn injected_plan(self, plan: Plan) -> Result<Plan, PlanFailure> {
        match self.injected(plan, None, 1) {
            Ok((plan, _)) => Ok(plan),
            Err(failure) => Err(failure),
        }
    }
}

/// The stage number after `num`.
fn next_stage_num(num: usize) -> (next: usize)
    ensures
        next == following(num),
{
    if num == usize::MAX {
        0
    } else {
        num + 1
    }
}

/// A fresh query id, by `Uuid::new_v4` of the uuid crate. Its bytes are random, except for the bits
/// that mark a random id: the claim is that these are set.
#[verifier::external_body]
fn new_query_id() -> (id: QueryId)
    ensures
        id.is_random(),
{
    QueryId { bytes: *uuid::Uuid::new_v4().as_bytes() }
}

/// Walks a plan and injects network boundaries wherever a stage boundary is needed, for a query
/// with a fresh id.
pub fn inject_network_boundaries<E: TaskEstimator, U: UnionLayout, S: TaskScale>(
    plan: Arc<PlanNode>,
    d_cfg: &DistributedConfig,
    workers: Result<usize, String>,
    estimator: &E,
    unions: &U,
    scale: &S,
) -> (injected: Result<Arc<PlanNode>, PlanError>)
    ensures
        exists|query_id: QueryId|
            query_id.is_random() && planned_is(
                injected,
                #[trigger] (Planner { d_cfg, workers, query_id, estimator, unions, scale }).rules().injected_plan(
                    plan.plan(),
                ),
            ),
{
    let query_id = new_query_id();
    let planner = Planner { d_cfg, workers, query_id, estimator, unions, scale };
    planner.inject(plan)
}

}
