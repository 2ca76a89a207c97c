//! How many tasks the stages of a distributed plan get, and where they end.
use vstd::prelude::*;

use crate::error::{PlanError, PlanFailure};
use crate::inject_network_boundaries::{Planner, PlanningRules};
use crate::plan::{CardinalityEffect, KindView, OperatorView, PartitionMode, PartitionRule, Plan};
use crate::scale_factor::{ScaleFactor, TaskScale, UnscaledTasks};
use crate::stage::ExecutionTask;
use crate::task_count::{TaskCountAnnotation, TaskEstimation};
use crate::task_estimator::{NoTaskEstimates, TaskEstimator};
use crate::union_layout::{ProportionalUnions, UnionLayout};

verus! {

/// The smaller of two numbers.
pub open spec fn smaller(a: int, b: int) -> int {
    if a <= b {
        a
    } else {
        b
    }
}

/// Whether the stage of an operator ends above it: it repartitions by hash, or its parent folds all
/// partitions into one and it does not repartition.
pub open spec fn ends_a_stage(plan: Plan, parent: Option<KindView>) -> bool {
    ||| plan.op.kind is Repartition && plan.op.scheme is Hash
    ||| !(plan.op.kind is Repartition) && (parent == Some(KindView::CoalescePartitions) || parent
        == Some(KindView::SortPreservingMerge))
}

/// A stage ends above whatever repartitions by hash and below whatever folds all partitions into
/// one, and nowhere else: there stands a network boundary, which is a shuffle above a repartitioning
/// by hash, a broadcast above what is replicated, and a coalesce into one task in any other case.
/// Elsewhere the operator stays where it is, with as many children.
pub proof fn law_boundaries_stand_where_stages_end(
    rules: PlanningRules,
    plan: Plan,
    parent: Option<KindView>,
    num: usize,
)
    requires
        plan.children.len() > 0,
        rules.injected(plan, parent, num) is Ok,
    ensures
        ({
            let after = rules.injected(plan, parent, num)->Ok_0.0;
            if ends_a_stage(plan, parent) {
                &&& after.children.len() == 1
                &&& if plan.op.kind is Repartition {
                    after.op.kind is NetworkShuffle
                } else if plan.op.kind is Broadcast {
                    after.op.kind is NetworkBroadcast
                } else {
                    after.op.kind is NetworkCoalesce && after.task_count == Some(
                        TaskCountAnnotation::Maximum(1),
                    )
                }
                &&& after.op.input_stage matches Some(stage) && stage.query_id == rules.query_id
            } else if parent is Some {
                &&& after.op == plan.op
                &&& after.children.len() == plan.children.len()
            } else {
                true
            }
        }),
{
    let n = plan.children.len();
    lemma_as_many_children(rules, plan, num, n);
}

proof fn lemma_as_many_children(rules: PlanningRules, plan: Plan, num: usize, n: nat)
    requires
        n <= plan.children.len(),
        rules.injected_children(plan, num, n) is Ok,
    ensures
        rules.injected_children(plan, num, n)->Ok_0.0.len() == n,
    decreases n,
{
    if n > 0 {
        lemma_as_many_children(rules, plan, num, (n - 1) as nat);
    }
}

/// The children of an operator are planned one after the other under it, each with the stage number
/// that the one before it left.
pub proof fn law_children_are_planned_from_left_to_right(
    rules: PlanningRules,
    plan: Plan,
    num: usize,
    n: nat,
)
    requires
        n < plan.children.len(),
        rules.injected_children(plan, num, n + 1) is Ok,
    ensures
        rules.injected_children(plan, num, n) is Ok,
        ({
            let (before, next) = rules.injected_children(plan, num, n)->Ok_0;
            let (after, last) = rules.injected_children(plan, num, n + 1)->Ok_0;
            &&& after.len() == n + 1
            &&& after.take(n as int) == before
            &&& rules.injected(plan.children[n as int], Some(plan.op.kind), next) == Ok::<
                (Plan, usize),
                PlanFailure,
            >((after[n as int], last))
        }),
{
    lemma_as_many_children(rules, plan, num, n);
    let before = rules.injected_children(plan, num, n)->Ok_0.0;
    let after = rules.injected_children(plan, num, n + 1)->Ok_0.0;
    assert(after.take(n as int) =~= before);
}

/// A leaf gets the tasks that were estimated for it, as far as the cap allows, and one task at most
/// where nothing was estimated. It is left as it is otherwise.
pub proof fn law_leaves_get_their_estimates(
    rules: PlanningRules,
    leaf: Plan,
    parent: Option<KindView>,
    num: usize,
    max_tasks: usize,
)
    requires
        leaf.children.len() == 0,
        rules.max_tasks == Ok::<usize, PlanFailure>(max_tasks),
    ensures
        rules.injected(leaf, parent, num) matches Ok((after, next)) && {
            &&& next == num
            &&& after.op == leaf.op
            &&& after.partition_count == leaf.partition_count
            &&& after.children == leaf.children
            &&& match (rules.estimated)(leaf) {
                Some(TaskCountAnnotation::Desired(tasks)) => after.task_count matches Some(
                    TaskCountAnnotation::Desired(given),
                ) && given == smaller(tasks as int, max_tasks as int),
                Some(TaskCountAnnotation::Maximum(tasks)) => after.task_count matches Some(
                    TaskCountAnnotation::Maximum(given),
                ) && given == smaller(tasks as int, max_tasks as int),
                None => after.task_count == Some(TaskCountAnnotation::Maximum(1)),
            }
        },
{
}

/// The tasks of a list of plans, added up.
pub open spec fn tasks_of_all(plans: Seq<Plan>) -> nat
    decreases plans.len(),
{
    if plans.len() == 0 {
        0
    } else {
        tasks_of_all(plans.drop_last()) + crate::boundary_laws::tasks_in(
            plans.last().task_count->0,
        ) as nat
    }
}

/// The counts that nodes of one stage ask for: that of the operator itself, and those of its
/// children.
pub open spec fn asked_for(own: TaskCountAnnotation, children: Seq<Plan>) -> Seq<
    TaskCountAnnotation,
> {
    seq![own] + children.map_values(|child: Plan| child.task_count->0)
}

/// Whether `agreed` does justice to all counts that are asked for: if any of them is a maximum, it
/// is the smallest maximum, and else the largest desire; the cap is respected in any case.
pub open spec fn does_justice_to(
    agreed: TaskCountAnnotation,
    asked: Seq<TaskCountAnnotation>,
    max_tasks: usize,
) -> bool {
    let tasks = crate::boundary_laws::tasks_in(agreed);
    &&& agreed is Maximum <==> exists|i: int|
        #![trigger asked[i]]
        0 <= i < asked.len() && asked[i] is Maximum
    &&& exists|i: int|
        #![trigger asked[i]]
        0 <= i < asked.len() && (asked[i] is Maximum <==> agreed is Maximum) && tasks == smaller(
            crate::boundary_laws::tasks_in(asked[i]) as int,
            max_tasks as int,
        )
    &&& agreed is Maximum ==> forall|i: int|
        #![trigger asked[i]]
        0 <= i < asked.len() && asked[i] is Maximum ==> tasks <= crate::boundary_laws::tasks_in(
            asked[i],
        )
    &&& agreed is Desired ==> forall|i: int|
        #![trigger asked[i]]
        0 <= i < asked.len() ==> crate::boundary_laws::tasks_in(asked[i]) <= tasks || tasks
            == max_tasks
}

/// Merging counts finds the one that does justice to all of them.
proof fn lemma_merged_counts(own: TaskCountAnnotation, children: Seq<Plan>, n: nat, max_tasks: usize)
    requires
        n <= children.len(),
    ensures
        does_justice_to(
            crate::inject_network_boundaries::merged_counts(own, children, n).limited(max_tasks),
            asked_for(own, children.take(n as int)),
            max_tasks,
        ),
        does_justice_to(
            crate::inject_network_boundaries::merged_counts(own, children, n),
            asked_for(own, children.take(n as int)),
            usize::MAX,
        ),
    decreases n,
{
    let asked = asked_for(own, children.take(n as int));
    let merged = crate::inject_network_boundaries::merged_counts(own, children, n);
    if n == 0 {
        assert(asked =~= seq![own]);
        assert(asked[0] == own);
    } else {
        let m = (n - 1) as nat;
        lemma_merged_counts(own, children, m, max_tasks);
        let fewer = asked_for(own, children.take(m as int));
        let before = crate::inject_network_boundaries::merged_counts(own, children, m);
        let last = children[m as int].task_count->0;
        assert(asked =~= fewer.push(last));
        assert(asked[n as int] == last);
        assert forall|i: int| 0 <= i < n implies #[trigger] asked[i] == fewer[i] by {}
        assert forall|i: int| 0 <= i < n implies #[trigger] fewer[i] == asked[i] by {}
        let i = choose|i: int|
            #![trigger fewer[i]]
            0 <= i < fewer.len() && (fewer[i] is Maximum <==> before is Maximum)
                && crate::boundary_laws::tasks_in(before) == smaller(
                crate::boundary_laws::tasks_in(fewer[i]) as int,
                usize::MAX as int,
            );
        assert(asked[i] == fewer[i]);
        let w = if merged == last {
            n as int
        } else {
            i
        };
        assert(asked[w] == merged);
        if exists|j: int| #![trigger asked[j]] 0 <= j < asked.len() && asked[j] is Maximum {
            let j = choose|j: int|
                #![trigger asked[j]]
                0 <= j < asked.len() && asked[j] is Maximum;
            if j < n {
                assert(fewer[j] is Maximum);
            }
        }
    }
}

proof fn lemma_added_counts(children: Seq<Plan>, n: nat)
    requires
        n <= children.len(),
    ensures
        crate::inject_network_boundaries::added_counts(children, n) == tasks_of_all(
            children.take(n as int),
        ),
    decreases n,
{
    let taken = children.take(n as int);
    if n > 0 {
        lemma_added_counts(children, (n - 1) as nat);
        assert(taken.drop_last() =~= children.take(n - 1));
        assert(taken.last() == children[n - 1]);
    }
}

/// Whether `agreed` is a fair number of tasks for an operator over planned children. A union that
/// gives its children tasks of their own wants all their tasks; a join that collects its left side
/// and may not broadcast it runs on one task at most; any other operator does justice to its own
/// estimate, of one desired task if there is none, and to the counts of its children. The cap is
/// respected in any case.
pub open spec fn is_fair(
    rules: PlanningRules,
    plan: Plan,
    children: Seq<Plan>,
    agreed: TaskCountAnnotation,
    max_tasks: usize,
) -> bool {
    let own = match (rules.estimated)(plan) {
        Some(estimate) => estimate,
        None => TaskCountAnnotation::Desired(1),
    };
    if rules.config.children_isolator_unions && plan.op.kind is Union {
        agreed matches TaskCountAnnotation::Desired(tasks) && tasks == smaller(
            tasks_of_all(children) as int,
            max_tasks as int,
        )
    } else if plan.op.kind == KindView::HashJoin(PartitionMode::CollectLeft)
        && !rules.config.broadcast_joins {
        agreed matches TaskCountAnnotation::Maximum(tasks) && tasks == smaller(1, max_tasks as int)
    } else {
        does_justice_to(agreed, asked_for(own, children), max_tasks)
    }
}

proof fn lemma_reconciled_is_fair(
    rules: PlanningRules,
    plan: Plan,
    children: Seq<Plan>,
    max_tasks: usize,
)
    ensures
        is_fair(
            rules,
            plan,
            children,
            rules.reconciled(plan, children).limited(max_tasks),
            max_tasks,
        ),
{
    let n = children.len();
    let own = match (rules.estimated)(plan) {
        Some(estimate) => estimate,
        None => TaskCountAnnotation::Desired(1),
    };
    assert(children.take(n as int) =~= children);
    if rules.config.children_isolator_unions && plan.op.kind is Union {
        lemma_added_counts(children, n);
    } else {
        lemma_merged_counts(own, children, n, max_tasks);
    }
}

proof fn lemma_top_of_stage(
    rules: PlanningRules,
    plan: Plan,
    parent: Option<KindView>,
    num: usize,
    max_tasks: usize,
)
    requires
        plan.children.len() > 0,
        rules.max_tasks == Ok::<usize, PlanFailure>(max_tasks),
        rules.injected(plan, parent, num) is Ok,
    ensures
        ({
            let after = rules.injected(plan, parent, num)->Ok_0.0;
            let children = rules.injected_children(plan, num, plan.children.len())->Ok_0.0;
            let top = if ends_a_stage(plan, parent) {
                after.children[0]
            } else {
                after
            };
            &&& rules.injected_children(plan, num, plan.children.len()) is Ok
            &&& top.task_count == Some(rules.reconciled(plan, children).limited(max_tasks))
        }),
{
    let n = plan.children.len();
    let (children, next) = rules.injected_children(plan, num, n)->Ok_0;
    let rebuilt = plan.rebuilt(children)->Ok_0;
    let task_count = rules.reconciled(plan, children).limited(max_tasks);
    assert(rules.injected(plan, parent, num) == rules.delimited(rebuilt, parent, task_count, next));
    lemma_top_of_delimited(rules, rebuilt, parent, task_count, next);
}

proof fn lemma_top_of_delimited(
    rules: PlanningRules,
    plan: Plan,
    parent: Option<KindView>,
    task_count: TaskCountAnnotation,
    num: usize,
)
    requires
        rules.delimited(plan, parent, task_count, num) is Ok,
    ensures
        ({
            let after = rules.delimited(plan, parent, task_count, num)->Ok_0.0;
            let top = if ends_a_stage(plan, parent) {
                after.children[0]
            } else {
                after
            };
            top.task_count == Some(task_count)
        }),
{
    let after = rules.delimited(plan, parent, task_count, num)->Ok_0.0;
    if ends_a_stage(plan, parent) || parent is None {
        crate::inject_network_boundaries::lemma_closed_stage_is_recorded(rules, plan, task_count);
        if ends_a_stage(plan, parent) {
            assert(after.children[0] == rules.closed_stage(plan, task_count)->Ok_0);
        }
    }
}

/// The count of a stage is agreed upon by its nodes, from the bottom up: what is recorded on an
/// operator, or on the top of the stage that ends above it, is fair to the operator and to its
/// children.
pub proof fn law_stages_agree_on_their_tasks(
    rules: PlanningRules,
    plan: Plan,
    parent: Option<KindView>,
    num: usize,
    max_tasks: usize,
)
    requires
        plan.children.len() > 0,
        rules.max_tasks == Ok::<usize, PlanFailure>(max_tasks),
        rules.injected(plan, parent, num) is Ok,
    ensures
        ({
            let after = rules.injected(plan, parent, num)->Ok_0.0;
            let children = rules.injected_children(plan, num, plan.children.len())->Ok_0.0;
            let top = if ends_a_stage(plan, parent) {
                after.children[0]
            } else {
                after
            };
            top.task_count matches Some(agreed) && is_fair(
                rules,
                plan,
                children,
                agreed,
                max_tasks,
            )
        }),
{
    lemma_top_of_stage(rules, plan, parent, num, max_tasks);
    let children = rules.injected_children(plan, num, plan.children.len())->Ok_0.0;
    lemma_reconciled_is_fair(rules, plan, children, max_tasks);
}

/// The stage above a shuffle or a broadcast starts from the tasks of the stage below it, scaled by
/// how much the data changes within that stage.
pub proof fn law_stages_start_from_the_scaled_tasks(
    rules: PlanningRules,
    plan: Plan,
    parent: Option<KindView>,
    num: usize,
)
    requires
        plan.children.len() > 0,
        ends_a_stage(plan, parent),
        plan.op.kind is Repartition || plan.op.kind is Broadcast,
        rules.injected(plan, parent, num) is Ok,
    ensures
        ({
            let after = rules.injected(plan, parent, num)->Ok_0.0;
            let below = after.children[0];
            after.op.input_stage matches Some(stage) && after.task_count == Some(
                TaskCountAnnotation::Desired((rules.scaled)(below.scale_factor(), stage.tasks)),
            )
        }),
{
    let n = plan.children.len();
    lemma_as_many_children(rules, plan, num, n);
}

/// A leaf of a stage is prepared for exactly the tasks that the stage runs on, and all of what it is
/// replaced by runs on them.
pub proof fn law_leaves_are_prepared_for_their_stage(
    rules: PlanningRules,
    leaf: Plan,
    task_count: TaskCountAnnotation,
)
    requires
        leaf.children.len() == 0,
    ensures
        rules.propagated(leaf, task_count) matches Ok(after) && {
            &&& after.task_count == Some(task_count)
            &&& after.stage_runs_with(task_count)
            &&& match (rules.scaled_leaf)(leaf, crate::boundary_laws::tasks_in(task_count)) {
                Some(scaled) => scaled.same_operators(after) && after.partition_count
                    == scaled.partition_count,
                None => after.op == leaf.op && after.children == leaf.children
                    && after.partition_count == leaf.partition_count,
            }
        },
{
    if let Some(scaled) = (rules.scaled_leaf)(leaf, crate::boundary_laws::tasks_in(task_count)) {
        crate::inject_laws::lemma_throughout_is_recorded(scaled, task_count);
        crate::shape_laws::lemma_same_operators_throughout(scaled, task_count);
    }
}

proof fn lemma_child_counts(plan: Plan, n: nat)
    requires
        n <= plan.children.len(),
        plan.child_task_counts(n) is Ok,
    ensures
        plan.child_task_counts(n)->Ok_0 == Seq::new(
            n,
            |i: int| crate::boundary_laws::tasks_in(plan.children[i].task_count->0),
        ),
    decreases n,
{
    if n > 0 {
        lemma_child_counts(plan, (n - 1) as nat);
    }
    assert(plan.child_task_counts(n)->Ok_0 =~= Seq::new(
        n,
        |i: int| crate::boundary_laws::tasks_in(plan.children[i].task_count->0),
    ));
}

proof fn lemma_children_take_their_counts(
    rules: PlanningRules,
    plan: Plan,
    task_counts: Seq<TaskCountAnnotation>,
    n: nat,
)
    requires
        n <= plan.children.len(),
        rules.propagated_children(plan, task_counts, n) is Ok,
    ensures
        ({
            let children = rules.propagated_children(plan, task_counts, n)->Ok_0;
            &&& children.len() == n
            &&& forall|i: int|
                #![trigger children[i]]
                0 <= i < n ==> children[i].task_count == Some(task_counts[i]) && rules.propagated(
                    plan.children[i],
                    task_counts[i],
                ) == Ok::<Plan, PlanFailure>(children[i])
        }),
    decreases n,
{
    if n > 0 {
        lemma_children_take_their_counts(rules, plan, task_counts, (n - 1) as nat);
        let child = plan.children[n - 1];
        lemma_roots_are_recorded(rules, child, task_counts[n - 1]);
    }
}

proof fn lemma_roots_are_recorded(
    rules: PlanningRules,
    plan: Plan,
    task_count: TaskCountAnnotation,
)
    requires
        rules.propagated(plan, task_count) is Ok,
    ensures
        rules.propagated(plan, task_count)->Ok_0.task_count == Some(task_count),
{
}

/// The count of a stage is handed down to the inputs of every operator, except that a union which
/// gives its children tasks of their own hands each of them its share, as a maximum. The shares come
/// from the counts and partitions of the children and the tasks of the union, and the union is
/// marked and has the partitions that go with them. Nothing is handed down through a network
/// boundary.
pub proof fn law_counts_are_handed_down(
    rules: PlanningRules,
    plan: Plan,
    task_count: TaskCountAnnotation,
)
    requires
        plan.children.len() > 0,
        rules.propagated(plan, task_count) is Ok,
    ensures
        ({
            let after = rules.propagated(plan, task_count)->Ok_0;
            let n = plan.children.len();
            &&& after.task_count == Some(task_count)
            &&& after.children.len() == n
            &&& if plan.reads_a_stage() {
                after.op == plan.op && after.children == plan.children && after.partition_count
                    == plan.partition_count
            } else if rules.config.children_isolator_unions && plan.op.kind is Union {
                let counts = Seq::new(
                    n,
                    |i: int| crate::boundary_laws::tasks_in(plan.children[i].task_count->0),
                );
                let partitions = Seq::new(n, |i: int| plan.children[i].partition_count);
                &&& after.op == OperatorView {
                    name: "ChildrenIsolatorUnionExec"@,
                    kind: KindView::ChildrenIsolatorUnion,
                    partition_rule: PartitionRule::Constant,
                    rebuildable: true,
                    ..plan.op
                }
                &&& (rules.isolated)(
                    counts,
                    partitions,
                    crate::boundary_laws::tasks_in(task_count),
                ) matches Some(shape) && after.partition_count == shape.partition_count && forall|
                    i: int,
                |
                    #![trigger after.children[i]]
                    0 <= i < n && n <= shape.child_tasks.len() ==> after.children[i].task_count
                        == Some(TaskCountAnnotation::Maximum(shape.child_tasks[i]))
            } else {
                &&& after.op == plan.op
                &&& forall|i: int|
                    #![trigger after.children[i]]
                    0 <= i < n ==> rules.propagated(plan.children[i], task_count) == Ok::<
                        Plan,
                        PlanFailure,
                    >(after.children[i])
            }
        }),
{
    let n = plan.children.len();
    if !plan.reads_a_stage() {
        if rules.config.children_isolator_unions && plan.op.kind is Union {
            lemma_child_counts(plan, n);
            let counts = plan.child_task_counts(n)->Ok_0;
            let partitions = Seq::new(n, |i: int| plan.children[i].partition_count);
            assert(plan.child_partition_counts() =~= partitions);
            let union = (rules.isolated)(counts, partitions, task_count.count())->0;
            let task_counts = union.child_tasks.map_values(
                |tasks: usize| TaskCountAnnotation::Maximum(tasks),
            );
            lemma_children_take_their_counts(rules, plan, task_counts, n);
        } else {
            let task_counts = Seq::new(n, |i: int| task_count);
            lemma_children_take_their_counts(rules, plan, task_counts, n);
        }
    }
}

/// The cap on the tasks of a stage is the configured one, if there is one; else it is the number of
/// workers, and one where there are none. Without a configured cap the workers have to be known.
pub proof fn law_the_cap_is_configured_or_counted<E: TaskEstimator, U: UnionLayout, S: TaskScale>(
    planner: &Planner<E, U, S>,
    max_tasks: Result<usize, PlanError>,
)
    requires
        call_ensures(Planner::<E, U, S>::max_tasks, (planner,), max_tasks),
    ensures
        max_tasks is Ok <==> planner.rules().max_tasks is Ok,
        max_tasks matches Ok(cap) ==> planner.rules().max_tasks == Ok::<usize, PlanFailure>(cap),
        match max_tasks {
            Ok(cap) => {
                &&& cap > 0
                &&& planner.d_cfg.max_tasks_per_stage > 0 ==> cap
                    == planner.d_cfg.max_tasks_per_stage
                &&& planner.d_cfg.max_tasks_per_stage == 0 ==> (planner.workers matches Ok(workers)
                    && (cap == workers || cap == 1 && workers == 0))
            },
            Err(PlanError::WorkersUnavailable { reason }) => {
                &&& planner.d_cfg.max_tasks_per_stage == 0
                &&& planner.workers matches Err(given) && given@ == reason@
            },
            Err(_) => false,
        },
{
}

/// A planner goes by its own configuration, query, estimator and layout of unions.
pub proof fn law_planners_go_by_their_collaborators<E: TaskEstimator, U: UnionLayout, S: TaskScale>(
    planner: &Planner<E, U, S>,
    plan: Plan,
    counts: Seq<usize>,
    partitions: Seq<usize>,
    factor: ScaleFactor,
    tasks: usize,
)
    ensures
        planner.rules().config == *planner.d_cfg,
        planner.rules().query_id == planner.query_id,
        (planner.rules().estimated)(plan) == planner.estimator.estimated(plan),
        (planner.rules().scaled_leaf)(plan, tasks) == planner.estimator.scaled_leaf(plan, tasks),
        (planner.rules().isolated)(counts, partitions, tasks) == planner.unions.isolated(
            counts,
            partitions,
            tasks,
        ),
        (planner.rules().scaled)(factor, tasks) == planner.scale.scaled(factor, tasks),
{
}

/// By how many powers of the cardinality factor a factor changes the volume of data, where the
/// cardinality factor is not below one.
pub open spec fn power_of(factor: ScaleFactor) -> int
    decreases factor,
{
    match factor {
        ScaleFactor::One => 0,
        ScaleFactor::Divided(inner) => power_of(*inner) - 1,
        ScaleFactor::Multiplied(inner) => power_of(*inner) + 1,
        ScaleFactor::Larger(a, b) => if power_of(*a) >= power_of(*b) {
            power_of(*a)
        } else {
            power_of(*b)
        },
    }
}

impl Plan {
    /// Whether one of the paths from the bottom of the stage up to this operator changes the volume
    /// of data by that many powers: by one more for each operator on it that may add rows, and by
    /// one less for each that may drop some.
    pub open spec fn has_path_of(self, power: int) -> bool
        decreases self,
    {
        let own: int = match self.op.cardinality_effect {
            CardinalityEffect::GreaterEqual => 1,
            CardinalityEffect::LowerEqual => -1,
            _ => 0,
        };
        if self.reads_a_stage() {
            power == 0
        } else if self.children.len() == 0 {
            power == own
        } else {
            exists|i: int|
                #![trigger self.children[i]]
                0 <= i < self.children.len() && self.children[i].has_path_of(power - own)
        }
    }
}

proof fn lemma_largest_power(plan: Plan, n: nat, power: int)
    requires
        0 < n <= plan.children.len(),
    ensures
        ({
            let largest = power_of(plan.largest_scale_factor(n));
            &&& exists|i: int|
                #![trigger plan.children[i]]
                0 <= i < n && plan.children[i].has_path_of(largest)
            &&& forall|i: int|
                #![trigger plan.children[i]]
                0 <= i < n && plan.children[i].has_path_of(power) ==> power <= largest
        }),
    decreases plan.children, n,
{
    let child = plan.children[n - 1];
    law_the_steepest_path_counts(child, power);
    assert(child.has_path_of(power_of(child.scale_factor())));
    if n > 1 {
        lemma_largest_power(plan, (n - 1) as nat, power);
        let before = power_of(plan.largest_scale_factor((n - 1) as nat));
        let i = choose|i: int|
            #![trigger plan.children[i]]
            0 <= i < n - 1 && plan.children[i].has_path_of(before);
        assert(plan.children[i].has_path_of(before));
    }
}

/// The factor of a stage is that of the path through it on which the data grows the most: there is a
/// path of its power, and none of a greater one. Paths begin at leaves and network boundaries.
pub proof fn law_the_steepest_path_counts(plan: Plan, power: int)
    ensures
        plan.has_path_of(power_of(plan.scale_factor())),
        plan.has_path_of(power) ==> power <= power_of(plan.scale_factor()),
    decreases plan,
{
    let own: int = match plan.op.cardinality_effect {
        CardinalityEffect::GreaterEqual => 1,
        CardinalityEffect::LowerEqual => -1,
        _ => 0,
    };
    if !plan.reads_a_stage() && plan.children.len() > 0 {
        let n = plan.children.len();
        lemma_largest_power(plan, n, power - own);
        let largest = power_of(plan.largest_scale_factor(n));
        assert(power_of(plan.scale_factor()) == largest + own);
        let i = choose|i: int|
            #![trigger plan.children[i]]
            0 <= i < n && plan.children[i].has_path_of(largest);
        assert(plan.children[i].has_path_of(power_of(plan.scale_factor()) - own));
    } else if !plan.reads_a_stage() {
        assert(plan.largest_scale_factor(0) == ScaleFactor::One);
        assert(power_of(ScaleFactor::One) == 0);
    }
}

/// The shares of the children of a union are in proportion to the tasks that they want, up to
/// rounding: the share of the first children together, before each child gets at least one task, is
/// less than one task away from their part of all wanted tasks. The union has the partitions of the
/// widest child.
pub proof fn law_shares_are_proportional(counts: Seq<usize>, tasks: usize, n: nat)
    requires
        n <= counts.len(),
        crate::union_layout::total_tasks(counts, counts.len()) > 0,
    ensures
        ({
            let (part, total, end) = (
                crate::union_layout::total_tasks(counts, n) as int,
                crate::union_layout::total_tasks(counts, counts.len()) as int,
                crate::union_layout::share_end(counts, tasks, n) as int,
            );
            end * total <= part * tasks < (end + 1) * total
        }),
{
    let (part, total, t) = (
        crate::union_layout::total_tasks(counts, n) as int,
        crate::union_layout::total_tasks(counts, counts.len()) as int,
        tasks as int,
    );
    assert(part * t >= 0) by (nonlinear_arith)
        requires
            part >= 0,
            t >= 0,
    ;
    let x = part * t;
    vstd::arithmetic::div_mod::lemma_fundamental_div_mod(x, total);
    vstd::arithmetic::div_mod::lemma_mod_bound(x, total);
    let end = x / total;
    assert(end * total <= x < (end + 1) * total) by (nonlinear_arith)
        requires
            x == total * end + x % total,
            0 <= x % total < total,
    ;
}

/// No child of a union has more partitions than the union, and one of them has as many.
pub proof fn law_unions_are_as_wide_as_their_widest_child(counts: Seq<usize>, n: nat)
    requires
        0 < n <= counts.len(),
    ensures
        forall|i: int|
            #![trigger counts[i]]
            0 <= i < n ==> counts[i] <= crate::union_layout::largest_count(counts, n),
        exists|i: int|
            #![trigger counts[i]]
            0 <= i < n && counts[i] == crate::union_layout::largest_count(counts, n),
    decreases n,
{
    let last = counts[n - 1];
    if n > 1 {
        law_unions_are_as_wide_as_their_widest_child(counts, (n - 1) as nat);
        let i = choose|i: int|
            #![trigger counts[i]]
            0 <= i < n - 1 && counts[i] == crate::union_layout::largest_count(
                counts,
                (n - 1) as nat,
            );
        assert(counts[i] == crate::union_layout::largest_count(counts, (n - 1) as nat));
    } else {
        assert(crate::union_layout::largest_count(counts, 0) == 0);
    }
}

/// A stage is closed by handing its count down and then inserting the splits that its number of
/// tasks calls for: the closed stage has the operators and partitions of the split stage, in the
/// same places, and fails where that fails.
pub proof fn law_closed_stages_have_their_splits(
    rules: PlanningRules,
    plan: Plan,
    task_count: TaskCountAnnotation,
    spread: Plan,
)
    requires
        rules.propagated(plan, task_count) == Ok::<Plan, PlanFailure>(spread),
    ensures
        match spread.split_stage(rules.config, crate::boundary_laws::tasks_in(task_count)) {
            Ok(rewrite) => rules.closed_stage(plan, task_count) matches Ok(closed)
                && rewrite.plan.same_operators(closed) && closed.partition_count
                == rewrite.plan.partition_count && closed.task_count == Some(task_count),
            Err(failure) => rules.closed_stage(plan, task_count) == Err::<Plan, PlanFailure>(
                failure,
            ),
        },
{
    if let Ok(rewrite) = spread.split_stage(
        rules.config,
        crate::boundary_laws::tasks_in(task_count),
    ) {
        lemma_same_operators_as_itself(rewrite.plan);
        crate::shape_laws::lemma_same_operators_within_stage(
            rewrite.plan,
            rewrite.plan,
            task_count,
        );
        crate::inject_network_boundaries::lemma_closed_stage_is_recorded(rules, plan, task_count);
    }
}

proof fn lemma_same_operators_as_itself(plan: Plan)
    ensures
        plan.same_operators(plan),
    decreases plan,
{
    assert forall|i: int| #![trigger plan.children[i]] 0 <= i < plan.children.len() implies
        plan.children[i].same_operators(plan.children[i]) by {
        lemma_same_operators_as_itself(plan.children[i]);
    }
}

/// Whether the partitions of an operator over its inputs are those that its rule gives: the ones it
/// had, those of one input, those of all inputs together, or a multiple of those of its only input.
pub open spec fn follows_its_rule(before: Plan, after: Plan) -> bool {
    match before.op.partition_rule {
        PartitionRule::Constant => after.partition_count == before.partition_count,
        PartitionRule::Inherit(child) => child < after.children.len() && after.partition_count
            == after.children[child as int].partition_count,
        PartitionRule::Sum => after.partition_count == crate::plan::total_partitions(
            after.children,
        ),
        PartitionRule::Scaled(factor) => after.children.len() == 1 && after.partition_count
            == factor * after.children[0].partition_count,
    }
}

/// An operator whose stage goes on above it is put over its planned inputs, and its partitions
/// follow from its rule.
pub proof fn law_planned_operators_follow_their_rules(
    rules: PlanningRules,
    plan: Plan,
    parent: KindView,
    num: usize,
)
    requires
        plan.children.len() > 0,
        !ends_a_stage(plan, Some(parent)),
        rules.injected(plan, Some(parent), num) is Ok,
    ensures
        ({
            let after = rules.injected(plan, Some(parent), num)->Ok_0.0;
            let (children, next) = rules.injected_children(plan, num, plan.children.len())->Ok_0;
            &&& after.children == children
            &&& rules.injected(plan, Some(parent), num)->Ok_0.1 == next
            &&& follows_its_rule(plan, after)
        }),
{
    let (children, next) = rules.injected_children(plan, num, plan.children.len())->Ok_0;
    crate::success_laws::law_rebuilding_replaces_the_inputs(plan, children);
}

/// When a count is handed down to the inputs of an operator, its partitions follow from its rule.
pub proof fn law_spread_operators_follow_their_rules(
    rules: PlanningRules,
    plan: Plan,
    task_count: TaskCountAnnotation,
)
    requires
        plan.children.len() > 0,
        !plan.reads_a_stage(),
        !(rules.config.children_isolator_unions && plan.op.kind is Union),
        rules.propagated(plan, task_count) is Ok,
    ensures
        follows_its_rule(plan, rules.propagated(plan, task_count)->Ok_0),
{
    let task_counts = Seq::new(plan.children.len(), |i: int| task_count);
    let children = rules.propagated_children(plan, task_counts, plan.children.len())->Ok_0;
    crate::success_laws::law_rebuilding_replaces_the_inputs(plan, children);
}

/// Unions are divided in proportion wherever a child wants a task and the numbers can be counted:
/// every child gets its share, which is what is left between the shares before and after it, and at
/// least one task; and no union is divided otherwise.
pub proof fn law_every_child_of_a_union_gets_a_task(
    unions: ProportionalUnions,
    counts: Seq<usize>,
    partitions: Seq<usize>,
    tasks: usize,
    i: int,
)
    requires
        0 <= i < counts.len(),
        counts.len() == partitions.len(),
    ensures
        ({
            let total = crate::union_layout::total_tasks(counts, counts.len());
            let share = crate::union_layout::share_end(counts, tasks, (i + 1) as nat)
                - crate::union_layout::share_end(counts, tasks, i as nat);
            match unions.isolated(counts, partitions, tasks) {
                Some(shape) => {
                    &&& total > 0 && total * tasks <= u128::MAX
                    &&& shape.child_tasks.len() == counts.len()
                    &&& shape.child_tasks[i] >= 1
                    &&& share >= 1 ==> shape.child_tasks[i] == share
                    &&& share < 1 ==> shape.child_tasks[i] == 1
                    &&& shape.partition_count >= partitions[i]
                },
                None => total == 0 || total * tasks > u128::MAX,
            }
        }),
{
    if crate::union_layout::total_tasks(counts, counts.len()) > 0 {
        crate::union_layout::lemma_share_ends(counts, tasks, (i + 1) as nat);
        crate::union_layout::lemma_share_ends(counts, tasks, i as nat);
    }
    law_unions_are_as_wide_as_their_widest_child(partitions, partitions.len());
}

/// The tasks that children want add up one by one.
pub proof fn law_wanted_tasks_add_up(counts: Seq<usize>, n: nat)
    requires
        n < counts.len(),
    ensures
        crate::union_layout::total_tasks(counts, n + 1) == crate::union_layout::total_tasks(
            counts,
            n,
        ) + counts[n as int],
        crate::union_layout::total_tasks(counts, 0) == 0,
{
}

/// Without estimates every leaf runs on one task at most and stays as it is; tasks that are not
/// scaled stay as many as they were.
pub proof fn law_without_estimates_leaves_run_on_one_task(
    plan: Plan,
    tasks: usize,
    factor: ScaleFactor,
)
    ensures
        NoTaskEstimates.estimated(plan) is None,
        NoTaskEstimates.scaled_leaf(plan, tasks) is None,
        UnscaledTasks.scaled(factor, tasks) == tasks,
{
}

/// The tasks of a stage that was just built are as many as asked for, and none has a worker; an
/// estimate is a desire or a maximum of the number that was given.
pub proof fn law_tasks_and_estimates_are_as_given(
    count: usize,
    tasks: Vec<ExecutionTask>,
    desired: TaskEstimation,
    maximum: TaskEstimation,
    i: int,
)
    requires
        call_ensures(crate::stage::unassigned_tasks, (count,), tasks),
        call_ensures(TaskEstimation::desired, (count,), desired),
        call_ensures(TaskEstimation::maximum, (count,), maximum),
    ensures
        tasks@.len() == count,
        0 <= i < count ==> tasks@[i].url is None,
        desired.task_count == TaskCountAnnotation::Desired(count),
        maximum.task_count == TaskCountAnnotation::Maximum(count),
{
}

/// Wherever a stage ends, and at the root of the plan, the stage is closed with the count that was
/// agreed upon: what is behind the boundary, or at the root, is the closed stage over the planned
/// inputs.
pub proof fn law_stages_are_closed_where_they_end(
    rules: PlanningRules,
    plan: Plan,
    parent: Option<KindView>,
    num: usize,
    max_tasks: usize,
)
    requires
        plan.children.len() > 0,
        ends_a_stage(plan, parent) || parent is None,
        rules.max_tasks == Ok::<usize, PlanFailure>(max_tasks),
        rules.injected(plan, parent, num) is Ok,
    ensures
        ({
            let after = rules.injected(plan, parent, num)->Ok_0.0;
            let children = rules.injected_children(plan, num, plan.children.len())->Ok_0.0;
            let top = if ends_a_stage(plan, parent) {
                after.children[0]
            } else {
                after
            };
            &&& plan.rebuilt(children) is Ok
            &&& top.task_count is Some
            &&& rules.closed_stage(plan.rebuilt(children)->Ok_0, top.task_count->0) == Ok::<
                Plan,
                PlanFailure,
            >(top)
        }),
{
    lemma_top_of_stage(rules, plan, parent, num, max_tasks);
    let n = plan.children.len();
    let (children, next) = rules.injected_children(plan, num, n)->Ok_0;
    let rebuilt = plan.rebuilt(children)->Ok_0;
    let task_count = rules.reconciled(plan, children).limited(max_tasks);
    assert(rules.injected(plan, parent, num) == rules.delimited(rebuilt, parent, task_count, next));
    let after = rules.injected(plan, parent, num)->Ok_0.0;
    if ends_a_stage(plan, parent) {
        assert(after.children[0] == rules.closed_stage(rebuilt, task_count)->Ok_0);
    }
}

/// Planning fails with the first failure that it meets: that of an input, from left to right, then
/// that of putting the operator above its planned inputs, then that of finding the cap. A leaf fails
/// only where it has an estimate and the cap is not known.
pub proof fn law_the_first_failure_is_told(
    rules: PlanningRules,
    plan: Plan,
    parent: Option<KindView>,
    num: usize,
)
    ensures
        plan.children.len() == 0 ==> (rules.injected(plan, parent, num) is Err <==> (
        rules.estimated)(plan) is Some && rules.max_tasks is Err),
        plan.children.len() == 0 ==> (rules.injected(plan, parent, num) matches Err(failure)
            ==> rules.max_tasks == Err::<usize, PlanFailure>(failure)),
        plan.children.len() > 0 ==> match rules.injected_children(plan, num, plan.children.len()) {
            Err(failure) => rules.injected(plan, parent, num) == Err::<(Plan, usize), PlanFailure>(
                failure,
            ),
            Ok((children, next)) => match plan.rebuilt(children) {
                Err(failure) => rules.injected(plan, parent, num) == Err::<
                    (Plan, usize),
                    PlanFailure,
                >(failure),
                Ok(_) => rules.max_tasks matches Err(failure) ==> rules.injected(plan, parent, num)
                    == Err::<(Plan, usize), PlanFailure>(failure),
            },
        },
{
}

/// The failure of an input is that of the first input that fails.
pub proof fn law_the_first_failing_input_is_told(
    rules: PlanningRules,
    plan: Plan,
    num: usize,
    n: nat,
)
    requires
        n < plan.children.len(),
    ensures
        match rules.injected_children(plan, num, n) {
            Err(failure) => rules.injected_children(plan, num, n + 1) == Err::<
                (Seq<Plan>, usize),
                PlanFailure,
            >(failure),
            Ok((_, next)) => rules.injected(plan.children[n as int], Some(plan.op.kind), next)
                matches Err(failure) ==> rules.injected_children(plan, num, n + 1) == Err::<
                (Seq<Plan>, usize),
                PlanFailure,
            >(failure),
        },
{
}

/// A union whose tasks cannot be divided among its children is an error.
pub proof fn law_unions_that_cannot_be_divided_are_refused(
    rules: PlanningRules,
    plan: Plan,
    task_count: TaskCountAnnotation,
)
    requires
        plan.children.len() > 0,
        rules.config.children_isolator_unions,
        plan.op.kind is Union,
        plan.is_recorded_below(),
        (rules.isolated)(
            Seq::new(
                plan.children.len(),
                |i: int| crate::boundary_laws::tasks_in(plan.children[i].task_count->0),
            ),
            Seq::new(plan.children.len(), |i: int| plan.children[i].partition_count),
            crate::boundary_laws::tasks_in(task_count),
        ) is None,
    ensures
        rules.propagated(plan, task_count) == Err::<Plan, PlanFailure>(
            PlanFailure::UnionTaskCounts,
        ),
{
    let n = plan.children.len();
    crate::inject_laws::lemma_recorded_children_have_counts(plan, n);
    lemma_child_counts(plan, n);
    assert(plan.child_partition_counts() =~= Seq::new(
        n,
        |i: int| plan.children[i].partition_count,
    ));
}

}
