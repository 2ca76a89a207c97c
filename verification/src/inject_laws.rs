//! What injecting network boundaries promises for every plan.
use vstd::prelude::*;

use crate::inject_network_boundaries::PlanningRules;
use crate::insert_local_exchange_split::ChildCounts;
use crate::plan::{KindView, Plan};
use crate::task_count::TaskCountAnnotation;

verus! {

impl Plan {
    /// Whether a task count is recorded on every node.
    pub open spec fn is_recorded(self) -> bool
        decreases self,
    {
        &&& self.task_count is Some
        &&& forall|i: int|
            #![trigger self.children[i]]
            0 <= i < self.children.len() ==> self.children[i].is_recorded()
    }

    /// Whether a task count is recorded on every node below the root.
    pub open spec fn is_recorded_below(self) -> bool {
        forall|i: int|
            #![trigger self.children[i]]
            0 <= i < self.children.len() ==> self.children[i].is_recorded()
    }

    /// Whether every node of the stage, network boundaries included, has one task count recorded.
    pub open spec fn stage_runs_with(self, task_count: TaskCountAnnotation) -> bool
        decreases self,
    {
        &&& self.task_count == Some(task_count)
        &&& self.is_network_boundary() || forall|i: int|
            #![trigger self.children[i]]
            0 <= i < self.children.len() ==> self.children[i].stage_runs_with(task_count)
    }
}

pub proof fn lemma_throughout_is_recorded(plan: Plan, task_count: TaskCountAnnotation)
    ensures
        plan.annotated_throughout(task_count).is_recorded(),
        plan.annotated_throughout(task_count).stage_runs_with(task_count),
    decreases plan,
{
    let after = plan.annotated_throughout(task_count);
    assert forall|i: int| #![trigger after.children[i]] 0 <= i < after.children.len() implies {
        &&& after.children[i].is_recorded()
        &&& after.children[i].stage_runs_with(task_count)
    } by {
        lemma_throughout_is_recorded(plan.children[i], task_count);
    }
}

pub proof fn lemma_within_stage_runs_with(plan: Plan, task_count: TaskCountAnnotation)
    ensures
        plan.annotated_within_stage(task_count).stage_runs_with(task_count),
        plan.is_recorded() ==> plan.annotated_within_stage(task_count).is_recorded(),
    decreases plan,
{
    let after = plan.annotated_within_stage(task_count);
    if !plan.is_network_boundary() {
        assert forall|i: int| #![trigger after.children[i]] 0 <= i < after.children.len() implies {
            &&& after.children[i].stage_runs_with(task_count)
            &&& plan.is_recorded() ==> after.children[i].is_recorded()
        } by {
            lemma_within_stage_runs_with(plan.children[i], task_count);
        }
    } else {
        assert forall|i: int|
            #![trigger after.children[i]]
            0 <= i < after.children.len() && plan.is_recorded() implies after.children[i].is_recorded()
            by {
            assert(after.children[i] == plan.children[i]);
        }
    }
}

/// Splits that are recorded after they were inserted leave no node without a task count.
proof fn lemma_splits_are_recorded(
    config: crate::config::DistributedConfig,
    tasks: usize,
    before: Plan,
    after: Plan,
    task_count: TaskCountAnnotation,
)
    requires
        before.is_recorded(),
        before.gains_only_splits(config, tasks, after),
    ensures
        after.annotated_within_stage(task_count).is_recorded(),
    decreases before,
{
    let recorded = after.annotated_within_stage(task_count);
    if after == before {
        lemma_within_stage_runs_with(before, task_count);
    } else if before.is_shuffle_split_by(config, tasks, after) {
        lemma_within_stage_runs_with(before, task_count);
        assert(after.children[0] == before);
        assert forall|i: int| #![trigger recorded.children[i]] 0 <= i < recorded.children.len() implies
            recorded.children[i].is_recorded() by {
            assert(recorded.children[i] == before.annotated_within_stage(task_count));
        }
    } else {
        assert(!after.is_network_boundary());
        assert forall|i: int| #![trigger recorded.children[i]] 0 <= i < recorded.children.len() implies
            recorded.children[i].is_recorded() by {
            lemma_splits_are_recorded(
                config,
                tasks,
                before.children[i],
                after.children[i],
                task_count,
            );
        }
    }
}

proof fn lemma_propagated_is_recorded(
    rules: PlanningRules,
    plan: Plan,
    task_count: TaskCountAnnotation,
)
    requires
        plan.is_recorded_below(),
        rules.propagated(plan, task_count) is Ok,
    ensures
        rules.propagated(plan, task_count)->Ok_0.is_recorded(),
    decreases plan, 1nat, 0nat,
{
    let after = rules.propagated(plan, task_count)->Ok_0;
    if plan.is_leaf() {
        if let Some(leaf) = (rules.scaled_leaf)(plan, task_count.count()) {
            lemma_throughout_is_recorded(leaf, task_count);
        }
    } else if plan.is_network_boundary() {
        assert(after.children == plan.children);
    } else if rules.isolates(plan) {
        let counts = plan.child_task_counts(plan.children.len())->Ok_0;
        let union = (rules.isolated)(counts, plan.child_partition_counts(), task_count.count())->0;
        lemma_propagated_children_are_recorded(
            rules,
            plan,
            union.child_tasks.map_values(|tasks: usize| TaskCountAnnotation::Maximum(tasks)),
            plan.children.len(),
        );
    } else {
        lemma_propagated_children_are_recorded(
            rules,
            plan,
            Seq::new(plan.children.len(), |i: int| task_count),
            plan.children.len(),
        );
    }
}

proof fn lemma_propagated_children_are_recorded(
    rules: PlanningRules,
    plan: Plan,
    task_counts: Seq<TaskCountAnnotation>,
    n: nat,
)
    requires
        n <= plan.children.len(),
        plan.is_recorded_below(),
        rules.propagated_children(plan, task_counts, n) is Ok,
    ensures
        ({
            let children = rules.propagated_children(plan, task_counts, n)->Ok_0;
            &&& children.len() == n
            &&& forall|i: int|
                #![trigger children[i]]
                0 <= i < n ==> children[i].is_recorded()
        }),
    decreases plan, 0nat, n,
{
    if n > 0 {
        lemma_propagated_children_are_recorded(rules, plan, task_counts, (n - 1) as nat);
        assert(plan.children[n - 1].is_recorded());
        lemma_propagated_is_recorded(rules, plan.children[n - 1], task_counts[n - 1]);
    }
}

/// What the pass over a closed stage returns is either the stage as it was, or the stage with
/// splits, recorded again.
pub proof fn lemma_finalized(
    rules: PlanningRules,
    plan: Plan,
    task_count: TaskCountAnnotation,
) -> (split: Plan)
    requires
        rules.finalized_stage(plan, task_count) is Ok,
    ensures
        plan.gains_only_splits(rules.config, task_count.count(), split),
        rules.finalized_stage(plan, task_count)->Ok_0 == plan
            || rules.finalized_stage(plan, task_count)->Ok_0 == split.annotated_within_stage(
            task_count,
        ),
{
    let config = rules.config;
    let tasks = task_count.count();
    crate::split_laws::law_only_splits_are_inserted(plan, config, tasks);
    let rewrite = plan.split_stage(config, tasks)->Ok_0;
    if !rewrite.changed && plan.with_splits(config, tasks, None) == Ok::<
        crate::split_input::Rewrite,
        crate::error::PlanFailure,
    >(rewrite) {
        crate::split_laws::law_untransformed_plans_are_unchanged(plan, config, tasks, None);
    }
    rewrite.plan
}

proof fn lemma_closed_stage_is_fully_recorded(
    rules: PlanningRules,
    plan: Plan,
    task_count: TaskCountAnnotation,
)
    requires
        plan.is_recorded_below(),
        rules.closed_stage(plan, task_count) is Ok,
    ensures
        rules.closed_stage(plan, task_count)->Ok_0.is_recorded(),
{
    lemma_propagated_is_recorded(rules, plan, task_count);
    let propagated = rules.propagated(plan, task_count)->Ok_0;
    let split = lemma_finalized(rules, propagated, task_count);
    lemma_splits_are_recorded(rules.config, task_count.count(), propagated, split, task_count);
}

proof fn lemma_injected_is_fully_recorded(
    rules: PlanningRules,
    plan: Plan,
    parent: Option<KindView>,
    num: usize,
)
    requires
        rules.injected(plan, parent, num) is Ok,
    ensures
        rules.injected(plan, parent, num)->Ok_0.0.is_recorded(),
    decreases plan, 1nat, 0nat,
{
    let after = rules.injected(plan, parent, num)->Ok_0.0;
    if !plan.is_leaf() {
        lemma_injected_children_are_recorded(rules, plan, num, plan.children.len());
        let (children, next) = rules.injected_children(plan, num, plan.children.len())->Ok_0;
        let rebuilt = plan.rebuilt(children)->Ok_0;
        let task_count = rules.reconciled(plan, children).limited(rules.max_tasks->Ok_0);
        assert(rebuilt.is_recorded_below());
        if rules.closed_stage(rebuilt, task_count) is Ok {
            lemma_closed_stage_is_fully_recorded(rules, rebuilt, task_count);
            let closed = rules.closed_stage(rebuilt, task_count)->Ok_0;
            assert(after == closed || after.children == seq![closed] || after.children
                == rebuilt.children);
        } else {
            assert(after.children == rebuilt.children);
        }
    }
}

proof fn lemma_injected_children_are_recorded(
    rules: PlanningRules,
    plan: Plan,
    num: usize,
    n: nat,
)
    requires
        n <= plan.children.len(),
        rules.injected_children(plan, num, n) is Ok,
    ensures
        ({
            let children = rules.injected_children(plan, num, n)->Ok_0.0;
            &&& children.len() == n
            &&& forall|i: int|
                #![trigger children[i]]
                0 <= i < n ==> children[i].is_recorded()
        }),
    decreases plan, 0nat, n,
{
    if n > 0 {
        lemma_injected_children_are_recorded(rules, plan, num, (n - 1) as nat);
        let before = rules.injected_children(plan, num, (n - 1) as nat)->Ok_0.1;
        lemma_injected_is_fully_recorded(
            rules,
            plan.children[n - 1],
            Some(plan.op.kind),
            before,
        );
    }
}

/// Every node of the returned plan has a task count recorded.
pub proof fn law_every_node_is_recorded(rules: PlanningRules, plan: Plan)
    requires
        rules.injected_plan(plan) is Ok,
    ensures
        rules.injected_plan(plan)->Ok_0.is_recorded(),
{
    lemma_injected_is_fully_recorded(rules, plan, None, 1);
}

impl Plan {
    /// Whether the stage holds a union.
    pub open spec fn stage_has_union(self) -> bool
        decreases self,
    {
        ||| self.op.kind is Union
        ||| !self.is_network_boundary() && exists|i: int|
            #![trigger self.children[i]]
            0 <= i < self.children.len() && self.children[i].stage_has_union()
    }
}

proof fn lemma_propagated_runs_with(
    rules: PlanningRules,
    plan: Plan,
    task_count: TaskCountAnnotation,
)
    requires
        rules.config.children_isolator_unions ==> !plan.stage_has_union(),
        rules.propagated(plan, task_count) is Ok,
    ensures
        rules.propagated(plan, task_count)->Ok_0.stage_runs_with(task_count),
    decreases plan, 1nat, 0nat,
{
    if plan.is_leaf() {
        if let Some(leaf) = (rules.scaled_leaf)(plan, task_count.count()) {
            lemma_throughout_is_recorded(leaf, task_count);
        }
    } else if !plan.is_network_boundary() {
        lemma_propagated_children_run_with(rules, plan, task_count, plan.children.len());
    }
}

proof fn lemma_propagated_children_run_with(
    rules: PlanningRules,
    plan: Plan,
    task_count: TaskCountAnnotation,
    n: nat,
)
    requires
        n <= plan.children.len(),
        !plan.is_network_boundary(),
        rules.config.children_isolator_unions ==> !plan.stage_has_union(),
        rules.propagated_children(
            plan,
            Seq::new(plan.children.len(), |i: int| task_count),
            n,
        ) is Ok,
    ensures
        ({
            let children = rules.propagated_children(
                plan,
                Seq::new(plan.children.len(), |i: int| task_count),
                n,
            )->Ok_0;
            &&& children.len() == n
            &&& forall|i: int|
                #![trigger children[i]]
                0 <= i < n ==> children[i].stage_runs_with(task_count)
        }),
    decreases plan, 0nat, n,
{
    if n > 0 {
        lemma_propagated_children_run_with(rules, plan, task_count, (n - 1) as nat);
        lemma_propagated_runs_with(rules, plan.children[n - 1], task_count);
    }
}

/// All nodes of a closed stage run with the task count of the stage, unless it holds a union whose
/// children are isolated from each other.
pub proof fn law_closed_stages_run_with_one_task_count(
    rules: PlanningRules,
    plan: Plan,
    task_count: TaskCountAnnotation,
)
    requires
        rules.config.children_isolator_unions ==> !plan.stage_has_union(),
        rules.closed_stage(plan, task_count) is Ok,
    ensures
        rules.closed_stage(plan, task_count)->Ok_0.stage_runs_with(task_count),
{
    lemma_propagated_runs_with(rules, plan, task_count);
    let propagated = rules.propagated(plan, task_count)->Ok_0;
    let split = lemma_finalized(rules, propagated, task_count);
    lemma_within_stage_runs_with(split, task_count);
}

/// Inserting splits fails only where an operator cannot be rebuilt.
pub proof fn lemma_split_failures(
    plan: Plan,
    config: crate::config::DistributedConfig,
    tasks: usize,
    required: Option<usize>,
)
    ensures
        plan.with_splits(config, tasks, required) matches Err(failure) ==> failure is CannotRebuild,
    decreases plan, 1nat, 0nat,
{
    lemma_split_children_failures(
        plan,
        config,
        tasks,
        ChildCounts::Preserve,
        plan.children.len(),
    );
    lemma_split_children_failures(
        plan,
        config,
        tasks,
        ChildCounts::Propagate(required),
        plan.children.len(),
    );
    lemma_split_children_failures(
        plan,
        config,
        tasks,
        ChildCounts::Propagate(None),
        plan.children.len(),
    );
}

proof fn lemma_split_children_failures(
    plan: Plan,
    config: crate::config::DistributedConfig,
    tasks: usize,
    counts: ChildCounts,
    n: nat,
)
    requires
        n <= plan.children.len(),
    ensures
        plan.split_children(config, tasks, counts, n) matches Err(failure)
            ==> failure is CannotRebuild,
    decreases plan, 0nat, n,
{
    if n > 0 {
        lemma_split_children_failures(plan, config, tasks, counts, (n - 1) as nat);
        lemma_split_failures(plan.children[n - 1], config, tasks, counts.demand(plan, n - 1));
    }
}

pub proof fn lemma_recorded_children_have_counts(plan: Plan, n: nat)
    requires
        n <= plan.children.len(),
        plan.is_recorded_below(),
    ensures
        plan.child_task_counts(n) is Ok,
    decreases n,
{
    if n > 0 {
        lemma_recorded_children_have_counts(plan, (n - 1) as nat);
        assert(plan.children[n - 1].is_recorded());
    }
}

proof fn lemma_propagation_failures(
    rules: PlanningRules,
    plan: Plan,
    task_count: TaskCountAnnotation,
)
    requires
        plan.is_recorded_below(),
    ensures
        rules.propagated(plan, task_count) matches Err(failure) ==> !(failure is MissingTaskCount),
    decreases plan, 1nat, 0nat,
{
    if plan.is_leaf() || plan.is_network_boundary() {
    } else if rules.isolates(plan) {
        lemma_recorded_children_have_counts(plan, plan.children.len());
        let counts = plan.child_task_counts(plan.children.len())->Ok_0;
        if let Some(union) = (rules.isolated)(
            counts,
            plan.child_partition_counts(),
            task_count.count(),
        ) {
            lemma_propagation_failures_in_children(
                rules,
                plan,
                union.child_tasks.map_values(|tasks: usize| TaskCountAnnotation::Maximum(tasks)),
                plan.children.len(),
            );
        }
    } else {
        lemma_propagation_failures_in_children(
            rules,
            plan,
            Seq::new(plan.children.len(), |i: int| task_count),
            plan.children.len(),
        );
    }
}

proof fn lemma_propagation_failures_in_children(
    rules: PlanningRules,
    plan: Plan,
    task_counts: Seq<TaskCountAnnotation>,
    n: nat,
)
    requires
        n <= plan.children.len(),
        plan.is_recorded_below(),
    ensures
        rules.propagated_children(plan, task_counts, n) matches Err(failure)
            ==> !(failure is MissingTaskCount),
    decreases plan, 0nat, n,
{
    if n > 0 {
        lemma_propagation_failures_in_children(rules, plan, task_counts, (n - 1) as nat);
        assert(plan.children[n - 1].is_recorded());
        lemma_propagation_failures(rules, plan.children[n - 1], task_counts[n - 1]);
    }
}

proof fn lemma_closing_failures(
    rules: PlanningRules,
    plan: Plan,
    task_count: TaskCountAnnotation,
)
    requires
        plan.is_recorded_below(),
    ensures
        rules.closed_stage(plan, task_count) matches Err(failure) ==> !(failure is MissingTaskCount),
{
    lemma_propagation_failures(rules, plan, task_count);
    if let Ok(propagated) = rules.propagated(plan, task_count) {
        lemma_split_failures(propagated, rules.config, task_count.count(), None);
    }
}

proof fn lemma_injection_failures(
    rules: PlanningRules,
    plan: Plan,
    parent: Option<KindView>,
    num: usize,
)
    requires
        rules.max_tasks matches Err(failure) ==> !(failure is MissingTaskCount),
    ensures
        rules.injected(plan, parent, num) matches Err(failure) ==> !(failure is MissingTaskCount),
    decreases plan, 1nat, 0nat,
{
    if !plan.is_leaf() {
        lemma_injection_failures_in_children(rules, plan, num, plan.children.len());
        if let Ok((children, next)) = rules.injected_children(plan, num, plan.children.len()) {
            lemma_injected_children_are_recorded(rules, plan, num, plan.children.len());
            if rules.max_tasks is Ok {
                if let Ok(rebuilt) = plan.rebuilt(children) {
                    let task_count = rules.reconciled(plan, children).limited(
                        rules.max_tasks->Ok_0,
                    );
                    assert(rebuilt.is_recorded_below());
                    lemma_closing_failures(rules, rebuilt, task_count);
                }
            }
        }
    }
}

proof fn lemma_injection_failures_in_children(
    rules: PlanningRules,
    plan: Plan,
    num: usize,
    n: nat,
)
    requires
        n <= plan.children.len(),
        rules.max_tasks matches Err(failure) ==> !(failure is MissingTaskCount),
    ensures
        rules.injected_children(plan, num, n) matches Err(failure)
            ==> !(failure is MissingTaskCount),
    decreases plan, 0nat, n,
{
    if n > 0 {
        lemma_injection_failures_in_children(rules, plan, num, (n - 1) as nat);
        if let Ok((_, before)) = rules.injected_children(plan, num, (n - 1) as nat) {
            lemma_injection_failures(rules, plan.children[n - 1], Some(plan.op.kind), before);
        }
    }
}

/// The planner never asks for a task count that it has not recorded.
pub proof fn law_no_task_count_is_missing(rules: PlanningRules, plan: Plan)
    requires
        rules.max_tasks matches Err(failure) ==> failure is WorkersUnavailable,
    ensures
        rules.injected_plan(plan) matches Err(failure) ==> !(failure is MissingTaskCount),
{
    lemma_injection_failures(rules, plan, None, 1);
}

/// Below an operator that folds all partitions into one, whatever is neither a leaf nor a
/// repartitioning crosses the network: what is replicated for a join by a broadcast, and anything
/// else by a coalesce, above which one task is left.
pub proof fn law_folded_inputs_cross_the_network(
    rules: PlanningRules,
    plan: Plan,
    parent: KindView,
    num: usize,
)
    requires
        parent.folds_partitions(),
        !plan.is_leaf(),
        !(plan.op.kind is Repartition),
        rules.injected(plan, Some(parent), num) is Ok,
    ensures
        ({
            let after = rules.injected(plan, Some(parent), num)->Ok_0.0;
            if plan.op.kind is Broadcast {
                after.op.kind is NetworkBroadcast
            } else {
                after.op.kind is NetworkCoalesce && after.task_count == Some(
                    TaskCountAnnotation::Maximum(1),
                )
            }
        }),
{
}

}
