//! What the network boundaries of a distributed plan read, and where they stand.
use vstd::prelude::*;

use crate::config::DistributedConfig;
use crate::inject_network_boundaries::PlanningRules;
use crate::plan::{DistributionView, KindView, Plan, QueryId};
use crate::task_count::TaskCountAnnotation;

verus! {

/// The number in an annotation, whether it is a desire or a maximum.
pub open spec fn tasks_in(task_count: TaskCountAnnotation) -> usize {
    match task_count {
        TaskCountAnnotation::Desired(tasks) => tasks,
        TaskCountAnnotation::Maximum(tasks) => tasks,
    }
}

impl Plan {
    /// Whether the root reads from a stage behind the network.
    pub open spec fn reads_a_stage(self) -> bool {
        ||| self.op.kind is NetworkShuffle
        ||| self.op.kind is NetworkBroadcast
        ||| self.op.kind is NetworkCoalesce
    }

    /// Whether all nodes of the stage have the task count of its root recorded, apart from those
    /// below a union that gives each of its children tasks of its own.
    pub open spec fn runs_evenly(self) -> bool
        decreases self,
    {
        self.reads_a_stage() || forall|i: int|
            #![trigger self.children[i]]
            0 <= i < self.children.len() ==> {
                &&& self.children[i].runs_evenly()
                &&& self.op.kind is ChildrenIsolatorUnion || self.children[i].task_count
                    == self.task_count
            }
    }

    /// Whether the root is a network boundary that reads the whole of one stage of the query: as
    /// many tasks as are recorded at the top of the stage, which are spread evenly over it, with
    /// the partitioning that the stage has. A coalesce exposes the partitions of every task, and
    /// any other boundary those of one.
    pub open spec fn reads_one_whole_stage(self, query_id: QueryId) -> bool {
        let top = self.children[0];
        &&& self.children.len() == 1
        &&& top.runs_evenly()
        &&& top.task_count matches Some(task_count) && (self.op.input_stage matches Some(stage) && {
            &&& stage.query_id == query_id
            &&& stage.tasks == tasks_in(task_count)
            &&& self.op.kind is NetworkCoalesce ==> self.partition_count == top.partition_count
                * stage.tasks
        })
        &&& !(self.op.kind is NetworkCoalesce) ==> self.partition_count == top.partition_count
        &&& self.op.scheme == top.op.scheme
        &&& self.op.equal_exprs == top.op.equal_exprs
        &&& self.op.fetch is None
        &&& self.op.handle is None
        &&& self.op.cardinality_effect is Unknown
        &&& self.op.benefits == seq![false]
        &&& self.op.required == seq![DistributionView::Unspecified]
        &&& self.op.partition_rule is Constant
        &&& self.op.rebuildable
        &&& self.op.name == if self.op.kind is NetworkShuffle {
            "NetworkShuffleExec"@
        } else if self.op.kind is NetworkBroadcast {
            "NetworkBroadcastExec"@
        } else {
            "NetworkCoalesceExec"@
        }
        &&& self.op.kind is NetworkShuffle <==> top.op.kind is Repartition && top.op.scheme is Hash
        &&& self.op.kind is NetworkBroadcast <==> top.op.kind is Broadcast
    }

    /// Whether every network boundary of the plan reads one whole stage of the query.
    pub open spec fn boundaries_read_whole_stages(self, query_id: QueryId) -> bool
        decreases self,
    {
        &&& self.reads_a_stage() ==> self.reads_one_whole_stage(query_id)
        &&& forall|i: int|
            #![trigger self.children[i]]
            0 <= i < self.children.len() ==> self.children[i].boundaries_read_whole_stages(query_id)
    }
}

proof fn lemma_stages_that_run_with_a_count_run_evenly(plan: Plan, task_count: TaskCountAnnotation)
    requires
        plan.stage_runs_with(task_count),
    ensures
        plan.runs_evenly(),
    decreases plan,
{
    if !plan.is_network_boundary() {
        assert forall|i: int| #![trigger plan.children[i]] 0 <= i < plan.children.len() implies {
            &&& plan.children[i].runs_evenly()
            &&& plan.children[i].task_count == plan.task_count
        } by {
            assert(plan.children[i].stage_runs_with(task_count));
            lemma_stages_that_run_with_a_count_run_evenly(plan.children[i], task_count);
        }
    }
}

proof fn lemma_recording_keeps_boundaries(
    plan: Plan,
    task_count: TaskCountAnnotation,
    query_id: QueryId,
)
    requires
        plan.boundaries_read_whole_stages(query_id),
    ensures
        plan.annotated_within_stage(task_count).boundaries_read_whole_stages(query_id),
    decreases plan,
{
    let after = plan.annotated_within_stage(task_count);
    if !plan.is_network_boundary() {
        assert forall|i: int| #![trigger after.children[i]] 0 <= i < after.children.len() implies
            after.children[i].boundaries_read_whole_stages(query_id) by {
            assert(plan.children[i].boundaries_read_whole_stages(query_id));
            lemma_recording_keeps_boundaries(plan.children[i], task_count, query_id);
        }
    } else {
        assert(after.children == plan.children);
    }
}

proof fn lemma_no_boundaries_throughout(
    plan: Plan,
    task_count: TaskCountAnnotation,
    query_id: QueryId,
)
    requires
        plan.has_no_boundary(),
    ensures
        plan.annotated_throughout(task_count).boundaries_read_whole_stages(query_id),
    decreases plan,
{
    let after = plan.annotated_throughout(task_count);
    assert forall|i: int| #![trigger after.children[i]] 0 <= i < after.children.len() implies
        after.children[i].boundaries_read_whole_stages(query_id) by {
        assert(plan.children[i].has_no_boundary());
        lemma_no_boundaries_throughout(plan.children[i], task_count, query_id);
    }
}

/// What spreading a task count over a stage keeps and gives.
proof fn lemma_propagation_keeps_boundaries(
    rules: PlanningRules,
    plan: Plan,
    task_count: TaskCountAnnotation,
)
    requires
        rules.scales_leaves_without_boundaries(),
        plan.boundaries_read_whole_stages(rules.query_id),
        rules.propagated(plan, task_count) is Ok,
    ensures
        ({
            let after = rules.propagated(plan, task_count)->Ok_0;
            &&& after.boundaries_read_whole_stages(rules.query_id)
            &&& after.runs_evenly()
            &&& after.task_count == Some(task_count)
            &&& !plan.is_leaf() ==> {
                &&& after.op.scheme == plan.op.scheme
                &&& after.op.equal_exprs == plan.op.equal_exprs
                &&& after.op.kind == plan.op.kind || plan.op.kind is Union && after.op.kind
                    is ChildrenIsolatorUnion
            }
        }),
    decreases plan, 1nat, 0nat,
{
    let after = rules.propagated(plan, task_count)->Ok_0;
    if plan.is_leaf() {
        if let Some(leaf) = (rules.scaled_leaf)(plan, task_count.count()) {
            assert(leaf.has_no_boundary());
            lemma_no_boundaries_throughout(leaf, task_count, rules.query_id);
            crate::inject_laws::lemma_throughout_is_recorded(leaf, task_count);
            lemma_stages_that_run_with_a_count_run_evenly(after, task_count);
        }
    } else if plan.is_network_boundary() {
        assert(after.children == plan.children);
    } else if rules.isolates(plan) {
        let counts = plan.child_task_counts(plan.children.len())->Ok_0;
        let union = (rules.isolated)(counts, plan.child_partition_counts(), task_count.count())->0;
        let task_counts = union.child_tasks.map_values(
            |tasks: usize| TaskCountAnnotation::Maximum(tasks),
        );
        lemma_propagation_keeps_boundaries_below(rules, plan, task_counts, plan.children.len());
    } else {
        let task_counts = Seq::new(plan.children.len(), |i: int| task_count);
        lemma_propagation_keeps_boundaries_below(rules, plan, task_counts, plan.children.len());
    }
}

proof fn lemma_propagation_keeps_boundaries_below(
    rules: PlanningRules,
    plan: Plan,
    task_counts: Seq<TaskCountAnnotation>,
    n: nat,
)
    requires
        n <= plan.children.len(),
        rules.scales_leaves_without_boundaries(),
        plan.boundaries_read_whole_stages(rules.query_id),
        rules.propagated_children(plan, task_counts, n) is Ok,
    ensures
        ({
            let children = rules.propagated_children(plan, task_counts, n)->Ok_0;
            &&& children.len() == n
            &&& forall|i: int|
                #![trigger children[i]]
                0 <= i < n ==> {
                    &&& children[i].boundaries_read_whole_stages(rules.query_id)
                    &&& children[i].runs_evenly()
                    &&& children[i].task_count == Some(task_counts[i])
                }
        }),
    decreases plan, 0nat, n,
{
    if n > 0 {
        lemma_propagation_keeps_boundaries_below(rules, plan, task_counts, (n - 1) as nat);
        assert(plan.children[n - 1].boundaries_read_whole_stages(rules.query_id));
        lemma_propagation_keeps_boundaries(rules, plan.children[n - 1], task_counts[n - 1]);
    }
}

proof fn lemma_splits_keep_boundaries(
    config: DistributedConfig,
    tasks: usize,
    before: Plan,
    after: Plan,
    query_id: QueryId,
)
    requires
        before.gains_only_splits(config, tasks, after),
        before.boundaries_read_whole_stages(query_id),
    ensures
        after.boundaries_read_whole_stages(query_id),
    decreases before,
{
    if after == before {
    } else if before.is_shuffle_split_by(config, tasks, after) {
        assert(after.children =~= seq![before]);
    } else {
        assert forall|i: int| #![trigger after.children[i]] 0 <= i < after.children.len() implies
            after.children[i].boundaries_read_whole_stages(query_id) by {
            assert(before.children[i].gains_only_splits(config, tasks, after.children[i]));
            lemma_splits_keep_boundaries(
                config,
                tasks,
                before.children[i],
                after.children[i],
                query_id,
            );
        }
    }
}

/// What closing a stage keeps and gives.
proof fn lemma_closing_keeps_boundaries(
    rules: PlanningRules,
    plan: Plan,
    task_count: TaskCountAnnotation,
)
    requires
        rules.scales_leaves_without_boundaries(),
        plan.boundaries_read_whole_stages(rules.query_id),
        !plan.is_leaf(),
        !plan.reads_a_stage(),
        rules.closed_stage(plan, task_count) is Ok,
    ensures
        ({
            let after = rules.closed_stage(plan, task_count)->Ok_0;
            &&& after.boundaries_read_whole_stages(rules.query_id)
            &&& after.runs_evenly()
            &&& after.task_count == Some(task_count)
            &&& after.op.scheme == plan.op.scheme
            &&& after.op.equal_exprs == plan.op.equal_exprs
            &&& after.op.kind == plan.op.kind || plan.op.kind is Union && after.op.kind
                is ChildrenIsolatorUnion
        }),
{
    lemma_propagation_keeps_boundaries(rules, plan, task_count);
    let propagated = rules.propagated(plan, task_count)->Ok_0;
    let split = crate::inject_laws::lemma_finalized(rules, propagated, task_count);
    lemma_splits_keep_boundaries(
        rules.config,
        task_count.count(),
        propagated,
        split,
        rules.query_id,
    );
    lemma_recording_keeps_boundaries(split, task_count, rules.query_id);
    crate::inject_laws::lemma_within_stage_runs_with(split, task_count);
    lemma_stages_that_run_with_a_count_run_evenly(
        split.annotated_within_stage(task_count),
        task_count,
    );
}

/// What holds of the boundaries of a plan with boundaries injected.
proof fn lemma_injected_boundaries(
    rules: PlanningRules,
    plan: Plan,
    parent: Option<KindView>,
    num: usize,
)
    requires
        rules.scales_leaves_without_boundaries(),
        plan.has_no_boundary(),
        rules.injected(plan, parent, num) is Ok,
    ensures
        ({
            let after = rules.injected(plan, parent, num)->Ok_0.0;
            &&& after.boundaries_read_whole_stages(rules.query_id)
            &&& parent is None ==> after.runs_evenly()
        }),
    decreases plan, 1nat, 0nat,
{
    let after = rules.injected(plan, parent, num)->Ok_0.0;
    if !plan.is_leaf() {
        let n = plan.children.len();
        lemma_injected_boundaries_below(rules, plan, num, n);
        let (children, next) = rules.injected_children(plan, num, n)->Ok_0;
        let rebuilt = plan.rebuilt(children)->Ok_0;
        let task_count = rules.reconciled(plan, children).limited(rules.max_tasks->Ok_0);
        assert(rebuilt.boundaries_read_whole_stages(rules.query_id));
        if rules.closed_stage(rebuilt, task_count) is Ok {
            lemma_closing_keeps_boundaries(rules, rebuilt, task_count);
        }
        let folded = !(rebuilt.op.kind is Repartition) && (parent matches Some(kind) && (kind
            is CoalescePartitions || kind is SortPreservingMerge));
        if rebuilt.op.kind is Repartition && rebuilt.op.scheme is Hash || folded {
            let closed = rules.closed_stage(rebuilt, task_count)->Ok_0;
            assert(after.children =~= seq![closed]);
            if after.op.kind is NetworkCoalesce {
                let tasks = task_count.count() as nat;
                lemma_all_tasks_reach_one(tasks);
                let count = closed.partition_count;
                assert(after.partition_count == count * tasks);
            }
            assert(after.reads_one_whole_stage(rules.query_id));
        } else if parent is Some {
            assert(after.children == rebuilt.children);
        }
    }
}

/// One consumer task reads all producer tasks.
proof fn lemma_all_tasks_reach_one(tasks: nat)
    ensures
        crate::arithmetic::ceil_div(tasks, 1) == tasks,
{
}

proof fn lemma_injected_boundaries_below(rules: PlanningRules, plan: Plan, num: usize, n: nat)
    requires
        n <= plan.children.len(),
        rules.scales_leaves_without_boundaries(),
        plan.has_no_boundary(),
        rules.injected_children(plan, num, n) is Ok,
    ensures
        ({
            let children = rules.injected_children(plan, num, n)->Ok_0.0;
            &&& children.len() == n
            &&& forall|i: int|
                #![trigger children[i]]
                0 <= i < n ==> children[i].boundaries_read_whole_stages(rules.query_id)
        }),
    decreases plan, 0nat, n,
{
    if n > 0 {
        lemma_injected_boundaries_below(rules, plan, num, (n - 1) as nat);
        let before = rules.injected_children(plan, num, (n - 1) as nat)->Ok_0.1;
        let child = plan.children[n - 1];
        assert(child.has_no_boundary());
        lemma_injected_boundaries(rules, child, Some(plan.op.kind), before);
    }
}

/// Every network boundary of the returned plan, whatever its kind, reads one whole stage: its input
/// stage has exactly as many tasks as the task count recorded at the top of the plan behind it, all
/// nodes of that stage run on as many tasks, and no partition of any of them is left out. A shuffle
/// stands above a repartitioning by hash and nowhere else, and a broadcast above an operator that
/// replicates its input. The stage at the root of the plan runs on one number of tasks, too.
pub proof fn law_boundaries_read_whole_stages(rules: PlanningRules, plan: Plan)
    requires
        rules.scales_leaves_without_boundaries(),
        plan.has_no_boundary(),
        rules.injected_plan(plan) is Ok,
    ensures
        rules.injected_plan(plan)->Ok_0.boundaries_read_whole_stages(rules.query_id),
        rules.injected_plan(plan)->Ok_0.runs_evenly(),
{
    lemma_injected_boundaries(rules, plan, None, 1);
}

}
