//! Which plans can always be distributed.
use vstd::prelude::*;

use crate::config::DistributedConfig;
use crate::error::PlanFailure;
use crate::inject_network_boundaries::PlanningRules;
use crate::insert_local_exchange_split::ChildCounts;
use crate::plan::{KindView, PartitionRule, Plan};
use crate::task_count::TaskCountAnnotation;

verus! {

/// The partitions of all children of a plan are those of the first and those of the others: lists of
/// plans have the partitions of their parts together, and a single plan has its own.
pub proof fn law_partitions_of_plans_add_up(a: Seq<Plan>, b: Seq<Plan>, plan: Plan)
    ensures
        crate::plan::total_partitions(a + b) == crate::plan::total_partitions(a)
            + crate::plan::total_partitions(b),
        crate::plan::total_partitions(seq![plan]) == plan.partition_count,
    decreases b.len(),
{
    assert(seq![plan].drop_last() =~= Seq::<Plan>::empty());
    assert(seq![plan].last() == plan);
    reveal_with_fuel(crate::plan::total_partitions, 2);
    if b.len() == 0 {
        assert(a + b =~= a);
    } else {
        assert((a + b).drop_last() =~= a + b.drop_last());
        law_partitions_of_plans_add_up(a, b.drop_last(), plan);
    }
}

/// An operator that can be rebuilt is put above as many other inputs as it had: it stays the
/// operator that it was, no task count is recorded for it, and its partitions follow from its rule.
/// It fails only where it cannot be rebuilt, has another number of inputs, or has no count.
pub proof fn law_rebuilding_replaces_the_inputs(plan: Plan, children: Seq<Plan>)
    ensures
        match plan.rebuilt(children) {
            Ok(rebuilt) => {
                &&& plan.op.rebuildable && children.len() == plan.children.len()
                &&& rebuilt.op == plan.op
                &&& rebuilt.children == children
                &&& rebuilt.task_count is None
                &&& match plan.op.partition_rule {
                    PartitionRule::Constant => rebuilt.partition_count == plan.partition_count,
                    PartitionRule::Inherit(child) => child < children.len()
                        && rebuilt.partition_count == children[child as int].partition_count,
                    PartitionRule::Sum => rebuilt.partition_count == crate::plan::total_partitions(
                        children,
                    ),
                    PartitionRule::Scaled(factor) => children.len() == 1 && rebuilt.partition_count
                        == factor * children[0].partition_count,
                }
            },
            Err(failure) => {
                &&& failure == (PlanFailure::CannotRebuild { operator: plan.op.name })
                &&& !plan.op.rebuildable || children.len() != plan.children.len()
                    || match plan.op.partition_rule {
                    PartitionRule::Constant => false,
                    PartitionRule::Inherit(child) => child >= children.len(),
                    PartitionRule::Sum => crate::plan::total_partitions(children) > usize::MAX,
                    PartitionRule::Scaled(factor) => children.len() != 1 || factor
                        * children[0].partition_count > usize::MAX,
                }
            },
        },
{
    if let PartitionRule::Scaled(factor) = plan.op.partition_rule {
        if children.len() == 1 {
            let (f, c) = (factor as int, children[0].partition_count as int);
            assert(f * c == c * f && f * c >= 0) by (nonlinear_arith)
                requires
                    f >= 0,
                    c >= 0,
            ;
        }
    }
}

impl Plan {
    /// Whether every operator of the stage that has inputs can be put above other ones without
    /// changing its number of partitions.
    pub open spec fn stage_can_be_rebuilt(self) -> bool
        decreases self,
    {
        self.reads_a_stage() || {
            &&& self.children.len() > 0 ==> self.op.rebuildable && self.op.partition_rule
                is Constant
            &&& forall|i: int|
                #![trigger self.children[i]]
                0 <= i < self.children.len() ==> self.children[i].stage_can_be_rebuilt()
        }
    }

    /// Whether every operator of a plan without network boundaries can be put above other inputs,
    /// and its partitions can be counted on as many tasks as there may be.
    pub open spec fn can_be_distributed(self, max_tasks: usize) -> bool
        decreases self,
    {
        &&& !self.reads_a_stage()
        &&& 0 < self.partition_count
        &&& self.partition_count * max_tasks <= usize::MAX
        &&& self.children.len() > 0 ==> self.op.rebuildable && self.op.partition_rule is Constant
        &&& forall|i: int|
            #![trigger self.children[i]]
            0 <= i < self.children.len() ==> self.children[i].can_be_distributed(max_tasks)
    }
}

proof fn lemma_splits_succeed(
    plan: Plan,
    config: DistributedConfig,
    tasks: usize,
    required: Option<usize>,
)
    requires
        plan.stage_can_be_rebuilt(),
    ensures
        plan.with_splits(config, tasks, required) is Ok,
        !plan.reads_a_stage() && !plan.is_split() && required is None ==> plan.with_splits(
            config,
            tasks,
            required,
        )->Ok_0.plan.partition_count == plan.partition_count,
    decreases plan, 1nat, 0nat,
{
    if !plan.reads_a_stage() {
        let n = plan.children.len();
        lemma_split_children_succeed(plan, config, tasks, ChildCounts::Preserve, n);
        lemma_split_children_succeed(plan, config, tasks, ChildCounts::Propagate(required), n);
        lemma_split_children_succeed(plan, config, tasks, ChildCounts::Propagate(None), n);
    }
}

proof fn lemma_split_children_succeed(
    plan: Plan,
    config: DistributedConfig,
    tasks: usize,
    counts: ChildCounts,
    n: nat,
)
    requires
        n <= plan.children.len(),
        plan.stage_can_be_rebuilt(),
        !plan.reads_a_stage(),
    ensures
        plan.split_children(config, tasks, counts, n) matches Ok((children, changed))
            && children.len() == n,
    decreases plan, 0nat, n,
{
    if n > 0 {
        lemma_split_children_succeed(plan, config, tasks, counts, (n - 1) as nat);
        assert(plan.children[n - 1].stage_can_be_rebuilt());
        lemma_splits_succeed(plan.children[n - 1], config, tasks, counts.demand(plan, n - 1));
    }
}

impl PlanningRules {
    /// Whether leaves are replaced by leaves, if they are replaced.
    pub open spec fn replaces_leaves_by_leaves(self) -> bool {
        forall|leaf: Plan, tasks: usize| #[trigger]
            (self.scaled_leaf)(leaf, tasks) matches Some(scaled) ==> scaled.children.len() == 0
                && !scaled.reads_a_stage()
    }

    /// Whether nothing but the plan can stand in the way of planning: the cap is known, unions run
    /// their children together, and the split mode is a known one.
    pub open spec fn are_settled(self, max_tasks: usize) -> bool {
        &&& self.max_tasks == Ok::<usize, PlanFailure>(max_tasks)
        &&& !self.config.children_isolator_unions
        &&& self.config.local_exchange_split_mode@ == "off"@
            || self.config.local_exchange_split_mode@ == "final_agg"@
            || self.config.local_exchange_split_mode@ == "final_agg_and_join"@
        &&& self.replaces_leaves_by_leaves()
    }
}

proof fn lemma_counts_are_spread(
    rules: PlanningRules,
    plan: Plan,
    task_count: TaskCountAnnotation,
    max_tasks: usize,
)
    requires
        rules.are_settled(max_tasks),
        plan.stage_can_be_rebuilt(),
    ensures
        rules.propagated(plan, task_count) matches Ok(after) && {
            &&& after.stage_can_be_rebuilt()
            &&& plan.children.len() > 0 ==> after.partition_count == plan.partition_count
                && after.op == plan.op
        },
    decreases plan, 1nat, 0nat,
{
    if plan.children.len() == 0 {
        if let Some(leaf) = (rules.scaled_leaf)(plan, task_count.count()) {
            assert(leaf.children.len() == 0);
        }
    } else if !plan.reads_a_stage() {
        let task_counts = Seq::new(plan.children.len(), |i: int| task_count);
        lemma_counts_are_spread_below(rules, plan, task_counts, max_tasks, plan.children.len());
    }
}

proof fn lemma_counts_are_spread_below(
    rules: PlanningRules,
    plan: Plan,
    task_counts: Seq<TaskCountAnnotation>,
    max_tasks: usize,
    n: nat,
)
    requires
        n <= plan.children.len(),
        rules.are_settled(max_tasks),
        plan.stage_can_be_rebuilt(),
        !plan.reads_a_stage(),
    ensures
        rules.propagated_children(plan, task_counts, n) matches Ok(children) && {
            &&& children.len() == n
            &&& forall|i: int|
                #![trigger children[i]]
                0 <= i < n ==> children[i].stage_can_be_rebuilt()
        },
    decreases plan, 0nat, n,
{
    if n > 0 {
        lemma_counts_are_spread_below(rules, plan, task_counts, max_tasks, (n - 1) as nat);
        assert(plan.children[n - 1].stage_can_be_rebuilt());
        lemma_counts_are_spread(rules, plan.children[n - 1], task_counts[n - 1], max_tasks);
    }
}

proof fn lemma_stages_are_closed(
    rules: PlanningRules,
    plan: Plan,
    task_count: TaskCountAnnotation,
    max_tasks: usize,
)
    requires
        rules.are_settled(max_tasks),
        plan.stage_can_be_rebuilt(),
        plan.children.len() > 0,
        !plan.reads_a_stage(),
        !plan.is_split(),
    ensures
        rules.closed_stage(plan, task_count) matches Ok(closed) && closed.partition_count
            == plan.partition_count,
{
    lemma_counts_are_spread(rules, plan, task_count, max_tasks);
    let spread = rules.propagated(plan, task_count)->Ok_0;
    lemma_splits_succeed(spread, rules.config, task_count.count(), None);
}

impl Plan {
    /// Whether the plan holds no local exchange split.
    pub open spec fn has_no_split(self) -> bool
        decreases self,
    {
        &&& !(self.op.kind is LocalExchangeSplit)
        &&& forall|i: int|
            #![trigger self.children[i]]
            0 <= i < self.children.len() ==> self.children[i].has_no_split()
    }
}

proof fn lemma_plans_are_injected(
    rules: PlanningRules,
    plan: Plan,
    parent: Option<KindView>,
    num: usize,
    max_tasks: usize,
)
    requires
        rules.are_settled(max_tasks),
        plan.can_be_distributed(max_tasks),
        plan.has_no_split(),
    ensures
        rules.injected(plan, parent, num) matches Ok((after, next)) && (parent is Some
            ==> after.stage_can_be_rebuilt()),
    decreases plan, 1nat, 0nat,
{
    if plan.children.len() > 0 {
        let n = plan.children.len();
        lemma_children_are_injected(rules, plan, num, max_tasks, n);
        let (children, next) = rules.injected_children(plan, num, n)->Ok_0;
        let rebuilt = plan.rebuilt(children)->Ok_0;
        let task_count = rules.reconciled(plan, children).limited(max_tasks);
        assert(rebuilt.stage_can_be_rebuilt());
        lemma_stages_are_closed(rules, rebuilt, task_count, max_tasks);
        assert(rules.injected(plan, parent, num) == rules.delimited(
            rebuilt,
            parent,
            task_count,
            next,
        ));
        lemma_stages_are_delimited(rules, rebuilt, parent, task_count, next, max_tasks);
    }
}

proof fn lemma_stages_are_delimited(
    rules: PlanningRules,
    plan: Plan,
    parent: Option<KindView>,
    task_count: TaskCountAnnotation,
    num: usize,
    max_tasks: usize,
)
    requires
        rules.are_settled(max_tasks),
        plan.stage_can_be_rebuilt(),
        0 < plan.partition_count,
        plan.partition_count * max_tasks <= usize::MAX,
        task_count.count() <= max_tasks,
        !plan.is_split(),
        !plan.reads_a_stage(),
        plan.children.len() > 0,
    ensures
        rules.delimited(plan, parent, task_count, num) matches Ok((after, next)) && (parent is Some
            ==> after.stage_can_be_rebuilt()),
{
    lemma_stages_are_closed(rules, plan, task_count, max_tasks);
    let closed = rules.closed_stage(plan, task_count)->Ok_0;
    let (p, t, m) = (plan.partition_count as int, task_count.count() as int, max_tasks as int);
    assert(p * t <= p * m) by (nonlinear_arith)
        requires
            t <= m,
            p > 0,
    ;
    assert(crate::arithmetic::ceil_div(task_count.count() as nat, 1) == task_count.count());
    assert(crate::network_coalesce::coalesced_partitions(
        closed.partition_count,
        1,
        task_count.count(),
    ) is Ok);
    if parent is Some {
        let after = rules.delimited(plan, parent, task_count, num)->Ok_0.0;
        assert(after.reads_a_stage() || after.children == plan.children && after.op == plan.op);
    }
}

proof fn lemma_children_are_injected(
    rules: PlanningRules,
    plan: Plan,
    num: usize,
    max_tasks: usize,
    n: nat,
)
    requires
        n <= plan.children.len(),
        rules.are_settled(max_tasks),
        plan.can_be_distributed(max_tasks),
        plan.has_no_split(),
    ensures
        rules.injected_children(plan, num, n) matches Ok((children, next)) && {
            &&& children.len() == n
            &&& forall|i: int|
                #![trigger children[i]]
                0 <= i < n ==> children[i].stage_can_be_rebuilt()
        },
    decreases plan, 0nat, n,
{
    if n > 0 {
        lemma_children_are_injected(rules, plan, num, max_tasks, (n - 1) as nat);
        let before = rules.injected_children(plan, num, (n - 1) as nat)->Ok_0.1;
        assert(plan.children[n - 1].can_be_distributed(max_tasks));
        assert(plan.children[n - 1].has_no_split());
        lemma_plans_are_injected(
            rules,
            plan.children[n - 1],
            Some(plan.op.kind),
            before,
            max_tasks,
        );
    }
}

/// A plan is always distributed where every operator can be put above other inputs and its
/// partitions can be counted, the cap is known and the split mode is a known one: planning fails
/// for no other reason.
pub proof fn law_plans_that_can_be_rebuilt_are_distributed(
    rules: PlanningRules,
    plan: Plan,
    max_tasks: usize,
)
    requires
        rules.are_settled(max_tasks),
        plan.can_be_distributed(max_tasks),
        plan.has_no_split(),
    ensures
        rules.injected_plan(plan) is Ok,
{
    lemma_plans_are_injected(rules, plan, None, 1, max_tasks);
}

}
