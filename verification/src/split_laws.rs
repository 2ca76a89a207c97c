//! What inserting local exchange splits promises for every plan.
use vstd::prelude::*;

use crate::config::DistributedConfig;
use crate::insert_local_exchange_split::ChildCounts;
use crate::plan::{KindView, Plan, SchemeView};
use crate::split_input::Rewrite;

verus! {

impl Plan {
    /// Whether `after` is this shuffle below a new split that makes at least two local partitions
    /// of each of its partitions, for a shuffle of which no task reads more partitions than the
    /// configuration allows.
    pub open spec fn is_shuffle_split_by(
        self,
        config: DistributedConfig,
        tasks: usize,
        after: Plan,
    ) -> bool {
        &&& self.is_shuffle()
        &&& self.op.scheme matches SchemeView::Hash(exprs)
        &&& after.op.kind matches KindView::LocalExchangeSplit { base, local }
        &&& local >= 2
        &&& self.partition_count * local <= usize::MAX
        &&& after == self.split(
            exprs,
            self.partition_count,
            local,
            (self.partition_count * local) as usize,
        )
        &&& 0 < crate::split_input::max_owned(self.partition_count, tasks)
            <= config.local_exchange_split_max_owned_partitions
    }

    /// Whether `after` is this plan with nothing but splits inserted, each directly above a shuffle
    /// of the stage, and none of them behind a network boundary, below an existing split, or below
    /// an operator that stops early.
    pub open spec fn gains_only_splits(
        self,
        config: DistributedConfig,
        tasks: usize,
        after: Plan,
    ) -> bool
        decreases self,
    {
        ||| after == self
        ||| self.is_shuffle_split_by(config, tasks, after)
        ||| {
            &&& after.op == self.op
            &&& !self.is_network_boundary()
            &&& !self.is_split()
            &&& self.op.fetch is None
            &&& self.children.len() > 0
            &&& after.children.len() == self.children.len()
            &&& forall|i: int|
                #![trigger self.children[i]]
                #![trigger after.children[i]]
                0 <= i < self.children.len() ==> self.children[i].gains_only_splits(
                    config,
                    tasks,
                    after.children[i],
                )
        }
    }

    /// Whether the two sides of every partitioned join of the stage have as many partitions.
    pub open spec fn stage_joins_align(self) -> bool
        decreases self,
    {
        ||| self.is_network_boundary()
        ||| {
            &&& self.is_partitioned_join() && self.children.len() == 2
                ==> self.children[0].partition_count == self.children[1].partition_count
            &&& forall|i: int|
                #![trigger self.children[i]]
                0 <= i < self.children.len() ==> self.children[i].stage_joins_align()
        }
    }
}

/// A source that produces another count than its own is a shuffle below a new split.
proof fn lemma_produced(plan: Plan, config: DistributedConfig, tasks: usize, target: usize)
    requires
        plan.split_source(config, tasks) matches Some(source) && source.can_produce(target),
    ensures
        plan.split_source(config, tasks)->Some_0.produced(target).changed
            ==> plan.is_shuffle_split_by(
            config,
            tasks,
            plan.split_source(config, tasks)->Some_0.produced(target).plan,
        ),
        !plan.split_source(config, tasks)->Some_0.produced(target).changed
            ==> plan.split_source(config, tasks)->Some_0.produced(target).plan == plan,
{
    let source = plan.split_source(config, tasks)->Some_0;
    if source.output != target {
        let (t, o) = (target as int, source.output as int);
        vstd::arithmetic::div_mod::lemma_fundamental_div_mod(t, o);
        let local = t / o;
        assert(local >= 2) by (nonlinear_arith)
            requires
                t == o * local,
                t > o,
                o > 0,
        ;
    }
}

/// Splitting on a path leaves a plan as it was or adds a split above a shuffle of the stage.
proof fn lemma_path_split(
    plan: Plan,
    config: DistributedConfig,
    tasks: usize,
    requested: Option<usize>,
)
    requires
        plan.split_on_path(config, tasks, requested) is Some,
    ensures
        plan.gains_only_splits(
            config,
            tasks,
            plan.split_on_path(config, tasks, requested)->Some_0.plan,
        ),
        !plan.split_on_path(config, tasks, requested)->Some_0.changed ==> plan.split_on_path(
            config,
            tasks,
            requested,
        )->Some_0.plan == plan,
    decreases plan,
{
    if plan.is_shuffle() || plan.is_split() {
        let source = plan.split_source(config, tasks)->Some_0;
        let target = match requested {
            Some(count) => Some(count),
            None => source.inferred_target(config.local_exchange_split_target_partitions_per_task),
        };
        lemma_produced(plan, config, tasks, target->Some_0);
    } else {
        lemma_path_split(plan.children[0], config, tasks, requested);
    }
}

/// Inserting splits twice is inserting splits.
proof fn lemma_gains_transitive(config: DistributedConfig, tasks: usize, a: Plan, b: Plan, c: Plan)
    requires
        a.gains_only_splits(config, tasks, b),
        b.gains_only_splits(config, tasks, c),
    ensures
        a.gains_only_splits(config, tasks, c),
    decreases a,
{
    if a != b && b != c && !a.is_shuffle_split_by(config, tasks, b) && !b.is_shuffle_split_by(
        config,
        tasks,
        c,
    ) {
        assert forall|i: int|
            #![trigger a.children[i]]
            0 <= i < a.children.len() implies a.children[i].gains_only_splits(
            config,
            tasks,
            c.children[i],
        ) by {
            lemma_gains_transitive(config, tasks, a.children[i], b.children[i], c.children[i]);
        }
    }
}

proof fn lemma_rewrite_gains(
    plan: Plan,
    config: DistributedConfig,
    tasks: usize,
    required: Option<usize>,
)
    requires
        plan.with_splits(config, tasks, required) is Ok,
    ensures
        plan.gains_only_splits(
            config,
            tasks,
            plan.with_splits(config, tasks, required)->Ok_0.plan,
        ),
    decreases plan, 2nat, 0nat,
{
    let result = plan.with_splits(config, tasks, required)->Ok_0;
    if plan.op.fetch is Some {
    } else if plan.is_partitioned_join() {
        if config.splits_joins() && plan.split_join(config, tasks, required) matches Ok(Some(_)) {
            if result.changed {
                let target = plan.join_target(config, tasks, required);
                lemma_path_split(plan.children[0], config, tasks, target);
                lemma_path_split(plan.children[1], config, tasks, target);
            }
        } else {
            lemma_children_gain(plan, config, tasks, ChildCounts::Preserve);
        }
    } else if plan.is_final_aggregate() && config.splits_final_aggs() {
        if plan.split_aggregate(config, tasks, required) matches Ok(Some(_)) {
            if result.changed {
                lemma_path_split(plan.children[0], config, tasks, required);
            }
        } else if required is Some {
            lemma_children_gain(plan, config, tasks, ChildCounts::Preserve);
        } else {
            lemma_children_gain(plan, config, tasks, ChildCounts::Propagate(None));
        }
    } else if plan.is_shuffle() || plan.is_split() {
        lemma_widened_gains(plan.unchanged(), config, tasks, required);
    } else if !plan.is_network_boundary() {
        lemma_children_gain(plan, config, tasks, ChildCounts::Propagate(required));
        let below = plan.with_split_children(
            config,
            tasks,
            ChildCounts::Propagate(required),
        )->Ok_0;
        lemma_widened_gains(below, config, tasks, required);
        lemma_gains_transitive(config, tasks, plan, below.plan, result.plan);
    }
}

proof fn lemma_widened_gains(
    rewrite: Rewrite,
    config: DistributedConfig,
    tasks: usize,
    required: Option<usize>,
)
    ensures
        rewrite.plan.gains_only_splits(
            config,
            tasks,
            rewrite.widened(config, tasks, required).plan,
        ),
{
    if required is Some && rewrite.plan.split_on_path(config, tasks, required) is Some {
        lemma_path_split(rewrite.plan, config, tasks, required);
    }
}

proof fn lemma_children_gain(
    plan: Plan,
    config: DistributedConfig,
    tasks: usize,
    counts: ChildCounts,
)
    requires
        plan.with_split_children(config, tasks, counts) is Ok,
        !plan.is_network_boundary(),
        !plan.is_split(),
        plan.op.fetch is None,
    ensures
        plan.gains_only_splits(
            config,
            tasks,
            plan.with_split_children(config, tasks, counts)->Ok_0.plan,
        ),
    decreases plan, 1nat, 0nat,
{
    lemma_each_child_gains(plan, config, tasks, counts, plan.children.len());
}

proof fn lemma_each_child_gains(
    plan: Plan,
    config: DistributedConfig,
    tasks: usize,
    counts: ChildCounts,
    n: nat,
)
    requires
        n <= plan.children.len(),
        plan.split_children(config, tasks, counts, n) is Ok,
    ensures
        ({
            let children = plan.split_children(config, tasks, counts, n)->Ok_0.0;
            &&& children.len() == n
            &&& forall|i: int|
                #![trigger plan.children[i]]
                #![trigger children[i]]
                0 <= i < n ==> plan.children[i].gains_only_splits(config, tasks, children[i])
        }),
    decreases plan, 0nat, n,
{
    if n > 0 {
        lemma_each_child_gains(plan, config, tasks, counts, (n - 1) as nat);
        lemma_rewrite_gains(plan.children[n - 1], config, tasks, counts.demand(plan, n - 1));
    }
}

/// The pass adds splits and nothing else: every operator of the stage stays where it was, each
/// split sits directly above a shuffle that feeds the stage, and nothing changes behind a network
/// boundary or below an operator that stops early.
pub proof fn law_only_splits_are_inserted(plan: Plan, config: DistributedConfig, tasks: usize)
    requires
        plan.split_stage(config, tasks) is Ok,
    ensures
        plan.gains_only_splits(config, tasks, plan.split_stage(config, tasks)->Ok_0.plan),
{
    if plan.split_stage(config, tasks) != Ok::<Rewrite, crate::error::PlanFailure>(
        plan.unchanged(),
    ) {
        lemma_rewrite_gains(plan, config, tasks, None);
    }
}

/// A plan that is not reported as changed is returned as it was.
pub proof fn law_untransformed_plans_are_unchanged(
    plan: Plan,
    config: DistributedConfig,
    tasks: usize,
    required: Option<usize>,
)
    requires
        plan.with_splits(config, tasks, required) matches Ok(rewrite) && !rewrite.changed,
    ensures
        plan.with_splits(config, tasks, required) == Ok::<Rewrite, crate::error::PlanFailure>(
            plan.unchanged(),
        ),
{
    if required is Some {
        if plan.split_on_path(config, tasks, required) is Some {
            lemma_path_split(plan, config, tasks, required);
        }
    }
}

/// A stage without a shuffle that feeds it, or without a consumer to split for, is left alone.
pub proof fn law_stages_without_candidates_are_unchanged(
    plan: Plan,
    config: DistributedConfig,
    tasks: usize,
)
    requires
        config.known_split_mode(),
        config.splits_are_off() || !plan.stage_has_shuffle() || !plan.stage_has_consumer(config),
    ensures
        plan.split_stage(config, tasks) == Ok::<Rewrite, crate::error::PlanFailure>(
            plan.unchanged(),
        ),
{
}

/// Splitting on a path touches no join with two sides.
proof fn lemma_path_keeps_joins_aligned(
    plan: Plan,
    config: DistributedConfig,
    tasks: usize,
    requested: Option<usize>,
)
    requires
        plan.stage_joins_align(),
        plan.split_on_path(config, tasks, requested) is Some,
    ensures
        plan.split_on_path(config, tasks, requested)->Some_0.plan.stage_joins_align(),
    decreases plan,
{
    let result = plan.split_on_path(config, tasks, requested)->Some_0.plan;
    if plan.is_shuffle() || plan.is_split() {
        lemma_path_split(plan, config, tasks, requested);
        if result != plan {
            assert(result.children[0] == plan);
        }
    } else {
        lemma_path_keeps_joins_aligned(plan.children[0], config, tasks, requested);
    }
}

proof fn lemma_rewrite_keeps_joins_aligned(
    plan: Plan,
    config: DistributedConfig,
    tasks: usize,
    required: Option<usize>,
)
    requires
        plan.stage_joins_align(),
        plan.with_splits(config, tasks, required) is Ok,
    ensures
        plan.with_splits(config, tasks, required)->Ok_0.plan.stage_joins_align(),
    decreases plan, 2nat, 0nat,
{
    let result = plan.with_splits(config, tasks, required)->Ok_0;
    if plan.op.fetch is Some {
    } else if plan.is_partitioned_join() {
        if config.splits_joins() && plan.split_join(config, tasks, required) matches Ok(Some(_)) {
            if result.changed {
                let target = plan.join_target(config, tasks, required);
                lemma_path_keeps_joins_aligned(plan.children[0], config, tasks, target);
                lemma_path_keeps_joins_aligned(plan.children[1], config, tasks, target);
            }
        } else {
            lemma_children_keep_joins_aligned(plan, config, tasks, ChildCounts::Preserve);
        }
    } else if plan.is_final_aggregate() && config.splits_final_aggs() {
        if plan.split_aggregate(config, tasks, required) matches Ok(Some(_)) {
            if result.changed {
                lemma_path_keeps_joins_aligned(plan.children[0], config, tasks, required);
            }
        } else if required is Some {
            lemma_children_keep_joins_aligned(plan, config, tasks, ChildCounts::Preserve);
        } else {
            lemma_children_keep_joins_aligned(plan, config, tasks, ChildCounts::Propagate(None));
        }
    } else if plan.is_shuffle() || plan.is_split() {
        if required is Some && plan.split_on_path(config, tasks, required) is Some {
            lemma_path_keeps_joins_aligned(plan, config, tasks, required);
        }
    } else if !plan.is_network_boundary() {
        lemma_children_keep_joins_aligned(plan, config, tasks, ChildCounts::Propagate(required));
        let below = plan.with_split_children(
            config,
            tasks,
            ChildCounts::Propagate(required),
        )->Ok_0.plan;
        if required is Some && below.split_on_path(config, tasks, required) is Some {
            lemma_path_keeps_joins_aligned(below, config, tasks, required);
        }
    }
}

proof fn lemma_children_keep_joins_aligned(
    plan: Plan,
    config: DistributedConfig,
    tasks: usize,
    counts: ChildCounts,
)
    requires
        plan.stage_joins_align(),
        !plan.is_network_boundary(),
        !plan.is_split(),
        plan.op.fetch is None,
        plan.is_partitioned_join() ==> counts == ChildCounts::Preserve,
        plan.with_split_children(config, tasks, counts) is Ok,
    ensures
        plan.with_split_children(config, tasks, counts)->Ok_0.plan.stage_joins_align(),
    decreases plan, 1nat, 0nat,
{
    lemma_each_child_keeps_joins_aligned(plan, config, tasks, counts, plan.children.len());
    if plan.is_partitioned_join() && plan.children.len() == 2 {
        crate::insert_local_exchange_split::law_preserved_children_keep_their_counts(
            plan,
            config,
            tasks,
        );
    }
}

proof fn lemma_each_child_keeps_joins_aligned(
    plan: Plan,
    config: DistributedConfig,
    tasks: usize,
    counts: ChildCounts,
    n: nat,
)
    requires
        plan.stage_joins_align(),
        !plan.is_network_boundary(),
        !plan.is_split(),
        plan.op.fetch is None,
        n <= plan.children.len(),
        plan.split_children(config, tasks, counts, n) is Ok,
    ensures
        ({
            let children = plan.split_children(config, tasks, counts, n)->Ok_0.0;
            &&& children.len() == n
            &&& forall|i: int|
                #![trigger children[i]]
                0 <= i < n ==> children[i].stage_joins_align()
        }),
    decreases plan, 0nat, n,
{
    if n > 0 {
        lemma_each_child_keeps_joins_aligned(plan, config, tasks, counts, (n - 1) as nat);
        lemma_rewrite_keeps_joins_aligned(
            plan.children[n - 1],
            config,
            tasks,
            counts.demand(plan, n - 1),
        );
    }
}

/// Partitioned joins whose two sides have as many partitions still do after the pass.
pub proof fn law_partitioned_joins_stay_aligned(plan: Plan, config: DistributedConfig, tasks: usize)
    requires
        plan.stage_joins_align(),
        plan.split_stage(config, tasks) is Ok,
    ensures
        plan.split_stage(config, tasks)->Ok_0.plan.stage_joins_align(),
{
    if plan.split_stage(config, tasks) != Ok::<Rewrite, crate::error::PlanFailure>(
        plan.unchanged(),
    ) {
        lemma_rewrite_keeps_joins_aligned(plan, config, tasks, None);
    }
}

/// The input of an aggregate that was split for it is still hashed by the keys that the aggregate
/// demands.
pub proof fn law_split_aggregates_keep_their_distribution(
    plan: Plan,
    config: DistributedConfig,
    tasks: usize,
    required: Option<usize>,
)
    requires
        plan.split_aggregate(config, tasks, required) matches Ok(Some(rewrite)) && rewrite.changed,
    ensures
        ({
            let after = plan.split_aggregate(config, tasks, required)->Ok_0->Some_0.plan;
            &&& plan.hash_keys(0) matches Some(keys)
            &&& after.children[0].satisfies_hash(keys)
        }),
{
}

/// The sides of a join that were split for it have one count and are still hashed by the keys that
/// the join demands.
pub proof fn law_split_joins_keep_their_distribution(
    plan: Plan,
    config: DistributedConfig,
    tasks: usize,
    required: Option<usize>,
)
    requires
        plan.split_join(config, tasks, required) matches Ok(Some(rewrite)) && rewrite.changed,
    ensures
        ({
            let after = plan.split_join(config, tasks, required)->Ok_0->Some_0.plan;
            &&& plan.hash_keys(0) matches Some(left)
            &&& plan.hash_keys(1) matches Some(right)
            &&& after.children[0].satisfies_hash(left)
            &&& after.children[1].satisfies_hash(right)
            &&& after.children[0].partition_count == after.children[1].partition_count
        }),
{
}

}
