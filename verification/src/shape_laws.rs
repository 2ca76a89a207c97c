//! What becomes of the shape of a plan when it is distributed.
use vstd::prelude::*;

use crate::config::DistributedConfig;
use crate::inject_network_boundaries::PlanningRules;
use crate::plan::{KindView, Plan};
use crate::task_count::TaskCountAnnotation;

verus! {

impl Plan {
    /// Whether two plans have the same operators in the same places.
    pub open spec fn same_operators(self, other: Plan) -> bool
        decreases self,
    {
        &&& self.op == other.op
        &&& self.children.len() == other.children.len()
        &&& forall|i: int|
            #![trigger self.children[i]]
            #![trigger other.children[i]]
            0 <= i < self.children.len() ==> self.children[i].same_operators(other.children[i])
    }

    /// The same plan with another task count, or none, recorded at its root.
    pub open spec fn recounted(self, task_count: Option<TaskCountAnnotation>) -> Plan {
        Plan { task_count, ..self }
    }

    /// Whether the plan holds no network boundary, no local exchange split and no repartitioning
    /// by hash.
    pub open spec fn is_plain(self) -> bool
        decreases self,
    {
        &&& !self.is_network_boundary()
        &&& !self.is_split()
        &&& !self.is_hash_repartition()
        &&& forall|i: int|
            #![trigger self.children[i]]
            0 <= i < self.children.len() ==> self.children[i].is_plain()
    }

    /// Whether the plan has not been distributed yet: it holds no network boundary and no local
    /// exchange split, and what it repartitions by hash comes from somewhere.
    pub open spec fn is_undistributed(self) -> bool
        decreases self,
    {
        &&& !self.is_network_boundary()
        &&& !self.is_split()
        &&& self.is_hash_repartition() ==> self.children.len() > 0
        &&& forall|i: int|
            #![trigger self.children[i]]
            0 <= i < self.children.len() ==> self.children[i].is_undistributed()
    }

    /// Whether everything that is repartitioned by hash below the root is read by a network
    /// shuffle.
    pub open spec fn hashes_are_shuffled(self) -> bool
        decreases self,
    {
        forall|i: int|
            #![trigger self.children[i]]
            0 <= i < self.children.len() ==> {
                &&& self.children[i].is_hash_repartition() ==> self.is_shuffle()
                &&& self.children[i].hashes_are_shuffled()
            }
    }
}

impl PlanningRules {
    /// Whether scaling a leaf brings in nothing that ends a stage.
    pub open spec fn scales_leaves_plainly(self) -> bool {
        forall|leaf: Plan, tasks: usize| #[trigger]
            (self.scaled_leaf)(leaf, tasks) matches Some(scaled) ==> scaled.is_plain()
    }

    /// Whether `after` has the operators of what `leaf` is scaled to.
    pub open spec fn is_scaled_leaf(self, leaf: Plan, after: Plan) -> bool {
        exists|tasks: usize|
            (#[trigger] (self.scaled_leaf)(leaf, tasks)) matches Some(scaled)
                && scaled.same_operators(after)
    }

    /// Whether `after` is what a node turns into that closing its stage does not look below: a leaf
    /// that is kept, or a network boundary.
    pub open spec fn is_kept(self, before: Plan, after: Plan) -> bool {
        &&& before.is_leaf() || before.is_network_boundary()
        &&& after == before.recounted(after.task_count)
    }

    /// Whether `after` is a stage that was made of `before` by closing it: leaves may have been
    /// scaled, splits inserted above shuffles, and unions made to isolate their children.
    pub open spec fn is_closed(self, before: Plan, after: Plan) -> bool
        decreases before,
    {
        ||| self.is_kept(before, after)
        ||| {
            &&& before.is_shuffle()
            &&& after.is_split()
            &&& after.children.len() == 1
            &&& self.is_kept(before, after.children[0])
        }
        ||| before.is_leaf() && self.is_scaled_leaf(before, after)
        ||| {
            &&& !before.is_leaf()
            &&& !before.is_network_boundary()
            &&& after.op == before.op || self.isolates(before) && after.op
                == before.isolating_union(0).op
            &&& after.children.len() == before.children.len()
            &&& forall|i: int|
                #![trigger before.children[i]]
                #![trigger after.children[i]]
                0 <= i < before.children.len() ==> self.is_closed(
                    before.children[i],
                    after.children[i],
                )
        }
    }

    /// Whether `after` is `before` distributed: `before` with network boundaries and local exchange
    /// splits inserted, leaves scaled, and unions made to isolate their children.
    pub open spec fn is_distributed(self, before: Plan, after: Plan) -> bool
        decreases after,
    {
        ||| {
            &&& after.is_network_boundary() || after.is_split()
            &&& after.children.len() == 1
            &&& self.is_distributed(before, after.children[0])
        }
        ||| before.is_leaf() && after == before.recounted(after.task_count)
        ||| before.is_leaf() && exists|task_count: Option<TaskCountAnnotation>|
            self.is_scaled_leaf(#[trigger] before.recounted(task_count), after)
        ||| {
            &&& !before.is_leaf()
            &&& after.op == before.op || self.isolates(before) && after.op
                == before.isolating_union(0).op
            &&& after.children.len() == before.children.len()
            &&& forall|i: int|
                #![trigger before.children[i]]
                #![trigger after.children[i]]
                0 <= i < before.children.len() ==> self.is_distributed(
                    before.children[i],
                    after.children[i],
                )
        }
    }

    /// Whether `after` is `before` distributed, except that the stage at its top is not closed.
    pub open spec fn is_drafted(self, before: Plan, after: Plan) -> bool
        decreases after,
    {
        ||| {
            &&& after.is_network_boundary()
            &&& after.children.len() == 1
            &&& self.is_distributed(before, after.children[0])
        }
        ||| before.is_leaf() && after == before.recounted(after.task_count)
        ||| {
            &&& !before.is_leaf()
            &&& after.op == before.op
            &&& !before.is_network_boundary()
            &&& !before.is_split()
            &&& after.children.len() == before.children.len()
            &&& forall|i: int|
                #![trigger before.children[i]]
                #![trigger after.children[i]]
                0 <= i < before.children.len() ==> self.is_drafted(
                    before.children[i],
                    after.children[i],
                )
        }
    }
}

/// Recording a task count everywhere changes no operator.
pub proof fn lemma_same_operators_throughout(plan: Plan, task_count: TaskCountAnnotation)
    ensures
        plan.same_operators(plan),
        plan.same_operators(plan.annotated_throughout(task_count)),
    decreases plan,
{
    assert forall|i: int| #![trigger plan.children[i]] 0 <= i < plan.children.len() implies {
        &&& plan.children[i].same_operators(plan.children[i])
        &&& plan.children[i].same_operators(
            plan.annotated_throughout(task_count).children[i],
        )
    } by {
        lemma_same_operators_throughout(plan.children[i], task_count);
    }
}

/// A plain plan gains no splits.
proof fn lemma_plain_plans_gain_nothing(
    config: DistributedConfig,
    tasks: usize,
    plain: Plan,
    before: Plan,
    after: Plan,
)
    requires
        plain.is_plain(),
        plain.same_operators(before),
        before.gains_only_splits(config, tasks, after),
    ensures
        plain.same_operators(after),
    decreases plain,
{
    if after != before {
        assert forall|i: int| #![trigger plain.children[i]] 0 <= i < plain.children.len() implies
            plain.children[i].same_operators(after.children[i]) by {
            assert(plain.children[i].same_operators(before.children[i]));
            lemma_plain_plans_gain_nothing(
                config,
                tasks,
                plain.children[i],
                before.children[i],
                after.children[i],
            );
        }
    }
}

/// Recording a task count in a stage changes no operator.
pub proof fn lemma_same_operators_within_stage(
    plain: Plan,
    plan: Plan,
    task_count: TaskCountAnnotation,
)
    requires
        plain.same_operators(plan),
    ensures
        plain.same_operators(plan.annotated_within_stage(task_count)),
    decreases plain,
{
    let after = plan.annotated_within_stage(task_count);
    if !plan.is_network_boundary() {
        assert forall|i: int| #![trigger plain.children[i]] 0 <= i < plain.children.len() implies
            plain.children[i].same_operators(after.children[i]) by {
            assert(plain.children[i].same_operators(plan.children[i]));
            lemma_same_operators_within_stage(plain.children[i], plan.children[i], task_count);
        }
    } else {
        assert(after.children == plan.children);
    }
}

proof fn lemma_propagated_is_closed(
    rules: PlanningRules,
    plan: Plan,
    task_count: TaskCountAnnotation,
)
    requires
        rules.propagated(plan, task_count) is Ok,
    ensures
        rules.is_closed(plan, rules.propagated(plan, task_count)->Ok_0),
    decreases plan, 1nat, 0nat,
{
    let after = rules.propagated(plan, task_count)->Ok_0;
    if plan.is_leaf() {
        if let Some(leaf) = (rules.scaled_leaf)(plan, task_count.count()) {
            lemma_same_operators_throughout(leaf, task_count);
            assert(rules.is_scaled_leaf(plan, after));
        }
    } else if plan.is_network_boundary() {
    } else if rules.isolates(plan) {
        let counts = plan.child_task_counts(plan.children.len())->Ok_0;
        let union = (rules.isolated)(counts, plan.child_partition_counts(), task_count.count())->0;
        lemma_propagated_children_are_closed(
            rules,
            plan,
            union.child_tasks.map_values(|tasks: usize| TaskCountAnnotation::Maximum(tasks)),
            plan.children.len(),
        );
    } else {
        lemma_propagated_children_are_closed(
            rules,
            plan,
            Seq::new(plan.children.len(), |i: int| task_count),
            plan.children.len(),
        );
    }
}

proof fn lemma_propagated_children_are_closed(
    rules: PlanningRules,
    plan: Plan,
    task_counts: Seq<TaskCountAnnotation>,
    n: nat,
)
    requires
        n <= plan.children.len(),
        rules.propagated_children(plan, task_counts, n) is Ok,
    ensures
        ({
            let children = rules.propagated_children(plan, task_counts, n)->Ok_0;
            &&& children.len() == n
            &&& forall|i: int|
                #![trigger plan.children[i]]
                #![trigger children[i]]
                0 <= i < n ==> rules.is_closed(plan.children[i], children[i])
        }),
    decreases plan, 0nat, n,
{
    if n > 0 {
        lemma_propagated_children_are_closed(rules, plan, task_counts, (n - 1) as nat);
        lemma_propagated_is_closed(rules, plan.children[n - 1], task_counts[n - 1]);
    }
}

/// Inserting splits into a closed stage leaves it closed.
proof fn lemma_split_stages_are_closed(
    rules: PlanningRules,
    tasks: usize,
    plan: Plan,
    before: Plan,
    after: Plan,
)
    requires
        rules.scales_leaves_plainly(),
        rules.is_closed(plan, before),
        before.gains_only_splits(rules.config, tasks, after),
    ensures
        rules.is_closed(plan, after),
    decreases plan,
{
    if after == before {
    } else if before.is_shuffle_split_by(rules.config, tasks, after) {
        if plan.is_leaf() && rules.is_scaled_leaf(plan, before) {
            let t = choose|t: usize|
                (#[trigger] (rules.scaled_leaf)(plan, t)) matches Some(scaled)
                    && scaled.same_operators(before);
            assert((rules.scaled_leaf)(plan, t)->0.is_plain());
        }
        assert(after.children[0] == before);
    } else if plan.is_leaf() {
        if rules.is_scaled_leaf(plan, before) {
            let t = choose|t: usize|
                (#[trigger] (rules.scaled_leaf)(plan, t)) matches Some(scaled)
                    && scaled.same_operators(before);
            let scaled = (rules.scaled_leaf)(plan, t)->0;
            lemma_plain_plans_gain_nothing(rules.config, tasks, scaled, before, after);
            assert(rules.is_scaled_leaf(plan, after));
        }
    } else {
        assert forall|i: int| #![trigger plan.children[i]] 0 <= i < plan.children.len() implies
            rules.is_closed(plan.children[i], after.children[i]) by {
            assert(rules.is_closed(plan.children[i], before.children[i]));
            lemma_split_stages_are_closed(
                rules,
                tasks,
                plan.children[i],
                before.children[i],
                after.children[i],
            );
        }
    }
}

/// Recording task counts in a closed stage leaves it closed.
proof fn lemma_recorded_stages_are_closed(
    rules: PlanningRules,
    plan: Plan,
    before: Plan,
    task_count: TaskCountAnnotation,
)
    requires
        rules.is_closed(plan, before),
    ensures
        rules.is_closed(plan, before.annotated_within_stage(task_count)),
    decreases plan,
{
    let after = before.annotated_within_stage(task_count);
    if rules.is_kept(plan, before) {
        assert(after.children =~= before.children);
    } else if plan.is_shuffle() && before.is_split() && before.children.len() == 1
        && rules.is_kept(plan, before.children[0]) {
        let shuffle = before.children[0];
        assert(after.children[0] == shuffle.annotated_within_stage(task_count));
        assert(after.children[0].children =~= shuffle.children);
    } else if plan.is_leaf() {
        let t = choose|t: usize|
            (#[trigger] (rules.scaled_leaf)(plan, t)) matches Some(scaled)
                && scaled.same_operators(before);
        let scaled = (rules.scaled_leaf)(plan, t)->0;
        lemma_same_operators_within_stage(scaled, before, task_count);
        assert(rules.is_scaled_leaf(plan, after));
    } else {
        assert(!before.is_network_boundary());
        assert forall|i: int| #![trigger plan.children[i]] 0 <= i < plan.children.len() implies
            rules.is_closed(plan.children[i], after.children[i]) by {
            assert(rules.is_closed(plan.children[i], before.children[i]));
            lemma_recorded_stages_are_closed(
                rules,
                plan.children[i],
                before.children[i],
                task_count,
            );
        }
    }
}

/// Closing a stage scales its leaves, inserts splits above the shuffles that feed it, makes its
/// unions isolate their children where that is configured, and changes nothing else.
pub proof fn law_closing_a_stage_keeps_its_operators(
    rules: PlanningRules,
    plan: Plan,
    task_count: TaskCountAnnotation,
)
    requires
        rules.scales_leaves_plainly(),
        rules.closed_stage(plan, task_count) is Ok,
    ensures
        rules.is_closed(plan, rules.closed_stage(plan, task_count)->Ok_0),
{
    lemma_propagated_is_closed(rules, plan, task_count);
    let propagated = rules.propagated(plan, task_count)->Ok_0;
    let split = crate::inject_laws::lemma_finalized(rules, propagated, task_count);
    lemma_split_stages_are_closed(rules, task_count.count(), plan, propagated, split);
    lemma_recorded_stages_are_closed(rules, plan, split, task_count);
}

/// A plan with the operators of a plain one holds nothing that ends a stage.
proof fn lemma_plain_operators(plain: Plan, plan: Plan)
    requires
        plain.is_plain(),
        plain.same_operators(plan),
    ensures
        plan.hashes_are_shuffled(),
        !plan.is_hash_repartition(),
    decreases plain,
{
    assert forall|i: int| #![trigger plan.children[i]] 0 <= i < plan.children.len() implies {
        &&& plan.children[i].hashes_are_shuffled()
        &&& !plan.children[i].is_hash_repartition()
    } by {
        assert(plain.children[i].is_plain());
        lemma_plain_operators(plain.children[i], plan.children[i]);
    }
}

/// What keeping a node keeps.
proof fn lemma_keeping_keeps(rules: PlanningRules, plan: Plan, after: Plan)
    requires
        rules.is_kept(plan, after),
        plan.hashes_are_shuffled(),
    ensures
        after.hashes_are_shuffled(),
        after.is_hash_repartition() == plan.is_hash_repartition(),
{
    assert(after.children == plan.children);
    assert forall|i: int| #![trigger after.children[i]] 0 <= i < after.children.len() implies {
        &&& after.children[i].is_hash_repartition() ==> after.is_shuffle()
        &&& after.children[i].hashes_are_shuffled()
    } by {
        assert(after.children[i] == plan.children[i]);
    }
}

/// What closing a stage keeps.
proof fn lemma_closing_keeps(rules: PlanningRules, plan: Plan, after: Plan)
    requires
        rules.scales_leaves_plainly(),
        rules.is_closed(plan, after),
        plan.hashes_are_shuffled(),
    ensures
        after.hashes_are_shuffled(),
        after.is_hash_repartition() ==> plan.is_hash_repartition(),
    decreases plan,
{
    if rules.is_kept(plan, after) {
        lemma_keeping_keeps(rules, plan, after);
    } else if plan.is_shuffle() && after.is_split() && after.children.len() == 1 && rules.is_kept(
        plan,
        after.children[0],
    ) {
        let shuffle = after.children[0];
        lemma_keeping_keeps(rules, plan, shuffle);
    } else if plan.is_leaf() {
        let t = choose|t: usize|
            (#[trigger] (rules.scaled_leaf)(plan, t)) matches Some(scaled)
                && scaled.same_operators(after);
        let scaled = (rules.scaled_leaf)(plan, t)->0;
        assert(scaled.is_plain());
        lemma_plain_operators(scaled, after);
    } else {
        assert forall|i: int| #![trigger after.children[i]] 0 <= i < after.children.len() implies {
            &&& after.children[i].hashes_are_shuffled()
            &&& !after.children[i].is_hash_repartition()
        } by {
            assert(rules.is_closed(plan.children[i], after.children[i]));
            lemma_closing_keeps(rules, plan.children[i], after.children[i]);
        }
    }
}

/// Closing the stage at the top of a drafted plan distributes it.
proof fn lemma_closed_drafts_are_distributed(
    rules: PlanningRules,
    plan: Plan,
    draft: Plan,
    after: Plan,
)
    requires
        plan.is_undistributed(),
        rules.is_drafted(plan, draft),
        rules.is_closed(draft, after),
    ensures
        rules.is_distributed(plan, after),
    decreases draft,
{
    if draft.is_network_boundary() && draft.children.len() == 1 && rules.is_distributed(
        plan,
        draft.children[0],
    ) {
        if rules.is_kept(draft, after) {
            assert(after.children[0] == draft.children[0]);
        } else {
            let boundary = after.children[0];
            assert(boundary.children[0] == draft.children[0]);
            assert(rules.is_distributed(plan, boundary));
        }
    } else if plan.is_leaf() {
        if rules.is_kept(draft, after) {
            assert(after == plan.recounted(after.task_count));
        } else {
            assert(draft == plan.recounted(draft.task_count));
            assert(rules.is_scaled_leaf(plan.recounted(draft.task_count), after));
        }
    } else {
        assert forall|i: int| #![trigger plan.children[i]] 0 <= i < plan.children.len() implies
            rules.is_distributed(plan.children[i], after.children[i]) by {
            assert(rules.is_drafted(plan.children[i], draft.children[i]));
            assert(rules.is_closed(draft.children[i], after.children[i]));
            lemma_closed_drafts_are_distributed(
                rules,
                plan.children[i],
                draft.children[i],
                after.children[i],
            );
        }
    }
}

proof fn lemma_injected_well(
    rules: PlanningRules,
    plan: Plan,
    parent: Option<KindView>,
    num: usize,
)
    requires
        rules.scales_leaves_plainly(),
        plan.is_undistributed(),
        rules.injected(plan, parent, num) is Ok,
    ensures
        ({
            let (after, next) = rules.injected(plan, parent, num)->Ok_0;
            &&& after.hashes_are_shuffled()
            &&& !after.is_hash_repartition()
            &&& parent is Some ==> rules.is_drafted(plan, after)
            &&& parent is None ==> rules.is_distributed(plan, after)
        }),
    decreases plan, 1nat, 0nat,
{
    let (after, last) = rules.injected(plan, parent, num)->Ok_0;
    if plan.is_leaf() {
        assert(after == plan.recounted(after.task_count));
    } else {
        let n = plan.children.len();
        lemma_injected_children_well(rules, plan, num, n);
        let (children, next) = rules.injected_children(plan, num, n)->Ok_0;
        let rebuilt = plan.rebuilt(children)->Ok_0;
        let task_count = rules.reconciled(plan, children).limited(rules.max_tasks->Ok_0);
        lemma_rebuilt_well(rules, plan, rebuilt);
        lemma_delimited_well(
            rules,
            plan,
            rebuilt,
            parent,
            task_count,
            next,
        );
    }
}

/// A plan over processed children is a draft.
proof fn lemma_rebuilt_well(rules: PlanningRules, plan: Plan, rebuilt: Plan)
    requires
        plan.is_undistributed(),
        !plan.is_leaf(),
        rebuilt.op == plan.op,
        rebuilt.children.len() == plan.children.len(),
        forall|i: int|
            #![trigger rebuilt.children[i]]
            0 <= i < rebuilt.children.len() ==> {
                &&& rebuilt.children[i].hashes_are_shuffled()
                &&& !rebuilt.children[i].is_hash_repartition()
                &&& rules.is_drafted(plan.children[i], rebuilt.children[i])
            },
    ensures
        rules.is_drafted(plan, rebuilt),
        rebuilt.hashes_are_shuffled(),
{
    assert forall|i: int| #![trigger plan.children[i]] 0 <= i < plan.children.len() implies
        rules.is_drafted(plan.children[i], rebuilt.children[i]) by {
        assert(!rebuilt.children[i].is_hash_repartition());
    }
}

/// Ending a stage where it has to end keeps what holds of a draft.
proof fn lemma_delimited_well(
    rules: PlanningRules,
    plan: Plan,
    rebuilt: Plan,
    parent: Option<KindView>,
    task_count: TaskCountAnnotation,
    next: usize,
)
    requires
        rules.scales_leaves_plainly(),
        plan.is_undistributed(),
        !plan.is_leaf(),
        rebuilt.op == plan.op,
        rules.is_drafted(plan, rebuilt),
        rebuilt.hashes_are_shuffled(),
        rules.delimited(rebuilt, parent, task_count, next) is Ok,
    ensures
        ({
            let (after, last) = rules.delimited(rebuilt, parent, task_count, next)->Ok_0;
            &&& after.hashes_are_shuffled()
            &&& !after.is_hash_repartition()
            &&& parent is Some ==> rules.is_drafted(plan, after)
            &&& parent is None ==> rules.is_distributed(plan, after)
        }),
{
    let (after, last) = rules.delimited(rebuilt, parent, task_count, next)->Ok_0;
    if rules.closed_stage(rebuilt, task_count) is Ok {
        let closed = rules.closed_stage(rebuilt, task_count)->Ok_0;
        law_closing_a_stage_keeps_its_operators(rules, rebuilt, task_count);
        lemma_closing_keeps(rules, rebuilt, closed);
        lemma_closed_drafts_are_distributed(rules, plan, rebuilt, closed);
    }
    let folds = !(rebuilt.op.kind is Repartition) && parent is Some && parent->0.folds_partitions();
    if rebuilt.is_hash_repartition() || folds {
        let closed = rules.closed_stage(rebuilt, task_count)->Ok_0;
        assert(after.children =~= seq![closed]);
        assert(after.is_network_boundary());
        assert(after.children[0] == closed);
        assert(rules.is_drafted(plan, after));
        assert(rules.is_distributed(plan, after));
    } else if parent is Some {
        assert(after == rebuilt.annotated(task_count));
        lemma_annotated_well(rules, plan, rebuilt, task_count);
    }
}

/// Recording a task count at the root keeps what holds of a draft.
proof fn lemma_annotated_well(
    rules: PlanningRules,
    plan: Plan,
    rebuilt: Plan,
    task_count: TaskCountAnnotation,
)
    requires
        plan.is_undistributed(),
        !plan.is_leaf(),
        rebuilt.op == plan.op,
        rules.is_drafted(plan, rebuilt),
        rebuilt.hashes_are_shuffled(),
    ensures
        rules.is_drafted(plan, rebuilt.annotated(task_count)),
        rebuilt.annotated(task_count).hashes_are_shuffled(),
{
    let after = rebuilt.annotated(task_count);
    assert forall|i: int| #![trigger after.children[i]] 0 <= i < after.children.len() implies {
        &&& after.children[i].hashes_are_shuffled()
        &&& after.children[i].is_hash_repartition() ==> after.is_shuffle()
        &&& rules.is_drafted(plan.children[i], after.children[i])
    } by {
        assert(after.children[i] == rebuilt.children[i]);
    }
}

proof fn lemma_injected_children_well(
    rules: PlanningRules,
    plan: Plan,
    num: usize,
    n: nat,
)
    requires
        n <= plan.children.len(),
        rules.scales_leaves_plainly(),
        plan.is_undistributed(),
        rules.injected_children(plan, num, n) is Ok,
    ensures
        ({
            let (children, next) = rules.injected_children(plan, num, n)->Ok_0;
            &&& children.len() == n
            &&& forall|i: int|
                #![trigger children[i]]
                0 <= i < n ==> {
                    &&& children[i].hashes_are_shuffled()
                    &&& !children[i].is_hash_repartition()
                    &&& rules.is_drafted(plan.children[i], children[i])
                }
        }),
    decreases plan, 0nat, n,
{
    let (children, next) = rules.injected_children(plan, num, n)->Ok_0;
    if n > 0 {
        lemma_injected_children_well(rules, plan, num, (n - 1) as nat);
        let (done, before) = rules.injected_children(plan, num, (n - 1) as nat)->Ok_0;
        let child = plan.children[n - 1];
        assert(child.is_undistributed());
        lemma_injected_well(rules, child, Some(plan.op.kind), before);
        let injected = rules.injected(child, Some(plan.op.kind), before)->Ok_0.0;
        assert(children == done.push(injected));
    }
}

/// The returned plan is the given one with network boundaries and local exchange splits inserted,
/// leaves scaled and unions made to isolate their children; its shape is otherwise the same.
pub proof fn law_the_shape_is_kept(rules: PlanningRules, plan: Plan)
    requires
        rules.scales_leaves_plainly(),
        plan.is_undistributed(),
        rules.injected_plan(plan) is Ok,
    ensures
        rules.is_distributed(plan, rules.injected_plan(plan)->Ok_0),
{
    lemma_injected_well(rules, plan, None, 1);
}

/// Everything that the returned plan repartitions by hash is read by a network shuffle right above
/// it.
pub proof fn law_hash_repartitions_are_shuffled(rules: PlanningRules, plan: Plan)
    requires
        rules.scales_leaves_plainly(),
        plan.is_undistributed(),
        rules.injected_plan(plan) is Ok,
    ensures
        rules.injected_plan(plan)->Ok_0.hashes_are_shuffled(),
        !rules.injected_plan(plan)->Ok_0.is_hash_repartition(),
{
    lemma_injected_well(rules, plan, None, 1);
}

}
