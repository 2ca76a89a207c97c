//! How the stages of a distributed plan are numbered, and how many tasks they run on.
use vstd::prelude::*;

use crate::config::DistributedConfig;
use crate::inject_network_boundaries::PlanningRules;
use crate::plan::{KindView, Plan};
use crate::task_count::TaskCountAnnotation;

verus! {

impl Plan {
    /// Whether the plan holds no network boundary.
    pub open spec fn has_no_boundary(self) -> bool
        decreases self,
    {
        &&& !self.is_network_boundary()
        &&& forall|i: int|
            #![trigger self.children[i]]
            0 <= i < self.children.len() ==> self.children[i].has_no_boundary()
    }

    /// The number of a network boundary's input stage.
    pub open spec fn stage_num(self) -> usize {
        self.op.input_stage->0.num
    }

    /// The numbers of all stages behind network boundaries, those of a child before that of its
    /// parent and from left to right.
    pub open spec fn stage_nums(self) -> Seq<usize>
        decreases self, 0nat,
    {
        let below = self.child_stage_nums(self.children.len());
        if self.is_network_boundary() {
            below.push(self.stage_num())
        } else {
            below
        }
    }

    /// The numbers of the stages below the first `n` children.
    pub open spec fn child_stage_nums(self, n: nat) -> Seq<usize>
        decreases self.children, n,
    {
        if n == 0 || n > self.children.len() {
            Seq::empty()
        } else {
            self.child_stage_nums((n - 1) as nat) + self.children[n - 1].stage_nums()
        }
    }

    /// Whether every network boundary reads from one stage, and none of these stages runs on more
    /// than `max_tasks` tasks.
    pub open spec fn stages_fit(self, max_tasks: usize) -> bool
        decreases self,
    {
        &&& self.is_network_boundary() ==> self.children.len() == 1 && (
        self.op.input_stage matches Some(stage) && stage.tasks <= max_tasks)
        &&& forall|i: int|
            #![trigger self.children[i]]
            0 <= i < self.children.len() ==> self.children[i].stages_fit(max_tasks)
    }

    /// Whether every stage has a greater number than the stages that it reads from.
    pub open spec fn stages_follow_their_inputs(self) -> bool
        decreases self,
    {
        let below = self.child_stage_nums(self.children.len());
        &&& self.is_network_boundary() ==> forall|i: int|
            #![trigger below[i]]
            0 <= i < below.len() ==> below[i] < self.stage_num()
        &&& forall|i: int|
            #![trigger self.children[i]]
            0 <= i < self.children.len() ==> self.children[i].stages_follow_their_inputs()
    }
}

impl PlanningRules {
    /// Whether scaling a leaf brings in no network boundary.
    pub open spec fn scales_leaves_without_boundaries(self) -> bool {
        forall|leaf: Plan, tasks: usize| #[trigger]
            (self.scaled_leaf)(leaf, tasks) matches Some(scaled) ==> scaled.has_no_boundary()
    }
}

/// Whether two plans have the same stages, and these run on few enough tasks.
pub open spec fn keeps_stages(before: Plan, after: Plan, max_tasks: usize) -> bool {
    &&& after.stage_nums() == before.stage_nums()
    &&& after.stages_fit(max_tasks)
}

proof fn lemma_same_child_stage_nums(a: Plan, b: Plan, n: nat)
    requires
        n <= a.children.len(),
        n <= b.children.len(),
        forall|i: int|
            #![trigger a.children[i]]
            0 <= i < n ==> a.children[i].stage_nums() == b.children[i].stage_nums(),
    ensures
        a.child_stage_nums(n) == b.child_stage_nums(n),
    decreases n,
{
    if n > 0 {
        lemma_same_child_stage_nums(a, b, (n - 1) as nat);
        assert(a.children[n - 1].stage_nums() == b.children[n - 1].stage_nums());
    }
}

/// Nodes with the same operator over children with the same stages have the same stages.
proof fn lemma_stages_of_children(a: Plan, b: Plan, max_tasks: usize)
    requires
        a.stages_fit(max_tasks),
        b.is_network_boundary() == a.is_network_boundary(),
        a.is_network_boundary() ==> b.op == a.op,
        a.children.len() == b.children.len(),
        forall|i: int|
            #![trigger a.children[i]]
            #![trigger b.children[i]]
            0 <= i < a.children.len() ==> keeps_stages(a.children[i], b.children[i], max_tasks),
    ensures
        keeps_stages(a, b, max_tasks),
{
    lemma_same_child_stage_nums(a, b, a.children.len());
    assert forall|i: int| #![trigger b.children[i]] 0 <= i < b.children.len() implies
        b.children[i].stages_fit(max_tasks) by {
        assert(keeps_stages(a.children[i], b.children[i], max_tasks));
    }
}

/// The stages of a plan do not depend on the task counts that are recorded.
proof fn lemma_same_operators_have_the_same_stages(a: Plan, b: Plan, max_tasks: usize)
    requires
        a.same_operators(b),
        a.stages_fit(max_tasks),
    ensures
        keeps_stages(a, b, max_tasks),
    decreases a,
{
    assert forall|i: int|
        #![trigger a.children[i]]
        #![trigger b.children[i]]
        0 <= i < a.children.len() implies keeps_stages(a.children[i], b.children[i], max_tasks) by {
        assert(a.children[i].same_operators(b.children[i]));
        lemma_same_operators_have_the_same_stages(a.children[i], b.children[i], max_tasks);
    }
    lemma_stages_of_children(a, b, max_tasks);
}

proof fn lemma_no_stages(plan: Plan, max_tasks: usize)
    requires
        plan.has_no_boundary(),
    ensures
        plan.stage_nums() == Seq::<usize>::empty(),
        plan.stages_fit(max_tasks),
    decreases plan,
{
    assert forall|i: int| #![trigger plan.children[i]] 0 <= i < plan.children.len() implies {
        &&& plan.children[i].stage_nums() == Seq::<usize>::empty()
        &&& plan.children[i].stages_fit(max_tasks)
    } by {
        lemma_no_stages(plan.children[i], max_tasks);
    }
    lemma_no_child_stages(plan, plan.children.len());
}

proof fn lemma_no_child_stages(plan: Plan, n: nat)
    requires
        n <= plan.children.len(),
        forall|i: int|
            #![trigger plan.children[i]]
            0 <= i < plan.children.len() ==> plan.children[i].stage_nums() == Seq::<
                usize,
            >::empty(),
    ensures
        plan.child_stage_nums(n) == Seq::<usize>::empty(),
    decreases n,
{
    if n > 0 {
        lemma_no_child_stages(plan, (n - 1) as nat);
        assert(plan.child_stage_nums(n) =~= Seq::<usize>::empty());
    }
}

/// The stages below an only child.
proof fn lemma_only_child_stage_nums(plan: Plan)
    requires
        plan.children.len() == 1,
    ensures
        plan.child_stage_nums(1) == plan.children[0].stage_nums(),
{
    assert(plan.child_stage_nums(0) == Seq::<usize>::empty());
    assert(plan.child_stage_nums(1) == plan.child_stage_nums(0) + plan.children[0].stage_nums());
    assert(plan.child_stage_nums(1) =~= plan.children[0].stage_nums());
}

proof fn lemma_propagation_keeps_stages(
    rules: PlanningRules,
    plan: Plan,
    task_count: TaskCountAnnotation,
    max_tasks: usize,
)
    requires
        rules.scales_leaves_without_boundaries(),
        plan.stages_fit(max_tasks),
        rules.propagated(plan, task_count) is Ok,
    ensures
        keeps_stages(plan, rules.propagated(plan, task_count)->Ok_0, max_tasks),
    decreases plan, 1nat, 0nat,
{
    let after = rules.propagated(plan, task_count)->Ok_0;
    if plan.is_leaf() {
        if let Some(leaf) = (rules.scaled_leaf)(plan, task_count.count()) {
            assert(leaf.has_no_boundary());
            lemma_no_stages(leaf, max_tasks);
            crate::shape_laws::lemma_same_operators_throughout(leaf, task_count);
            lemma_same_operators_have_the_same_stages(leaf, after, max_tasks);
            assert(plan.stage_nums() =~= Seq::<usize>::empty());
        } else {
            lemma_stages_of_children(plan, after, max_tasks);
        }
    } else if plan.is_network_boundary() {
        lemma_stages_of_children(plan, after, max_tasks);
    } else if rules.isolates(plan) {
        let counts = plan.child_task_counts(plan.children.len())->Ok_0;
        let union = (rules.isolated)(counts, plan.child_partition_counts(), task_count.count())->0;
        let task_counts = union.child_tasks.map_values(
            |tasks: usize| TaskCountAnnotation::Maximum(tasks),
        );
        lemma_propagation_keeps_child_stages(
            rules,
            plan,
            task_counts,
            max_tasks,
            plan.children.len(),
        );
        lemma_stages_of_children(plan, after, max_tasks);
    } else {
        let task_counts = Seq::new(plan.children.len(), |i: int| task_count);
        lemma_propagation_keeps_child_stages(
            rules,
            plan,
            task_counts,
            max_tasks,
            plan.children.len(),
        );
        lemma_stages_of_children(plan, after, max_tasks);
    }
}

proof fn lemma_propagation_keeps_child_stages(
    rules: PlanningRules,
    plan: Plan,
    task_counts: Seq<TaskCountAnnotation>,
    max_tasks: usize,
    n: nat,
)
    requires
        n <= plan.children.len(),
        rules.scales_leaves_without_boundaries(),
        plan.stages_fit(max_tasks),
        rules.propagated_children(plan, task_counts, n) is Ok,
    ensures
        ({
            let children = rules.propagated_children(plan, task_counts, n)->Ok_0;
            &&& children.len() == n
            &&& forall|i: int|
                #![trigger plan.children[i]]
                #![trigger children[i]]
                0 <= i < n ==> keeps_stages(plan.children[i], children[i], max_tasks)
        }),
    decreases plan, 0nat, n,
{
    if n > 0 {
        lemma_propagation_keeps_child_stages(rules, plan, task_counts, max_tasks, (n - 1) as nat);
        assert(plan.children[n - 1].stages_fit(max_tasks));
        lemma_propagation_keeps_stages(
            rules,
            plan.children[n - 1],
            task_counts[n - 1],
            max_tasks,
        );
    }
}

/// Inserting splits keeps the stages.
proof fn lemma_splits_keep_stages(
    config: DistributedConfig,
    tasks: usize,
    before: Plan,
    after: Plan,
    max_tasks: usize,
)
    requires
        before.gains_only_splits(config, tasks, after),
        before.stages_fit(max_tasks),
    ensures
        keeps_stages(before, after, max_tasks),
    decreases before,
{
    if after == before {
    } else if before.is_shuffle_split_by(config, tasks, after) {
        assert(after.children =~= seq![before]);
        lemma_only_child_stage_nums(after);
    } else {
        assert forall|i: int|
            #![trigger before.children[i]]
            #![trigger after.children[i]]
            0 <= i < before.children.len() implies keeps_stages(
            before.children[i],
            after.children[i],
            max_tasks,
        ) by {
            assert(before.children[i].gains_only_splits(config, tasks, after.children[i]));
            lemma_splits_keep_stages(
                config,
                tasks,
                before.children[i],
                after.children[i],
                max_tasks,
            );
        }
        lemma_stages_of_children(before, after, max_tasks);
    }
}

/// Closing a stage keeps the stages that it reads from, and records its task count at its root.
proof fn lemma_closing_keeps_stages(
    rules: PlanningRules,
    plan: Plan,
    task_count: TaskCountAnnotation,
    max_tasks: usize,
)
    requires
        rules.scales_leaves_without_boundaries(),
        plan.stages_fit(max_tasks),
        rules.closed_stage(plan, task_count) is Ok,
    ensures
        keeps_stages(plan, rules.closed_stage(plan, task_count)->Ok_0, max_tasks),
        rules.closed_stage(plan, task_count)->Ok_0.task_count == Some(task_count),
{
    lemma_propagation_keeps_stages(rules, plan, task_count, max_tasks);
    let propagated = rules.propagated(plan, task_count)->Ok_0;
    let split = crate::inject_laws::lemma_finalized(rules, propagated, task_count);
    lemma_splits_keep_stages(rules.config, task_count.count(), propagated, split, max_tasks);
    crate::shape_laws::lemma_same_operators_throughout(split, task_count);
    crate::shape_laws::lemma_same_operators_within_stage(split, split, task_count);
    lemma_same_operators_have_the_same_stages(
        split,
        split.annotated_within_stage(task_count),
        max_tasks,
    );
}

/// The `k`-th stage number from `num` on.
pub open spec fn nth_num(num: usize, k: nat) -> usize
    decreases k,
{
    if k == 0 {
        num
    } else {
        crate::inject_network_boundaries::following(nth_num(num, (k - 1) as nat))
    }
}

/// Whether `nums` counts on from `from`, and `to` is the number after them.
pub open spec fn is_run(nums: Seq<usize>, from: usize, to: usize) -> bool {
    &&& forall|i: int|
        #![trigger nums[i]]
        0 <= i < nums.len() ==> nums[i] == nth_num(from, i as nat)
    &&& to == nth_num(from, nums.len())
}

proof fn lemma_nth_num_adds(num: usize, a: nat, b: nat)
    ensures
        nth_num(num, a + b) == nth_num(nth_num(num, a), b),
    decreases b,
{
    if b > 0 {
        lemma_nth_num_adds(num, a, (b - 1) as nat);
    }
}

proof fn lemma_runs_join(a: Seq<usize>, b: Seq<usize>, from: usize, middle: usize, to: usize)
    requires
        is_run(a, from, middle),
        is_run(b, middle, to),
    ensures
        is_run(a + b, from, to),
{
    assert forall|i: int| #![trigger (a + b)[i]] 0 <= i < (a + b).len() implies (a + b)[i]
        == nth_num(from, i as nat) by {
        if i >= a.len() {
            lemma_nth_num_adds(from, a.len(), (i - a.len()) as nat);
            assert(b[i - a.len()] == nth_num(middle, (i - a.len()) as nat));
        } else {
            assert(a[i] == nth_num(from, i as nat));
        }
    }
    lemma_nth_num_adds(from, a.len(), b.len());
}

/// A boundary above a stage has the next number.
proof fn lemma_boundary_nums(boundary: Plan, closed: Plan, num: usize, next: usize, last: usize)
    requires
        boundary.is_network_boundary(),
        boundary.children == seq![closed],
        boundary.stage_num() == next,
        last == crate::inject_network_boundaries::following(next),
        is_run(closed.stage_nums(), num, next),
    ensures
        is_run(boundary.stage_nums(), num, last),
{
    lemma_only_child_stage_nums(boundary);
    let below = closed.stage_nums();
    assert(boundary.stage_nums() =~= below.push(next));
}

/// What holds of the stages of a plan with boundaries injected.
proof fn lemma_injected_stages(
    rules: PlanningRules,
    plan: Plan,
    parent: Option<KindView>,
    num: usize,
    max_tasks: usize,
)
    requires
        rules.scales_leaves_without_boundaries(),
        rules.max_tasks matches Ok(limit) ==> limit == max_tasks,
        plan.has_no_boundary(),
        rules.injected(plan, parent, num) is Ok,
    ensures
        ({
            let (after, next) = rules.injected(plan, parent, num)->Ok_0;
            &&& after.stages_fit(max_tasks)
            &&& is_run(after.stage_nums(), num, next)
            &&& parent is None && !plan.is_leaf() && !plan.is_hash_repartition() ==> (
            after.task_count matches Some(task_count) && task_count.count() <= max_tasks)
        }),
    decreases plan, 1nat, 0nat,
{
    let (after, last) = rules.injected(plan, parent, num)->Ok_0;
    if plan.is_leaf() {
        assert(after.stage_nums() =~= Seq::<usize>::empty());
    } else {
        let n = plan.children.len();
        lemma_injected_child_stages(rules, plan, num, max_tasks, n);
        let (children, next) = rules.injected_children(plan, num, n)->Ok_0;
        let rebuilt = plan.rebuilt(children)->Ok_0;
        let task_count = rules.reconciled(plan, children).limited(max_tasks);
        assert(rebuilt.child_stage_nums(n) == rebuilt.stage_nums());
        assert(rebuilt.stages_fit(max_tasks));
        if rules.closed_stage(rebuilt, task_count) is Ok {
            lemma_closing_keeps_stages(rules, rebuilt, task_count, max_tasks);
        }
        let folds = !(rebuilt.op.kind is Repartition) && parent is Some
            && parent->0.folds_partitions();
        if rebuilt.is_hash_repartition() || folds {
            let closed = rules.closed_stage(rebuilt, task_count)->Ok_0;
            assert(after.children =~= seq![closed]);
            lemma_boundary_nums(after, closed, num, next, last);
        } else if parent is Some {
            lemma_stages_of_children(rebuilt, after, max_tasks);
        }
    }
}

proof fn lemma_injected_child_stages(
    rules: PlanningRules,
    plan: Plan,
    num: usize,
    max_tasks: usize,
    n: nat,
)
    requires
        n <= plan.children.len(),
        rules.scales_leaves_without_boundaries(),
        rules.max_tasks matches Ok(limit) ==> limit == max_tasks,
        plan.has_no_boundary(),
        rules.injected_children(plan, num, n) is Ok,
    ensures
        ({
            let (children, next) = rules.injected_children(plan, num, n)->Ok_0;
            &&& children.len() == n
            &&& forall|i: int|
                #![trigger children[i]]
                0 <= i < n ==> children[i].stages_fit(max_tasks)
            &&& forall|below: Plan|
                below.children == children ==> is_run(
                    #[trigger] below.child_stage_nums(n),
                    num,
                    next,
                )
        }),
    decreases plan, 0nat, n,
{
    let (children, next) = rules.injected_children(plan, num, n)->Ok_0;
    if n > 0 {
        lemma_injected_child_stages(rules, plan, num, max_tasks, (n - 1) as nat);
        let (done, before) = rules.injected_children(plan, num, (n - 1) as nat)->Ok_0;
        let child = plan.children[n - 1];
        assert(child.has_no_boundary());
        lemma_injected_stages(rules, child, Some(plan.op.kind), before, max_tasks);
        let injected = rules.injected(child, Some(plan.op.kind), before)->Ok_0.0;
        assert(children == done.push(injected));
        assert forall|below: Plan| below.children == children implies is_run(
            #[trigger] below.child_stage_nums(n),
            num,
            next,
        ) by {
            let shorter = Plan { children: done, ..below };
            assert(is_run(shorter.child_stage_nums((n - 1) as nat), num, before));
            lemma_same_child_stage_nums(shorter, below, (n - 1) as nat);
            lemma_runs_join(
                below.child_stage_nums((n - 1) as nat),
                injected.stage_nums(),
                num,
                before,
                next,
            );
        }
    }
}

proof fn lemma_nums_from_one(k: nat)
    requires
        k < usize::MAX,
    ensures
        nth_num(1, k) == k + 1,
    decreases k,
{
    if k > 0 {
        lemma_nums_from_one((k - 1) as nat);
    }
}

/// Whether every number is greater than those before it.
pub open spec fn is_increasing(nums: Seq<usize>) -> bool {
    forall|i: int, j: int|
        #![trigger nums[i], nums[j]]
        0 <= i < j < nums.len() ==> nums[i] < nums[j]
}

/// Stages whose numbers increase from children to parents follow their inputs.
proof fn lemma_increasing_stages_follow_their_inputs(plan: Plan)
    requires
        is_increasing(plan.stage_nums()),
    ensures
        plan.stages_follow_their_inputs(),
    decreases plan,
{
    let below = plan.child_stage_nums(plan.children.len());
    let nums = plan.stage_nums();
    assert forall|i: int, j: int| #![trigger below[i], below[j]] 0 <= i < j < below.len() implies
        below[i] < below[j] by {
        assert(nums[i] == below[i] && nums[j] == below[j]);
    }
    if plan.is_network_boundary() {
        assert forall|i: int| #![trigger below[i]] 0 <= i < below.len() implies below[i]
            < plan.stage_num() by {
            assert(nums[i] == below[i] && nums[below.len() as int] == plan.stage_num());
        }
    }
    lemma_increasing_below(plan, plan.children.len());
    assert forall|i: int| #![trigger plan.children[i]] 0 <= i < plan.children.len() implies
        plan.children[i].stages_follow_their_inputs() by {
        lemma_increasing_stages_follow_their_inputs(plan.children[i]);
    }
}

proof fn lemma_increasing_below(plan: Plan, n: nat)
    requires
        n <= plan.children.len(),
        is_increasing(plan.child_stage_nums(n)),
    ensures
        forall|i: int|
            #![trigger plan.children[i]]
            0 <= i < n ==> is_increasing(plan.children[i].stage_nums()),
    decreases n,
{
    if n > 0 {
        let all = plan.child_stage_nums(n);
        let first = plan.child_stage_nums((n - 1) as nat);
        let last = plan.children[n - 1].stage_nums();
        assert(all == first + last);
        assert forall|i: int, j: int|
            #![trigger first[i], first[j]]
            0 <= i < j < first.len() implies first[i] < first[j] by {
            assert(all[i] == first[i] && all[j] == first[j]);
        }
        assert forall|i: int, j: int| #![trigger last[i], last[j]] 0 <= i < j < last.len() implies
            last[i] < last[j] by {
            assert(all[first.len() + i] == last[i] && all[first.len() + j] == last[j]);
        }
        lemma_increasing_below(plan, (n - 1) as nat);
    }
}

/// The stages behind the network boundaries of the returned plan are numbered from one on, each
/// number used once and none left out, and every stage has a greater number than those it reads
/// from. (There are more numbers than a plan has boundaries.)
pub proof fn law_stages_are_numbered_from_one(rules: PlanningRules, plan: Plan)
    requires
        rules.scales_leaves_without_boundaries(),
        plan.has_no_boundary(),
        rules.injected_plan(plan) is Ok,
        rules.injected_plan(plan)->Ok_0.stage_nums().len() <= usize::MAX,
    ensures
        ({
            let after = rules.injected_plan(plan)->Ok_0;
            let nums = after.stage_nums();
            &&& nums == Seq::new(nums.len(), |i: int| (i + 1) as usize)
            &&& after.stages_follow_their_inputs()
        }),
{
    let max_tasks = rules.max_tasks->Ok_0;
    lemma_injected_stages(rules, plan, None, 1, max_tasks);
    let after = rules.injected_plan(plan)->Ok_0;
    let nums = after.stage_nums();
    assert forall|i: int| #![trigger nums[i]] 0 <= i < nums.len() implies nums[i] == i + 1 by {
        lemma_nums_from_one(i as nat);
    }
    assert(nums =~= Seq::new(nums.len(), |i: int| (i + 1) as usize));
    lemma_increasing_stages_follow_their_inputs(after);
}

/// No stage behind a network boundary of the returned plan runs on more tasks than the cap allows.
pub proof fn law_stages_respect_the_cap(rules: PlanningRules, plan: Plan, max_tasks: usize)
    requires
        rules.scales_leaves_without_boundaries(),
        rules.max_tasks == Ok::<usize, crate::error::PlanFailure>(max_tasks),
        plan.has_no_boundary(),
        rules.injected_plan(plan) is Ok,
    ensures
        rules.injected_plan(plan)->Ok_0.stages_fit(max_tasks),
{
    lemma_injected_stages(rules, plan, None, 1, max_tasks);
}

/// The stage at the root of the returned plan has its task count recorded, and it respects the cap,
/// unless the plan repartitions by hash at its root, so that the root is a network boundary.
pub proof fn law_the_head_stage_respects_the_cap(rules: PlanningRules, plan: Plan, max_tasks: usize)
    requires
        max_tasks >= 1,
        rules.scales_leaves_without_boundaries(),
        rules.max_tasks == Ok::<usize, crate::error::PlanFailure>(max_tasks),
        plan.has_no_boundary(),
        plan.is_leaf() || !plan.is_hash_repartition(),
        rules.injected_plan(plan) is Ok,
    ensures
        rules.injected_plan(plan)->Ok_0.task_count matches Some(task_count) && task_count.count()
            <= max_tasks,
{
    lemma_injected_stages(rules, plan, None, 1, max_tasks);
}

}
