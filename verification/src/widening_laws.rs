//! How far local exchange splits widen the inputs of a stage, and which consumers always get one.
use vstd::prelude::*;

use crate::config::DistributedConfig;
use crate::plan::{
    AggregateMode, DistributionView, KindView, PartitionMode, PartitionRule, Plan, SchemeView,
};
use crate::split_input::{Rewrite, SplitSource};

verus! {

/// The count that an unsplit source is widened to on its own account is the least multiple of the
/// partitions that it exposes that reaches the target: no multiple `m` that reaches it is smaller,
/// and the source can produce it. A source is left alone only where its tasks read as much already,
/// or where no such multiple can be counted.
pub proof fn law_inferred_targets_are_least_multiples(
    source: SplitSource,
    target_per_task: usize,
    m: nat,
)
    requires
        !source.already_split,
        source.output > 0,
    ensures
        match source.inferred_target(target_per_task) {
            Some(target) => {
                &&& 0 < source.owned < target_per_task
                &&& target_per_task <= target < target_per_task + source.output
                &&& target % source.output == 0
                &&& source.can_produce(target)
                &&& m >= target_per_task && m % (source.output as nat) == 0 ==> m >= target
            },
            None => 0 < source.owned < target_per_task && m >= target_per_task && m % (
            source.output as nat) == 0 ==> m > usize::MAX,
        },
{
    let (value, step) = (target_per_task as nat, source.output as nat);
    crate::arithmetic::lemma_round_up(value, step);
    let target = crate::arithmetic::round_up(value, step);
    assert(m % step == m % step);
    if 0 < source.owned < target_per_task && target < step {
        assert(target % step == target) by (nonlinear_arith)
            requires
                0 < target < step,
        ;
    }
}

/// The most partitions that one task reads are those of an even division: enough for all tasks
/// together to read every partition, and not more than it takes.
pub proof fn law_tasks_share_partitions_evenly(base: usize, tasks: usize)
    ensures
        tasks == 0 ==> crate::split_input::max_owned(base, tasks) == 0,
        tasks > 0 ==> ({
            let owned = crate::split_input::max_owned(base, tasks) as int;
            owned * tasks >= base && (base > 0 ==> owned > 0 && (owned - 1) * tasks < base)
        }),
{
    if tasks > 0 {
        let (b, t) = (base as int, tasks as int);
        crate::arithmetic::lemma_round_up(base as nat, tasks as nat);
        let owned = crate::arithmetic::ceil_div(base as nat, tasks as nat) as int;
        assert(owned <= b) by (nonlinear_arith)
            requires
                b <= owned * t < b + t,
                t >= 1,
                b >= 0,
        ;
        assert(b > 0 ==> owned > 0 && (owned - 1) * t < b) by (nonlinear_arith)
            requires
                b <= owned * t < b + t,
                t >= 1,
                b >= 0,
        ;
    }
}

/// Whether the plan is a shuffle by hash that may be widened: it has partitions, none of its tasks
/// reads more of them than the configuration allows, and they are not read one for one by a single
/// task.
pub open spec fn is_widenable(plan: Plan, config: DistributedConfig, tasks: usize) -> bool {
    &&& plan.op.kind is NetworkShuffle
    &&& plan.op.scheme is Hash
    &&& tasks > 0
    &&& 0 < plan.partition_count <= config.local_exchange_split_max_owned_partitions * tasks
    &&& tasks > 1 || plan.partition_count > 1
}

/// A plan is a source that can be widened exactly if it is a shuffle by hash that the configuration
/// allows to widen; an existing split is a source that stays as it is. Nothing else is a source.
pub proof fn law_sources_are_narrow_shuffles_and_splits(
    plan: Plan,
    config: DistributedConfig,
    tasks: usize,
)
    ensures
        match plan.split_source(config, tasks) {
            Some(source) => {
                &&& source.plan == plan
                &&& source.output == plan.partition_count
                &&& if source.already_split {
                    plan.op.kind matches KindView::LocalExchangeSplit { base, local } && source.base
                        == base && (local > 0 ==> source.owned * local <= plan.partition_count < (
                    source.owned + 1) * local)
                } else {
                    &&& is_widenable(plan, config, tasks)
                    &&& source.base == plan.partition_count
                    &&& plan.op.scheme == SchemeView::Hash(source.hash_exprs)
                    &&& source.owned > 0
                    &&& source.owned * tasks >= plan.partition_count > (source.owned - 1) * tasks
                }
            },
            None => !is_widenable(plan, config, tasks) && !(plan.op.kind is LocalExchangeSplit),
        },
{
    law_tasks_share_partitions_evenly(plan.partition_count, tasks);
    let (owned, n, t, limit) = (
        crate::split_input::max_owned(plan.partition_count, tasks) as int,
        plan.partition_count as int,
        tasks as int,
        config.local_exchange_split_max_owned_partitions as int,
    );
    if t > 0 {
        assert(owned <= limit <==> n <= limit * t) by (nonlinear_arith)
            requires
                t > 0,
                owned >= 0,
                limit >= 0,
                owned * t >= n,
                n > 0 ==> (owned - 1) * t < n,
                n >= 0,
                n == 0 ==> owned == 0,
        ;
    }
    if let KindView::LocalExchangeSplit { base, local } = plan.op.kind {
        if local > 0 {
            let l = local as int;
            vstd::arithmetic::div_mod::lemma_fundamental_div_mod(n, l);
            vstd::arithmetic::div_mod::lemma_mod_bound(n, l);
            let q = n / l;
            assert(q * l <= n < (q + 1) * l) by (nonlinear_arith)
                requires
                    n == l * q + n % l,
                    0 <= n % l < l,
            ;
        }
    }
}

/// A source produces the counts that are multiples of what it exposes, an existing split only its
/// own. What it produces has that count, reads from the source, and is hashed by the keys of the
/// source; the local partitions of each partition multiply up to the count.
pub proof fn law_sources_produce_multiples(
    plan: Plan,
    config: DistributedConfig,
    tasks: usize,
    target: usize,
)
    requires
        plan.split_source(config, tasks) is Some,
        plan.partition_count > 0,
    ensures
        ({
            let source = plan.split_source(config, tasks)->0;
            let after = source.produced(target);
            &&& source.can_produce(target) <==> target == plan.partition_count || is_widenable(
                plan,
                config,
                tasks,
            ) && !(plan.op.kind is LocalExchangeSplit) && target >= plan.partition_count && target
                % plan.partition_count == 0
            &&& source.can_produce(target) ==> {
                &&& after.plan.partition_count == target
                &&& after.changed <==> target != plan.partition_count
                &&& !after.changed ==> after.plan == plan
                &&& after.changed ==> is_split_of(plan, after.plan, target)
            }
        }),
{
    law_sources_are_narrow_shuffles_and_splits(plan, config, tasks);
    let source = plan.split_source(config, tasks)->0;
    if source.can_produce(target) && target != plan.partition_count {
        lemma_split_of(plan, source, target);
    }
}

/// Whether `after` is a local exchange split directly above the shuffle `plan`, which makes `target`
/// partitions of those of the shuffle and keeps what they are hashed by.
pub open spec fn is_split_of(plan: Plan, after: Plan, target: usize) -> bool {
    &&& after.op.kind matches KindView::LocalExchangeSplit { base, local } && base
        == plan.partition_count && local >= 2 && local * plan.partition_count == target
    &&& after.op.name == "LocalExchangeSplitExec"@
    &&& after.op.scheme == plan.op.scheme
    &&& after.op.scheme is Hash
    &&& after.op.equal_exprs == plan.op.equal_exprs
    &&& after.op.fetch is None
    &&& after.op.handle is None
    &&& after.op.input_stage is None
    &&& after.op.cardinality_effect is Unknown
    &&& after.op.benefits == seq![false]
    &&& after.op.required == seq![DistributionView::Unspecified]
    &&& after.op.rebuildable
    &&& after.op.partition_rule matches PartitionRule::Scaled(factor) && factor
        * plan.partition_count == target
    &&& after.partition_count == target
    &&& after.children.len() == 1
    &&& after.children[0] == plan
}

proof fn lemma_split_of(plan: Plan, source: SplitSource, target: usize)
    requires
        source.plan == plan,
        source.base == plan.partition_count,
        source.output == plan.partition_count,
        plan.op.scheme == SchemeView::Hash(source.hash_exprs),
        plan.partition_count > 0,
        target % plan.partition_count == 0,
        target > plan.partition_count,
    ensures
        is_split_of(plan, source.produced(target).plan, target),
{
    let (t, n) = (target as int, plan.partition_count as int);
    vstd::arithmetic::div_mod::lemma_fundamental_div_mod(t, n);
    let local = t / n;
    assert(local >= 2 && local * n == t) by (nonlinear_arith)
        requires
            t == n * local,
            t > n,
            n > 0,
    ;
}

/// The count that the two sources of a join are widened to is the least multiple of both their
/// counts that reaches the target and covers both: no such multiple `m` is smaller. There is none
/// only where the sources hash into different numbers of partitions, or one of them cannot produce
/// any such multiple.
pub proof fn law_aligned_targets_are_least_common_multiples(
    left: SplitSource,
    right: SplitSource,
    target_per_task: usize,
    m: nat,
)
    requires
        left.output > 0,
        right.output > 0,
        target_per_task > 0,
    ensures
        match left.aligned_target(right, target_per_task) {
            Some(target) => {
                &&& left.base == right.base
                &&& target >= target_per_task
                &&& target >= left.output && target >= right.output
                &&& target % left.output == 0 && target % right.output == 0
                &&& left.can_produce(target) && right.can_produce(target)
                &&& m >= target_per_task && m >= left.output && m >= right.output && m % (
                left.output as nat) == 0 && m % (right.output as nat) == 0 ==> m >= target
            },
            None => left.base == right.base && !left.already_split && !right.already_split && m
                >= target_per_task && m >= left.output && m >= right.output && m % (
            left.output as nat) == 0 && m % (right.output as nat) == 0 ==> m > usize::MAX,
        },
        left.aligned_target(right, target_per_task) == right.aligned_target(left, target_per_task),
{
    let (a, b) = (left.output as nat, right.output as nat);
    let least = left.least_shared(right, target_per_task) as nat;
    crate::arithmetic::lemma_lcm_is_least(a, b);
    let multiple = crate::arithmetic::least_common_multiple(a, b);
    crate::arithmetic::lemma_round_up(least, multiple);
    let target = crate::arithmetic::round_up(least, multiple);
    lemma_multiple_of_multiple(target, multiple, a);
    lemma_multiple_of_multiple(target, multiple, b);
    if m >= least && m % a == 0 && m % b == 0 {
        crate::arithmetic::lemma_lcm_divides(a, b, m);
        assert(m % multiple == 0);
    }
    lemma_common_multiples_commute(a, b);
}

proof fn lemma_multiple_of_multiple(n: nat, multiple: nat, step: nat)
    requires
        step > 0,
        multiple > 0,
        n % multiple == 0,
        multiple % step == 0,
    ensures
        n % step == 0,
{
    let (v, m, s) = (n as int, multiple as int, step as int);
    vstd::arithmetic::div_mod::lemma_fundamental_div_mod(v, m);
    vstd::arithmetic::div_mod::lemma_fundamental_div_mod(m, s);
    let (p, q) = (v / m, m / s);
    assert(v == (q * p) * s) by (nonlinear_arith)
        requires
            v == m * p,
            m == s * q,
    ;
    vstd::arithmetic::div_mod::lemma_mod_multiples_basic(q * p, s);
}

proof fn lemma_common_multiples_commute(a: nat, b: nat)
    requires
        a > 0,
        b > 0,
    ensures
        crate::arithmetic::least_common_multiple(a, b) == crate::arithmetic::least_common_multiple(
            b,
            a,
        ),
{
    crate::arithmetic::lemma_lcm_is_least(a, b);
    crate::arithmetic::lemma_lcm_is_least(b, a);
    let (x, y) = (
        crate::arithmetic::least_common_multiple(a, b),
        crate::arithmetic::least_common_multiple(b, a),
    );
    assert(crate::arithmetic::is_common_multiple(b, a, x));
    assert(crate::arithmetic::is_common_multiple(a, b, y));
}

impl Plan {
    /// Whether the plan has one input, all of whose rows it hands on, and can be put above another
    /// input with other partitions.
    pub open spec fn passes_its_input_on(self) -> bool {
        &&& self.op.kind is Other
        &&& self.op.fetch is None
        &&& self.op.rebuildable
        &&& self.op.partition_rule == PartitionRule::Inherit(0)
        &&& self.children.len() == 1
    }

    /// Whether nothing but operators that pass on their inputs stands between the plan and `end`.
    pub open spec fn leads_to(self, end: Plan) -> bool
        decreases self,
    {
        self == end || self.passes_its_input_on() && self.children[0].leads_to(end)
    }

    /// Whether `after` is this plan with `target` partitions all the way up from a new split above
    /// the shuffle at its end.
    pub open spec fn is_widened_to(self, after: Plan, end: Plan, target: usize) -> bool
        decreases self,
    {
        &&& after.partition_count == target
        &&& if self == end {
            is_split_of(end, after, target)
        } else {
            &&& after.op == self.op
            &&& self.children.len() == 1
            &&& after.children.len() == 1
            &&& self.children[0].is_widened_to(after.children[0], end, target)
        }
    }
}

/// What becomes of a path to a shuffle whose source is widened.
proof fn lemma_paths_are_widened(
    plan: Plan,
    end: Plan,
    config: DistributedConfig,
    tasks: usize,
    requested: Option<usize>,
    target: usize,
)
    requires
        plan.leads_to(end),
        is_widenable(end, config, tasks),
        target > end.partition_count,
        target % end.partition_count == 0,
        requested matches Some(count) ==> count == target,
        requested is None ==> end.split_source(config, tasks)->0.inferred_target(
            config.local_exchange_split_target_partitions_per_task,
        ) == Some(target),
    ensures
        plan.split_on_path(config, tasks, requested) matches Some(rewrite) && rewrite.changed
            && plan.is_widened_to(rewrite.plan, end, target) && rewrite.plan.op.scheme
            == plan.op.scheme && rewrite.plan.op.equal_exprs == plan.op.equal_exprs,
        plan.unary_split_source(config, tasks) == end.split_source(config, tasks),
        plan.stage_has_shuffle(),
    decreases plan,
{
    law_sources_are_narrow_shuffles_and_splits(end, config, tasks);
    if plan == end {
        law_sources_produce_multiples(end, config, tasks, target);
    } else {
        let child = plan.children[0];
        lemma_paths_are_widened(child, end, config, tasks, requested, target);
        assert(child.stage_has_shuffle());
        let rewrite = child.split_on_path(config, tasks, requested)->0;
        assert(seq![rewrite.plan][0] == rewrite.plan);
    }
}

/// Whether a demand for `keys` is met by the partitioning of a plan, whatever its number of
/// partitions is.
pub open spec fn is_hashed_by(plan: Plan, keys: Seq<usize>) -> bool {
    forall|count: usize|
        #[trigger] crate::distribution::hash_satisfied(
            plan.op.scheme,
            count,
            plan.op.equal_exprs,
            keys,
        )
}

/// Whether the plan wants its `i`-th input hashed by `keys`.
pub open spec fn wants_keys(plan: Plan, i: int, keys: Seq<usize>) -> bool {
    &&& 0 <= i < plan.op.benefits.len() && plan.op.benefits[i]
    &&& i < plan.op.required.len() && plan.op.required[i] == DistributionView::HashPartitioned(keys)
}

/// Whether the plan wants its `i`-th input hashed by any keys.
pub open spec fn wants_any_keys(plan: Plan, i: int) -> bool {
    exists|keys: Seq<usize>| #[trigger] wants_keys(plan, i, keys)
}

/// A final partitioned aggregate whose input comes from a narrow enough shuffle by its keys, and of
/// which no task reads as many partitions as the target, always gets a split: directly above the
/// shuffle, with the least multiple of the partitions of the shuffle that reaches the target.
pub proof fn law_final_aggregates_above_narrow_shuffles_are_split(
    plan: Plan,
    shuffle: Plan,
    keys: Seq<usize>,
    config: DistributedConfig,
    tasks: usize,
    m: nat,
)
    requires
        config.local_exchange_split_mode@ == "final_agg"@ || config.local_exchange_split_mode@
            == "final_agg_and_join"@,
        plan.op.kind == KindView::Aggregate(AggregateMode::FinalPartitioned),
        plan.op.fetch is None,
        plan.op.rebuildable,
        plan.op.partition_rule == PartitionRule::Inherit(0),
        plan.children.len() == 1,
        wants_keys(plan, 0, keys),
        is_hashed_by(plan.children[0], keys),
        plan.children[0].leads_to(shuffle),
        is_widenable(shuffle, config, tasks),
        shuffle.partition_count <= (config.local_exchange_split_target_partitions_per_task - 1)
            * tasks,
        m >= config.local_exchange_split_target_partitions_per_task,
        m % (shuffle.partition_count as nat) == 0,
        m <= usize::MAX,
        m > shuffle.partition_count,
        forall|k: nat|
            config.local_exchange_split_target_partitions_per_task <= k < m ==> #[trigger] (k % (
            shuffle.partition_count as nat)) != 0,
    ensures
        plan.split_stage(config, tasks) matches Ok(rewrite) && {
            &&& rewrite.changed
            &&& rewrite.plan.op == plan.op
            &&& rewrite.plan.partition_count == m
            &&& rewrite.plan.children.len() == 1
            &&& plan.children[0].is_widened_to(rewrite.plan.children[0], shuffle, m as usize)
        },
{
    let target_per_task = config.local_exchange_split_target_partitions_per_task;
    law_sources_are_narrow_shuffles_and_splits(shuffle, config, tasks);
    let source = shuffle.split_source(config, tasks)->0;
    let (owned, n, t, limit) = (
        source.owned as int,
        shuffle.partition_count as int,
        tasks as int,
        target_per_task as int,
    );
    assert(owned < limit) by (nonlinear_arith)
        requires
            n <= (limit - 1) * t,
            (owned - 1) * t < n,
            t > 0,
    ;
    law_inferred_targets_are_least_multiples(source, target_per_task, m);
    let target = source.inferred_target(target_per_task)->0;
    if target < m {
        assert((target as nat) % (shuffle.partition_count as nat) != 0);
    }
    let input = plan.children[0];
    lemma_paths_are_widened(input, shuffle, config, tasks, None, target);
    let rewrite = input.split_on_path(config, tasks, None)->0;
    assert(crate::distribution::hash_satisfied(
        input.op.scheme,
        rewrite.plan.partition_count,
        input.op.equal_exprs,
        keys,
    ));
    assert(plan.hash_keys(0) == Some(keys));
    assert(seq![rewrite.plan][0] == rewrite.plan);
    assert(plan.stage_has_shuffle());
    lemma_modes_differ();
}

proof fn lemma_modes_differ()
    ensures
        "off"@ != "final_agg"@,
        "off"@ != "final_agg_and_join"@,
        "final_agg"@ != "final_agg_and_join"@,
{
    reveal_strlit("off");
    reveal_strlit("final_agg");
    reveal_strlit("final_agg_and_join");
    assert("off"@.len() == 3 && "final_agg"@.len() == 9 && "final_agg_and_join"@.len() == 18);
}

/// A partitioned join whose two inputs come from narrow shuffles into the same number of partitions,
/// fewer than the target, always has both of them split, in the mode that splits joins: directly
/// above the shuffles, with the least multiple of their partitions that reaches the target, and the
/// same one on both sides.
pub proof fn law_partitioned_joins_of_narrow_shuffles_are_split(
    plan: Plan,
    shuffles: (Plan, Plan),
    keys: (Seq<usize>, Seq<usize>),
    config: DistributedConfig,
    tasks: usize,
    m: nat,
)
    requires
        config.local_exchange_split_mode@ == "final_agg_and_join"@,
        plan.op.kind == KindView::HashJoin(PartitionMode::Partitioned),
        plan.op.fetch is None,
        plan.op.rebuildable,
        plan.op.partition_rule == PartitionRule::Inherit(0) || plan.op.partition_rule
            == PartitionRule::Inherit(1),
        plan.children.len() == 2,
        wants_keys(plan, 0, keys.0),
        wants_keys(plan, 1, keys.1),
        is_hashed_by(plan.children[0], keys.0),
        is_hashed_by(plan.children[1], keys.1),
        plan.children[0].leads_to(shuffles.0),
        plan.children[1].leads_to(shuffles.1),
        is_widenable(shuffles.0, config, tasks),
        is_widenable(shuffles.1, config, tasks),
        shuffles.0.partition_count == shuffles.1.partition_count,
        m >= config.local_exchange_split_target_partitions_per_task,
        m % (shuffles.0.partition_count as nat) == 0,
        shuffles.0.partition_count < config.local_exchange_split_target_partitions_per_task,
        m <= usize::MAX,
        forall|k: nat|
            config.local_exchange_split_target_partitions_per_task <= k < m ==> #[trigger] (k % (
            shuffles.0.partition_count as nat)) != 0,
    ensures
        plan.split_stage(config, tasks) matches Ok(rewrite) && {
            &&& rewrite.changed
            &&& rewrite.plan.op == plan.op
            &&& rewrite.plan.partition_count == m
            &&& rewrite.plan.children.len() == 2
            &&& plan.children[0].is_widened_to(rewrite.plan.children[0], shuffles.0, m as usize)
            &&& plan.children[1].is_widened_to(rewrite.plan.children[1], shuffles.1, m as usize)
        },
{
    let target_per_task = config.local_exchange_split_target_partitions_per_task;
    let (a, b) = shuffles;
    law_sources_are_narrow_shuffles_and_splits(a, config, tasks);
    law_sources_are_narrow_shuffles_and_splits(b, config, tasks);
    let (left, right) = (a.split_source(config, tasks)->0, b.split_source(config, tasks)->0);
    law_aligned_targets_are_least_common_multiples(left, right, target_per_task, m);
    let target = left.aligned_target(right, target_per_task)->0;
    if target < m {
        assert((target as nat) % (a.partition_count as nat) != 0);
    }
    let (x, y) = (plan.children[0], plan.children[1]);
    lemma_paths_are_widened(x, a, config, tasks, Some(target), target);
    lemma_paths_are_widened(y, b, config, tasks, Some(target), target);
    let (p, q) = (
        x.split_on_path(config, tasks, Some(target))->0,
        y.split_on_path(config, tasks, Some(target))->0,
    );
    assert(crate::distribution::hash_satisfied(
        x.op.scheme,
        p.plan.partition_count,
        x.op.equal_exprs,
        keys.0,
    ));
    assert(crate::distribution::hash_satisfied(
        y.op.scheme,
        q.plan.partition_count,
        y.op.equal_exprs,
        keys.1,
    ));
    assert(plan.hash_keys(0) == Some(keys.0) && plan.hash_keys(1) == Some(keys.1));
    assert(x.stage_has_shuffle());
    assert(plan.stage_has_shuffle());
    let children = seq![p.plan, q.plan];
    assert(children[0] == p.plan && children[1] == q.plan);
    lemma_modes_differ();
}

/// What is inserted below an operator that passes its input on is inserted whatever stands above it:
/// the operator is put above the widened input and has as many partitions.
pub proof fn law_splits_are_inserted_below_other_operators(
    plan: Plan,
    config: DistributedConfig,
    tasks: usize,
)
    requires
        plan.passes_its_input_on(),
        plan.children[0].with_splits(config, tasks, None) matches Ok(rewrite) && rewrite.changed,
    ensures
        plan.with_splits(config, tasks, None) matches Ok(rewrite) && {
            &&& rewrite.changed
            &&& rewrite.plan.op == plan.op
            &&& rewrite.plan.children.len() == 1
            &&& Ok::<Plan, crate::error::PlanFailure>(rewrite.plan.children[0])
                == match plan.children[0].with_splits(config, tasks, None) {
                Ok(child) => Ok(child.plan),
                Err(failure) => Err(failure),
            }
            &&& rewrite.plan.partition_count == rewrite.plan.children[0].partition_count
        },
{
    let counts = crate::insert_local_exchange_split::ChildCounts::Propagate(None);
    reveal_with_fuel(Plan::split_children, 2);
    let child = plan.children[0].with_splits(config, tasks, None)->Ok_0;
    assert(counts.demand(plan, 0) is None);
    assert(plan.split_children(config, tasks, counts, 0) == Ok::<
        (Seq<Plan>, bool),
        crate::error::PlanFailure,
    >((Seq::empty(), false)));
    let children = Seq::<Plan>::empty().push(child.plan);
    assert(children.len() == 1 && children[0] == child.plan);
    assert(plan.split_children(config, tasks, counts, 1) == Ok::<
        (Seq<Plan>, bool),
        crate::error::PlanFailure,
    >((children, true)));
}

/// The mode decides: nothing is split where it is off, an unknown mode is refused, and without the
/// mode for joins the inputs of a partitioned join keep their partitions.
pub proof fn law_the_mode_decides_on_splits(plan: Plan, config: DistributedConfig, tasks: usize)
    ensures
        config.local_exchange_split_mode@ == "off"@ ==> plan.split_stage(config, tasks) == Ok::<
            Rewrite,
            crate::error::PlanFailure,
        >(Rewrite { plan, changed: false }),
        config.local_exchange_split_mode@ != "off"@ && config.local_exchange_split_mode@
            != "final_agg"@ && config.local_exchange_split_mode@ != "final_agg_and_join"@
            <==> plan.split_stage(config, tasks) == Err::<Rewrite, crate::error::PlanFailure>(
            crate::error::PlanFailure::UnknownSplitMode { mode: config.local_exchange_split_mode@ },
        ),
        config.local_exchange_split_mode@ == "final_agg"@ && plan.op.kind == KindView::HashJoin(
            PartitionMode::Partitioned,
        ) ==> (plan.split_stage(config, tasks) matches Ok(rewrite)
            ==> rewrite.plan.children.len() == plan.children.len() && forall|i: int|
            #![trigger plan.children[i]]
            0 <= i < plan.children.len() ==> rewrite.plan.children[i].partition_count
                == plan.children[i].partition_count),
{
    lemma_modes_differ();
    if config.local_exchange_split_mode@ == "final_agg"@ || config.local_exchange_split_mode@
        == "final_agg_and_join"@ {
        crate::inject_laws::lemma_split_failures(plan, config, tasks, None);
    }
    let preserved = plan.with_split_children(
        config,
        tasks,
        crate::insert_local_exchange_split::ChildCounts::Preserve,
    );
    if preserved is Ok {
        crate::insert_local_exchange_split::law_preserved_children_keep_their_counts(
            plan,
            config,
            tasks,
        );
    }
}

impl Plan {
    /// Whether `after` is this plan with local exchange splits above some of the narrow shuffles of
    /// its stage and no other change: nothing behind a network boundary, below an existing split or
    /// below an operator that stops early is touched.
    pub open spec fn differs_in_splits(
        self,
        after: Plan,
        config: DistributedConfig,
        tasks: usize,
    ) -> bool
        decreases self,
    {
        ||| after == self
        ||| is_widenable_at_all(self, config, tasks) && is_split_of(
            self,
            after,
            after.partition_count,
        )
        ||| {
            &&& after.op == self.op
            &&& !(self.op.kind is NetworkShuffle)
            &&& !(self.op.kind is NetworkBroadcast)
            &&& !(self.op.kind is NetworkCoalesce)
            &&& !(self.op.kind is LocalExchangeSplit)
            &&& self.op.fetch is None
            &&& after.children.len() == self.children.len()
            &&& forall|i: int|
                #![trigger self.children[i]]
                #![trigger after.children[i]]
                0 <= i < self.children.len() ==> self.children[i].differs_in_splits(
                    after.children[i],
                    config,
                    tasks,
                )
        }
    }
}

/// Whether the plan is a shuffle by hash of which no task reads too much.
pub open spec fn is_widenable_at_all(plan: Plan, config: DistributedConfig, tasks: usize) -> bool {
    &&& plan.op.kind is NetworkShuffle
    &&& tasks > 0
    &&& 0 < plan.partition_count <= config.local_exchange_split_max_owned_partitions * tasks
}

proof fn lemma_gained_splits(plan: Plan, after: Plan, config: DistributedConfig, tasks: usize)
    requires
        plan.gains_only_splits(config, tasks, after),
    ensures
        plan.differs_in_splits(after, config, tasks),
    decreases plan,
{
    if after == plan {
    } else if plan.is_shuffle_split_by(config, tasks, after) {
        law_tasks_share_partitions_evenly(plan.partition_count, tasks);
        let (owned, n, t, limit) = (
            crate::split_input::max_owned(plan.partition_count, tasks) as int,
            plan.partition_count as int,
            tasks as int,
            config.local_exchange_split_max_owned_partitions as int,
        );
        assert(n <= limit * t) by (nonlinear_arith)
            requires
                owned * t >= n,
                owned <= limit,
                t > 0,
        ;
        if n == 0 {
            crate::arithmetic::lemma_round_up(0, tasks as nat);
            assert(false) by (nonlinear_arith)
                requires
                    owned * t < 0 + t,
                    owned > 0,
                    t > 0,
            ;
        }
        if let KindView::LocalExchangeSplit { base, local } = after.op.kind {
            assert(local * n == n * local) by (nonlinear_arith);
        }
    } else {
        assert forall|i: int|
            #![trigger plan.children[i]]
            #![trigger after.children[i]]
            0 <= i < plan.children.len() implies plan.children[i].differs_in_splits(
            after.children[i],
            config,
            tasks,
        ) by {
            assert(plan.children[i].gains_only_splits(config, tasks, after.children[i]));
            lemma_gained_splits(plan.children[i], after.children[i], config, tasks);
        }
    }
}

/// The pass over a stage inserts local exchange splits above narrow shuffles and changes nothing
/// else.
pub proof fn law_stages_differ_in_splits_only(plan: Plan, config: DistributedConfig, tasks: usize)
    ensures
        plan.split_stage(config, tasks) matches Ok(rewrite) ==> plan.differs_in_splits(
            rewrite.plan,
            config,
            tasks,
        ) && (!rewrite.changed ==> rewrite.plan == plan),
{
    if let Ok(rewrite) = plan.split_stage(config, tasks) {
        crate::split_laws::law_only_splits_are_inserted(plan, config, tasks);
        lemma_gained_splits(plan, rewrite.plan, config, tasks);
        if !rewrite.changed && plan.with_splits(config, tasks, None) == Ok::<
            Rewrite,
            crate::error::PlanFailure,
        >(rewrite) {
            crate::split_laws::law_untransformed_plans_are_unchanged(plan, config, tasks, None);
        }
    }
}

impl Plan {
    /// Whether no operator of the stage is a final partitioned aggregate.
    pub open spec fn has_no_final_aggregate(self) -> bool
        decreases self,
    {
        self.reads_a_stage() || {
            &&& self.op.kind != KindView::Aggregate(AggregateMode::FinalPartitioned)
            &&& forall|i: int|
                #![trigger self.children[i]]
                0 <= i < self.children.len() ==> self.children[i].has_no_final_aggregate()
        }
    }

    /// Whether no operator of the stage is a partitioned hash join.
    pub open spec fn has_no_partitioned_join(self) -> bool
        decreases self,
    {
        self.reads_a_stage() || {
            &&& self.op.kind != KindView::HashJoin(PartitionMode::Partitioned)
            &&& forall|i: int|
                #![trigger self.children[i]]
                0 <= i < self.children.len() ==> self.children[i].has_no_partitioned_join()
        }
    }

    /// Whether no network shuffle feeds the stage.
    pub open spec fn has_no_shuffle(self) -> bool
        decreases self,
    {
        &&& !(self.op.kind is NetworkShuffle)
        &&& self.op.kind is NetworkBroadcast || self.op.kind is NetworkCoalesce || forall|i: int|
            #![trigger self.children[i]]
            0 <= i < self.children.len() ==> self.children[i].has_no_shuffle()
    }
}

proof fn lemma_no_consumer(plan: Plan, config: DistributedConfig)
    requires
        plan.has_no_final_aggregate(),
        plan.has_no_partitioned_join() || config.local_exchange_split_mode@ == "final_agg"@,
    ensures
        !plan.stage_has_consumer(config),
    decreases plan,
{
    lemma_modes_differ();
    if !plan.reads_a_stage() {
        assert forall|i: int| #![trigger plan.children[i]] 0 <= i < plan.children.len() implies
            !plan.children[i].stage_has_consumer(config) by {
            assert(plan.children[i].has_no_final_aggregate());
            lemma_no_consumer(plan.children[i], config);
        }
    }
}

proof fn lemma_no_shuffle(plan: Plan)
    requires
        plan.has_no_shuffle(),
    ensures
        !plan.stage_has_shuffle(),
    decreases plan,
{
    if !plan.reads_a_stage() {
        assert forall|i: int| #![trigger plan.children[i]] 0 <= i < plan.children.len() implies
            !plan.children[i].stage_has_shuffle() by {
            assert(plan.children[i].has_no_shuffle());
            lemma_no_shuffle(plan.children[i]);
        }
    }
}

/// Nothing is split where there is nobody to split for: in a stage without final partitioned
/// aggregates and without partitioned joins that the mode allows for, and in a stage that no shuffle
/// feeds.
pub proof fn law_other_stages_are_not_split(plan: Plan, config: DistributedConfig, tasks: usize)
    requires
        config.local_exchange_split_mode@ == "off"@ || config.local_exchange_split_mode@
            == "final_agg"@ || config.local_exchange_split_mode@ == "final_agg_and_join"@,
        plan.has_no_shuffle() || plan.has_no_final_aggregate() && (plan.has_no_partitioned_join()
            || config.local_exchange_split_mode@ == "final_agg"@),
    ensures
        plan.split_stage(config, tasks) == Ok::<Rewrite, crate::error::PlanFailure>(
            Rewrite { plan, changed: false },
        ),
{
    if plan.has_no_shuffle() {
        lemma_no_shuffle(plan);
    } else {
        lemma_no_consumer(plan, config);
    }
}

/// An aggregate that does not gain from hashed input, or does not demand it, leaves the shuffle
/// below it as it is.
pub proof fn law_aggregates_without_keys_are_not_split(
    plan: Plan,
    config: DistributedConfig,
    tasks: usize,
)
    requires
        plan.op.kind == KindView::Aggregate(AggregateMode::FinalPartitioned),
        plan.children.len() == 1,
        plan.children[0].op.kind is NetworkShuffle,
        !wants_any_keys(plan, 0),
    ensures
        plan.split_stage(config, tasks) matches Ok(rewrite) ==> rewrite.plan == plan
            && !rewrite.changed,
{
    if let Some(keys) = plan.hash_keys(0) {
        assert(wants_keys(plan, 0, keys));
    }
    let counts = crate::insert_local_exchange_split::ChildCounts::Propagate(None);
    reveal_with_fuel(Plan::split_children, 2);
    assert(counts.demand(plan, 0) is None);
    assert(plan.children[0].with_splits(config, tasks, None) == Ok::<
        Rewrite,
        crate::error::PlanFailure,
    >(plan.children[0].unchanged()));
    assert(plan.split_children(config, tasks, counts, 0) == Ok::<
        (Seq<Plan>, bool),
        crate::error::PlanFailure,
    >((Seq::empty(), false)));
}

proof fn lemma_rewritten_child(
    plan: Plan,
    config: DistributedConfig,
    tasks: usize,
    counts: crate::insert_local_exchange_split::ChildCounts,
    n: nat,
    i: int,
    input: Result<Rewrite, crate::error::PlanFailure>,
)
    requires
        0 <= i < n <= plan.children.len(),
        plan.split_children(config, tasks, counts, n) is Ok,
        input == plan.children[i].with_splits(config, tasks, counts.demand(plan, i)),
    ensures
        ({
            let (children, changed) = plan.split_children(config, tasks, counts, n)->Ok_0;
            &&& children.len() == n
            &&& input is Ok
            &&& children[i] == counts.kept(plan, i, input->Ok_0).plan
            &&& counts.kept(plan, i, input->Ok_0).changed ==> changed
        }),
    decreases n,
{
    if i < n - 1 {
        lemma_rewritten_child(plan, config, tasks, counts, (n - 1) as nat, i, input);
    } else if n > 1 {
        let first = plan.children[0].with_splits(config, tasks, counts.demand(plan, 0));
        lemma_rewritten_child(plan, config, tasks, counts, (n - 1) as nat, 0, first);
    } else {
        assert(plan.split_children(config, tasks, counts, 0) == Ok::<
            (Seq<Plan>, bool),
            crate::error::PlanFailure,
        >((Seq::empty(), false)));
    }
}

proof fn lemma_rewritten_input(
    plan: Plan,
    config: DistributedConfig,
    tasks: usize,
    counts: crate::insert_local_exchange_split::ChildCounts,
    i: int,
    input: Result<Rewrite, crate::error::PlanFailure>,
)
    requires
        0 <= i < plan.children.len(),
        plan.with_split_children(config, tasks, counts) is Ok,
        input == plan.children[i].with_splits(config, tasks, counts.demand(plan, i)),
    ensures
        ({
            let after = plan.with_split_children(config, tasks, counts)->Ok_0;
            let kept = counts.kept(plan, i, input->Ok_0);
            &&& input is Ok
            &&& after.changed ==> after.plan.children.len() == plan.children.len()
                && after.plan.children[i] == kept.plan
            &&& kept.changed ==> after.changed
            &&& !after.changed ==> after.plan == plan
        }),
{
    lemma_rewritten_child(plan, config, tasks, counts, plan.children.len(), i, input);
}

/// The pass goes on below every operator that it does not split for itself: each input is rewritten
/// by itself, and the operator counts as changed if one of them is.
pub proof fn law_inputs_are_rewritten_one_by_one(
    plan: Plan,
    config: DistributedConfig,
    tasks: usize,
    i: int,
)
    requires
        0 <= i < plan.children.len(),
        plan.op.kind is Other || plan.op.kind is Union || plan.op.kind is CoalescePartitions
            || plan.op.kind is SortPreservingMerge || plan.op.kind is Repartition
            || plan.op.kind is ChildrenIsolatorUnion || plan.op.kind is Broadcast
            || plan.op.kind is Aggregate && plan.op.kind != KindView::Aggregate(
            AggregateMode::FinalPartitioned,
        ) || plan.op.kind is HashJoin && plan.op.kind != KindView::HashJoin(
            PartitionMode::Partitioned,
        ) || plan.op.kind == KindView::Aggregate(AggregateMode::FinalPartitioned)
            && plan.children.len() == 1 && !wants_any_keys(plan, 0),
        plan.op.fetch is None,
        plan.with_splits(config, tasks, None) is Ok,
    ensures
        ({
            let after = plan.with_splits(config, tasks, None)->Ok_0;
            &&& plan.children[i].with_splits(config, tasks, None) matches Ok(input) && {
                &&& after.changed ==> after.plan.children.len() == plan.children.len()
                    && after.plan.children[i] == input.plan
                &&& input.changed ==> after.changed
            }
            &&& !after.changed ==> after.plan == plan
        }),
{
    let counts = crate::insert_local_exchange_split::ChildCounts::Propagate(None);
    if let Some(keys) = plan.hash_keys(0) {
        assert(wants_keys(plan, 0, keys));
    }
    let below = plan.with_split_children(config, tasks, counts);
    assert(below is Ok);
    assert(below->Ok_0.widened(config, tasks, None) == below->Ok_0);
    assert(plan.with_splits(config, tasks, None) == below);
    assert(counts.demand(plan, i) is None);
    let input = plan.children[i].with_splits(config, tasks, None);
    lemma_rewritten_input(plan, config, tasks, counts, i, input);
}

/// Where joins are not split, because of the mode or because they do not ask for keys, the pass goes
/// on below their inputs: each is rewritten under the demand to keep its partitions, and stays as it
/// was where it could not keep them.
pub proof fn law_inputs_of_joins_keep_their_partitions(
    plan: Plan,
    config: DistributedConfig,
    tasks: usize,
    i: int,
)
    requires
        0 <= i < plan.children.len(),
        plan.op.kind == KindView::HashJoin(PartitionMode::Partitioned),
        plan.op.fetch is None,
        config.local_exchange_split_mode@ == "final_agg"@ || plan.children.len() == 2
            && !wants_any_keys(plan, 0),
        plan.with_splits(config, tasks, None) is Ok,
    ensures
        ({
            let after = plan.with_splits(config, tasks, None)->Ok_0;
            let count = plan.children[i].partition_count;
            &&& plan.children[i].with_splits(config, tasks, Some(count)) matches Ok(input) && {
                &&& input.changed && input.plan.partition_count == count ==> after.changed
                &&& after.changed ==> after.plan.children.len() == plan.children.len()
                    && after.plan.children[i] == if input.plan.partition_count == count {
                    input.plan
                } else {
                    plan.children[i]
                }
            }
            &&& !after.changed ==> after.plan == plan
        }),
{
    lemma_modes_differ();
    if let Some(keys) = plan.hash_keys(0) {
        assert(wants_keys(plan, 0, keys));
    }
    let counts = crate::insert_local_exchange_split::ChildCounts::Preserve;
    assert(plan.with_splits(config, tasks, None) == plan.with_split_children(config, tasks, counts));
    let input = plan.children[i].with_splits(
        config,
        tasks,
        Some(plan.children[i].partition_count),
    );
    lemma_rewritten_input(plan, config, tasks, counts, i, input);
}

proof fn lemma_some_shuffle(plan: Plan)
    requires
        !plan.stage_has_shuffle(),
    ensures
        plan.has_no_shuffle(),
    decreases plan,
{
    if !plan.reads_a_stage() {
        assert forall|i: int| #![trigger plan.children[i]] 0 <= i < plan.children.len() implies
            plan.children[i].has_no_shuffle() by {
            assert(!plan.children[i].stage_has_shuffle());
            lemma_some_shuffle(plan.children[i]);
        }
    }
}

proof fn lemma_some_consumer(plan: Plan, config: DistributedConfig)
    requires
        config.local_exchange_split_mode@ == "final_agg"@ || config.local_exchange_split_mode@
            == "final_agg_and_join"@,
        !plan.stage_has_consumer(config),
    ensures
        plan.has_no_final_aggregate(),
        config.local_exchange_split_mode@ == "final_agg_and_join"@
            ==> plan.has_no_partitioned_join(),
    decreases plan,
{
    if !plan.reads_a_stage() {
        assert forall|i: int| #![trigger plan.children[i]] 0 <= i < plan.children.len() implies {
            &&& plan.children[i].has_no_final_aggregate()
            &&& config.local_exchange_split_mode@ == "final_agg_and_join"@
                ==> plan.children[i].has_no_partitioned_join()
        } by {
            assert(!plan.children[i].stage_has_consumer(config));
            lemma_some_consumer(plan.children[i], config);
        }
    }
}

/// A stage that a shuffle feeds, from wherever in it, and that has an aggregate or a join to split
/// for is rewritten from its root, with nothing demanded of it.
pub proof fn law_stages_are_rewritten_from_their_root(
    plan: Plan,
    config: DistributedConfig,
    tasks: usize,
)
    requires
        config.local_exchange_split_mode@ == "final_agg"@ || config.local_exchange_split_mode@
            == "final_agg_and_join"@,
        !plan.has_no_shuffle(),
        !plan.has_no_final_aggregate() || config.local_exchange_split_mode@
            == "final_agg_and_join"@ && !plan.has_no_partitioned_join(),
    ensures
        plan.split_stage(config, tasks) == plan.with_splits(config, tasks, None),
{
    lemma_modes_differ();
    if !plan.stage_has_shuffle() {
        lemma_some_shuffle(plan);
    }
    if !plan.stage_has_consumer(config) {
        lemma_some_consumer(plan, config);
    }
}

/// What becomes of a path to a split that has the requested count already.
proof fn lemma_paths_to_splits_stay(
    plan: Plan,
    end: Plan,
    config: DistributedConfig,
    tasks: usize,
    target: usize,
)
    requires
        plan.leads_to(end),
        end.op.kind is LocalExchangeSplit,
        end.partition_count == target,
    ensures
        plan.split_on_path(config, tasks, Some(target)) == Some(
            Rewrite { plan, changed: false },
        ),
        plan.unary_split_source(config, tasks) == end.split_source(config, tasks),
    decreases plan,
{
    if plan != end {
        lemma_paths_to_splits_stay(plan.children[0], end, config, tasks, target);
    }
}

/// A partitioned join one of whose inputs is split already, on either side, has the other one split
/// to as many partitions, where that comes from a narrow shuffle into the partitions that the split
/// was made of, and the split reaches the target: the side that is split stays as it is.
pub proof fn law_joins_follow_the_side_that_is_split(
    plan: Plan,
    ends: (Plan, Plan),
    keys: Seq<Seq<usize>>,
    config: DistributedConfig,
    tasks: usize,
    side: int,
)
    requires
        side == 0 || side == 1,
        config.local_exchange_split_mode@ == "final_agg_and_join"@,
        plan.op.kind == KindView::HashJoin(PartitionMode::Partitioned),
        plan.op.fetch is None,
        plan.op.rebuildable,
        plan.op.partition_rule == PartitionRule::Inherit(0) || plan.op.partition_rule
            == PartitionRule::Inherit(1),
        plan.children.len() == 2,
        keys.len() == 2,
        wants_keys(plan, 0, keys[0]),
        wants_keys(plan, 1, keys[1]),
        is_hashed_by(plan.children[0], keys[0]),
        is_hashed_by(plan.children[1], keys[1]),
        plan.children[side].leads_to(ends.0),
        plan.children[1 - side].leads_to(ends.1),
        plan.children[side].partition_count == ends.0.partition_count,
        ends.0.op.kind matches KindView::LocalExchangeSplit { base, .. } && base
            == ends.1.partition_count,
        is_widenable(ends.1, config, tasks),
        ends.0.partition_count > ends.1.partition_count,
        ends.0.partition_count % ends.1.partition_count == 0,
        ends.0.partition_count >= config.local_exchange_split_target_partitions_per_task,
        config.local_exchange_split_target_partitions_per_task > 0,
    ensures
        plan.split_stage(config, tasks) matches Ok(rewrite) && {
            &&& rewrite.changed
            &&& rewrite.plan.op == plan.op
            &&& rewrite.plan.partition_count == ends.0.partition_count
            &&& rewrite.plan.children.len() == 2
            &&& rewrite.plan.children[side] == plan.children[side]
            &&& plan.children[1 - side].is_widened_to(
                rewrite.plan.children[1 - side],
                ends.1,
                ends.0.partition_count,
            )
        },
{
    let target_per_task = config.local_exchange_split_target_partitions_per_task;
    let target = ends.0.partition_count;
    let (x, y) = (plan.children[side], plan.children[1 - side]);
    law_sources_are_narrow_shuffles_and_splits(ends.0, config, tasks);
    law_sources_are_narrow_shuffles_and_splits(ends.1, config, tasks);
    let (done, open) = (
        ends.0.split_source(config, tasks)->0,
        ends.1.split_source(config, tasks)->0,
    );
    lemma_aligned_with_split(done, open, target_per_task);
    lemma_paths_to_splits_stay(x, ends.0, config, tasks, target);
    lemma_paths_are_widened(y, ends.1, config, tasks, Some(target), target);
    let widened = y.split_on_path(config, tasks, Some(target))->0;
    let (p, q) = if side == 0 {
        (x, widened.plan)
    } else {
        (widened.plan, x)
    };
    assert(crate::distribution::hash_satisfied(
        plan.children[0].op.scheme,
        target,
        plan.children[0].op.equal_exprs,
        keys[0],
    ));
    assert(crate::distribution::hash_satisfied(
        plan.children[1].op.scheme,
        target,
        plan.children[1].op.equal_exprs,
        keys[1],
    ));
    assert(plan.hash_keys(0) == Some(keys[0]) && plan.hash_keys(1) == Some(keys[1]));
    assert(y.stage_has_shuffle());
    assert(plan.stage_has_shuffle());
    let children = seq![p, q];
    assert(children[0] == p && children[1] == q);
    lemma_modes_differ();
}

proof fn lemma_aligned_with_split(done: SplitSource, open: SplitSource, target_per_task: usize)
    requires
        done.already_split,
        !open.already_split,
        done.base == open.base,
        open.output > 0,
        done.output > open.output,
        done.output % open.output == 0,
        done.output >= target_per_task > 0,
    ensures
        done.aligned_target(open, target_per_task) == Some(done.output),
        open.aligned_target(done, target_per_task) == Some(done.output),
{
    let (a, b) = (done.output as nat, open.output as nat);
    let least = done.least_shared(open, target_per_task) as nat;
    assert(least == a);
    crate::arithmetic::lemma_lcm_is_least(a, b);
    vstd::arithmetic::div_mod::lemma_mod_self_0(a as int);
    assert(crate::arithmetic::is_common_multiple(a, b, a));
    let multiple = crate::arithmetic::least_common_multiple(a, b);
    vstd::arithmetic::div_mod::lemma_fundamental_div_mod(multiple as int, a as int);
    let q = multiple as int / a as int;
    assert(multiple == a) by (nonlinear_arith)
        requires
            multiple == a * q,
            0 < multiple <= a,
            a > 0,
    ;
    crate::arithmetic::lemma_round_up(a, a);
    assert(a % a == 0);
    lemma_common_multiples_commute(a, b);
}

/// Sources are not widened together without a target, without partitions, or where they hash into
/// different numbers of partitions.
pub proof fn law_sources_without_a_common_base_are_not_aligned(
    left: SplitSource,
    right: SplitSource,
    target_per_task: usize,
)
    requires
        target_per_task == 0 || left.output == 0 || right.output == 0 || left.base != right.base,
    ensures
        left.aligned_target(right, target_per_task) is None,
        right.aligned_target(left, target_per_task) is None,
{
}

/// The source of an input is sought down its path of only children, and not behind a network
/// boundary: what stands at the top counts if it is a source, a boundary that is none has none
/// behind it, and neither has an operator with several inputs.
pub proof fn law_sources_are_sought_within_the_stage(
    plan: Plan,
    config: DistributedConfig,
    tasks: usize,
)
    ensures
        plan.split_source(config, tasks) is Some ==> plan.unary_split_source(config, tasks)
            == plan.split_source(config, tasks),
        plan.reads_a_stage() ==> plan.unary_split_source(config, tasks) == plan.split_source(
            config,
            tasks,
        ),
        plan.op.kind is NetworkBroadcast || plan.op.kind is NetworkCoalesce
            ==> plan.unary_split_source(config, tasks) is None,
        plan.children.len() != 1 ==> plan.unary_split_source(config, tasks) == plan.split_source(
            config,
            tasks,
        ),
        plan.children.len() == 1 && !plan.reads_a_stage() && !(plan.op.kind is LocalExchangeSplit)
            ==> plan.unary_split_source(config, tasks) == plan.children[0].unary_split_source(
            config,
            tasks,
        ),
{
}

impl Plan {
    /// Whether nothing but operators that pass on their inputs stands between the plan and `end`,
    /// and all of them have as many partitions.
    pub open spec fn leads_evenly_to(self, end: Plan) -> bool
        decreases self,
    {
        self == end || {
            &&& self.passes_its_input_on()
            &&& self.partition_count == self.children[0].partition_count
            &&& self.children[0].leads_evenly_to(end)
        }
    }
}

proof fn lemma_even_paths_are_paths(plan: Plan, end: Plan)
    requires
        plan.leads_evenly_to(end),
    ensures
        plan.leads_to(end),
        plan.partition_count == end.partition_count,
    decreases plan,
{
    if plan != end {
        lemma_even_paths_are_paths(plan.children[0], end);
    }
}

/// A widened path leads to its split.
proof fn lemma_widened_paths_lead_to_splits(
    plan: Plan,
    after: Plan,
    end: Plan,
    target: usize,
) -> (split: Plan)
    requires
        plan.leads_to(end),
        plan.is_widened_to(after, end, target),
    ensures
        after.leads_to(split),
        split.op.kind is LocalExchangeSplit,
        split.partition_count == target,
    decreases plan,
{
    if plan == end {
        after
    } else {
        lemma_widened_paths_lead_to_splits(plan.children[0], after.children[0], end, target)
    }
}

/// A count that is demanded of an input reaches the shuffle that it comes from: where that can be
/// widened to the count, and the operators between have as many partitions as the shuffle, the input
/// gets a split and exactly that many partitions.
pub proof fn law_demands_reach_the_shuffle(
    plan: Plan,
    shuffle: Plan,
    config: DistributedConfig,
    tasks: usize,
    target: usize,
)
    requires
        plan.leads_evenly_to(shuffle),
        is_widenable(shuffle, config, tasks),
        shuffle.op.fetch is None,
        target > shuffle.partition_count,
        target % shuffle.partition_count == 0,
    ensures
        plan.with_splits(config, tasks, Some(target)) matches Ok(rewrite) && rewrite.changed
            && plan.is_widened_to(rewrite.plan, shuffle, target),
    decreases plan,
{
    lemma_even_paths_are_paths(plan, shuffle);
    if plan == shuffle {
        lemma_paths_are_widened(plan, shuffle, config, tasks, Some(target), target);
    } else {
        let child = plan.children[0];
        law_demands_reach_the_shuffle(child, shuffle, config, tasks, target);
        let input = child.with_splits(config, tasks, Some(target));
        let counts = crate::insert_local_exchange_split::ChildCounts::Propagate(Some(target));
        assert(counts.demand(plan, 0) == Some(target));
        let children = Seq::<Plan>::empty().push(input->Ok_0.plan);
        assert(children.len() == 1 && children[0] == input->Ok_0.plan);
        lemma_only_child(plan, config, tasks, counts, input);
        let rebuilt = plan.rebuilt(children)->Ok_0;
        assert(plan.with_split_children(config, tasks, counts) == Ok::<
            Rewrite,
            crate::error::PlanFailure,
        >(Rewrite { plan: rebuilt, changed: true }));
        assert(plan.is_widened_to(rebuilt, shuffle, target));
        let split = lemma_widened_paths_lead_to_splits(plan, rebuilt, shuffle, target);
        lemma_paths_to_splits_stay(rebuilt, split, config, tasks, target);
    }
}

proof fn lemma_only_child(
    plan: Plan,
    config: DistributedConfig,
    tasks: usize,
    counts: crate::insert_local_exchange_split::ChildCounts,
    input: Result<Rewrite, crate::error::PlanFailure>,
)
    requires
        plan.children.len() == 1,
        counts is Propagate,
        input == plan.children[0].with_splits(config, tasks, counts.demand(plan, 0)),
        input is Ok,
    ensures
        plan.split_children(config, tasks, counts, 1) == Ok::<
            (Seq<Plan>, bool),
            crate::error::PlanFailure,
        >((Seq::<Plan>::empty().push(input->Ok_0.plan), input->Ok_0.changed)),
{
    reveal_with_fuel(Plan::split_children, 2);
    assert(plan.split_children(config, tasks, counts, 0) == Ok::<
        (Seq<Plan>, bool),
        crate::error::PlanFailure,
    >((Seq::empty(), false)));
}

/// A final partitioned aggregate of which a count is demanded has its input split to exactly that
/// count, where it asks for the keys of the shuffle and that can be widened to the count.
pub proof fn law_demands_on_aggregates_reach_the_shuffle(
    plan: Plan,
    shuffle: Plan,
    keys: Seq<usize>,
    config: DistributedConfig,
    tasks: usize,
    target: usize,
)
    requires
        config.local_exchange_split_mode@ == "final_agg"@ || config.local_exchange_split_mode@
            == "final_agg_and_join"@,
        plan.op.kind == KindView::Aggregate(AggregateMode::FinalPartitioned),
        plan.op.fetch is None,
        plan.op.rebuildable,
        plan.op.partition_rule == PartitionRule::Inherit(0),
        plan.children.len() == 1,
        wants_keys(plan, 0, keys),
        is_hashed_by(plan.children[0], keys),
        plan.children[0].leads_to(shuffle),
        is_widenable(shuffle, config, tasks),
        target > shuffle.partition_count,
        target % shuffle.partition_count == 0,
    ensures
        plan.with_splits(config, tasks, Some(target)) matches Ok(rewrite) && {
            &&& rewrite.changed
            &&& rewrite.plan.op == plan.op
            &&& rewrite.plan.partition_count == target
            &&& rewrite.plan.children.len() == 1
            &&& plan.children[0].is_widened_to(rewrite.plan.children[0], shuffle, target)
        },
{
    let input = plan.children[0];
    lemma_paths_are_widened(input, shuffle, config, tasks, Some(target), target);
    let rewrite = input.split_on_path(config, tasks, Some(target))->0;
    assert(crate::distribution::hash_satisfied(
        input.op.scheme,
        rewrite.plan.partition_count,
        input.op.equal_exprs,
        keys,
    ));
    assert(plan.hash_keys(0) == Some(keys));
    assert(seq![rewrite.plan][0] == rewrite.plan);
    lemma_modes_differ();
}

/// A demand on an operator with several inputs is passed on to those that are as wide as the
/// operator; the others are rewritten with nothing demanded of them.
pub proof fn law_demands_are_passed_on_to_inputs_of_the_same_width(
    plan: Plan,
    config: DistributedConfig,
    tasks: usize,
    required: usize,
    i: int,
)
    requires
        plan.op.kind is Other || plan.op.kind is Union,
        plan.op.fetch is None,
        plan.children.len() >= 2,
        0 <= i < plan.children.len(),
        plan.with_splits(config, tasks, Some(required)) is Ok,
    ensures
        ({
            let after = plan.with_splits(config, tasks, Some(required))->Ok_0;
            let demand = if plan.children[i].partition_count == plan.partition_count {
                Some(required)
            } else {
                None
            };
            &&& plan.children[i].with_splits(config, tasks, demand) matches Ok(input) && {
                &&& after.changed ==> after.plan.children.len() == plan.children.len()
                    && after.plan.children[i] == input.plan
                &&& input.changed ==> after.changed
            }
            &&& !after.changed ==> after.plan == plan
        }),
{
    let counts = crate::insert_local_exchange_split::ChildCounts::Propagate(Some(required));
    let below = plan.with_split_children(config, tasks, counts);
    assert(below is Ok);
    let demand = counts.demand(plan, i);
    let input = plan.children[i].with_splits(config, tasks, demand);
    lemma_rewritten_input(plan, config, tasks, counts, i, input);
    let after = below->Ok_0;
    assert(after.plan.children.len() == plan.children.len());
    assert(after.plan.op == plan.op);
    assert(after.plan.split_on_path(config, tasks, Some(required)) is None);
    assert(after.widened(config, tasks, Some(required)) == after);
}

/// An aggregate or a join of which a count is demanded either gets that count, or its inputs keep
/// theirs.
pub proof fn law_unmet_demands_keep_the_inputs(
    plan: Plan,
    config: DistributedConfig,
    tasks: usize,
    required: usize,
    i: int,
)
    requires
        config.local_exchange_split_mode@ == "final_agg"@ || config.local_exchange_split_mode@
            == "final_agg_and_join"@,
        plan.op.kind == KindView::Aggregate(AggregateMode::FinalPartitioned) || plan.op.kind
            == KindView::HashJoin(PartitionMode::Partitioned),
        0 <= i < plan.children.len(),
        plan.with_splits(config, tasks, Some(required)) is Ok,
    ensures
        ({
            let after = plan.with_splits(config, tasks, Some(required))->Ok_0.plan;
            after.partition_count == required || after.children.len() == plan.children.len()
                && after.children[i].partition_count == plan.children[i].partition_count
        }),
{
    lemma_modes_differ();
    let preserved = plan.with_split_children(
        config,
        tasks,
        crate::insert_local_exchange_split::ChildCounts::Preserve,
    );
    if preserved is Ok {
        crate::insert_local_exchange_split::law_preserved_children_keep_their_counts(
            plan,
            config,
            tasks,
        );
        assert(plan.children[i] == plan.children[i]);
    }
}

}
