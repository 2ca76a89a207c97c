//! The shuffle-side sources that a local exchange split can widen.
use std::sync::Arc;
use vstd::prelude::*;

use crate::arithmetic::{div_ceil, lcm};
use crate::config::DistributedConfig;
use crate::plan::{
    share, CardinalityEffect, Distribution, DistributionView, KindView, LocalPartitionCount,
    Operator, OperatorKind, OperatorView, PartitionRule, PartitionScheme, Plan, PlanNode,
    SchemeView,
};

verus! {

/// A plan after a rewrite, and whether the rewrite changed it.
#[derive(Debug)]
pub struct Transformed {
    pub data: Arc<PlanNode>,
    pub transformed: bool,
}

/// What a [`Transformed`] plan amounts to.
pub struct Rewrite {
    pub plan: Plan,
    pub changed: bool,
}

impl View for Transformed {
    type V = Rewrite;

    open spec fn view(&self) -> Rewrite {
        Rewrite { plan: self.data.plan(), changed: self.transformed }
    }
}

impl Transformed {
    pub fn yes(data: Arc<PlanNode>) -> (rewritten: Self)
        ensures
            rewritten@ == (Rewrite { plan: data.plan(), changed: true }),
    {
        Transformed { data, transformed: true }
    }

    pub fn no(data: Arc<PlanNode>) -> (rewritten: Self)
        ensures
            rewritten@ == (Rewrite { plan: data.plan(), changed: false }),
    {
        Transformed { data, transformed: false }
    }
}

/// The first shuffle-side source on a consumer input path.
///
/// A network shuffle can be widened by inserting a local exchange split above it. An existing
/// split cannot be widened again, but it can satisfy a parent join that already requires the same
/// output partition count.
#[derive(Debug)]
pub struct SplitInput {
    pub plan: Arc<PlanNode>,
    pub hash_exprs: Vec<usize>,
    /// Total logical hash partition count of the producer.
    pub base_partition_count: usize,
    /// The most logical partitions that any consumer task reads from the shuffle.
    pub owned_partition_count: usize,
    /// Partition count currently advertised by this boundary.
    pub output_partition_count: usize,
    pub already_split: bool,
}

/// What a [`SplitInput`] amounts to.
pub struct SplitSource {
    pub plan: Plan,
    pub hash_exprs: Seq<usize>,
    pub base: usize,
    pub owned: usize,
    pub output: usize,
    pub already_split: bool,
}

impl View for SplitInput {
    type V = SplitSource;

    open spec fn view(&self) -> SplitSource {
        SplitSource {
            plan: self.plan.plan(),
            hash_exprs: self.hash_exprs@,
            base: self.base_partition_count,
            owned: self.owned_partition_count,
            output: self.output_partition_count,
            already_split: self.already_split,
        }
    }
}

/// The largest share of `base` partitions that one of `tasks` consumer tasks is assigned.
pub open spec fn max_owned(base: usize, tasks: usize) -> usize {
    if tasks == 0 {
        0
    } else {
        crate::arithmetic::ceil_div(base as nat, tasks as nat) as usize
    }
}

impl SplitSource {
    /// Whether the source can expose exactly `target` partitions: as it is, or, where it has not
    /// been split, as a larger multiple of what it exposes now.
    pub open spec fn can_produce(self, target: usize) -> bool {
        ||| self.output == target
        ||| !self.already_split && self.output > 0 && target % self.output == 0 && target
            > self.output
    }

    /// The count that a source is widened to on its own account: the next multiple of what it
    /// exposes that reaches the target, unless a task reads that much already or the multiple
    /// cannot be counted.
    pub open spec fn inferred_target(self, target_per_task: usize) -> Option<usize> {
        let target = crate::arithmetic::round_up(target_per_task as nat, self.output as nat);
        if self.owned == 0 || self.owned >= target_per_task || target > usize::MAX {
            None
        } else {
            Some(target as usize)
        }
    }

    /// The count that two sources of one join are widened to together.
    pub open spec fn aligned_target(self, other: Self, target_per_task: usize) -> Option<usize> {
        if self.base != other.base || self.output == 0 || other.output == 0 || target_per_task
            == 0 {
            None
        } else {
            let multiple = crate::arithmetic::least_common_multiple(
                self.output as nat,
                other.output as nat,
            );
            let target = crate::arithmetic::round_up(
                self.least_shared(other, target_per_task) as nat,
                multiple,
            );
            if target <= usize::MAX && self.can_produce(target as usize) && other.can_produce(
                target as usize,
            ) {
                Some(target as usize)
            } else {
                None
            }
        }
    }

    /// The count below which no widening of both sources makes sense.
    pub open spec fn least_shared(self, other: Self, target_per_task: usize) -> usize {
        let wider = if self.output >= other.output {
            self.output
        } else {
            other.output
        };
        if target_per_task >= wider {
            target_per_task
        } else {
            wider
        }
    }

    /// The source exposing `target` partitions, with a split on top if that takes one.
    pub open spec fn produced(self, target: usize) -> Rewrite {
        if self.output == target {
            Rewrite { plan: self.plan, changed: false }
        } else {
            Rewrite {
                plan: self.plan.split(
                    self.hash_exprs,
                    self.base,
                    target / self.output,
                    target,
                ),
                changed: true,
            }
        }
    }
}

impl Plan {
    /// The plan below a new local exchange split, which hashes each partition again by `exprs`
    /// and exposes `count` partitions in all.
    pub open spec fn split(
        self,
        exprs: Seq<usize>,
        base: usize,
        local: usize,
        count: usize,
    ) -> Plan {
        Plan {
            op: OperatorView {
                name: "LocalExchangeSplitExec"@,
                handle: None,
                kind: KindView::LocalExchangeSplit { base, local },
                fetch: None,
                cardinality_effect: CardinalityEffect::Unknown,
                scheme: SchemeView::Hash(exprs),
                equal_exprs: self.op.equal_exprs,
                benefits: seq![false],
                required: seq![DistributionView::Unspecified],
                partition_rule: PartitionRule::Scaled(local),
                rebuildable: true,
                input_stage: None,
            },
            partition_count: count,
            task_count: None,
            children: seq![self],
        }
    }

    pub open spec fn is_split(self) -> bool {
        self.op.kind is LocalExchangeSplit
    }

    pub open spec fn is_shuffle(self) -> bool {
        self.op.kind is NetworkShuffle
    }

    /// The plan as a shuffle-side source for `tasks` consumer tasks, if it is one.
    pub open spec fn split_source(self, config: DistributedConfig, tasks: usize) -> Option<
        SplitSource,
    > {
        match (self.op.kind, self.op.scheme) {
            (KindView::LocalExchangeSplit { base, local }, _) => Some(
                SplitSource {
                    plan: self,
                    hash_exprs: Seq::empty(),
                    base,
                    owned: self.partition_count / local,
                    output: self.partition_count,
                    already_split: true,
                },
            ),
            (KindView::NetworkShuffle, SchemeView::Hash(exprs)) => {
                let owned = max_owned(self.partition_count, tasks);
                if owned == 0 || owned > config.local_exchange_split_max_owned_partitions || (tasks
                    <= 1 && self.partition_count <= 1) {
                    None
                } else {
                    Some(
                        SplitSource {
                            plan: self,
                            hash_exprs: exprs,
                            base: self.partition_count,
                            owned,
                            output: self.partition_count,
                            already_split: false,
                        },
                    )
                }
            },
            _ => None,
        }
    }

    /// The first shuffle-side source on the path of only children below this plan.
    pub open spec fn unary_split_source(self, config: DistributedConfig, tasks: usize) -> Option<
        SplitSource,
    >
        decreases self,
    {
        match self.split_source(config, tasks) {
            Some(source) => Some(source),
            None => if self.is_network_boundary() || self.children.len() != 1 {
                None
            } else {
                self.children[0].unary_split_source(config, tasks)
            },
        }
    }
}

/// Computes the largest logical shuffle-partition share assigned to one consumer task.
pub fn max_owned_partition_count(base_partition_count: usize, consumer_task_count: usize) -> (owned:
    usize)
    ensures
        owned == max_owned(base_partition_count, consumer_task_count),
        consumer_task_count > 0 ==> owned == crate::arithmetic::ceil_div(
            base_partition_count as nat,
            consumer_task_count as nat,
        ),
{
    if consumer_task_count == 0 {
        return 0;
    }
    div_ceil(base_partition_count, consumer_task_count)
}

/// A copy of a list of numbers.
pub(crate) fn copy_numbers(numbers: &Vec<usize>) -> (copy: Vec<usize>)
    ensures
        copy@ == numbers@,
{
    let mut copy: Vec<usize> = Vec::new();
    let mut i: usize = 0;
    while i < numbers.len()
        invariant
            i <= numbers@.len(),
            copy@ == numbers@.take(i as int),
        decreases numbers@.len() - i,
    {
        copy.push(numbers[i]);
        assert(copy@ =~= numbers@.take(i + 1));
        i = i + 1;
    }
    assert(copy@ =~= numbers@);
    copy
}

/// A copy of a list of pairs.
pub(crate) fn copy_pairs(pairs: &Vec<(usize, usize)>) -> (copy: Vec<(usize, usize)>)
    ensures
        copy@ == pairs@,
{
    let mut copy: Vec<(usize, usize)> = Vec::new();
    let mut i: usize = 0;
    while i < pairs.len()
        invariant
            i <= pairs@.len(),
            copy@ == pairs@.take(i as int),
        decreases pairs@.len() - i,
    {
        copy.push(pairs[i]);
        assert(copy@ =~= pairs@.take(i + 1));
        i = i + 1;
    }
    assert(copy@ =~= pairs@);
    copy
}

impl SplitInput {
    /// Returns a shuffle/split boundary without recursively rewriting it.
    pub fn try_from_source(
        plan: Arc<PlanNode>,
        d_cfg: &DistributedConfig,
        stage_task_count: usize,
    ) -> (input: Option<Self>)
        ensures
            match plan.plan().split_source(*d_cfg, stage_task_count) {
                Some(source) => input matches Some(input) && input@ == source,
                None => input is None,
            },
            input matches Some(input) ==> (input.owned_partition_count > 0
                ==> input.output_partition_count > 0),
    {
        match &plan.op.kind {
            OperatorKind::LocalExchangeSplit { base_partition_count, local_partition_count } => {
                let output_partition_count: usize = plan.partition_count;
                let local: usize = local_partition_count.get();
                let base_partition_count: usize = *base_partition_count;
                proof {
                    vstd::arithmetic::div_mod::lemma_div_basics(local as int);
                }
                return Some(
                    SplitInput {
                        plan,
                        hash_exprs: Vec::new(),
                        base_partition_count,
                        owned_partition_count: output_partition_count / local,
                        output_partition_count,
                        already_split: true,
                    },
                );
            },
            OperatorKind::NetworkShuffle => {},
            _ => {
                return None;
            },
        }
        let hash_exprs = match &plan.op.scheme {
            PartitionScheme::Hash(exprs) => copy_numbers(exprs),
            _ => {
                return None;
            },
        };
        let base_partition_count: usize = plan.partition_count;
        let owned_partition_count: usize = max_owned_partition_count(
            base_partition_count,
            stage_task_count,
        );
        if owned_partition_count == 0 || owned_partition_count
            > d_cfg.local_exchange_split_max_owned_partitions || (stage_task_count <= 1
            && base_partition_count <= 1) {
            return None;
        }
        proof {
            if base_partition_count == 0 {
                vstd::arithmetic::div_mod::lemma_small_mod(0, stage_task_count as nat);
                vstd::arithmetic::div_mod::lemma_div_basics(stage_task_count as int);
            }
        }
        Some(
            SplitInput {
                plan,
                hash_exprs,
                base_partition_count,
                owned_partition_count,
                output_partition_count: base_partition_count,
                already_split: false,
            },
        )
    }

    /// Finds the first shuffle/split source on a unary path.
    pub fn find_on_unary_path(
        plan: Arc<PlanNode>,
        d_cfg: &DistributedConfig,
        stage_task_count: usize,
    ) -> (input: Option<Self>)
        ensures
            match plan.plan().unary_split_source(*d_cfg, stage_task_count) {
                Some(source) => input matches Some(input) && input@ == source,
                None => input is None,
            },
        decreases plan.plan(),
    {
        proof {
            crate::plan::lemma_plan_children(&*plan);
        }
        if let Some(input) = Self::try_from_source(share(&plan), d_cfg, stage_task_count) {
            return Some(input);
        }
        if plan.is_network_boundary() || plan.children.len() != 1 {
            return None;
        }
        Self::find_on_unary_path(share(&plan.children[0]), d_cfg, stage_task_count)
    }

    /// Returns whether this boundary can expose exactly `target_partition_count` outputs.
    pub fn can_produce(&self, target_partition_count: usize) -> (yes: bool)
        ensures
            yes == self@.can_produce(target_partition_count),
    {
        if self.output_partition_count == target_partition_count {
            return true;
        }
        if self.already_split || target_partition_count == 0
            || !target_partition_count.is_multiple_of(self.output_partition_count) {
            return false;
        }
        target_partition_count > self.output_partition_count
    }

    /// Picks the default widened count for an independently split consumer.
    pub fn inferred_target_partition_count(&self, target_per_task: usize) -> (target: Option<usize>)
        requires
            0 < self.owned_partition_count < target_per_task ==> self.output_partition_count > 0,
        ensures
            target == self@.inferred_target(target_per_task),
    {
        if self.owned_partition_count == 0 || target_per_task == 0 || self.owned_partition_count
            >= target_per_task {
            return None;
        }
        div_ceil(target_per_task, self.output_partition_count).checked_mul(
            self.output_partition_count,
        )
    }

    /// Picks the smallest shared count both join sides can produce.
    pub fn aligned_target_partition_count(&self, other: &Self, target_per_task: usize) -> (target:
        Option<usize>)
        ensures
            target == self@.aligned_target(other@, target_per_task),
    {
        if self.base_partition_count != other.base_partition_count || self.output_partition_count
            == 0 || other.output_partition_count == 0 || target_per_task == 0 {
            return None;
        }
        proof {
            crate::arithmetic::lemma_lcm_is_least(
                self.output_partition_count as nat,
                other.output_partition_count as nat,
            );
            let multiple = crate::arithmetic::least_common_multiple(
                self.output_partition_count as nat,
                other.output_partition_count as nat,
            );
            crate::arithmetic::lemma_round_up(
                self@.least_shared(other@, target_per_task) as nat,
                multiple,
            );
            lemma_positive_multiple(self@.least_shared(other@, target_per_task) as nat, multiple);
        }
        let common_multiple: usize = match lcm(
            self.output_partition_count,
            other.output_partition_count,
        ) {
            Some(common_multiple) => common_multiple,
            None => {
                return None;
            },
        };
        let mut minimum_target: usize = target_per_task;
        if self.output_partition_count > minimum_target {
            minimum_target = self.output_partition_count;
        }
        if other.output_partition_count > minimum_target {
            minimum_target = other.output_partition_count;
        }
        let target: usize = match div_ceil(minimum_target, common_multiple).checked_mul(
            common_multiple,
        ) {
            Some(target) => target,
            None => {
                return None;
            },
        };
        if self.can_produce(target) && other.can_produce(target) {
            Some(target)
        } else {
            None
        }
    }

    /// Produces the requested count, inserting a split only when the source is still unsplit.
    pub fn produce(&self, target_partition_count: usize) -> (produced: Transformed)
        requires
            self@.can_produce(target_partition_count),
        ensures
            produced@ == self@.produced(target_partition_count),
    {
        if self.output_partition_count == target_partition_count {
            return Transformed::no(share(&self.plan));
        }
        let local: usize = target_partition_count / self.output_partition_count;
        proof {
            vstd::arithmetic::div_mod::lemma_fundamental_div_mod(
                target_partition_count as int,
                self.output_partition_count as int,
            );
            vstd::arithmetic::mul::lemma_mul_basics(self.output_partition_count as int);
        }
        match LocalPartitionCount::new(local) {
            Some(local_partition_count) => {
                let name = "LocalExchangeSplitExec".to_owned();
                let mut benefits: Vec<bool> = Vec::new();
                benefits.push(false);
                let mut required: Vec<Distribution> = Vec::new();
                required.push(Distribution::Unspecified);
                let mut children: Vec<Arc<PlanNode>> = Vec::new();
                children.push(share(&self.plan));
                let op = Arc::new(
                    Operator {
                        name,
                        handle: None,
                        kind: OperatorKind::LocalExchangeSplit {
                            base_partition_count: self.base_partition_count,
                            local_partition_count,
                        },
                        fetch: None,
                        cardinality_effect: CardinalityEffect::Unknown,
                        scheme: PartitionScheme::Hash(copy_numbers(&self.hash_exprs)),
                        equal_exprs: copy_pairs(&self.plan.op.equal_exprs),
                        benefits_from_input_partitioning: benefits,
                        required_input_distribution: required,
                        partition_rule: PartitionRule::Scaled(local),
                        rebuildable: true,
                        input_stage: None,
                    },
                );
                let node = Arc::new(
                    PlanNode {
                        op,
                        partition_count: target_partition_count,
                        task_count: None,
                        children,
                    },
                );
                proof {
                    crate::plan::lemma_plan_children(&*node);
                    let split = self@.produced(target_partition_count).plan;
                    assert(node.plan().children =~= split.children);
                    assert(node.op@.required =~= split.op.required);
                    assert(node.op@.benefits =~= split.op.benefits);
                }
                Transformed::yes(node)
            },
            None => {
                assert(false);
                Transformed::no(share(&self.plan))
            },
        }
    }
}

/// The least multiple that reaches a positive value is no smaller than one step.
proof fn lemma_positive_multiple(value: nat, step: nat)
    requires
        value > 0,
        step > 0,
    ensures
        crate::arithmetic::round_up(value, step) >= step,
{
    let c = crate::arithmetic::ceil_div(value, step);
    crate::arithmetic::lemma_round_up(value, step);
    assert(c > 0) by {
        if c == 0 {
            vstd::arithmetic::mul::lemma_mul_basics(step as int);
        }
    }
    vstd::arithmetic::mul::lemma_mul_inequality(1, c as int, step as int);
}

/// The shared count of two join sides is the smallest one, from the target on, that both can
/// produce; there is none exactly where no such count exists.
pub proof fn law_aligned_target_is_the_least_shared_count(
    left: SplitSource,
    right: SplitSource,
    target_per_task: usize,
)
    requires
        left.base == right.base,
        left.output > 0,
        right.output > 0,
        target_per_task > 0,
    ensures
        match left.aligned_target(right, target_per_task) {
            Some(target) => {
                &&& target >= target_per_task
                &&& left.can_produce(target)
                &&& right.can_produce(target)
                &&& forall|n: usize|
                    #![trigger left.can_produce(n)]
                    n >= target_per_task && left.can_produce(n) && right.can_produce(n) ==> n
                        >= target
            },
            None => forall|n: usize|
                #![trigger left.can_produce(n)]
                n >= target_per_task ==> !(left.can_produce(n) && right.can_produce(n)),
        },
{
    let (a, b) = (left.output as nat, right.output as nat);
    let multiple = crate::arithmetic::least_common_multiple(a, b);
    let least = left.least_shared(right, target_per_task) as nat;
    let target = crate::arithmetic::round_up(least, multiple);
    crate::arithmetic::lemma_lcm_is_least(a, b);
    crate::arithmetic::lemma_round_up(least, multiple);
    assert forall|n: usize|
        #![trigger left.can_produce(n)]
        n >= target_per_task && left.can_produce(n) && right.can_produce(n) implies n >= target
        && left.can_produce(target as usize) && right.can_produce(target as usize) by {
        vstd::arithmetic::div_mod::lemma_mod_self_0(a as int);
        vstd::arithmetic::div_mod::lemma_mod_self_0(b as int);
        assert(crate::arithmetic::is_common_multiple(a, b, n as nat));
        crate::arithmetic::lemma_lcm_divides(a, b, n as nat);
        assert(n as nat % multiple == 0);
        lemma_multiple_of_multiple(a, multiple, target);
        lemma_multiple_of_multiple(b, multiple, target);
    }
}

/// A multiple of a multiple of `a` is a multiple of `a`.
proof fn lemma_multiple_of_multiple(a: nat, m: nat, n: nat)
    requires
        a > 0,
        m > 0,
        m % a == 0,
        n % m == 0,
    ensures
        n % a == 0,
{
    let (x, y, z) = (a as int, m as int, n as int);
    vstd::arithmetic::div_mod::lemma_fundamental_div_mod(y, x);
    vstd::arithmetic::div_mod::lemma_fundamental_div_mod(z, y);
    let (p, q) = (y / x, z / y);
    assert(z == (p * q) * x) by (nonlinear_arith)
        requires
            z == y * q,
            y == x * p,
    ;
    vstd::arithmetic::div_mod::lemma_mod_multiples_basic(p * q, x);
}

}
