//! Inserts local exchange splits above narrow post-shuffle consumers.
//!
//! The pass runs when a stage is finalized. At that point the task count of the stage is known,
//! and any network shuffle in it is an input boundary from an already closed producer stage. The
//! pass stops at network boundaries, so it never rewrites producer stages or changes network
//! ownership; it only adds local parallelism inside the consumer tasks of the stage.
//!
//! A split is placed on the input path of a narrow shuffle consumer, directly above the first
//! shuffle of that path. The consumers are final partitioned aggregates and partitioned hash
//! joins, as far as the mode of the configuration allows them.
use std::sync::Arc;
use vstd::prelude::*;

use crate::config::DistributedConfig;
use crate::distribution::satisfies_hash;
use crate::error::{PlanError, PlanFailure};
use crate::plan::{
    share, AggregateMode, Distribution, DistributionView, KindView, OperatorKind, PartitionMode,
    Plan, PlanNode,
};
use crate::split_input::{copy_numbers, Rewrite, SplitInput, Transformed};

verus! {

/// Which output counts the children of a node are held to while they are rewritten.
pub enum ChildCounts {
    /// A demand on the node is passed on to the children that have as many partitions as the node.
    Propagate(Option<usize>),
    /// Every child keeps its count.
    Preserve,
}

impl ChildCounts {
    /// The demand on the `i`-th child of `plan`.
    pub open spec fn demand(self, plan: Plan, i: int) -> Option<usize> {
        match self {
            ChildCounts::Propagate(required) => if plan.children[i].partition_count
                == plan.partition_count {
                required
            } else {
                None
            },
            ChildCounts::Preserve => Some(plan.children[i].partition_count),
        }
    }

    /// What becomes of the `i`-th child of `plan` that was rewritten into `child`: a child that has
    /// to keep its count stays as it was where the rewrite does not keep it.
    pub open spec fn kept(self, plan: Plan, i: int, child: Rewrite) -> Rewrite {
        if self is Preserve && child.plan.partition_count != plan.children[i].partition_count {
            plan.children[i].unchanged()
        } else {
            child
        }
    }
}

impl Plan {
    /// Whether a demanded output count, if there is one, is the plan's.
    pub open spec fn count_matches(self, required: Option<usize>) -> bool {
        required matches Some(count) ==> self.partition_count == count
    }

    pub open spec fn unchanged(self) -> Rewrite {
        Rewrite { plan: self, changed: false }
    }

    pub open spec fn is_partitioned_join(self) -> bool {
        self.op.kind == KindView::HashJoin(PartitionMode::Partitioned)
    }

    pub open spec fn is_final_aggregate(self) -> bool {
        self.op.kind == KindView::Aggregate(AggregateMode::FinalPartitioned)
    }

    /// The keys by which the `i`-th child must be hashed, if the plan gains from that.
    pub open spec fn hash_keys(self, i: int) -> Option<Seq<usize>> {
        if 0 <= i < self.op.benefits.len() && self.op.benefits[i] && i < self.op.required.len() {
            match self.op.required[i] {
                DistributionView::HashPartitioned(keys) => Some(keys),
                _ => None,
            }
        } else {
            None
        }
    }

    /// The plan with a split above the first shuffle of its path of only children, if the count
    /// asked for, or else the one inferred from the configuration, can be produced there and
    /// reaches the top of the path.
    pub open spec fn split_on_path(
        self,
        config: DistributedConfig,
        tasks: usize,
        requested: Option<usize>,
    ) -> Option<Rewrite>
        decreases self,
    {
        if self.is_shuffle() || self.is_split() {
            match self.split_source(config, tasks) {
                None => None,
                Some(source) => {
                    let target = match requested {
                        Some(count) => Some(count),
                        None => source.inferred_target(
                            config.local_exchange_split_target_partitions_per_task,
                        ),
                    };
                    match target {
                        Some(count) if source.can_produce(count) => Some(source.produced(count)),
                        _ => None,
                    }
                },
            }
        } else if self.is_network_boundary() || self.children.len() != 1 || self.op.fetch is Some {
            None
        } else {
            match self.children[0].split_on_path(config, tasks, requested) {
                None => None,
                Some(child) => if !child.changed {
                    Some(self.unchanged())
                } else {
                    match self.rebuilt(seq![child.plan]) {
                        Ok(plan) if plan.count_matches(requested) => Some(
                            Rewrite { plan, changed: true },
                        ),
                        _ => None,
                    }
                },
            }
        }
    }

    /// The plan split on its path, if that gives the count asked for and still hashes by `keys`.
    pub open spec fn split_for_keys(
        self,
        config: DistributedConfig,
        tasks: usize,
        keys: Seq<usize>,
        requested: Option<usize>,
    ) -> Option<Rewrite> {
        match self.split_on_path(config, tasks, requested) {
            Some(rewrite) if rewrite.plan.count_matches(requested) && rewrite.plan.satisfies_hash(
                keys,
            ) => Some(rewrite),
            _ => None,
        }
    }

    /// The plan over new children, if it then has the count that is demanded of it.
    pub open spec fn rebuilt_to_count(self, children: Seq<Plan>, required: Option<usize>) -> Result<
        Option<Rewrite>,
        PlanFailure,
    > {
        match self.rebuilt(children) {
            Err(failure) => Err(failure),
            Ok(plan) => Ok(
                if plan.count_matches(required) {
                    Some(Rewrite { plan, changed: true })
                } else {
                    None
                },
            ),
        }
    }

    /// A final aggregate over a split input, if its input can be split.
    pub open spec fn split_aggregate(
        self,
        config: DistributedConfig,
        tasks: usize,
        required: Option<usize>,
    ) -> Result<Option<Rewrite>, PlanFailure> {
        if self.children.len() != 1 {
            Ok(Some(self.unchanged()))
        } else {
            match self.hash_keys(0) {
                None => Ok(None),
                Some(keys) => match self.children[0].split_for_keys(
                    config,
                    tasks,
                    keys,
                    required,
                ) {
                    None => Ok(None),
                    Some(input) => if input.changed {
                        self.rebuilt_to_count(seq![input.plan], required)
                    } else {
                        Ok(Some(self.unchanged()))
                    },
                },
            }
        }
    }

    /// The count that both sides of a join are brought to: the demanded one, or else the one that
    /// their sources can share.
    pub open spec fn join_target(
        self,
        config: DistributedConfig,
        tasks: usize,
        required: Option<usize>,
    ) -> Option<usize> {
        match required {
            Some(count) => Some(count),
            None => match (
                self.children[0].unary_split_source(config, tasks),
                self.children[1].unary_split_source(config, tasks),
            ) {
                (Some(left), Some(right)) => left.aligned_target(
                    right,
                    config.local_exchange_split_target_partitions_per_task,
                ),
                _ => None,
            },
        }
    }

    /// A partitioned join over inputs that are both split to one count, if they can be.
    pub open spec fn split_join(
        self,
        config: DistributedConfig,
        tasks: usize,
        required: Option<usize>,
    ) -> Result<Option<Rewrite>, PlanFailure> {
        if self.children.len() != 2 {
            Ok(Some(self.unchanged()))
        } else {
            match (
                self.hash_keys(0),
                self.hash_keys(1),
                self.join_target(config, tasks, required),
            ) {
                (Some(left_keys), Some(right_keys), Some(target)) => match (
                    self.children[0].split_for_keys(config, tasks, left_keys, Some(target)),
                    self.children[1].split_for_keys(config, tasks, right_keys, Some(target)),
                ) {
                    (Some(left), Some(right)) => if left.changed || right.changed {
                        self.rebuilt_to_count(seq![left.plan, right.plan], required)
                    } else if self.count_matches(required) {
                        Ok(Some(self.unchanged()))
                    } else {
                        Ok(None)
                    },
                    _ => Ok(None),
                },
                _ => Ok(None),
            }
        }
    }

    /// The plan with splits inserted in the stage, given the output count that its parent demands.
    pub open spec fn with_splits(
        self,
        config: DistributedConfig,
        tasks: usize,
        required: Option<usize>,
    ) -> Result<Rewrite, PlanFailure>
        decreases self, 2nat, 0nat,
    {
        if self.op.fetch is Some {
            Ok(self.unchanged())
        } else if self.is_partitioned_join() {
            if config.splits_joins() {
                match self.split_join(config, tasks, required) {
                    Err(failure) => Err(failure),
                    Ok(Some(rewrite)) => Ok(rewrite),
                    Ok(None) => self.with_split_children(config, tasks, ChildCounts::Preserve),
                }
            } else {
                self.with_split_children(config, tasks, ChildCounts::Preserve)
            }
        } else if self.is_final_aggregate() && config.splits_final_aggs() {
            match self.split_aggregate(config, tasks, required) {
                Err(failure) => Err(failure),
                Ok(Some(rewrite)) => Ok(rewrite),
                Ok(None) => if required is Some {
                    self.with_split_children(config, tasks, ChildCounts::Preserve)
                } else {
                    self.with_split_children(config, tasks, ChildCounts::Propagate(None))
                },
            }
        } else if self.is_shuffle() || self.is_split() {
            Ok(self.unchanged().widened(config, tasks, required))
        } else if self.is_network_boundary() {
            Ok(self.unchanged())
        } else {
            match self.with_split_children(config, tasks, ChildCounts::Propagate(required)) {
                Err(failure) => Err(failure),
                Ok(rewrite) => Ok(rewrite.widened(config, tasks, required)),
            }
        }
    }

    /// The plan with splits inserted below each child.
    pub open spec fn with_split_children(
        self,
        config: DistributedConfig,
        tasks: usize,
        counts: ChildCounts,
    ) -> Result<Rewrite, PlanFailure>
        decreases self, 1nat, 0nat,
    {
        match self.split_children(config, tasks, counts, self.children.len()) {
            Err(failure) => Err(failure),
            Ok((children, changed)) => if changed {
                match self.rebuilt(children) {
                    Err(failure) => Err(failure),
                    Ok(plan) => Ok(Rewrite { plan, changed: true }),
                }
            } else {
                Ok(self.unchanged())
            },
        }
    }

    /// The first `n` children with splits inserted below them, and whether any of them changed.
    pub open spec fn split_children(
        self,
        config: DistributedConfig,
        tasks: usize,
        counts: ChildCounts,
        n: nat,
    ) -> Result<(Seq<Plan>, bool), PlanFailure>
        decreases self, 0nat, n,
    {
        if n == 0 || n > self.children.len() {
            Ok((Seq::empty(), false))
        } else {
            match self.split_children(config, tasks, counts, (n - 1) as nat) {
                Err(failure) => Err(failure),
                Ok((done, changed)) => match self.children[n - 1].with_splits(
                    config,
                    tasks,
                    counts.demand(self, n - 1),
                ) {
                    Err(failure) => Err(failure),
                    Ok(child) => {
                        let child = counts.kept(self, n - 1, child);
                        Ok((done.push(child.plan), changed || child.changed))
                    },
                },
            }
        }
    }

    /// Whether the stage holds a network shuffle and a consumer that the mode allows a split for.
    pub open spec fn is_split_candidate(self, config: DistributedConfig) -> bool {
        self.stage_has_shuffle() && self.stage_has_consumer(config)
    }

    /// Whether a network shuffle feeds the stage.
    pub open spec fn stage_has_shuffle(self) -> bool
        decreases self,
    {
        ||| self.is_shuffle()
        ||| !self.is_network_boundary() && exists|i: int|
            #![trigger self.children[i]]
            0 <= i < self.children.len() && self.children[i].stage_has_shuffle()
    }

    /// Whether the stage holds an operator that a split may be inserted for.
    pub open spec fn stage_has_consumer(self, config: DistributedConfig) -> bool
        decreases self,
    {
        &&& !self.is_network_boundary()
        &&& {
            ||| self.is_partitioned_join() && config.splits_joins()
            ||| self.is_final_aggregate() && config.splits_final_aggs()
            ||| exists|i: int|
                #![trigger self.children[i]]
                0 <= i < self.children.len() && self.children[i].stage_has_consumer(config)
        }
    }
}

impl Rewrite {
    /// The rewritten plan, split once more on its own path where that gives the demanded count.
    pub open spec fn widened(
        self,
        config: DistributedConfig,
        tasks: usize,
        required: Option<usize>,
    ) -> Rewrite {
        match required {
            None => self,
            Some(target) => match self.plan.split_on_path(config, tasks, Some(target)) {
                Some(rewrite) if rewrite.plan.partition_count == target => Rewrite {
                    plan: rewrite.plan,
                    changed: rewrite.changed || self.changed,
                },
                _ => self,
            },
        }
    }
}

/// Checks whether a rewritten node still satisfies the parent's requested output count.
pub fn partition_count_matches(plan: &PlanNode, required: Option<usize>) -> (matches: bool)
    ensures
        matches == plan.plan().count_matches(required),
{
    match required {
        Some(target) => plan.partition_count == target,
        None => true,
    }
}

/// Returns the keys a child must be hash distributed by, if the consumer benefits from it.
pub fn hash_requirement(plan: &PlanNode, child_idx: usize) -> (keys: Option<Vec<usize>>)
    ensures
        match plan.plan().hash_keys(child_idx as int) {
            Some(required) => keys matches Some(keys) && keys@ == required,
            None => keys is None,
        },
{
    if child_idx >= plan.op.benefits_from_input_partitioning.len()
        || !plan.op.benefits_from_input_partitioning[child_idx] {
        return None;
    }
    if child_idx >= plan.op.required_input_distribution.len() {
        return None;
    }
    match &plan.op.required_input_distribution[child_idx] {
        Distribution::HashPartitioned(keys) => Some(copy_numbers(keys)),
        Distribution::SinglePartition | Distribution::Unspecified => None,
    }
}

/// Walks a unary path and inserts a split at the first shuffle/split source.
pub fn try_insert_split_on_unary_path(
    plan: Arc<PlanNode>,
    d_cfg: &DistributedConfig,
    stage_task_count: usize,
    requested_target_count: Option<usize>,
) -> (rewritten: Option<Transformed>)
    ensures
        match plan.plan().split_on_path(*d_cfg, stage_task_count, requested_target_count) {
            Some(rewrite) => rewritten matches Some(rewritten) && rewritten@ == rewrite,
            None => rewritten is None,
        },
    decreases plan.plan(),
{
    proof {
        crate::plan::lemma_plan_children(&*plan);
    }
    let is_source = match &plan.op.kind {
        OperatorKind::NetworkShuffle | OperatorKind::LocalExchangeSplit { .. } => true,
        _ => false,
    };
    if is_source {
        let input = match SplitInput::try_from_source(share(&plan), d_cfg, stage_task_count) {
            Some(input) => input,
            None => {
                return None;
            },
        };
        let target_count: usize = match requested_target_count {
            Some(target_count) => target_count,
            None => {
                match input.inferred_target_partition_count(
                    d_cfg.local_exchange_split_target_partitions_per_task,
                ) {
                    Some(target_count) => target_count,
                    None => {
                        return None;
                    },
                }
            },
        };
        if !input.can_produce(target_count) {
            return None;
        }
        return Some(input.produce(target_count));
    }
    if plan.is_network_boundary() {
        return None;
    }
    if plan.children.len() != 1 {
        return None;
    }
    // Fetch, limit and top-k nodes apply their cap per output partition. Splitting below one
    // would change how many rows can reach the parent consumer.
    if plan.op.fetch.is_some() {
        return None;
    }
    let rewritten_child = match try_insert_split_on_unary_path(
        share(&plan.children[0]),
        d_cfg,
        stage_task_count,
        requested_target_count,
    ) {
        Some(rewritten_child) => rewritten_child,
        None => {
            return None;
        },
    };
    if !rewritten_child.transformed {
        return Some(Transformed::no(plan));
    }
    let mut children: Vec<Arc<PlanNode>> = Vec::new();
    children.push(rewritten_child.data);
    assert(crate::plan::plans(children@) =~= seq![rewritten_child@.plan]);
    match plan.with_new_children(children) {
        Ok(rebuilt) => {
            if partition_count_matches(&rebuilt, requested_target_count) {
                Some(Transformed::yes(rebuilt))
            } else {
                None
            }
        },
        Err(_) => None,
    }
}

/// Inserts a split on a child path and validates the consumer distribution.
pub fn try_split_child_and_satisfy_distribution(
    child: Arc<PlanNode>,
    d_cfg: &DistributedConfig,
    stage_task_count: usize,
    required_keys: &Vec<usize>,
    requested_target_count: Option<usize>,
) -> (rewritten: Option<Transformed>)
    ensures
        match child.plan().split_for_keys(
            *d_cfg,
            stage_task_count,
            required_keys@,
            requested_target_count,
        ) {
            Some(rewrite) => rewritten matches Some(rewritten) && rewritten@ == rewrite,
            None => rewritten is None,
        },
{
    match try_insert_split_on_unary_path(child, d_cfg, stage_task_count, requested_target_count) {
        Some(rewritten) => {
            if partition_count_matches(&rewritten.data, requested_target_count) && satisfies_hash(
                &rewritten.data,
                required_keys,
            ) {
                Some(rewritten)
            } else {
                None
            }
        },
        None => None,
    }
}

/// The result of a rewrite that may not apply, against what it should be.
pub open spec fn attempt_is(
    attempt: Result<Option<Transformed>, PlanError>,
    expected: Result<Option<Rewrite>, PlanFailure>,
) -> bool {
    match expected {
        Ok(Some(rewrite)) => attempt matches Ok(Some(rewritten)) && rewritten@ == rewrite,
        Ok(None) => attempt matches Ok(None),
        Err(failure) => attempt matches Err(error) && error@ == failure,
    }
}

/// The result of a rewrite, against what it should be.
pub open spec fn rewrite_is(
    rewritten: Result<Transformed, PlanError>,
    expected: Result<Rewrite, PlanFailure>,
) -> bool {
    match expected {
        Ok(rewrite) => rewritten matches Ok(rewritten) && rewritten@ == rewrite,
        Err(failure) => rewritten matches Err(error) && error@ == failure,
    }
}

/// Attempts to split the aggregate input while preserving its required hash distribution.
pub fn try_rewrite_final_partitioned_aggregate(
    plan: Arc<PlanNode>,
    d_cfg: &DistributedConfig,
    stage_task_count: usize,
    parent_required_partition_count: Option<usize>,
) -> (attempt: Result<Option<Transformed>, PlanError>)
    ensures
        attempt_is(
            attempt,
            plan.plan().split_aggregate(
                *d_cfg,
                stage_task_count,
                parent_required_partition_count,
            ),
        ),
{
    proof {
        crate::plan::lemma_plan_children(&*plan);
    }
    if plan.children.len() != 1 {
        return Ok(Some(Transformed::no(plan)));
    }
    let required_keys = match hash_requirement(&plan, 0) {
        Some(required_keys) => required_keys,
        None => {
            return Ok(None);
        },
    };
    let rewritten_input = match try_split_child_and_satisfy_distribution(
        share(&plan.children[0]),
        d_cfg,
        stage_task_count,
        &required_keys,
        parent_required_partition_count,
    ) {
        Some(rewritten_input) => rewritten_input,
        None => {
            return Ok(None);
        },
    };
    if !rewritten_input.transformed {
        return Ok(Some(Transformed::no(plan)));
    }
    let mut children: Vec<Arc<PlanNode>> = Vec::new();
    children.push(rewritten_input.data);
    assert(crate::plan::plans(children@) =~= seq![rewritten_input@.plan]);
    match plan.with_new_children(children) {
        Ok(rebuilt) => {
            if partition_count_matches(&rebuilt, parent_required_partition_count) {
                Ok(Some(Transformed::yes(rebuilt)))
            } else {
                Ok(None)
            }
        },
        Err(error) => Err(error),
    }
}

/// Attempts to make both join sides produce one shared partition count.
pub fn try_rewrite_partitioned_join(
    plan: Arc<PlanNode>,
    d_cfg: &DistributedConfig,
    stage_task_count: usize,
    parent_required_partition_count: Option<usize>,
) -> (attempt: Result<Option<Transformed>, PlanError>)
    ensures
        attempt_is(
            attempt,
            plan.plan().split_join(*d_cfg, stage_task_count, parent_required_partition_count),
        ),
{
    proof {
        crate::plan::lemma_plan_children(&*plan);
    }
    if plan.children.len() != 2 {
        return Ok(Some(Transformed::no(plan)));
    }
    let left = share(&plan.children[0]);
    let right = share(&plan.children[1]);
    let left_keys = match hash_requirement(&plan, 0) {
        Some(left_keys) => left_keys,
        None => {
            return Ok(None);
        },
    };
    let right_keys = match hash_requirement(&plan, 1) {
        Some(right_keys) => right_keys,
        None => {
            return Ok(None);
        },
    };
    // Joins must pick one count before rewriting either side; changing one side independently can
    // make the join partitioning invalid.
    let target_partition_count: usize = match parent_required_partition_count {
        Some(target) => target,
        None => {
            let left_input = match SplitInput::find_on_unary_path(
                share(&left),
                d_cfg,
                stage_task_count,
            ) {
                Some(left_input) => left_input,
                None => {
                    return Ok(None);
                },
            };
            let right_input = match SplitInput::find_on_unary_path(
                share(&right),
                d_cfg,
                stage_task_count,
            ) {
                Some(right_input) => right_input,
                None => {
                    return Ok(None);
                },
            };
            match left_input.aligned_target_partition_count(
                &right_input,
                d_cfg.local_exchange_split_target_partitions_per_task,
            ) {
                Some(target) => target,
                None => {
                    return Ok(None);
                },
            }
        },
    };
    let rewritten_left = match try_split_child_and_satisfy_distribution(
        left,
        d_cfg,
        stage_task_count,
        &left_keys,
        Some(target_partition_count),
    ) {
        Some(rewritten_left) => rewritten_left,
        None => {
            return Ok(None);
        },
    };
    let rewritten_right = match try_split_child_and_satisfy_distribution(
        right,
        d_cfg,
        stage_task_count,
        &right_keys,
        Some(target_partition_count),
    ) {
        Some(rewritten_right) => rewritten_right,
        None => {
            return Ok(None);
        },
    };
    if !rewritten_left.transformed && !rewritten_right.transformed {
        if partition_count_matches(&plan, parent_required_partition_count) {
            return Ok(Some(Transformed::no(plan)));
        }
        return Ok(None);
    }
    let mut children: Vec<Arc<PlanNode>> = Vec::new();
    children.push(rewritten_left.data);
    children.push(rewritten_right.data);
    assert(crate::plan::plans(children@) =~= seq![rewritten_left@.plan, rewritten_right@.plan]);
    match plan.with_new_children(children) {
        Ok(rewritten) => {
            if partition_count_matches(&rewritten, parent_required_partition_count) {
                Ok(Some(Transformed::yes(rewritten)))
            } else {
                Ok(None)
            }
        },
        Err(error) => Err(error),
    }
}

/// Once a child cannot be rewritten, the list of children cannot be either.
proof fn lemma_split_children_failure(
    plan: Plan,
    config: DistributedConfig,
    tasks: usize,
    counts: ChildCounts,
    n: nat,
    m: nat,
)
    requires
        n <= m <= plan.children.len(),
        plan.split_children(config, tasks, counts, n) is Err,
    ensures
        plan.split_children(config, tasks, counts, m) == plan.split_children(
            config,
            tasks,
            counts,
            n,
        ),
    decreases m - n,
{
    if n < m {
        lemma_split_children_failure(plan, config, tasks, counts, n, (m - 1) as nat);
    }
}

/// Rewrites the children of a plan, each held to the count that `counts` demands of it.
fn rewrite_children(
    plan: Arc<PlanNode>,
    d_cfg: &DistributedConfig,
    stage_task_count: usize,
    counts: ChildCounts,
) -> (rewritten: Result<Transformed, PlanError>)
    ensures
        rewrite_is(
            rewritten,
            plan.plan().with_split_children(*d_cfg, stage_task_count, counts),
        ),
    decreases plan.plan(), 1nat,
{
    proof {
        crate::plan::lemma_plan_children(&*plan);
    }
    let mut transformed = false;
    let mut new_children: Vec<Arc<PlanNode>> = Vec::new();
    let mut i: usize = 0;
    assert(crate::plan::plans(new_children@) =~= Seq::<Plan>::empty());
    while i < plan.children.len()
        invariant
            i <= plan.children@.len(),
            plan.plan().children.len() == plan.children@.len(),
            forall|j: int|
                #![trigger plan.children@[j]]
                0 <= j < plan.children@.len() ==> plan.plan().children[j]
                    == plan.children@[j].plan(),
            plan.plan().split_children(*d_cfg, stage_task_count, counts, i as nat) == Ok::<
                (Seq<Plan>, bool),
                PlanFailure,
            >((crate::plan::plans(new_children@), transformed)),
        decreases plan.children@.len() - i,
    {
        let child = share(&plan.children[i]);
        let child_required_partition_count = match counts {
            ChildCounts::Propagate(required) => {
                if child.partition_count == plan.partition_count {
                    required
                } else {
                    None
                }
            },
            ChildCounts::Preserve => Some(child.partition_count),
        };
        assert(plan.plan().children[i as int] == child.plan());
        match rewrite_plan(share(&child), d_cfg, stage_task_count, child_required_partition_count) {
            Ok(rewritten) => {
                // Where the requirement cannot be met, the child stays as it was.
                let preserve = match counts {
                    ChildCounts::Propagate(_) => false,
                    ChildCounts::Preserve => true,
                };
                let child = if preserve && rewritten.data.partition_count != child.partition_count {
                    Transformed::no(child)
                } else {
                    rewritten
                };
                proof {
                    crate::plan::lemma_plans_push(new_children@, child.data);
                }
                transformed = transformed || child.transformed;
                new_children.push(child.data);
            },
            Err(error) => {
                proof {
                    lemma_split_children_failure(
                        plan.plan(),
                        *d_cfg,
                        stage_task_count,
                        counts,
                        (i + 1) as nat,
                        plan.plan().children.len(),
                    );
                }
                return Err(error);
            },
        }
        i = i + 1;
    }
    if transformed {
        match plan.with_new_children(new_children) {
            Ok(rebuilt) => Ok(Transformed::yes(rebuilt)),
            Err(error) => Err(error),
        }
    } else {
        Ok(Transformed::no(plan))
    }
}

impl Plan {
    /// Whether the children of `after` have the counts of this plan's children.
    pub open spec fn children_keep_their_counts_in(self, after: Plan) -> bool {
        &&& after.children.len() == self.children.len()
        &&& forall|i: int|
            #![trigger after.children[i]]
            #![trigger self.children[i]]
            0 <= i < self.children.len() ==> after.children[i].partition_count
                == self.children[i].partition_count
    }
}

/// Rewriting children with their current counts as a hard requirement keeps every one of them.
pub proof fn law_preserved_children_keep_their_counts(
    plan: Plan,
    config: DistributedConfig,
    tasks: usize,
)
    requires
        plan.with_split_children(config, tasks, ChildCounts::Preserve) is Ok,
    ensures
        plan.children_keep_their_counts_in(
            plan.with_split_children(config, tasks, ChildCounts::Preserve)->Ok_0.plan,
        ),
{
    lemma_preserved_counts(plan, config, tasks, plan.children.len());
}

proof fn lemma_preserved_counts(plan: Plan, config: DistributedConfig, tasks: usize, n: nat)
    requires
        n <= plan.children.len(),
        plan.split_children(config, tasks, ChildCounts::Preserve, n) is Ok,
    ensures
        ({
            let children = plan.split_children(config, tasks, ChildCounts::Preserve, n)->Ok_0.0;
            &&& children.len() == n
            &&& forall|i: int|
                #![trigger children[i]]
                0 <= i < n ==> children[i].partition_count == plan.children[i].partition_count
        }),
    decreases n,
{
    if n > 0 {
        lemma_preserved_counts(plan, config, tasks, (n - 1) as nat);
    }
}

/// Rewrites children, passing a parent partition-count request only through shape-preserving paths.
fn rewrite_children_propagating_required_count(
    plan: Arc<PlanNode>,
    d_cfg: &DistributedConfig,
    stage_task_count: usize,
    parent_required_partition_count: Option<usize>,
) -> (rewritten: Result<Transformed, PlanError>)
    ensures
        rewrite_is(
            rewritten,
            plan.plan().with_split_children(
                *d_cfg,
                stage_task_count,
                ChildCounts::Propagate(parent_required_partition_count),
            ),
        ),
    decreases plan.plan(), 2nat,
{
    rewrite_children(
        plan,
        d_cfg,
        stage_task_count,
        ChildCounts::Propagate(parent_required_partition_count),
    )
}

/// Rewrites each child with its current partition count as a hard requirement.
fn rewrite_children_preserving_current_counts(
    plan: Arc<PlanNode>,
    d_cfg: &DistributedConfig,
    stage_task_count: usize,
) -> (rewritten: Result<Transformed, PlanError>)
    ensures
        rewrite_is(
            rewritten,
            plan.plan().with_split_children(*d_cfg, stage_task_count, ChildCounts::Preserve),
        ),
        rewritten matches Ok(rewritten) ==> {
            &&& plan.plan().children_keep_their_counts_in(rewritten@.plan)
            &&& !rewritten@.changed ==> rewritten@.plan == plan.plan()
        },
    decreases plan.plan(), 2nat,
{
    let ghost before = plan.plan();
    let rewritten = rewrite_children(plan, d_cfg, stage_task_count, ChildCounts::Preserve);
    proof {
        if before.with_split_children(*d_cfg, stage_task_count, ChildCounts::Preserve) is Ok {
            law_preserved_children_keep_their_counts(before, *d_cfg, stage_task_count);
        }
    }
    rewritten
}

/// Rewrites a final partitioned aggregate, or falls back to walking below it.
fn rewrite_final_partitioned_aggregate(
    plan: Arc<PlanNode>,
    d_cfg: &DistributedConfig,
    stage_task_count: usize,
    parent_required_partition_count: Option<usize>,
) -> (rewritten: Result<Transformed, PlanError>)
    requires
        plan.plan().is_final_aggregate(),
        plan.plan().op.fetch is None,
        d_cfg.splits_final_aggs(),
    ensures
        rewrite_is(
            rewritten,
            plan.plan().with_splits(*d_cfg, stage_task_count, parent_required_partition_count),
        ),
    decreases plan.plan(), 3nat,
{
    match try_rewrite_final_partitioned_aggregate(
        share(&plan),
        d_cfg,
        stage_task_count,
        parent_required_partition_count,
    ) {
        Ok(Some(rewritten)) => {
            return Ok(rewritten);
        },
        Ok(None) => {},
        Err(error) => {
            return Err(error);
        },
    }
    // If a parent required this aggregate to keep a specific count, do not let nested consumers
    // widen independently after this aggregate cannot use a split.
    if parent_required_partition_count.is_some() {
        rewrite_children_preserving_current_counts(plan, d_cfg, stage_task_count)
    } else {
        rewrite_children_propagating_required_count(plan, d_cfg, stage_task_count, None)
    }
}

/// Rewrites a partitioned join, or preserves both child counts if the join cannot be split.
fn rewrite_partitioned_join(
    plan: Arc<PlanNode>,
    d_cfg: &DistributedConfig,
    stage_task_count: usize,
    parent_required_partition_count: Option<usize>,
) -> (rewritten: Result<Transformed, PlanError>)
    requires
        plan.plan().is_partitioned_join(),
        plan.plan().op.fetch is None,
        d_cfg.splits_joins(),
    ensures
        rewrite_is(
            rewritten,
            plan.plan().with_splits(*d_cfg, stage_task_count, parent_required_partition_count),
        ),
    decreases plan.plan(), 3nat,
{
    match try_rewrite_partitioned_join(
        share(&plan),
        d_cfg,
        stage_task_count,
        parent_required_partition_count,
    ) {
        Ok(Some(rewritten)) => Ok(rewritten),
        Ok(None) => rewrite_children_preserving_current_counts(plan, d_cfg, stage_task_count),
        Err(error) => Err(error),
    }
}

/// Local exchange insertion rule.
///
/// - Only final partitioned aggregates and partitioned hash joins can request a split.
/// - The split is inserted only above the first shuffle source.
/// - Rebuilt children must satisfy the required input distribution.
/// - Partitioned joins must expose the same partition count on both sides.
/// - Fetch, limit and top-k nodes block insertion because their cap is partition-local.
pub fn rewrite_plan(
    plan: Arc<PlanNode>,
    d_cfg: &DistributedConfig,
    stage_task_count: usize,
    parent_required_partition_count: Option<usize>,
) -> (rewritten: Result<Transformed, PlanError>)
    ensures
        rewrite_is(
            rewritten,
            plan.plan().with_splits(*d_cfg, stage_task_count, parent_required_partition_count),
        ),
    decreases plan.plan(), 4nat,
{
    // Fetch, limit and top-k nodes can stop consuming their inputs early. A local split must not
    // be placed below one, because all of its output partitions have to be consumed for it to
    // drain cleanly.
    if plan.op.fetch.is_some() {
        return Ok(Transformed::no(plan));
    }
    match &plan.op.kind {
        OperatorKind::HashJoin(PartitionMode::Partitioned) => {
            if d_cfg.local_exchange_split_mode_allows_partitioned_join() {
                return rewrite_partitioned_join(
                    plan,
                    d_cfg,
                    stage_task_count,
                    parent_required_partition_count,
                );
            }
            // Even when this mode does not insert splits above joins, partitioned joins are
            // alignment boundaries. A nested consumer must not independently widen one side.

            return rewrite_children_preserving_current_counts(plan, d_cfg, stage_task_count);
        },
        OperatorKind::Aggregate(AggregateMode::FinalPartitioned) => {
            if d_cfg.local_exchange_split_mode_allows_final_agg() {
                return rewrite_final_partitioned_aggregate(
                    plan,
                    d_cfg,
                    stage_task_count,
                    parent_required_partition_count,
                );
            }
        },
        _ => {},
    }
    // A shuffle or split boundary starts an independent producer stage. A parent partition-count
    // request must not leak through it, even if that shuffle is not itself split-eligible.
    let is_source = match &plan.op.kind {
        OperatorKind::NetworkShuffle | OperatorKind::LocalExchangeSplit { .. } => true,
        _ => false,
    };
    let plan = if is_source {
        Transformed::no(plan)
    } else if plan.is_network_boundary() {
        return Ok(Transformed::no(plan));
    } else {
        match rewrite_children_propagating_required_count(
            plan,
            d_cfg,
            stage_task_count,
            parent_required_partition_count,
        ) {
            Ok(plan) => plan,
            Err(error) => {
                return Err(error);
            },
        }
    };
    if let Some(target) = parent_required_partition_count {
        if let Some(rewritten) = try_insert_split_on_unary_path(
            share(&plan.data),
            d_cfg,
            stage_task_count,
            Some(target),
        ) {
            if rewritten.data.partition_count == target {
                return Ok(
                    Transformed {
                        data: rewritten.data,
                        transformed: rewritten.transformed || plan.transformed,
                    },
                );
            }
        }
    }
    Ok(plan)
}

/// Whether a network shuffle feeds the stage.
fn stage_contains_shuffle(plan: &PlanNode) -> (found: bool)
    ensures
        found == plan.plan().stage_has_shuffle(),
    decreases plan.plan(),
{
    proof {
        crate::plan::lemma_plan_children(plan);
    }
    match &plan.op.kind {
        OperatorKind::NetworkShuffle => {
            return true;
        },
        _ => {},
    }
    if plan.is_network_boundary() {
        return false;
    }
    let mut i: usize = 0;
    while i < plan.children.len()
        invariant
            i <= plan.children@.len(),
            plan.plan().children.len() == plan.children@.len(),
            !plan.plan().is_network_boundary(),
            forall|j: int|
                #![trigger plan.plan().children[j]]
                0 <= j < plan.children@.len() ==> plan.plan().children[j]
                    == plan.children@[j].plan(),
            forall|j: int|
                #![trigger plan.plan().children[j]]
                0 <= j < i ==> !plan.plan().children[j].stage_has_shuffle(),
        decreases plan.children@.len() - i,
    {
        assert(plan.plan().children[i as int] == plan.children@[i as int].plan());
        if stage_contains_shuffle(&plan.children[i]) {
            return true;
        }
        i = i + 1;
    }
    false
}

/// Whether the stage holds an operator that a split may be inserted for.
fn stage_contains_consumer(plan: &PlanNode, d_cfg: &DistributedConfig) -> (found: bool)
    ensures
        found == plan.plan().stage_has_consumer(*d_cfg),
    decreases plan.plan(),
{
    proof {
        crate::plan::lemma_plan_children(plan);
    }
    if plan.is_network_boundary() {
        return false;
    }
    match &plan.op.kind {
        OperatorKind::HashJoin(PartitionMode::Partitioned) => {
            if d_cfg.local_exchange_split_mode_allows_partitioned_join() {
                return true;
            }
        },
        OperatorKind::Aggregate(AggregateMode::FinalPartitioned) => {
            if d_cfg.local_exchange_split_mode_allows_final_agg() {
                return true;
            }
        },
        _ => {},
    }
    let mut i: usize = 0;
    while i < plan.children.len()
        invariant
            i <= plan.children@.len(),
            plan.plan().children.len() == plan.children@.len(),
            !plan.plan().is_network_boundary(),
            forall|j: int|
                #![trigger plan.plan().children[j]]
                0 <= j < plan.children@.len() ==> plan.plan().children[j]
                    == plan.children@[j].plan(),
            forall|j: int|
                #![trigger plan.plan().children[j]]
                0 <= j < i ==> !plan.plan().children[j].stage_has_consumer(*d_cfg),
        decreases plan.children@.len() - i,
    {
        assert(plan.plan().children[i as int] == plan.children@[i as int].plan());
        if stage_contains_consumer(&plan.children[i], d_cfg) {
            return true;
        }
        i = i + 1;
    }
    false
}

/// Cheap preflight to avoid rebuilding stages that cannot use a split.
pub fn stage_contains_local_exchange_split_candidate(
    plan: &PlanNode,
    d_cfg: &DistributedConfig,
) -> (found: Result<bool, PlanError>)
    ensures
        match found {
            Ok(found) => d_cfg.known_split_mode() && found == (!d_cfg.splits_are_off()
                && plan.plan().is_split_candidate(*d_cfg)),
            Err(error) => !d_cfg.known_split_mode() && error@ == (PlanFailure::UnknownSplitMode {
                mode: d_cfg.local_exchange_split_mode@,
            }),
        },
{
    match d_cfg.validate_local_exchange_split_mode() {
        Ok(_) => {},
        Err(error) => {
            return Err(error);
        },
    }
    if d_cfg.local_exchange_split_mode_is_off() {
        return Ok(false);
    }
    Ok(stage_contains_shuffle(plan) && stage_contains_consumer(plan, d_cfg))
}

impl Plan {
    /// What the pass makes of a stage.
    pub open spec fn split_stage(self, config: DistributedConfig, tasks: usize) -> Result<
        Rewrite,
        PlanFailure,
    > {
        if !config.known_split_mode() {
            Err(PlanFailure::UnknownSplitMode { mode: config.local_exchange_split_mode@ })
        } else if config.splits_are_off() || !self.is_split_candidate(config) {
            Ok(self.unchanged())
        } else {
            self.with_splits(config, tasks, None)
        }
    }
}

/// Inserts local exchange splits above the narrow post-shuffle consumers of a stage that runs on
/// `stage_task_count` tasks.
pub fn insert_local_exchange_split_for_stage(
    plan: Arc<PlanNode>,
    d_cfg: &DistributedConfig,
    stage_task_count: usize,
) -> (rewritten: Result<Transformed, PlanError>)
    ensures
        rewrite_is(rewritten, plan.plan().split_stage(*d_cfg, stage_task_count)),
{
    match d_cfg.validate_local_exchange_split_mode() {
        Ok(_) => {},
        Err(error) => {
            return Err(error);
        },
    }
    if d_cfg.local_exchange_split_mode_is_off() {
        return Ok(Transformed::no(plan));
    }
    match stage_contains_local_exchange_split_candidate(&plan, d_cfg) {
        Ok(candidate) => {
            if !candidate {
                return Ok(Transformed::no(plan));
            }
        },
        Err(error) => {
            return Err(error);
        },
    }
    rewrite_plan(plan, d_cfg, stage_task_count, None)
}

}
