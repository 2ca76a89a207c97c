//! The planner's picture of a physical plan.
//!
//! A [`PlanNode`] holds what the planning passes read of one physical operator: which operator it
//! is, how its output is partitioned, what it demands of its inputs, and its children. Plans are
//! immutable trees; a pass that changes a plan rebuilds the nodes above the change.
use std::sync::Arc;
use vstd::prelude::*;

use crate::error::{PlanError, PlanFailure};
use crate::task_count::TaskCountAnnotation;

verus! {

/// How a hash join distributes its two inputs.
#[derive(Debug, Clone, Copy, PartialEq, Eq, Structural)]
pub enum PartitionMode {
    /// Both sides are hash partitioned on the join keys, with matching partition counts.
    Partitioned,
    /// The left side is collected into one partition and probed by every right partition.
    CollectLeft,
    /// Not decided yet.
    Auto,
}

/// The phase of an aggregation that an operator carries out.
#[derive(Debug, Clone, Copy, PartialEq, Eq, Structural)]
pub enum AggregateMode {
    Partial,
    Final,
    FinalPartitioned,
    Single,
    SinglePartitioned,
}

/// How the number of rows that leave an operator compares to the number that enter it.
#[derive(Debug, Clone, Copy, PartialEq, Eq, Structural)]
pub enum CardinalityEffect {
    Unknown,
    Equal,
    LowerEqual,
    GreaterEqual,
}

/// The number of local partitions that a local exchange split makes of each of its inputs, which
/// is never zero.
#[derive(Debug, PartialEq, Eq)]
pub struct LocalPartitionCount {
    count: usize,
}

impl LocalPartitionCount {
    #[verifier::type_invariant]
    spec fn positive(self) -> bool {
        self.count > 0
    }

    pub closed spec fn value(self) -> usize {
        self.count
    }

    /// Wraps a count, if it is positive.
    pub fn new(count: usize) -> (wrapped: Option<Self>)
        ensures
            match wrapped {
                Some(wrapped) => wrapped.value() == count && count > 0,
                None => count == 0,
            },
    {
        if count == 0 {
            None
        } else {
            Some(LocalPartitionCount { count })
        }
    }

    pub fn get(&self) -> (count: usize)
        ensures
            count == self.value(),
            count > 0,
    {
        proof {
            use_type_invariant(self);
        }
        self.count
    }
}

/// The operators that the planning passes tell apart.
#[derive(Debug, PartialEq, Eq)]
pub enum OperatorKind {
    HashJoin(PartitionMode),
    Aggregate(AggregateMode),
    Repartition,
    CoalescePartitions,
    SortPreservingMerge,
    Union,
    /// A union that runs each of its children in a subset of its tasks of its own.
    ChildrenIsolatorUnion,
    /// Replicates its input for the consumer tasks of a broadcast.
    Broadcast,
    NetworkShuffle,
    NetworkBroadcast,
    NetworkCoalesce,
    /// Splits each of its input partitions into several local ones by hashing again.
    LocalExchangeSplit { base_partition_count: usize, local_partition_count: LocalPartitionCount },
    /// Any other operator.
    Other,
}

/// How rows are assigned to the output partitions of an operator. Expressions are identified by
/// number: two expressions that compare equal have the same number.
#[derive(Debug, PartialEq, Eq)]
pub enum PartitionScheme {
    RoundRobin,
    Hash(Vec<usize>),
    Unknown,
}

/// What an operator demands of the partitioning of one of its inputs.
#[derive(Debug, PartialEq, Eq)]
pub enum Distribution {
    Unspecified,
    SinglePartition,
    HashPartitioned(Vec<usize>),
}

/// How the output partition count of an operator follows from those of its children when it is
/// rebuilt over new ones.
#[derive(Debug, Clone, Copy, PartialEq, Eq, Structural)]
pub enum PartitionRule {
    /// The count is the operator's own and stays as it is.
    Constant,
    /// The count of the child at this position.
    Inherit(usize),
    /// The counts of all children together.
    Sum,
    /// The count of the only child, times this factor.
    Scaled(usize),
}

/// Identifies the query that a stage belongs to.
#[derive(Debug, Clone, Copy, PartialEq, Eq)]
pub struct QueryId {
    pub bytes: [u8; 16],
}

impl QueryId {
    /// Whether the bits that mark a random id are set: four in the upper half of the seventh byte,
    /// and two in the upper quarter of the ninth.
    pub open spec fn is_random(self) -> bool {
        self.bytes@[6] as int / 16 == 4 && self.bytes@[8] as int / 64 == 2
    }
}

/// The stage that a network boundary reads from.
#[derive(Debug, Clone, Copy, PartialEq, Eq)]
pub struct InputStage {
    pub query_id: QueryId,
    pub num: usize,
    pub tasks: usize,
}

/// What the planning passes know of one operator, apart from its place in a plan.
#[derive(Debug, PartialEq, Eq)]
pub struct Operator {
    pub name: String,
    /// The caller's number for the operator, if it made it.
    pub handle: Option<usize>,
    pub kind: OperatorKind,
    /// The number of rows after which each output partition stops, if there is one.
    pub fetch: Option<usize>,
    pub cardinality_effect: CardinalityEffect,
    pub scheme: PartitionScheme,
    /// Pairs of expressions that are known to be equal in every row of the output.
    pub equal_exprs: Vec<(usize, usize)>,
    /// For each child, whether the operator gains from a partitioned input.
    pub benefits_from_input_partitioning: Vec<bool>,
    /// For each child, the demanded distribution.
    pub required_input_distribution: Vec<Distribution>,
    pub partition_rule: PartitionRule,
    /// Whether the operator can be rebuilt over other children.
    pub rebuildable: bool,
    /// For network boundaries, the stage on the other side.
    pub input_stage: Option<InputStage>,
}

/// One node of a plan.
#[derive(Debug, PartialEq, Eq)]
pub struct PlanNode {
    pub op: Arc<Operator>,
    pub partition_count: usize,
    /// The number of tasks that the node runs on, once it has been decided.
    pub task_count: Option<TaskCountAnnotation>,
    pub children: Vec<Arc<PlanNode>>,
}

/// A [`PartitionScheme`] with its expressions as a sequence.
pub enum SchemeView {
    RoundRobin,
    Hash(Seq<usize>),
    Unknown,
}

/// A [`Distribution`] with its expressions as a sequence.
pub enum DistributionView {
    Unspecified,
    SinglePartition,
    HashPartitioned(Seq<usize>),
}

/// An [`OperatorKind`] with plain numbers.
pub enum KindView {
    HashJoin(PartitionMode),
    Aggregate(AggregateMode),
    Repartition,
    CoalescePartitions,
    SortPreservingMerge,
    Union,
    ChildrenIsolatorUnion,
    Broadcast,
    NetworkShuffle,
    NetworkBroadcast,
    NetworkCoalesce,
    LocalExchangeSplit { base: usize, local: usize },
    Other,
}

/// An [`Operator`] with its texts and lists as sequences.
pub struct OperatorView {
    pub name: Seq<char>,
    pub handle: Option<usize>,
    pub kind: KindView,
    pub fetch: Option<usize>,
    pub cardinality_effect: CardinalityEffect,
    pub scheme: SchemeView,
    pub equal_exprs: Seq<(usize, usize)>,
    pub benefits: Seq<bool>,
    pub required: Seq<DistributionView>,
    pub partition_rule: PartitionRule,
    pub rebuildable: bool,
    pub input_stage: Option<InputStage>,
}

/// A plan: what a [`PlanNode`] and all the nodes below it amount to.
pub struct Plan {
    pub op: OperatorView,
    pub partition_count: usize,
    pub task_count: Option<TaskCountAnnotation>,
    pub children: Seq<Plan>,
}

impl View for OperatorKind {
    type V = KindView;

    open spec fn view(&self) -> KindView {
        match self {
            OperatorKind::HashJoin(mode) => KindView::HashJoin(*mode),
            OperatorKind::Aggregate(mode) => KindView::Aggregate(*mode),
            OperatorKind::Repartition => KindView::Repartition,
            OperatorKind::CoalescePartitions => KindView::CoalescePartitions,
            OperatorKind::SortPreservingMerge => KindView::SortPreservingMerge,
            OperatorKind::Union => KindView::Union,
            OperatorKind::ChildrenIsolatorUnion => KindView::ChildrenIsolatorUnion,
            OperatorKind::Broadcast => KindView::Broadcast,
            OperatorKind::NetworkShuffle => KindView::NetworkShuffle,
            OperatorKind::NetworkBroadcast => KindView::NetworkBroadcast,
            OperatorKind::NetworkCoalesce => KindView::NetworkCoalesce,
            OperatorKind::LocalExchangeSplit { base_partition_count, local_partition_count } => {
                KindView::LocalExchangeSplit {
                    base: *base_partition_count,
                    local: local_partition_count.value(),
                }
            },
            OperatorKind::Other => KindView::Other,
        }
    }
}

impl View for PartitionScheme {
    type V = SchemeView;

    open spec fn view(&self) -> SchemeView {
        match self {
            PartitionScheme::RoundRobin => SchemeView::RoundRobin,
            PartitionScheme::Hash(exprs) => SchemeView::Hash(exprs@),
            PartitionScheme::Unknown => SchemeView::Unknown,
        }
    }
}

impl View for Distribution {
    type V = DistributionView;

    open spec fn view(&self) -> DistributionView {
        match self {
            Distribution::Unspecified => DistributionView::Unspecified,
            Distribution::SinglePartition => DistributionView::SinglePartition,
            Distribution::HashPartitioned(exprs) => DistributionView::HashPartitioned(exprs@),
        }
    }
}

impl View for Operator {
    type V = OperatorView;

    open spec fn view(&self) -> OperatorView {
        OperatorView {
            name: self.name@,
            handle: self.handle,
            kind: self.kind@,
            fetch: self.fetch,
            cardinality_effect: self.cardinality_effect,
            scheme: self.scheme@,
            equal_exprs: self.equal_exprs@,
            benefits: self.benefits_from_input_partitioning@,
            required: self.required_input_distribution@.map_values(|d: Distribution| d@),
            partition_rule: self.partition_rule,
            rebuildable: self.rebuildable,
            input_stage: self.input_stage,
        }
    }
}

impl PlanNode {
    /// The plan below and including this node.
    pub open spec fn plan(&self) -> Plan
        decreases self,
    {
        Plan {
            op: self.op@,
            partition_count: self.partition_count,
            task_count: self.task_count,
            children: Seq::new(
                self.children@.len(),
                |i: int|
                    if 0 <= i < self.children@.len() {
                        self.children@[i].plan()
                    } else {
                        arbitrary()
                    },
            ),
        }
    }
}

/// The plans of a list of nodes.
pub open spec fn plans(nodes: Seq<Arc<PlanNode>>) -> Seq<Plan> {
    nodes.map_values(|node: Arc<PlanNode>| node.plan())
}

impl KindView {
    /// Whether the operator reads from a stage on the other side of the network.
    pub open spec fn is_network_boundary(self) -> bool {
        self is NetworkShuffle || self is NetworkBroadcast || self is NetworkCoalesce
    }
}

impl Plan {
    pub open spec fn is_network_boundary(self) -> bool {
        self.op.kind.is_network_boundary()
    }

    pub open spec fn is_leaf(self) -> bool {
        self.children.len() == 0
    }

    /// The same plan with a task count recorded at its root.
    pub open spec fn annotated(self, task_count: TaskCountAnnotation) -> Plan {
        Plan { task_count: Some(task_count), ..self }
    }
}

/// The partition counts of a list of plans, added up.
pub open spec fn total_partitions(children: Seq<Plan>) -> nat
    decreases children.len(),
{
    if children.len() == 0 {
        0
    } else {
        total_partitions(children.drop_last()) + children.last().partition_count as nat
    }
}

impl Plan {
    /// The output partition count after a rebuild over `children`, if there is one that fits.
    pub open spec fn rebuilt_count(self, children: Seq<Plan>) -> Option<usize> {
        match self.op.partition_rule {
            PartitionRule::Constant => Some(self.partition_count),
            PartitionRule::Inherit(child) => if child < children.len() {
                Some(children[child as int].partition_count)
            } else {
                None
            },
            PartitionRule::Sum => if total_partitions(children) <= usize::MAX {
                Some(total_partitions(children) as usize)
            } else {
                None
            },
            PartitionRule::Scaled(factor) => if children.len() == 1 && children[0].partition_count
                * factor <= usize::MAX {
                Some((children[0].partition_count * factor) as usize)
            } else {
                None
            },
        }
    }

    /// The plan with its children replaced. No task count is recorded for the new root.
    pub open spec fn rebuilt(self, children: Seq<Plan>) -> Result<Plan, PlanFailure> {
        if !self.op.rebuildable || children.len() != self.children.len() {
            Err(PlanFailure::CannotRebuild { operator: self.op.name })
        } else {
            match self.rebuilt_count(children) {
                Some(partition_count) => Ok(
                    Plan { op: self.op, partition_count, task_count: None, children },
                ),
                None => Err(PlanFailure::CannotRebuild { operator: self.op.name }),
            }
        }
    }
}

/// A shared pointer to the same value, by `Arc::clone`: "makes a clone of the `Arc` pointer. This
/// creates another pointer to the same allocation".
#[verifier::external_body]
pub(crate) fn share<T>(value: &Arc<T>) -> (shared: Arc<T>)
    ensures
        shared == *value,
{
    Arc::clone(value)
}

/// What a plan's children are, and their number.
pub proof fn lemma_plan_children(node: &PlanNode)
    ensures
        node.plan().children == plans(node.children@),
        node.plan().children.len() == node.children@.len(),
        forall|i: int|
            #![trigger node.children@[i]]
            #![trigger node.plan().children[i]]
            0 <= i < node.children@.len() ==> node.plan().children[i] == node.children@[i].plan(),
{
    assert(node.plan().children =~= plans(node.children@));
}

/// Extending a list of nodes by one extends the list of their plans by one.
pub proof fn lemma_plans_push(nodes: Seq<Arc<PlanNode>>, node: Arc<PlanNode>)
    ensures
        plans(nodes.push(node)) == plans(nodes).push(node.plan()),
        plans(Seq::<Arc<PlanNode>>::empty()) == Seq::<Plan>::empty(),
{
    assert(plans(nodes.push(node)) =~= plans(nodes).push(node.plan()));
    assert(plans(Seq::<Arc<PlanNode>>::empty()) =~= Seq::<Plan>::empty());
}

impl OperatorKind {
    pub fn is_network_boundary(&self) -> (yes: bool)
        ensures
            yes == self@.is_network_boundary(),
    {
        match self {
            OperatorKind::NetworkShuffle
            | OperatorKind::NetworkBroadcast
            | OperatorKind::NetworkCoalesce => true,
            _ => false,
        }
    }
}

impl PlanNode {
    /// Whether the node reads from a stage on the other side of the network.
    pub fn is_network_boundary(&self) -> (yes: bool)
        ensures
            yes == self.plan().is_network_boundary(),
    {
        self.op.kind.is_network_boundary()
    }

    /// The node over the same children, with `task_count` recorded.
    pub fn with_task_count(&self, task_count: TaskCountAnnotation) -> (node: Arc<PlanNode>)
        ensures
            node.plan() == self.plan().annotated(task_count),
    {
        let mut children: Vec<Arc<PlanNode>> = Vec::new();
        let mut i: usize = 0;
        while i < self.children.len()
            invariant
                i <= self.children@.len(),
                children@ == self.children@.take(i as int),
            decreases self.children@.len() - i,
        {
            children.push(share(&self.children[i]));
            assert(children@ =~= self.children@.take(i + 1));
            i = i + 1;
        }
        assert(children@ =~= self.children@);
        let node = Arc::new(
            PlanNode {
                op: share(&self.op),
                partition_count: self.partition_count,
                task_count: Some(task_count),
                children,
            },
        );
        proof {
            lemma_plan_children(self);
            lemma_plan_children(&*node);
        }
        node
    }

    /// The recorded task count.
    pub fn recorded_task_count(&self) -> (task_count: Result<TaskCountAnnotation, PlanError>)
        ensures
            match self.plan().task_count {
                Some(recorded) => task_count == Ok::<TaskCountAnnotation, PlanError>(recorded),
                None => task_count matches Err(error) && error@ == (PlanFailure::MissingTaskCount {
                    operator: self.plan().op.name,
                }),
            },
    {
        match self.task_count {
            Some(task_count) => Ok(task_count),
            None => Err(PlanError::MissingTaskCount { operator: self.op.name.clone() }),
        }
    }

    /// Rebuilds the node over new children.
    pub fn with_new_children(&self, children: Vec<Arc<PlanNode>>) -> (node: Result<
        Arc<PlanNode>,
        PlanError,
    >)
        ensures
            match self.plan().rebuilt(plans(children@)) {
                Ok(plan) => node matches Ok(node) && node.plan() == plan,
                Err(failure) => node matches Err(error) && error@ == failure,
            },
    {
        proof {
            lemma_plan_children(self);
        }
        if !self.op.rebuildable || children.len() != self.children.len() {
            return Err(PlanError::CannotRebuild { operator: self.op.name.clone() });
        }
        let partition_count: usize = match self.op.partition_rule {
            PartitionRule::Constant => self.partition_count,
            PartitionRule::Inherit(child) => {
                if child < children.len() {
                    children[child].partition_count
                } else {
                    return Err(PlanError::CannotRebuild { operator: self.op.name.clone() });
                }
            },
            PartitionRule::Scaled(factor) => {
                if children.len() != 1 {
                    return Err(PlanError::CannotRebuild { operator: self.op.name.clone() });
                }
                match children[0].partition_count.checked_mul(factor) {
                    Some(count) => count,
                    None => {
                        return Err(PlanError::CannotRebuild { operator: self.op.name.clone() });
                    },
                }
            },
            PartitionRule::Sum => {
                let mut total: usize = 0;
                let mut i: usize = 0;
                assert(plans(children@).take(0) =~= Seq::<Plan>::empty());
                while i < children.len()
                    invariant
                        i <= children@.len(),
                        self.op.partition_rule == PartitionRule::Sum,
                        self.op.rebuildable,
                        children@.len() == self.plan().children.len(),
                        total == total_partitions(plans(children@).take(i as int)),
                    decreases children@.len() - i,
                {
                    assert(plans(children@).take(i + 1).drop_last() =~= plans(children@).take(
                        i as int,
                    ));
                    match total.checked_add(children[i].partition_count) {
                        Some(sum) => {
                            total = sum;
                        },
                        None => {
                            proof {
                                lemma_total_partitions_grows(plans(children@), i + 1);
                            }
                            return Err(PlanError::CannotRebuild { operator: self.op.name.clone() });
                        },
                    }
                    i = i + 1;
                }
                assert(plans(children@).take(children@.len() as int) =~= plans(children@));
                total
            },
        };
        let node = Arc::new(
            PlanNode { op: share(&self.op), partition_count, task_count: None, children },
        );
        proof {
            lemma_plan_children(&*node);
        }
        Ok(node)
    }
}

proof fn lemma_total_partitions_grows(children: Seq<Plan>, n: int)
    requires
        0 <= n <= children.len(),
    ensures
        total_partitions(children.take(n)) <= total_partitions(children),
    decreases children.len() - n,
{
    if n < children.len() {
        lemma_total_partitions_grows(children, n + 1);
        assert(children.take(n + 1).drop_last() =~= children.take(n));
    } else {
        assert(children.take(n) =~= children);
    }
}

/// A copy of a list of flags.
pub(crate) fn copy_flags(flags: &Vec<bool>) -> (copy: Vec<bool>)
    ensures
        copy@ == flags@,
{
    let mut copy: Vec<bool> = Vec::new();
    let mut i: usize = 0;
    while i < flags.len()
        invariant
            i <= flags@.len(),
            copy@ == flags@.take(i as int),
        decreases flags@.len() - i,
    {
        copy.push(flags[i]);
        assert(copy@ =~= flags@.take(i + 1));
        i = i + 1;
    }
    assert(copy@ =~= flags@);
    copy
}

/// A copy of a list of distributions.
pub(crate) fn copy_distributions(distributions: &Vec<Distribution>) -> (copy: Vec<Distribution>)
    ensures
        copy@.map_values(|d: Distribution| d@) == distributions@.map_values(|d: Distribution| d@),
{
    let mut copy: Vec<Distribution> = Vec::new();
    let mut i: usize = 0;
    while i < distributions.len()
        invariant
            i <= distributions@.len(),
            copy@.len() == i,
            forall|j: int| 0 <= j < i ==> (#[trigger] copy@[j])@ == distributions@[j]@,
        decreases distributions@.len() - i,
    {
        copy.push(
            match &distributions[i] {
                Distribution::Unspecified => Distribution::Unspecified,
                Distribution::SinglePartition => Distribution::SinglePartition,
                Distribution::HashPartitioned(keys) => Distribution::HashPartitioned(
                    crate::split_input::copy_numbers(keys),
                ),
            },
        );
        i = i + 1;
    }
    assert(copy@.map_values(|d: Distribution| d@) =~= distributions@.map_values(
        |d: Distribution| d@,
    ));
    copy
}

}
