//! The operators that connect two stages over the network.
use std::sync::Arc;
use vstd::prelude::*;

use crate::plan::{
    CardinalityEffect, Distribution, DistributionView, InputStage, KindView, Operator,
    OperatorKind, OperatorView, PartitionRule, PartitionScheme, Plan, PlanNode,
};
use crate::split_input::{copy_numbers, copy_pairs};

verus! {

/// The three network boundaries.
#[derive(Debug, Clone, Copy, PartialEq, Eq, Structural)]
pub enum BoundaryKind {
    Shuffle,
    Broadcast,
    Coalesce,
}

impl BoundaryKind {
    pub open spec fn kind(self) -> KindView {
        match self {
            BoundaryKind::Shuffle => KindView::NetworkShuffle,
            BoundaryKind::Broadcast => KindView::NetworkBroadcast,
            BoundaryKind::Coalesce => KindView::NetworkCoalesce,
        }
    }

    pub open spec fn operator_name(self) -> Seq<char> {
        match self {
            BoundaryKind::Shuffle => "NetworkShuffleExec"@,
            BoundaryKind::Broadcast => "NetworkBroadcastExec"@,
            BoundaryKind::Coalesce => "NetworkCoalesceExec"@,
        }
    }

    /// The name of the operator.
    pub fn name(self) -> (name: &'static str)
        ensures
            name@ == self.operator_name(),
    {
        match self {
            BoundaryKind::Shuffle => "NetworkShuffleExec",
            BoundaryKind::Broadcast => "NetworkBroadcastExec",
            BoundaryKind::Coalesce => "NetworkCoalesceExec",
        }
    }
}

impl Plan {
    /// The stage that runs this plan, behind a network boundary that keeps its partitioning scheme
    /// and exposes `count` partitions.
    pub open spec fn behind_boundary(
        self,
        boundary: BoundaryKind,
        count: usize,
        stage: InputStage,
    ) -> Plan {
        Plan {
            op: OperatorView {
                name: boundary.operator_name(),
                handle: None,
                kind: boundary.kind(),
                fetch: None,
                cardinality_effect: CardinalityEffect::Unknown,
                scheme: self.op.scheme,
                equal_exprs: self.op.equal_exprs,
                benefits: seq![false],
                required: seq![DistributionView::Unspecified],
                partition_rule: PartitionRule::Constant,
                rebuildable: true,
                input_stage: Some(stage),
            },
            partition_count: count,
            task_count: None,
            children: seq![self],
        }
    }
}

/// A copy of a partitioning scheme.
pub(crate) fn copy_scheme(scheme: &PartitionScheme) -> (copy: PartitionScheme)
    ensures
        copy@ == scheme@,
{
    match scheme {
        PartitionScheme::RoundRobin => PartitionScheme::RoundRobin,
        PartitionScheme::Hash(exprs) => PartitionScheme::Hash(copy_numbers(exprs)),
        PartitionScheme::Unknown => PartitionScheme::Unknown,
    }
}

/// Puts a network boundary above the plan of a closed stage.
pub fn boundary_above(
    plan: Arc<PlanNode>,
    boundary: BoundaryKind,
    count: usize,
    stage: InputStage,
) -> (node: PlanNode)
    ensures
        node.plan() == plan.plan().behind_boundary(boundary, count, stage),
{
    let kind = match boundary {
        BoundaryKind::Shuffle => OperatorKind::NetworkShuffle,
        BoundaryKind::Broadcast => OperatorKind::NetworkBroadcast,
        BoundaryKind::Coalesce => OperatorKind::NetworkCoalesce,
    };
    let mut benefits: Vec<bool> = Vec::new();
    benefits.push(false);
    let mut required: Vec<Distribution> = Vec::new();
    required.push(Distribution::Unspecified);
    let op = Arc::new(
        Operator {
            name: boundary.name().to_owned(),
            handle: None,
            kind,
            fetch: None,
            cardinality_effect: CardinalityEffect::Unknown,
            scheme: copy_scheme(&plan.op.scheme),
            equal_exprs: copy_pairs(&plan.op.equal_exprs),
            benefits_from_input_partitioning: benefits,
            required_input_distribution: required,
            partition_rule: PartitionRule::Constant,
            rebuildable: true,
            input_stage: Some(stage),
        },
    );
    let ghost below = plan.plan();
    let mut children: Vec<Arc<PlanNode>> = Vec::new();
    children.push(plan);
    let node = PlanNode { op, partition_count: count, task_count: None, children };
    proof {
        crate::plan::lemma_plan_children(&node);
        let expected = below.behind_boundary(boundary, count, stage);
        assert(node.plan().children =~= expected.children);
        assert(node.op@.required =~= expected.op.required);
        assert(node.op@.benefits =~= expected.op.benefits);
    }
    node
}

}
