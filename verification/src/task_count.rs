//! How many tasks a plan node runs on.
use vstd::prelude::*;

verus! {

/// The task count recorded for a plan node.
#[derive(Debug, Clone, Copy, PartialEq, Eq, Structural)]
pub enum TaskCountAnnotation {
    /// A count that parallelism would profit from. It yields to larger desires and to maxima.
    Desired(usize),
    /// A count that must not be exceeded, by this node or by any node of its stage.
    Maximum(usize),
}

impl TaskCountAnnotation {
    pub open spec fn count(self) -> usize {
        match self {
            TaskCountAnnotation::Desired(count) => count,
            TaskCountAnnotation::Maximum(count) => count,
        }
    }

    /// The count of two nodes that share a stage: the biggest desire wins, unless a maximum is
    /// given, and among maxima the smallest is respected.
    pub open spec fn merged(self, other: Self) -> Self {
        match (self, other) {
            (TaskCountAnnotation::Desired(a), TaskCountAnnotation::Desired(b)) => {
                TaskCountAnnotation::Desired(
                    if a >= b {
                        a
                    } else {
                        b
                    },
                )
            },
            (TaskCountAnnotation::Maximum(a), TaskCountAnnotation::Desired(_)) => self,
            (TaskCountAnnotation::Desired(_), TaskCountAnnotation::Maximum(b)) => other,
            (TaskCountAnnotation::Maximum(a), TaskCountAnnotation::Maximum(b)) => {
                TaskCountAnnotation::Maximum(
                    if a <= b {
                        a
                    } else {
                        b
                    },
                )
            },
        }
    }

    /// The annotation capped at `limit`.
    pub open spec fn limited(self, limit: usize) -> Self {
        match self {
            TaskCountAnnotation::Desired(count) => TaskCountAnnotation::Desired(
                if count <= limit {
                    count
                } else {
                    limit
                },
            ),
            TaskCountAnnotation::Maximum(count) => TaskCountAnnotation::Maximum(
                if count <= limit {
                    count
                } else {
                    limit
                },
            ),
        }
    }

    pub fn as_usize(&self) -> (count: usize)
        ensures
            count == self.count(),
    {
        match self {
            TaskCountAnnotation::Desired(count) => *count,
            TaskCountAnnotation::Maximum(count) => *count,
        }
    }

    /// Reconciles the counts of two nodes that run in one stage.
    pub fn merge(self, other: Self) -> (merged: Self)
        ensures
            merged == self.merged(other),
    {
        match (self, other) {
            (TaskCountAnnotation::Desired(a), TaskCountAnnotation::Desired(b)) => {
                if a >= b {
                    self
                } else {
                    other
                }
            },
            (TaskCountAnnotation::Maximum(_), TaskCountAnnotation::Desired(_)) => self,
            (TaskCountAnnotation::Desired(_), TaskCountAnnotation::Maximum(_)) => other,
            (TaskCountAnnotation::Maximum(a), TaskCountAnnotation::Maximum(b)) => {
                if a <= b {
                    self
                } else {
                    other
                }
            },
        }
    }

    /// Caps the count by the budget of a stage.
    pub fn limit(self, limit: usize) -> (limited: Self)
        ensures
            limited == self.limited(limit),
    {
        match self {
            TaskCountAnnotation::Desired(count) => {
                if count <= limit {
                    self
                } else {
                    TaskCountAnnotation::Desired(limit)
                }
            },
            TaskCountAnnotation::Maximum(count) => {
                if count <= limit {
                    self
                } else {
                    TaskCountAnnotation::Maximum(limit)
                }
            },
        }
    }
}

/// Reconciling task counts does not depend on the order in which the nodes of a stage are met.
pub proof fn law_merge_is_order_independent(
    a: TaskCountAnnotation,
    b: TaskCountAnnotation,
    c: TaskCountAnnotation,
)
    ensures
        a.merged(b) == b.merged(a),
        a.merged(b).merged(c) == a.merged(b.merged(c)),
        a.merged(a) == a,
{
}

/// A maximum given by any node of a stage is respected by the reconciled count.
pub proof fn law_merge_respects_maxima(a: TaskCountAnnotation, b: TaskCountAnnotation)
    ensures
        a is Maximum ==> a.merged(b) is Maximum && a.merged(b).count() <= a.count(),
        b is Maximum ==> a.merged(b) is Maximum && a.merged(b).count() <= b.count(),
        !(a is Maximum) && !(b is Maximum) ==> a.merged(b).count() >= a.count() && a.merged(
            b,
        ).count() >= b.count(),
{
}

/// A capped count is within the budget and keeps its kind; capping twice changes nothing more.
pub proof fn law_limit_is_a_cap(a: TaskCountAnnotation, limit: usize)
    ensures
        a.limited(limit).count() <= limit,
        a.limited(limit).count() <= a.count(),
        a.limited(limit) is Maximum <==> a is Maximum,
        a.count() <= limit ==> a.limited(limit) == a,
        a.limited(limit).limited(limit) == a.limited(limit),
{
}

/// The number of tasks that a task estimator proposes for a node.
#[derive(Debug, Clone, Copy, PartialEq, Eq, Structural)]
pub struct TaskEstimation {
    pub task_count: TaskCountAnnotation,
}

impl TaskEstimation {
    pub fn desired(count: usize) -> (estimation: Self)
        ensures
            estimation.task_count == TaskCountAnnotation::Desired(count),
    {
        TaskEstimation { task_count: TaskCountAnnotation::Desired(count) }
    }

    pub fn maximum(count: usize) -> (estimation: Self)
        ensures
            estimation.task_count == TaskCountAnnotation::Maximum(count),
    {
        TaskEstimation { task_count: TaskCountAnnotation::Maximum(count) }
    }
}

}
