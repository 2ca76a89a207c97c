//! How many tasks the operators of a plan should run on.
use std::sync::Arc;
use vstd::prelude::*;

use crate::plan::{Plan, PlanNode};
use crate::task_count::{TaskCountAnnotation, TaskEstimation};

verus! {

/// Estimates the number of tasks for an operator. Users of the planner bring their own estimators
/// for their own operators; an estimator has no opinion on operators that it does not know.
pub trait TaskEstimator {
    /// The estimate for an operator, if there is one.
    spec fn estimated(&self, plan: Plan) -> Option<TaskCountAnnotation>;

    /// What a leaf is replaced by when it is to run on `tasks` tasks, if it is replaced.
    spec fn scaled_leaf(&self, plan: Plan, tasks: usize) -> Option<Plan>;

    /// Estimates the number of tasks for an operator.
    fn task_estimation(&self, plan: &Arc<PlanNode>) -> (estimation: Option<TaskEstimation>)
        ensures
            match self.estimated(plan.plan()) {
                Some(task_count) => estimation matches Some(estimation) && estimation.task_count
                    == task_count,
                None => estimation is None,
            },
    ;

    /// Prepares a leaf for running on several tasks.
    fn scale_up_leaf_node(&self, plan: &Arc<PlanNode>, tasks: usize) -> (scaled: Option<
        Arc<PlanNode>,
    >)
        ensures
            match self.scaled_leaf(plan.plan(), tasks) {
                Some(leaf) => scaled matches Some(scaled) && scaled.plan() == leaf,
                None => scaled is None,
            },
    ;
}

/// The estimator without an opinion on any operator: nothing is distributed.
#[derive(Debug, Clone, Copy)]
pub struct NoTaskEstimates;

impl TaskEstimator for NoTaskEstimates {
    open spec fn estimated(&self, plan: Plan) -> Option<TaskCountAnnotation> {
        None
    }

    open spec fn scaled_leaf(&self, plan: Plan, tasks: usize) -> Option<Plan> {
        None
    }

    fn task_estimation(&self, _plan: &Arc<PlanNode>) -> (estimation: Option<TaskEstimation>) {
        None
    }

    fn scale_up_leaf_node(&self, _plan: &Arc<PlanNode>, _tasks: usize) -> (scaled: Option<
        Arc<PlanNode>,
    >) {
        None
    }
}

}
