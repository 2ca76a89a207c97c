//! Stages: the parts of a plan that run on one set of tasks.
use std::sync::Arc;
use vstd::prelude::*;

use crate::plan::{PlanNode, QueryId};

verus! {

/// One task of a stage, and the worker that it is assigned to.
#[derive(Debug, PartialEq, Eq)]
pub struct ExecutionTask {
    pub url: Option<String>,
}

/// A stage that a network boundary reads from. The plan is absent on the workers that only consume
/// its output.
#[derive(Debug, PartialEq, Eq)]
pub struct Stage {
    pub query_id: QueryId,
    pub num: usize,
    pub plan: Option<Arc<PlanNode>>,
    pub tasks: Vec<ExecutionTask>,
}

/// As many tasks, none of them assigned to a worker yet.
pub fn unassigned_tasks(count: usize) -> (tasks: Vec<ExecutionTask>)
    ensures
        tasks@.len() == count,
        forall|i: int| 0 <= i < count ==> (#[trigger] tasks@[i]).url is None,
{
    let mut tasks: Vec<ExecutionTask> = Vec::new();
    while tasks.len() < count
        invariant
            tasks@.len() <= count,
            forall|i: int| 0 <= i < tasks@.len() ==> (#[trigger] tasks@[i]).url is None,
        decreases count - tasks@.len(),
    {
        tasks.push(ExecutionTask { url: None });
    }
    tasks
}

}
