//! How the volume of data changes within a stage, and what that means for the stage after it.
use vstd::prelude::*;

use crate::plan::{CardinalityEffect, Plan, PlanNode};

verus! {

/// A factor on the volume of data, as an expression over the cardinality factor of the
/// configuration.
#[derive(Debug, PartialEq, Eq)]
pub enum ScaleFactor {
    /// The volume stays as it is.
    One,
    /// Divided by the cardinality factor.
    Divided(Box<ScaleFactor>),
    /// Multiplied by the cardinality factor.
    Multiplied(Box<ScaleFactor>),
    /// The larger of two factors.
    Larger(Box<ScaleFactor>, Box<ScaleFactor>),
}

/// Applies a factor to a number of tasks, rounding up. The cardinality factor is a fraction that
/// only the implementor knows.
pub trait TaskScale {
    /// The number of tasks that is left of `tasks` after `factor`.
    spec fn scaled(&self, factor: ScaleFactor, tasks: usize) -> usize;

    /// The number of tasks that is left of `tasks` after `factor`.
    fn scale(&self, factor: &ScaleFactor, tasks: usize) -> (scaled: usize)
        ensures
            scaled == self.scaled(*factor, tasks),
    ;
}

/// A cardinality factor of one, under which every factor is one.
#[derive(Debug, Clone, Copy)]
pub struct UnscaledTasks;

impl TaskScale for UnscaledTasks {
    open spec fn scaled(&self, factor: ScaleFactor, tasks: usize) -> usize {
        tasks
    }

    fn scale(&self, _factor: &ScaleFactor, tasks: usize) -> (scaled: usize) {
        tasks
    }
}

impl Plan {
    /// The factor between the bottom of the stage and its top: operators that may drop rows divide,
    /// operators that may add rows multiply, and of several inputs the largest counts.
    pub open spec fn scale_factor(self) -> ScaleFactor
        decreases self, 0nat,
    {
        if self.is_network_boundary() {
            ScaleFactor::One
        } else {
            let input = self.largest_scale_factor(self.children.len());
            match self.op.cardinality_effect {
                CardinalityEffect::LowerEqual => ScaleFactor::Divided(Box::new(input)),
                CardinalityEffect::GreaterEqual => ScaleFactor::Multiplied(Box::new(input)),
                _ => input,
            }
        }
    }

    /// The largest factor of the first `n` children.
    pub open spec fn largest_scale_factor(self, n: nat) -> ScaleFactor
        decreases self.children, n,
    {
        if n == 0 || n > self.children.len() {
            ScaleFactor::One
        } else if n == 1 {
            self.children[0].scale_factor()
        } else {
            ScaleFactor::Larger(
                Box::new(self.largest_scale_factor((n - 1) as nat)),
                Box::new(self.children[n - 1].scale_factor()),
            )
        }
    }
}

/// Describes how the data volume changes between the bottom of the stage, at network boundaries and
/// leaves, and `plan` itself.
pub fn calculate_scale_factor(plan: &PlanNode) -> (factor: ScaleFactor)
    ensures
        factor == plan.plan().scale_factor(),
    decreases plan.plan(),
{
    proof {
        crate::plan::lemma_plan_children(plan);
    }
    if plan.is_network_boundary() {
        return ScaleFactor::One;
    }
    let mut factor = ScaleFactor::One;
    let mut i: usize = 0;
    while i < plan.children.len()
        invariant
            i <= plan.children@.len(),
            plan.plan().children.len() == plan.children@.len(),
            forall|j: int|
                #![trigger plan.children@[j]]
                0 <= j < plan.children@.len() ==> plan.plan().children[j]
                    == plan.children@[j].plan(),
            factor == plan.plan().largest_scale_factor(i as nat),
        decreases plan.children@.len() - i,
    {
        assert(plan.plan().children[i as int] == plan.children@[i as int].plan());
        let child = calculate_scale_factor(&plan.children[i]);
        factor = if i == 0 {
            child
        } else {
            ScaleFactor::Larger(Box::new(factor), Box::new(child))
        };
        i = i + 1;
    }
    match plan.op.cardinality_effect {
        CardinalityEffect::LowerEqual => ScaleFactor::Divided(Box::new(factor)),
        CardinalityEffect::GreaterEqual => ScaleFactor::Multiplied(Box::new(factor)),
        _ => factor,
    }
}

/// The factor of a stage does not look behind its network boundaries.
pub proof fn law_boundaries_start_at_one(plan: Plan)
    requires
        plan.is_network_boundary(),
    ensures
        plan.scale_factor() == ScaleFactor::One,
{
}

}
