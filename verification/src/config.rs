//! Configuration of the distributed planner.
use vstd::prelude::*;

use crate::error::{PlanError, PlanFailure};

verus! {

/// Do not insert local exchange splits.
pub const LOCAL_EXCHANGE_SPLIT_MODE_OFF: &'static str = "off";

/// Insert local exchange splits above final partitioned aggregates only.
pub const LOCAL_EXCHANGE_SPLIT_MODE_FINAL_AGG: &'static str = "final_agg";

/// Insert local exchange splits above final partitioned aggregates and partitioned hash joins.
pub const LOCAL_EXCHANGE_SPLIT_MODE_FINAL_AGG_AND_JOIN: &'static str = "final_agg_and_join";

/// The settings that the planning passes read.
#[derive(Debug, PartialEq, Eq)]
pub struct DistributedConfig {
    /// The cap on the number of tasks of a stage; zero leaves it to the number of workers.
    pub max_tasks_per_stage: usize,
    /// Whether joins that collect their left side may broadcast it.
    pub broadcast_joins: bool,
    /// Whether the children of unions run in tasks of their own.
    pub children_isolator_unions: bool,
    /// Whether workers report the metrics of the plans they ran.
    pub collect_metrics: bool,
    /// Where local exchange splits are inserted.
    pub local_exchange_split_mode: String,
    /// Shuffles of which a task reads more partitions than this are not split.
    pub local_exchange_split_max_owned_partitions: usize,
    /// The number of partitions that a split aims for in each task.
    pub local_exchange_split_target_partitions_per_task: usize,
}

impl DistributedConfig {
    pub open spec fn splits_are_off(self) -> bool {
        self.local_exchange_split_mode@ == LOCAL_EXCHANGE_SPLIT_MODE_OFF@
    }

    pub open spec fn splits_joins(self) -> bool {
        self.local_exchange_split_mode@ == LOCAL_EXCHANGE_SPLIT_MODE_FINAL_AGG_AND_JOIN@
    }

    pub open spec fn splits_final_aggs(self) -> bool {
        ||| self.local_exchange_split_mode@ == LOCAL_EXCHANGE_SPLIT_MODE_FINAL_AGG@
        ||| self.local_exchange_split_mode@ == LOCAL_EXCHANGE_SPLIT_MODE_FINAL_AGG_AND_JOIN@
    }

    /// Whether the split mode is one of the three known ones.
    pub open spec fn known_split_mode(self) -> bool {
        self.splits_are_off() || self.splits_final_aggs()
    }

    /// Accepts the three known split modes.
    pub fn validate_local_exchange_split_mode(&self) -> (verdict: Result<(), PlanError>)
        ensures
            match verdict {
                Ok(_) => self.known_split_mode(),
                Err(error) => !self.known_split_mode() && error@ == (PlanFailure::UnknownSplitMode {
                    mode: self.local_exchange_split_mode@,
                }),
            },
    {
        if self.local_exchange_split_mode_is_off() || self.local_exchange_split_mode_allows_final_agg() {
            Ok(())
        } else {
            Err(PlanError::UnknownSplitMode { mode: self.local_exchange_split_mode.clone() })
        }
    }

    pub fn local_exchange_split_mode_is_off(&self) -> (off: bool)
        ensures
            off == self.splits_are_off(),
    {
        self.local_exchange_split_mode == LOCAL_EXCHANGE_SPLIT_MODE_OFF.to_owned()
    }

    pub fn local_exchange_split_mode_allows_partitioned_join(&self) -> (allowed: bool)
        ensures
            allowed == self.splits_joins(),
    {
        self.local_exchange_split_mode == LOCAL_EXCHANGE_SPLIT_MODE_FINAL_AGG_AND_JOIN.to_owned()
    }

    pub fn local_exchange_split_mode_allows_final_agg(&self) -> (allowed: bool)
        ensures
            allowed == self.splits_final_aggs(),
    {
        self.local_exchange_split_mode == LOCAL_EXCHANGE_SPLIT_MODE_FINAL_AGG.to_owned()
            || self.local_exchange_split_mode_allows_partitioned_join()
    }
}

}
