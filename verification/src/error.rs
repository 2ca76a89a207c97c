//! Errors of the planning functions.
use vstd::prelude::*;

verus! {

/// The three shapes of a network exchange.
#[derive(Debug, Clone, Copy, PartialEq, Eq, Structural)]
pub enum ExchangeKind {
    Shuffle,
    Coalesce,
    Broadcast,
}

/// A count that an exchange layout is built from.
#[derive(Debug, Clone, Copy, PartialEq, Eq, Structural)]
pub enum ExchangeParameter {
    ProducerTaskCount,
    ConsumerTaskCount,
    PartitionsPerConsumer,
    PartitionsPerProducerTask,
}

/// Why a plan could not be built or rewritten.
#[derive(Debug, PartialEq, Eq)]
pub enum PlanError {
    /// An exchange layout was asked for with a count of zero.
    ZeroExchangeParameter { exchange: ExchangeKind, parameter: ExchangeParameter },
    /// A coalesce boundary was given the layout of another exchange kind.
    NotACoalesceLayout,
    /// A node was asked for its task count before one was recorded.
    MissingTaskCount { operator: String },
    /// An operator cannot be rebuilt with the children it was given.
    CannotRebuild { operator: String },
    /// The local exchange split mode of the configuration is not a known one.
    UnknownSplitMode { mode: String },
    /// The workers of the cluster could not be listed.
    WorkersUnavailable { reason: String },
    /// Task counts could not be divided among the children of a union.
    UnionTaskCounts,
    /// An operator would expose more partitions than can be counted.
    TooManyPartitions { operator: String },
}

/// A [`PlanError`] with its texts as character sequences.
pub enum PlanFailure {
    ZeroExchangeParameter { exchange: ExchangeKind, parameter: ExchangeParameter },
    NotACoalesceLayout,
    MissingTaskCount { operator: Seq<char> },
    CannotRebuild { operator: Seq<char> },
    UnknownSplitMode { mode: Seq<char> },
    WorkersUnavailable { reason: Seq<char> },
    UnionTaskCounts,
    TooManyPartitions { operator: Seq<char> },
}

impl View for PlanError {
    type V = PlanFailure;

    open spec fn view(&self) -> PlanFailure {
        match self {
            PlanError::ZeroExchangeParameter { exchange, parameter } => {
                PlanFailure::ZeroExchangeParameter { exchange: *exchange, parameter: *parameter }
            },
            PlanError::NotACoalesceLayout => PlanFailure::NotACoalesceLayout,
            PlanError::MissingTaskCount { operator } => PlanFailure::MissingTaskCount {
                operator: operator@,
            },
            PlanError::CannotRebuild { operator } => PlanFailure::CannotRebuild {
                operator: operator@,
            },
            PlanError::UnknownSplitMode { mode } => PlanFailure::UnknownSplitMode { mode: mode@ },
            PlanError::WorkersUnavailable { reason } => PlanFailure::WorkersUnavailable {
                reason: reason@,
            },
            PlanError::UnionTaskCounts => PlanFailure::UnionTaskCounts,
            PlanError::TooManyPartitions { operator } => PlanFailure::TooManyPartitions {
                operator: operator@,
            },
        }
    }
}

/// Why a stage could not be executed.
#[derive(Debug, PartialEq, Eq)]
pub enum ExecutionError {
    /// A task was asked to run with an index that is not below the number of tasks.
    InvalidTaskContext { task_index: usize, task_count: usize },
    /// A connection pool was asked for a task that it has no slot for.
    NoConnectionSlot { task: usize, slots: usize },
    /// A stage was asked for a task that it does not have.
    TaskNotFound { task: usize },
    /// A task of a stage has no worker yet.
    UnassignedTask,
    /// The plan of a stage was to be sent before it was encoded.
    PlanNotEncoded,
    /// A message belongs to a partition that was not asked for.
    UnexpectedPartition { received: u64, start: usize, end: usize },
    /// The stream of a partition was asked for twice, or was never there.
    NoPartitionStream { partition: usize },
    /// A request has no room for another header.
    TooManyHeaders,
}

impl Clone for ExecutionError {
    fn clone(&self) -> (copy: Self)
        ensures
            copy == *self,
    {
        match self {
            ExecutionError::InvalidTaskContext { task_index, task_count } => {
                ExecutionError::InvalidTaskContext {
                    task_index: *task_index,
                    task_count: *task_count,
                }
            },
            ExecutionError::NoConnectionSlot { task, slots } => {
                ExecutionError::NoConnectionSlot { task: *task, slots: *slots }
            },
            ExecutionError::TaskNotFound { task } => ExecutionError::TaskNotFound { task: *task },
            ExecutionError::UnassignedTask => ExecutionError::UnassignedTask,
            ExecutionError::PlanNotEncoded => ExecutionError::PlanNotEncoded,
            ExecutionError::UnexpectedPartition { received, start, end } => {
                ExecutionError::UnexpectedPartition {
                    received: *received,
                    start: *start,
                    end: *end,
                }
            },
            ExecutionError::NoPartitionStream { partition } => {
                ExecutionError::NoPartitionStream { partition: *partition }
            },
            ExecutionError::TooManyHeaders => ExecutionError::TooManyHeaders,
        }
    }
}

}
