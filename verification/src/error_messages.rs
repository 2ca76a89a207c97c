//! The texts that errors are reported with.
use vstd::prelude::*;
use vstd::string::*;

use crate::error::{ExchangeKind, ExchangeParameter, ExecutionError, PlanError, PlanFailure};
use crate::text::push_decimal;

verus! {

impl ExchangeKind {
    pub open spec fn word(self) -> Seq<char> {
        match self {
            ExchangeKind::Shuffle => "shuffle"@,
            ExchangeKind::Coalesce => "coalesce"@,
            ExchangeKind::Broadcast => "broadcast"@,
        }
    }

    /// The word for the exchange.
    pub fn as_str(self) -> (word: &'static str)
        ensures
            word@ == self.word(),
    {
        match self {
            ExchangeKind::Shuffle => "shuffle",
            ExchangeKind::Coalesce => "coalesce",
            ExchangeKind::Broadcast => "broadcast",
        }
    }
}

impl ExchangeParameter {
    pub open spec fn word(self) -> Seq<char> {
        match self {
            ExchangeParameter::ProducerTaskCount => "producer_task_count"@,
            ExchangeParameter::ConsumerTaskCount => "consumer_task_count"@,
            ExchangeParameter::PartitionsPerConsumer => "partitions_per_consumer"@,
            ExchangeParameter::PartitionsPerProducerTask => "partitions_per_producer_task"@,
        }
    }

    /// The name of the parameter.
    pub fn as_str(self) -> (word: &'static str)
        ensures
            word@ == self.word(),
    {
        match self {
            ExchangeParameter::ProducerTaskCount => "producer_task_count",
            ExchangeParameter::ConsumerTaskCount => "consumer_task_count",
            ExchangeParameter::PartitionsPerConsumer => "partitions_per_consumer",
            ExchangeParameter::PartitionsPerProducerTask => "partitions_per_producer_task",
        }
    }
}

impl PlanFailure {
    /// The text of the error.
    pub open spec fn text(self) -> Seq<char> {
        match self {
            PlanFailure::ZeroExchangeParameter { exchange, parameter } => {
                exchange.word() + " exchange requires "@ + parameter.word() + " > 0"@
            },
            PlanFailure::NotACoalesceLayout => {
                "NetworkCoalesceExec requires a coalesce exchange layout"@
            },
            PlanFailure::MissingTaskCount { operator } => {
                "Missing task count for node "@ + operator
                    + ". This is a bug in Distributed DataFusion's planner, please report it."@
            },
            PlanFailure::CannotRebuild { operator } => {
                "Cannot rebuild "@ + operator + " with new children"@
            },
            PlanFailure::UnknownSplitMode { mode } => "Unknown local exchange split mode "@ + mode,
            PlanFailure::WorkersUnavailable { reason } => reason,
            PlanFailure::UnionTaskCounts => "Cannot divide the tasks of a union among its children"@,
            PlanFailure::TooManyPartitions { operator } => {
                operator + " would expose more partitions than can be counted"@
            },
        }
    }
}

impl PlanError {
    /// The text of the error.
    pub fn message(&self) -> (message: String)
        ensures
            message@ == self@.text(),
    {
        let mut message = String::new();
        match self {
            PlanError::ZeroExchangeParameter { exchange, parameter } => {
                message.append(exchange.as_str());
                message.append(" exchange requires ");
                message.append(parameter.as_str());
                message.append(" > 0");
            },
            PlanError::NotACoalesceLayout => {
                message.append("NetworkCoalesceExec requires a coalesce exchange layout");
            },
            PlanError::MissingTaskCount { operator } => {
                message.append("Missing task count for node ");
                message.append(operator.as_str());
                message.append(
                    ". This is a bug in Distributed DataFusion's planner, please report it.",
                );
            },
            PlanError::CannotRebuild { operator } => {
                message.append("Cannot rebuild ");
                message.append(operator.as_str());
                message.append(" with new children");
            },
            PlanError::UnknownSplitMode { mode } => {
                message.append("Unknown local exchange split mode ");
                message.append(mode.as_str());
            },
            PlanError::WorkersUnavailable { reason } => {
                message.append(reason.as_str());
            },
            PlanError::UnionTaskCounts => {
                message.append("Cannot divide the tasks of a union among its children");
            },
            PlanError::TooManyPartitions { operator } => {
                message.append(operator.as_str());
                message.append(" would expose more partitions than can be counted");
            },
        }
        assert(message@ =~= self@.text());
        message
    }
}

impl ExecutionError {
    /// The text of the error.
    pub open spec fn text(self) -> Seq<char> {
        match self {
            ExecutionError::InvalidTaskContext { task_index, task_count } => {
                "NetworkCoalesceExec invalid task context: task_index="@ + crate::text::decimal(
                    task_index as nat,
                ) + " >= task_count="@ + crate::text::decimal(task_count as nat)
            },
            ExecutionError::NoConnectionSlot { task, slots } => {
                "WorkerConnections: Task index "@ + crate::text::decimal(task as nat)
                    + " not found, only have "@ + crate::text::decimal(slots as nat) + " tasks"@
            },
            ExecutionError::TaskNotFound { task } => {
                "ProgrammingError: Task "@ + crate::text::decimal(task as nat) + " not found"@
            },
            ExecutionError::UnassignedTask => {
                "ProgrammingError: task is unassigned, cannot proceed"@
            },
            ExecutionError::PlanNotEncoded => "The plan of the stage is not encoded"@,
            ExecutionError::UnexpectedPartition { received, start, end } => {
                "Received partition "@ + crate::text::decimal(received as nat)
                    + " in Flight metadata, but available partitions are "@ + crate::text::decimal(
                    start as nat,
                ) + ".."@ + crate::text::decimal(end as nat)
            },
            ExecutionError::NoPartitionStream { partition } => {
                "WorkerConnection has no stream for target partition "@ + crate::text::decimal(
                    partition as nat,
                ) + ". Was it already consumed?"@
            },
            ExecutionError::TooManyHeaders => "The request has no room for another header"@,
        }
    }

    /// The text of the error.
    pub fn message(&self) -> (message: String)
        ensures
            message@ == self.text(),
    {
        let mut message = String::new();
        match self {
            ExecutionError::InvalidTaskContext { task_index, task_count } => {
                message.append("NetworkCoalesceExec invalid task context: task_index=");
                push_decimal(&mut message, *task_index as u128);
                message.append(" >= task_count=");
                push_decimal(&mut message, *task_count as u128);
            },
            ExecutionError::NoConnectionSlot { task, slots } => {
                message.append("WorkerConnections: Task index ");
                push_decimal(&mut message, *task as u128);
                message.append(" not found, only have ");
                push_decimal(&mut message, *slots as u128);
                message.append(" tasks");
            },
            ExecutionError::TaskNotFound { task } => {
                message.append("ProgrammingError: Task ");
                push_decimal(&mut message, *task as u128);
                message.append(" not found");
            },
            ExecutionError::UnassignedTask => {
                message.append("ProgrammingError: task is unassigned, cannot proceed");
            },
            ExecutionError::PlanNotEncoded => {
                message.append("The plan of the stage is not encoded");
            },
            ExecutionError::UnexpectedPartition { received, start, end } => {
                message.append("Received partition ");
                push_decimal(&mut message, *received as u128);
                message.append(" in Flight metadata, but available partitions are ");
                push_decimal(&mut message, *start as u128);
                message.append("..");
                push_decimal(&mut message, *end as u128);
            },
            ExecutionError::NoPartitionStream { partition } => {
                message.append("WorkerConnection has no stream for target partition ");
                push_decimal(&mut message, *partition as u128);
                message.append(". Was it already consumed?");
            },
            ExecutionError::TooManyHeaders => {
                message.append("The request has no room for another header");
            },
        }
        assert(message@ =~= self.text());
        message
    }
}

}
