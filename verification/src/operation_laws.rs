//! What the operations of the library promise of their results, told by their inputs alone.
use std::sync::Arc;
use vstd::prelude::*;

use datafusion::arrow::ipc::writer::DictionaryTracker;

use crate::app_metadata::BatchMetadata;
use crate::benchmark_run::{BenchQuery, BenchmarkRun, Comparison, Elapsed, RunContext};
use crate::config::DistributedConfig;
use crate::data_type::{Field, Schema};
use crate::error::{ExchangeKind, ExecutionError, PlanError};
use crate::exchange_assignment::{ExchangeLayout, SlotReadPlan};
use crate::memory_footprint::MemoryFootPrint;
use crate::network_coalesce::{CoalesceRead, NetworkCoalesceExec};
use crate::plan::{PlanNode, QueryId};
use crate::scale_factor::{ScaleFactor, TaskScale};
use crate::split_input::{SplitInput, Transformed};
use crate::task_count::TaskCountAnnotation;
use crate::task_estimator::TaskEstimator;
use crate::union_layout::UnionLayout;

verus! {

/// The average of a case, taken as often as there are iterations, falls short of the time that all
/// of them took by less than one millisecond each.
pub proof fn law_averages_are_means(case: &BenchQuery, millis: u128)
    requires
        case.iterations@.len() > 0,
        call_ensures(BenchQuery::avg, (case,), millis),
    ensures
        ({
            let count = case.iterations@.len();
            let time = crate::report_laws::time_spent(case.iterations@);
            millis * count <= time < (millis + 1) * count
        }),
{
    crate::report_laws::law_the_average_accounts_for_every_iteration(*case);
}

/// A shuffle, a coalesce or a broadcast is laid out exactly if no count that it needs is zero, and
/// then it has the counts that were given.
pub proof fn law_layouts_are_built_unless_a_count_is_zero(
    producers: usize,
    consumers: usize,
    partitions: usize,
    shuffle: Result<Arc<ExchangeLayout>, PlanError>,
    coalesce: Result<Arc<ExchangeLayout>, PlanError>,
    broadcast: Result<Arc<ExchangeLayout>, PlanError>,
)
    requires
        call_ensures(ExchangeLayout::try_shuffle, (producers, consumers, partitions), shuffle),
        call_ensures(ExchangeLayout::try_coalesce, (producers, consumers, partitions), coalesce),
        call_ensures(ExchangeLayout::try_broadcast, (producers, consumers, partitions), broadcast),
    ensures
        shuffle is Ok <==> producers > 0 && consumers > 0 && partitions > 0,
        broadcast is Ok <==> producers > 0 && consumers > 0 && partitions > 0,
        coalesce is Ok <==> consumers > 0 && partitions > 0,
        shuffle matches Ok(layout) ==> is_laid_out(
            *layout,
            ExchangeKind::Shuffle,
            producers,
            consumers,
            partitions,
        ),
        coalesce matches Ok(layout) ==> is_laid_out(
            *layout,
            ExchangeKind::Coalesce,
            producers,
            consumers,
            partitions,
        ),
        broadcast matches Ok(layout) ==> is_laid_out(
            *layout,
            ExchangeKind::Broadcast,
            producers,
            consumers,
            partitions,
        ),
{
}

/// Whether a layout is of a kind and has the given counts.
pub open spec fn is_laid_out(
    layout: ExchangeLayout,
    kind: ExchangeKind,
    producers: usize,
    consumers: usize,
    partitions: usize,
) -> bool {
    &&& layout@.kind == kind
    &&& layout@.producer_tasks == producers
    &&& layout@.consumer_tasks == consumers
    &&& layout@.partitions == partitions
}

/// A slot of a shuffle or a broadcast reads from all producers, whatever their number, the partition
/// that is the slot's own among those of all consumers.
pub proof fn law_slots_of_fanouts_are_resolved(
    layout: &ExchangeLayout,
    producers: usize,
    consumers: usize,
    partitions: usize,
    consumer: usize,
    slot: usize,
    read: Option<SlotReadPlan>,
)
    requires
        producers > 0,
        consumers > 0,
        partitions > 0,
        partitions * consumers <= usize::MAX,
        is_laid_out(*layout, ExchangeKind::Shuffle, producers, consumers, partitions)
            || is_laid_out(*layout, ExchangeKind::Broadcast, producers, consumers, partitions),
        call_ensures(ExchangeLayout::resolve_slot, (layout, consumer, slot), read),
    ensures
        match read {
            Some(SlotReadPlan::Fanout { producer_tasks, producer_partition }) => {
                &&& consumer < consumers && slot < partitions
                &&& producer_tasks.start == 0 && producer_tasks.end == producers
                &&& producer_partition == partitions * consumer + slot
            },
            Some(SlotReadPlan::Single { .. }) => false,
            None => consumer >= consumers || slot >= partitions,
        },
{
    crate::layout_laws::law_fanout_slots_read_all_producers(
        layout@,
        consumer as nat,
        slot as nat,
    );
}

/// What an unsplit source is widened to on its own account is the least multiple of what it exposes
/// that reaches the target, where it can be counted and a task reads less than the target.
pub proof fn law_sources_are_widened_to_least_multiples(
    input: &SplitInput,
    target_per_task: usize,
    target: Option<usize>,
    m: nat,
)
    requires
        !input.already_split,
        input.output_partition_count > 0,
        call_ensures(
            SplitInput::inferred_target_partition_count,
            (input, target_per_task),
            target,
        ),
        m >= target_per_task,
        m % (input.output_partition_count as nat) == 0,
    ensures
        match target {
            Some(target) => {
                &&& 0 < input.owned_partition_count < target_per_task
                &&& target_per_task <= target <= m
                &&& target % input.output_partition_count == 0
            },
            None => input.owned_partition_count == 0 || input.owned_partition_count
                >= target_per_task || m > usize::MAX,
        },
{
    crate::widening_laws::law_inferred_targets_are_least_multiples(input@, target_per_task, m);
}

/// The most partitions that a task reads are enough for all tasks to read every partition, and no
/// more than it takes.
pub proof fn law_owned_partitions_are_an_even_share(base: usize, tasks: usize, owned: usize)
    requires
        call_ensures(crate::split_input::max_owned_partition_count, (base, tasks), owned),
    ensures
        tasks > 0 ==> owned * tasks >= base && (base > 0 ==> owned > 0 && (owned - 1) * tasks
            < base),
        tasks == 0 ==> owned == 0,
{
    crate::widening_laws::law_tasks_share_partitions_evenly(base, tasks);
}

/// The pass over a stage gives the stage back with splits above narrow shuffles, and nothing else is
/// changed; what is not reported as changed is not changed.
pub proof fn law_passes_insert_nothing_but_splits(
    plan: Arc<PlanNode>,
    config: &DistributedConfig,
    tasks: usize,
    rewritten: Result<Transformed, PlanError>,
)
    requires
        call_ensures(
            crate::insert_local_exchange_split::insert_local_exchange_split_for_stage,
            (plan, config, tasks),
            rewritten,
        ),
    ensures
        rewritten matches Ok(rewritten) ==> {
            &&& plan.plan().differs_in_splits(rewritten.data.plan(), *config, tasks)
            &&& !rewritten.transformed ==> rewritten.data.plan() == plan.plan()
        },
        config.local_exchange_split_mode@ == "off"@ ==> (rewritten matches Ok(rewritten)
            && rewritten.data.plan() == plan.plan()),
{
    crate::widening_laws::law_stages_differ_in_splits_only(plan.plan(), *config, tasks);
    crate::widening_laws::law_the_mode_decides_on_splits(plan.plan(), *config, tasks);
}

/// The receiver of a prepared schema sees the schema that was given, but for the order flags of
/// columns that are no dictionaries; the dictionaries are numbered from zero on.
pub proof fn law_prepared_stream_schemas_look_the_same(
    schema: &Schema,
    prepared: (Schema, DictionaryTracker),
)
    requires
        schema.dictionaries() <= i64::MAX,
        call_ensures(crate::flight_schema::prepare_stream_schema, (schema,), prepared),
    ensures
        prepared.0@ == schema@.without_idle_flags(),
        schema@.has_no_idle_flag() ==> prepared.0@ == schema@,
        crate::flight_schema::dict_ids_of(prepared.1).len() == schema.dictionaries(),
        forall|i: int|
            #![trigger crate::flight_schema::dict_ids_of(prepared.1)[i]]
            0 <= i < schema.dictionaries() ==> crate::flight_schema::dict_ids_of(prepared.1)[i]
                == i,
        !crate::flight_schema::errs_on_replacement(prepared.1),
{
    crate::schema_laws::law_preparing_clears_idle_flags_only(schema, &prepared.0);
    if schema@.has_no_idle_flag() {
        crate::schema_laws::law_prepared_schemas_look_the_same(schema, &prepared.0);
    }
}

/// Every network boundary of a distributed plan reads one whole stage of the query, and all stages
/// run on one number of tasks throughout.
pub proof fn law_distributed_plans_read_whole_stages<
    E: TaskEstimator,
    U: UnionLayout,
    S: TaskScale,
>(
    plan: Arc<PlanNode>,
    config: &DistributedConfig,
    workers: Result<usize, String>,
    estimator: &E,
    unions: &U,
    scale: &S,
    injected: Result<Arc<PlanNode>, PlanError>,
) -> (query_id: QueryId)
    requires
        plan.plan().has_no_boundary(),
        forall|leaf: crate::plan::Plan, tasks: usize| #[trigger]
            estimator.scaled_leaf(leaf, tasks) matches Some(scaled) ==> scaled.has_no_boundary(),
        call_ensures(
            crate::inject_network_boundaries::inject_network_boundaries::<E, U, S>,
            (plan, config, workers, estimator, unions, scale),
            injected,
        ),
    ensures
        injected matches Ok(injected) ==> {
            &&& injected.plan().boundaries_read_whole_stages(query_id)
            &&& injected.plan().runs_evenly()
        },
{
    let query_id = choose|query_id: QueryId|
        query_id.is_random() && crate::inject_network_boundaries::planned_is(
            injected,
            #[trigger] (crate::inject_network_boundaries::Planner {
                d_cfg: config,
                workers,
                query_id,
                estimator,
                unions,
                scale,
            }).rules().injected_plan(plan.plan()),
        );
    let planner = crate::inject_network_boundaries::Planner {
        d_cfg: config,
        workers,
        query_id,
        estimator,
        unions,
        scale,
    };
    let rules = planner.rules();
    assert forall|leaf: crate::plan::Plan, tasks: usize|
        (#[trigger] (rules.scaled_leaf)(leaf, tasks)) is Some implies (rules.scaled_leaf)(
        leaf,
        tasks,
    )->0.has_no_boundary() by {
        assert(estimator.scaled_leaf(leaf, tasks) == (rules.scaled_leaf)(leaf, tasks));
    }
    if injected is Ok {
        crate::boundary_laws::law_boundaries_read_whole_stages(rules, plan.plan());
    }
    query_id
}

/// Two counts are merged into one that does justice to both: the smaller maximum if there is one,
/// and else the larger desire; the order does not matter. Limiting a count keeps its kind.
pub proof fn law_counts_are_merged_and_limited(
    a: TaskCountAnnotation,
    b: TaskCountAnnotation,
    limit: usize,
    ab: TaskCountAnnotation,
    ba: TaskCountAnnotation,
    limited: TaskCountAnnotation,
)
    requires
        call_ensures(TaskCountAnnotation::merge, (a, b), ab),
        call_ensures(TaskCountAnnotation::merge, (b, a), ba),
        call_ensures(TaskCountAnnotation::limit, (a, limit), limited),
    ensures
        ab == ba,
        ab == a || ab == b,
        ab is Maximum <==> a is Maximum || b is Maximum,
        a is Maximum ==> crate::boundary_laws::tasks_in(ab) <= crate::boundary_laws::tasks_in(a),
        b is Maximum ==> crate::boundary_laws::tasks_in(ab) <= crate::boundary_laws::tasks_in(b),
        a is Desired && b is Desired ==> crate::boundary_laws::tasks_in(ab)
            >= crate::boundary_laws::tasks_in(a) && crate::boundary_laws::tasks_in(ab)
            >= crate::boundary_laws::tasks_in(b),
        limited is Maximum <==> a is Maximum,
        crate::boundary_laws::tasks_in(limited) == crate::planning_laws::smaller(
            crate::boundary_laws::tasks_in(a) as int,
            limit as int,
        ),
{
}

/// The factor of a stage is that of the path on which the data grows the most.
pub proof fn law_factors_follow_the_steepest_path(plan: &PlanNode, factor: ScaleFactor, power: int)
    requires
        call_ensures(crate::scale_factor::calculate_scale_factor, (plan,), factor),
    ensures
        plan.plan().has_path_of(crate::planning_laws::power_of(factor)),
        plan.plan().has_path_of(power) ==> power <= crate::planning_laws::power_of(factor),
{
    crate::planning_laws::law_the_steepest_path_counts(plan.plan(), power);
}

/// A coalesce exposes the partitions of all input tasks that its largest group has, reads from as
/// many tasks as were given, none of them assigned yet, and keeps the partitioning of its input.
pub proof fn law_coalesces_expose_the_largest_group(
    input: Arc<PlanNode>,
    query_id: QueryId,
    num: usize,
    tasks: usize,
    input_tasks: usize,
    most: nat,
    exec: Result<NetworkCoalesceExec, PlanError>,
)
    requires
        most * tasks >= input_tasks,
        most > 0 ==> (most - 1) * tasks < input_tasks,
        call_ensures(
            NetworkCoalesceExec::try_new,
            (input, query_id, num, tasks, input_tasks),
            exec,
        ),
    ensures
        exec is Ok <==> tasks > 0 && input.partition_count > 0 && input.partition_count * most
            <= usize::MAX,
        exec matches Ok(exec) ==> {
            &&& exec.partition_count == input.partition_count * most
            &&& exec.scheme@ == input.op.scheme@
            &&& exec.input_stage.query_id == query_id
            &&& exec.input_stage.num == num
            &&& exec.input_stage.plan == Some(input)
            &&& exec.input_stage.tasks@.len() == input_tasks
            &&& forall|i: int|
                #![trigger exec.input_stage.tasks@[i]]
                0 <= i < input_tasks ==> exec.input_stage.tasks@[i].url is None
            &&& exec.worker_connections.connections@.len() == input_tasks
            &&& is_laid_out(
                *exec.layout,
                ExchangeKind::Coalesce,
                input_tasks,
                tasks,
                input.partition_count,
            )
        },
{
    crate::layout_laws::law_coalesced_partitions_cover_the_largest_group(
        input.partition_count,
        tasks,
        input_tasks,
        most,
    );
}

/// A read of a coalesce asks its task for all its partitions at once, and takes one of them; a task
/// out of range is refused. The slots of a consumer go through the partitions of one task after the
/// other.
pub proof fn law_coalesce_reads_take_one_partition(
    exec: &NetworkCoalesceExec,
    producers: usize,
    consumers: usize,
    partitions: usize,
    task_index: usize,
    partition: usize,
    read: Result<Option<CoalesceRead>, ExecutionError>,
)
    requires
        consumers > 0,
        partitions > 0,
        is_laid_out(*exec.layout, ExchangeKind::Coalesce, producers, consumers, partitions),
        call_ensures(
            NetworkCoalesceExec::read_of,
            (exec, task_index, consumers, partition),
            read,
        ),
    ensures
        match read {
            Ok(Some(read)) => {
                &&& task_index < consumers
                &&& read.target_partitions.start == 0
                &&& read.target_partitions.end == partitions
                &&& read.producer_partition == partition % partitions
                &&& read.producer_task < producers
            },
            Ok(None) => task_index < consumers && (partition / partitions) * consumers + task_index
                >= producers,
            Err(error) => task_index >= consumers && error == (ExecutionError::InvalidTaskContext {
                task_index,
                task_count: consumers,
            }),
        },
{
    if task_index < consumers {
        crate::layout_laws::law_coalesced_slots_read_one_task_each(
            exec.layout@,
            task_index as nat,
            partition as nat,
        );
        vstd::arithmetic::div_mod::lemma_fundamental_div_mod(partition as int, partitions as int);
    }
}

/// The encoded metadata of a batch reads back as the metadata.
pub proof fn law_encoded_metadata_reads_back(metadata: &BatchMetadata, bytes: Vec<u8>)
    requires
        call_ensures(BatchMetadata::encode_to_vec, (metadata,), bytes),
    ensures
        crate::stream_laws::read_metadata(bytes@, 0, 0) == (
            metadata.partition as nat,
            metadata.created_timestamp_unix_nanos as nat,
        ),
{
    crate::stream_laws::law_metadata_reads_back(*metadata);
}

/// A comparison counts as faster exactly if the case was measured and took less time than before.
pub proof fn law_faster_means_less_time(comparison: &Comparison, faster: bool)
    requires
        call_ensures(Comparison::is_faster, (comparison,), faster),
    ensures
        *comparison matches Comparison::Failed { .. } ==> !faster,
        *comparison matches Comparison::Measured { previous, current, .. } ==> (faster <==> current
            < previous),
{
}

/// The failures of a run are told in one line, if there are any: what they are, and the names of the
/// failed cases.
pub proof fn law_failures_are_told(run: &BenchmarkRun, line: Option<String>)
    requires
        call_ensures(BenchmarkRun::failures, (run,), line),
    ensures
        line is Some <==> crate::report_laws::any_failed(run.queries@),
        line matches Some(line) ==> crate::text::ends_with(
            line@,
            crate::report_laws::all_failed_names(run.queries@),
        ) && crate::text::starts_with(line@, "Failed Queries: "@),
{
    if let Some(line) = line {
        let names = crate::report_laws::all_failed_names(run.queries@);
        crate::query_laws::law_parts_of_a_text_are_found("Failed Queries: "@, names, Seq::empty());
        crate::query_laws::law_parts_of_a_text_are_found(Seq::empty(), "Failed Queries: "@, names);
    }
}

/// Two runs are compared case by case: there are no more comparisons than cases.
pub proof fn law_runs_are_compared_case_by_case(
    run: &BenchmarkRun,
    earlier: &BenchmarkRun,
    list: Vec<Comparison>,
)
    requires
        call_ensures(BenchmarkRun::compare_with_previous, (run, earlier), list),
    ensures
        list@.map_values(|comparison: Comparison| comparison@) == crate::report_laws::all_comparisons(
            run.queries@,
            earlier.queries@,
        ),
        list@.len() <= run.queries@.len(),
{
    lemma_fewer_comparisons(run.queries@, earlier.queries@, run.queries@.len());
}

proof fn lemma_fewer_comparisons(queries: Seq<BenchQuery>, earlier: Seq<BenchQuery>, n: nat)
    requires
        n <= queries.len(),
    ensures
        crate::benchmark_run::comparisons(queries, earlier, n).len() <= n,
    decreases n,
{
    if n > 0 {
        lemma_fewer_comparisons(queries, earlier, (n - 1) as nat);
    }
}

/// The message of a planning error tells what it is about: the operator, the mode, the reason, or
/// the exchange and the parameter.
pub proof fn law_planning_errors_tell_what_is_wrong(error: &PlanError, message: String)
    requires
        call_ensures(PlanError::message, (error,), message),
    ensures
        match error {
            PlanError::ZeroExchangeParameter { exchange, parameter } => {
                crate::text::starts_with(message@, exchange.word()) && crate::text::contains_text(
                    message@,
                    parameter.word(),
                )
            },
            PlanError::MissingTaskCount { operator } => crate::text::contains_text(
                message@,
                operator@,
            ),
            PlanError::CannotRebuild { operator } => crate::text::contains_text(
                message@,
                operator@,
            ),
            PlanError::UnknownSplitMode { mode } => crate::text::ends_with(message@, mode@),
            PlanError::WorkersUnavailable { reason } => message@ == reason@,
            PlanError::TooManyPartitions { operator } => crate::text::starts_with(
                message@,
                operator@,
            ),
            _ => true,
        },
{
    match error {
        PlanError::ZeroExchangeParameter { exchange, parameter } => {
            let front = exchange.word() + " exchange requires "@;
            crate::query_laws::law_parts_of_a_text_are_found(front, parameter.word(), " > 0"@);
            let rest = " exchange requires "@ + parameter.word() + " > 0"@;
            crate::query_laws::law_parts_of_a_text_are_found(Seq::empty(), exchange.word(), rest);
            assert(exchange.word() + rest =~= front + parameter.word() + " > 0"@);
        },
        PlanError::MissingTaskCount { operator } => {
            crate::query_laws::law_parts_of_a_text_are_found(
                "Missing task count for node "@,
                operator@,
                ". This is a bug in Distributed DataFusion's planner, please report it."@,
            );
        },
        PlanError::CannotRebuild { operator } => {
            crate::query_laws::law_parts_of_a_text_are_found(
                "Cannot rebuild "@,
                operator@,
                " with new children"@,
            );
        },
        PlanError::UnknownSplitMode { mode } => {
            crate::query_laws::law_parts_of_a_text_are_found(
                "Unknown local exchange split mode "@,
                mode@,
                Seq::empty(),
            );
        },
        PlanError::TooManyPartitions { operator } => {
            crate::query_laws::law_parts_of_a_text_are_found(
                Seq::empty(),
                operator@,
                " would expose more partitions than can be counted"@,
            );
        },
        _ => {},
    }
}

/// The message of an execution error tells the numbers that it is about.
pub proof fn law_execution_errors_tell_their_numbers(error: &ExecutionError, message: String)
    requires
        call_ensures(ExecutionError::message, (error,), message),
    ensures
        match error {
            ExecutionError::InvalidTaskContext { task_index, task_count } => {
                crate::text::contains_text(message@, crate::text::decimal(*task_index as nat))
                    && crate::text::ends_with(message@, crate::text::decimal(*task_count as nat))
            },
            ExecutionError::NoConnectionSlot { task, slots } => {
                crate::text::contains_text(message@, crate::text::decimal(*task as nat))
                    && crate::text::contains_text(message@, crate::text::decimal(*slots as nat))
            },
            ExecutionError::TaskNotFound { task } => crate::text::contains_text(
                message@,
                crate::text::decimal(*task as nat),
            ),
            ExecutionError::UnexpectedPartition { received, start, end } => {
                crate::text::contains_text(message@, crate::text::decimal(*received as nat))
                    && crate::text::contains_text(message@, crate::text::decimal(*start as nat))
                    && crate::text::ends_with(message@, crate::text::decimal(*end as nat))
            },
            ExecutionError::NoPartitionStream { partition } => crate::text::contains_text(
                message@,
                crate::text::decimal(*partition as nat),
            ),
            _ => true,
        },
{
    match error {
        ExecutionError::InvalidTaskContext { task_index, task_count } => {
            let (a, b) = (
                crate::text::decimal(*task_index as nat),
                crate::text::decimal(*task_count as nat),
            );
            let front = "NetworkCoalesceExec invalid task context: task_index="@;
            let middle = " >= task_count="@;
            assert(message@ =~= front + a + (middle + b));
            crate::query_laws::law_parts_of_a_text_are_found(front, a, middle + b);
            crate::query_laws::law_parts_of_a_text_are_found(front + a + middle, b, Seq::empty());
        },
        ExecutionError::NoConnectionSlot { task, slots } => {
            let (a, b) = (
                crate::text::decimal(*task as nat),
                crate::text::decimal(*slots as nat),
            );
            let front = "WorkerConnections: Task index "@;
            let middle = " not found, only have "@;
            assert(message@ =~= front + a + (middle + b + " tasks"@));
            crate::query_laws::law_parts_of_a_text_are_found(front, a, middle + b + " tasks"@);
            crate::query_laws::law_parts_of_a_text_are_found(front + a + middle, b, " tasks"@);
        },
        ExecutionError::TaskNotFound { task } => {
            crate::query_laws::law_parts_of_a_text_are_found(
                "ProgrammingError: Task "@,
                crate::text::decimal(*task as nat),
                " not found"@,
            );
        },
        ExecutionError::UnexpectedPartition { received, start, end } => {
            let (a, b, c) = (
                crate::text::decimal(*received as nat),
                crate::text::decimal(*start as nat),
                crate::text::decimal(*end as nat),
            );
            let front = "Received partition "@;
            let middle = " in Flight metadata, but available partitions are "@;
            assert(message@ =~= front + a + (middle + b + ".."@ + c));
            assert(message@ =~= (front + a + middle) + b + (".."@ + c));
            crate::query_laws::law_parts_of_a_text_are_found(front, a, middle + b + ".."@ + c);
            crate::query_laws::law_parts_of_a_text_are_found(front + a + middle, b, ".."@ + c);
            crate::query_laws::law_parts_of_a_text_are_found(
                front + a + middle + b + ".."@,
                c,
                Seq::empty(),
            );
        },
        ExecutionError::NoPartitionStream { partition } => {
            crate::query_laws::law_parts_of_a_text_are_found(
                "WorkerConnection has no stream for target partition "@,
                crate::text::decimal(*partition as nat),
                ". Was it already consumed?"@,
            );
        },
        _ => {},
    }
}

/// A quotient that is rounded up covers the dividend, and one less would not; a common multiple of
/// two numbers is a multiple of both, and no other positive one is smaller.
pub proof fn law_division_and_multiples_are_exact(
    a: usize,
    b: usize,
    quotient: usize,
    multiple: Option<usize>,
    m: nat,
)
    requires
        a > 0,
        b > 0,
        m > 0,
        m % (a as nat) == 0,
        m % (b as nat) == 0,
        call_ensures(crate::arithmetic::div_ceil, (a, b), quotient),
        call_ensures(crate::arithmetic::lcm, (a, b), multiple),
    ensures
        quotient * b >= a,
        (quotient - 1) * b < a,
        multiple matches Some(multiple) ==> 0 < multiple <= m && multiple % a == 0 && multiple % b
            == 0,
        multiple is None ==> m > usize::MAX,
{
    let (x, y, q) = (a as int, b as int, quotient as int);
    crate::arithmetic::lemma_round_up(a as nat, b as nat);
    assert((q - 1) * y < x) by (nonlinear_arith)
        requires
            q * y < x + y,
    ;
    crate::arithmetic::lemma_lcm_is_least(a as nat, b as nat);
    assert(crate::arithmetic::is_common_multiple(a as nat, b as nat, m));
}

/// A report can be headed with any time of the calendar, up to the end of its last year, and with no
/// other; the headline holds the time, in a pattern of year, month, day, hour, minute and second.
pub proof fn law_headlines_reach_to_the_end_of_the_calendar(start: u64, headline: Option<String>)
    requires
        call_ensures(crate::benchmark_run::comparison_header, (start,), headline),
    ensures
        headline is Some <==> start < 8_210_266_876_800,
        headline matches Some(headline) ==> (crate::benchmark_run::utc_text(
            start as i64,
            "%Y-%m-%d %H:%M:%S UTC"@,
        ) matches Some(datetime) && crate::text::contains_text(headline@, datetime)),
{
    if let Some(headline) = headline {
        let datetime = crate::benchmark_run::utc_text(start as i64, "%Y-%m-%d %H:%M:%S UTC"@)->0;
        crate::query_laws::law_parts_of_a_text_are_found(
            "==== Comparison with the previous benchmark from "@,
            datetime,
            " ===="@,
        );
    }
}

/// The heading of a report begins with the headline and ends with a ruler of its length; between
/// them stand the system, its architecture and its cores, and the threads and workers of both runs,
/// the earlier ones first.
pub proof fn law_headings_tell_how_runs_were_set_up(
    headline: &str,
    os: &str,
    arch: &str,
    cores: usize,
    previous: &RunContext,
    current: &RunContext,
    lines: Vec<String>,
)
    requires
        vstd::utf8::encode_utf8(headline@).len() <= usize::MAX,
        call_ensures(
            crate::benchmark_run::heading_lines,
            (headline, os, arch, cores, previous, current),
            lines,
        ),
    ensures
        lines@.len() == 7,
        lines@[0]@ == headline@,
        crate::text::ends_with(lines@[1]@, os@),
        crate::text::ends_with(lines@[2]@, arch@),
        crate::text::ends_with(lines@[3]@, crate::text::decimal(cores as nat)),
        crate::text::ends_with(
            lines@[4]@,
            crate::text::decimal(previous.threads as nat) + " -> "@ + crate::text::decimal(
                current.threads as nat,
            ),
        ),
        crate::text::ends_with(
            lines@[5]@,
            crate::text::decimal(previous.workers as nat) + " -> "@ + crate::text::decimal(
                current.workers as nat,
            ),
        ),
        lines@[6]@.len() == vstd::utf8::encode_utf8(headline@).len(),
        forall|i: int| #![trigger lines@[6]@[i]] 0 <= i < lines@[6]@.len() ==> lines@[6]@[i] == '=',
{
    let views = crate::text::views(lines@);
    let expected = crate::benchmark_run::heading_of(
        headline@,
        os@,
        arch@,
        cores,
        *previous,
        *current,
    );
    assert(views.len() == lines@.len());
    assert(expected.len() == 7);
    assert forall|i: int| 0 <= i < 7 implies #[trigger] lines@[i]@ == expected[i] by {
        assert(views[i] == lines@[i]@);
    }
    assert(crate::text::ends_with(lines@[1]@, os@)) by {
        lemma_ends("os:        "@, os@);
    }
    assert(crate::text::ends_with(lines@[2]@, arch@)) by {
        lemma_ends("arch:      "@, arch@);
    }
    assert(crate::text::ends_with(lines@[3]@, crate::text::decimal(cores as nat))) by {
        lemma_ends("cpu cores: "@, crate::text::decimal(cores as nat));
    }
    lemma_change_ends("threads:   "@, previous.threads, current.threads);
    lemma_change_ends("workers:   "@, previous.workers, current.workers);
}

proof fn lemma_ends(front: Seq<char>, part: Seq<char>)
    ensures
        crate::text::ends_with(front + part, part),
{
    crate::query_laws::law_parts_of_a_text_are_found(front, part, Seq::empty());
}

proof fn lemma_change_ends(label: Seq<char>, previous: usize, current: usize)
    ensures
        crate::text::ends_with(
            label + crate::text::decimal(previous as nat) + " -> "@ + crate::text::decimal(
                current as nat,
            ),
            crate::text::decimal(previous as nat) + " -> "@ + crate::text::decimal(current as nat),
        ),
{
    let (a, b) = (crate::text::decimal(previous as nat), crate::text::decimal(current as nat));
    lemma_ends(label, a + " -> "@ + b);
    assert(label + a + " -> "@ + b =~= label + (a + " -> "@ + b));
}

/// A prepared column looks like the given one, but for the order flags of columns that are no
/// dictionaries, and an id is recorded for each of its dictionaries.
pub proof fn law_prepared_columns_look_the_same(field: &Field, prepared: Field)
    ensures
        forall|tracker: &mut DictionaryTracker| #[trigger]
            call_ensures(crate::flight_schema::prepare_field_for_flight, (field, tracker), prepared)
                ==> {
                &&& prepared.field_view() == field.field_view().without_idle_flags()
                &&& prepared.nullable == field.nullable
                &&& prepared.name@ == field.name@
                &&& crate::flight_schema::dict_ids_of(*final(tracker))
                    == crate::flight_schema::ids_after(
                    crate::flight_schema::dict_ids_of(*tracker),
                    field.data_type.dictionaries(),
                )
            },
{
    assert forall|tracker: &mut DictionaryTracker| #[trigger]
        call_ensures(crate::flight_schema::prepare_field_for_flight, (field, tracker), prepared) implies {
        &&& prepared.field_view() == field.field_view().without_idle_flags()
        &&& prepared.nullable == field.nullable
        &&& prepared.name@ == field.name@
        &&& crate::flight_schema::dict_ids_of(*final(tracker)) == crate::flight_schema::ids_after(
            crate::flight_schema::dict_ids_of(*tracker),
            field.data_type.dictionaries(),
        )
    } by {
        crate::schema_laws::lemma_prepared_fields_look_the_same(field, &prepared);
        assert(field.dictionaries() == field.data_type.dictionaries());
    }
}

/// A node over new inputs is the operator that it was over these inputs, with partitions by its
/// rule; a node with another task count is the same node otherwise.
pub proof fn law_nodes_are_rebuilt_and_recorded(
    node: &PlanNode,
    children: Vec<Arc<PlanNode>>,
    rebuilt: Result<Arc<PlanNode>, PlanError>,
    task_count: TaskCountAnnotation,
    recorded: Arc<PlanNode>,
)
    requires
        call_ensures(PlanNode::with_new_children, (node, children), rebuilt),
        call_ensures(PlanNode::with_task_count, (node, task_count), recorded),
    ensures
        rebuilt matches Ok(rebuilt) ==> {
            &&& rebuilt.plan().op == node.plan().op
            &&& rebuilt.plan().children == crate::plan::plans(children@)
            &&& rebuilt.plan().task_count is None
            &&& crate::planning_laws::follows_its_rule(node.plan(), rebuilt.plan())
        },
        rebuilt is Err && node.op.rebuildable && children@.len() == node.children@.len()
            ==> !(node.op.partition_rule is Constant),
        recorded.plan().task_count == Some(task_count),
        recorded.plan().op == node.plan().op,
        recorded.plan().partition_count == node.plan().partition_count,
        recorded.plan().children == node.plan().children,
{
    crate::plan::lemma_plan_children(node);
    crate::success_laws::law_rebuilding_replaces_the_inputs(
        node.plan(),
        crate::plan::plans(children@),
    );
}

/// The memory of messages that wait adds up message by message.
pub proof fn law_reserved_memory_adds_up<M: MemoryFootPrint, E>(messages: Seq<Result<M, E>>, n: nat)
    requires
        n < messages.len(),
    ensures
        crate::select_all::total_reserved(messages, 0) == 0,
        crate::select_all::total_reserved(messages, n + 1) == crate::select_all::total_reserved(
            messages,
            n,
        ) + match messages[n as int] {
            Ok(message) => message.footprint() as nat,
            Err(_) => 0,
        },
{
}

/// Milliseconds are counted whole: they do not exceed the time, and one more would.
pub proof fn law_milliseconds_are_rounded_down(elapsed: &Elapsed, millis: u128)
    requires
        call_ensures(Elapsed::as_millis, (elapsed,), millis),
    ensures
        millis * 1_000_000 <= elapsed.secs * 1_000_000_000 + elapsed.subsec_nanos < (millis + 1)
            * 1_000_000,
{
}

/// The description of a coalesce tells the stage that it reads, its partitions and its input tasks.
pub proof fn law_coalesces_describe_themselves(exec: &NetworkCoalesceExec, text: String)
    requires
        call_ensures(NetworkCoalesceExec::describe, (exec,), text),
    ensures
        crate::text::starts_with(
            text@,
            "[Stage "@ + crate::text::decimal(exec.input_stage.num as nat) + "]"@,
        ),
        crate::text::contains_text(
            text@,
            "output_partitions="@ + crate::text::decimal(exec.partition_count as nat),
        ),
        crate::text::ends_with(
            text@,
            "input_tasks="@ + crate::text::decimal(exec.input_stage.tasks@.len()),
        ),
{
    reveal_strlit("]");
    reveal_strlit("output_partitions=");
    reveal_strlit("input_tasks=");
    reveal_strlit("] => NetworkCoalesceExec: output_partitions=");
    reveal_strlit(", input_tasks=");
    let stage = "[Stage "@ + crate::text::decimal(exec.input_stage.num as nat);
    let partitions = crate::text::decimal(exec.partition_count as nat);
    let tasks = crate::text::decimal(exec.input_stage.tasks@.len());
    let first = "] => NetworkCoalesceExec: output_partitions="@;
    let second = ", input_tasks="@;
    assert(first =~= "]"@ + first.subrange(1, 26) + "output_partitions="@);
    assert(second =~= ", "@ + "input_tasks="@) by {
        reveal_strlit(", ");
    }
    let rest = first.subrange(1, 26) + "output_partitions="@ + partitions + second + tasks;
    assert(text@ =~= (stage + "]"@) + rest);
    crate::query_laws::law_parts_of_a_text_are_found(Seq::empty(), stage + "]"@, rest);
    let front = stage + "]"@ + first.subrange(1, 26);
    assert(text@ =~= front + ("output_partitions="@ + partitions) + (second + tasks));
    crate::query_laws::law_parts_of_a_text_are_found(
        front,
        "output_partitions="@ + partitions,
        second + tasks,
    );
    let most = front + "output_partitions="@ + partitions + ", "@;
    assert(text@ =~= most + ("input_tasks="@ + tasks));
    crate::query_laws::law_parts_of_a_text_are_found(
        most,
        "input_tasks="@ + tasks,
        Seq::empty(),
    );
}

/// A plan meets a demand for partitions exactly if it has as many, or if none are demanded.
pub proof fn law_demands_are_met_exactly(node: &PlanNode, required: Option<usize>, met: bool)
    requires
        call_ensures(
            crate::insert_local_exchange_split::partition_count_matches,
            (node, required),
            met,
        ),
    ensures
        required is None ==> met,
        required matches Some(count) ==> (met <==> node.partition_count == count),
{
}

/// The keys of an input are told exactly where the operator demands it hashed by them and gains from
/// that.
pub proof fn law_keys_are_told_where_they_are_wanted(
    node: &PlanNode,
    input: usize,
    keys: Option<Vec<usize>>,
)
    requires
        call_ensures(crate::insert_local_exchange_split::hash_requirement, (node, input), keys),
    ensures
        match keys {
            Some(keys) => crate::widening_laws::wants_keys(node.plan(), input as int, keys@),
            None => !crate::widening_laws::wants_any_keys(node.plan(), input as int),
        },
{
}

}
