//! What the choice of queries, their statements and the conversion of tables promise.
use vstd::prelude::*;

use crate::benchmark_queries::{BenchmarkError, Dataset, RunOpt};
use crate::plan::Plan;
use crate::tpch::{PrepareTpchOpt, TableConversion};

verus! {

/// A text contains what stands anywhere in it, begins with what stands at its front and ends with
/// what stands at its back.
pub proof fn law_parts_of_a_text_are_found(front: Seq<char>, part: Seq<char>, back: Seq<char>)
    ensures
        crate::text::contains_text(front + part + back, part),
        crate::text::starts_with(part + back, part),
        crate::text::ends_with(front + part, part),
{
    let text = front + part + back;
    let at = front.len() as int;
    assert(text.subrange(at, at + part.len()) =~= part);
    assert(crate::text::occurs_at(text, part, at));
    assert((part + back).subrange(0, part.len() as int) =~= part);
    assert((front + part).subrange(at, at + part.len()) =~= part);
}

/// What a text contains stands in it: the text is made of something, the part, and something more.
/// What it begins or ends with is followed or preceded by the rest.
pub proof fn law_found_parts_stand_in_the_text(text: Seq<char>, part: Seq<char>) -> (around: (
    Seq<char>,
    Seq<char>,
))
    ensures
        crate::text::contains_text(text, part) ==> text == around.0 + part + around.1,
        crate::text::starts_with(text, part) ==> text == part + text.skip(part.len() as int),
        crate::text::ends_with(text, part) ==> text == text.take(text.len() - part.len()) + part,
{
    if crate::text::starts_with(text, part) {
        assert(text =~= text.subrange(0, part.len() as int) + text.skip(part.len() as int));
    }
    if crate::text::ends_with(text, part) {
        let at = text.len() - part.len();
        assert(text =~= text.take(at) + text.subrange(at, at + part.len()));
    }
    if crate::text::contains_text(text, part) {
        let at = choose|at: int| crate::text::occurs_at(text, part, at);
        assert(crate::text::occurs_at(text, part, at));
        let around = (text.take(at), text.skip(at + part.len()));
        assert(text =~= around.0 + text.subrange(at, at + part.len()) + around.1);
        around
    } else {
        (Seq::empty(), Seq::empty())
    }
}

/// A path belongs to the first of the three benchmarks whose name stands anywhere in it, and to none
/// where none does.
pub proof fn law_paths_name_their_benchmark(path: Seq<char>, front: Seq<char>, back: Seq<char>)
    ensures
        path == front + "tpch"@ + back ==> Dataset::of_path(path) == Some(Dataset::Tpch),
        path == front + "tpcds"@ + back ==> Dataset::of_path(path) == Some(Dataset::Tpcds)
            || Dataset::of_path(path) == Some(Dataset::Tpch),
        path == front + "clickbench"@ + back ==> Dataset::of_path(path) is Some,
        Dataset::of_path(path) == Some(Dataset::Tpch) <==> crate::text::contains_text(
            path,
            "tpch"@,
        ),
        Dataset::of_path(path) == Some(Dataset::Tpcds) ==> crate::text::contains_text(
            path,
            "tpcds"@,
        ),
        Dataset::of_path(path) == Some(Dataset::Clickbench) ==> crate::text::contains_text(
            path,
            "clickbench"@,
        ) && !crate::text::contains_text(path, "tpcds"@),
{
    law_parts_of_a_text_are_found(front, "tpch"@, back);
    law_parts_of_a_text_are_found(front, "tpcds"@, back);
    law_parts_of_a_text_are_found(front, "clickbench"@, back);
}

/// All queries of a benchmark are run, but for the one that takes too long.
pub proof fn law_all_queries_but_one_are_run(dataset: Dataset, id: Seq<char>)
    ensures
        dataset.runs(id) <==> dataset != Dataset::Tpcds || id != "q72"@,
{
}

/// A file with the extension of query files holds the query that it is named after, and any other
/// file holds none: reading the name of the file of a query gives the query back.
pub proof fn law_query_files_name_their_query(id: Seq<char>, name: Seq<char>)
    ensures
        !crate::text::ends_with(id, ".sql"@) ==> crate::benchmark_queries::query_of_file(
            id + ".sql"@,
        ) == Some(id),
        crate::benchmark_queries::query_of_file(id + ".sql"@) is Some,
        crate::benchmark_queries::query_of_file(name) is Some <==> name.len() >= 4 && name.skip(
            name.len() - 4,
        ) == ".sql"@,
        crate::benchmark_queries::query_of_file(name) matches Some(query) ==> !crate::text::ends_with(
            query,
            ".sql"@,
        ),
{
    reveal_strlit(".sql");
    law_parts_of_a_text_are_found(id, ".sql"@, Seq::empty());
    let file = id + ".sql"@;
    assert(file.take(file.len() - 4) =~= id);
    lemma_no_suffix_is_left(name, ".sql"@);
    if name.len() >= 4 {
        assert(name.subrange(name.len() - 4, name.len() as int) =~= name.skip(name.len() - 4));
    }
    reveal_with_fuel(crate::benchmark_queries::without_suffix, 2);
}

proof fn lemma_no_suffix_is_left(text: Seq<char>, suffix: Seq<char>)
    requires
        suffix.len() > 0,
    ensures
        !crate::text::ends_with(crate::benchmark_queries::without_suffix(text, suffix), suffix),
    decreases text.len(),
{
    if crate::text::ends_with(text, suffix) {
        lemma_no_suffix_is_left(text.take(text.len() - suffix.len()), suffix);
    }
}

/// The queries of all files.
pub open spec fn all_queries(names: Seq<Seq<char>>) -> Seq<Seq<char>> {
    crate::benchmark_queries::queries_of_files(names, names.len())
}

proof fn lemma_queries_of_joined(a: Seq<Seq<char>>, b: Seq<Seq<char>>, n: nat)
    requires
        n <= b.len(),
    ensures
        crate::benchmark_queries::queries_of_files(a + b, a.len() + n) == all_queries(a)
            + crate::benchmark_queries::queries_of_files(b, n),
    decreases n,
{
    if n == 0 {
        lemma_queries_of_a_prefix(a, b, a.len());
        assert(all_queries(a) + Seq::<Seq<char>>::empty() =~= all_queries(a));
    } else {
        lemma_queries_of_joined(a, b, (n - 1) as nat);
        assert((a + b)[a.len() + n - 1] == b[n - 1]);
        let done = crate::benchmark_queries::queries_of_files(b, (n - 1) as nat);
        if let Some(query) = crate::benchmark_queries::query_of_file(b[n - 1]) {
            assert((all_queries(a) + done).push(query) =~= all_queries(a) + done.push(query));
        }
    }
}

proof fn lemma_queries_of_a_prefix(a: Seq<Seq<char>>, b: Seq<Seq<char>>, n: nat)
    requires
        n <= a.len(),
    ensures
        crate::benchmark_queries::queries_of_files(a + b, n)
            == crate::benchmark_queries::queries_of_files(a, n),
    decreases n,
{
    if n > 0 {
        lemma_queries_of_a_prefix(a, b, (n - 1) as nat);
        assert((a + b)[n - 1] == a[n - 1]);
    }
}

/// Every query file counts, in the order of the files: the queries of two lists of files are those
/// of the first, followed by those of the second, and a single file has its own query or none.
pub proof fn law_every_query_file_counts(
    a: Seq<Seq<char>>,
    b: Seq<Seq<char>>,
    name: Seq<char>,
)
    ensures
        all_queries(a + b) == all_queries(a) + all_queries(b),
        all_queries(seq![name]) == match crate::benchmark_queries::query_of_file(name) {
            Some(query) => seq![query],
            None => Seq::empty(),
        },
{
    lemma_queries_of_joined(a, b, b.len());
    reveal_with_fuel(crate::benchmark_queries::queries_of_files, 2);
    assert(seq![name][0] == name);
    if let Some(query) = crate::benchmark_queries::query_of_file(name) {
        assert(Seq::<Seq<char>>::empty().push(query) =~= seq![query]);
    }
}

/// The statements of all parts of a query.
pub open spec fn all_statements(parts: Seq<Seq<char>>) -> Seq<Seq<char>> {
    crate::benchmark_queries::statements_of(parts, parts.len())
}

proof fn lemma_statements_of_a_prefix(a: Seq<Seq<char>>, b: Seq<Seq<char>>, n: nat)
    requires
        n <= a.len(),
    ensures
        crate::benchmark_queries::statements_of(a + b, n)
            == crate::benchmark_queries::statements_of(a, n),
    decreases n,
{
    if n > 0 {
        lemma_statements_of_a_prefix(a, b, (n - 1) as nat);
        assert((a + b)[n - 1] == a[n - 1]);
    }
}

proof fn lemma_statements_of_joined(a: Seq<Seq<char>>, b: Seq<Seq<char>>, n: nat)
    requires
        n <= b.len(),
    ensures
        crate::benchmark_queries::statements_of(a + b, a.len() + n) == all_statements(a)
            + crate::benchmark_queries::statements_of(b, n),
    decreases n,
{
    let before = all_statements(a);
    if n == 0 {
        lemma_statements_of_a_prefix(a, b, a.len());
        assert(before + Seq::<Seq<char>>::empty() =~= before);
    } else {
        lemma_statements_of_joined(a, b, (n - 1) as nat);
        assert((a + b)[a.len() + n - 1] == b[n - 1]);
        let done = crate::benchmark_queries::statements_of(b, (n - 1) as nat);
        let statement = crate::text::trimmed(b[n - 1]);
        assert((before + done).push(statement) =~= before + done.push(statement));
    }
}

/// Every part of a query that is not blank is a statement, without the white space around it, in the
/// order of the query: the statements of two lists of parts are those of the first, followed by
/// those of the second.
pub proof fn law_every_statement_is_run(a: Seq<Seq<char>>, b: Seq<Seq<char>>, part: Seq<char>)
    ensures
        all_statements(a + b) == all_statements(a) + all_statements(b),
        all_statements(seq![part]) == if forall|i: int|
            #![trigger part[i]]
            0 <= i < part.len() ==> crate::text::is_space(part[i]) {
            Seq::empty()
        } else {
            seq![crate::text::trimmed(part)]
        },
{
    lemma_statements_of_joined(a, b, b.len());
    reveal_with_fuel(crate::benchmark_queries::statements_of, 2);
    assert(seq![part][0] == part);
    let statement = crate::text::trimmed(part);
    assert(Seq::<Seq<char>>::empty().push(statement) =~= seq![statement]);
    let (start, end) = crate::text::law_trimming_removes_only_white_space(part);
    if statement.len() > 0 {
        assert(statement.first() == part[start]);
    } else {
        assert(start == end);
    }
}

/// A statement sets something up exactly if it begins with the word for creating or dropping it.
pub proof fn law_setup_statements_create_or_drop(rest: Seq<char>, statement: Seq<char>)
    ensures
        crate::benchmark_queries::sets_up("create"@ + rest),
        crate::benchmark_queries::sets_up("drop"@ + rest),
        crate::benchmark_queries::sets_up(statement) ==> statement == "create"@ + statement.skip(6)
            || statement == "drop"@ + statement.skip(4),
{
    reveal_strlit("create");
    reveal_strlit("drop");
    law_parts_of_a_text_are_found(Seq::empty(), "create"@, rest);
    law_parts_of_a_text_are_found(Seq::empty(), "drop"@, rest);
    law_found_parts_stand_in_the_text(statement, "create"@);
    law_found_parts_stand_in_the_text(statement, "drop"@);
}

/// The tasks of a plan are those of the stages behind all its network boundaries, whatever their
/// kind: a boundary adds the tasks of its input stage to those below it, and no other operator adds
/// any.
pub proof fn law_every_boundary_adds_its_tasks(plan: Plan)
    ensures
        ({
            let below = plan.child_boundary_tasks(plan.children.len());
            if plan.op.kind is NetworkShuffle || plan.op.kind is NetworkBroadcast
                || plan.op.kind is NetworkCoalesce {
                plan.op.input_stage matches Some(stage) ==> plan.boundary_tasks() == below
                    + stage.tasks
            } else {
                plan.boundary_tasks() == below
            }
        }),
        plan.children.len() == 0 ==> plan.child_boundary_tasks(plan.children.len()) == 0,
        plan.children.len() == 1 ==> plan.child_boundary_tasks(1)
            == plan.children[0].boundary_tasks(),
        plan.children.len() == 2 ==> plan.child_boundary_tasks(2)
            == plan.children[0].boundary_tasks() + plan.children[1].boundary_tasks(),
{
    reveal_with_fuel(Plan::child_boundary_tasks, 3);
}

/// The tasks below a list of children are those below each of them.
pub proof fn law_every_child_adds_its_tasks(plan: Plan, n: nat)
    requires
        n < plan.children.len(),
    ensures
        plan.child_boundary_tasks(n + 1) == plan.child_boundary_tasks(n)
            + plan.children[n as int].boundary_tasks(),
{
}

/// The number of partitions to process is the given one, and else that of the cores.
pub proof fn law_given_partitions_win(options: &RunOpt, cores: usize, partitions: usize)
    requires
        call_ensures(RunOpt::partitions, (options, cores), partitions),
    ensures
        options.partitions is Some ==> options.partitions == Some(partitions),
        options.partitions is None ==> partitions == cores,
{
}

/// A query is chosen if it was asked for, or if none was.
pub proof fn law_queries_are_chosen_by_name(options: &RunOpt, id: &str, chosen: bool)
    requires
        call_ensures(RunOpt::selects, (options, id), chosen),
    ensures
        options.query@.len() == 0 ==> chosen,
        options.query@.len() > 0 ==> (chosen <==> exists|i: int|
            #![trigger options.query@[i]]
            0 <= i < options.query@.len() && options.query@[i]@ == id@),
{
    let names = crate::text::views(options.query@);
    if names.contains(id@) {
        let i = choose|i: int| 0 <= i < names.len() && names[i] == id@;
        assert(options.query@[i]@ == id@);
    }
    if exists|i: int|
        #![trigger options.query@[i]]
        0 <= i < options.query@.len() && options.query@[i]@ == id@ {
        let i = choose|i: int|
            #![trigger options.query@[i]]
            0 <= i < options.query@.len() && options.query@[i]@ == id@;
        assert(names[i] == id@);
    }
}

/// The data of a benchmark is where it was said to be; else it is in the only place there is, and
/// none or several places are an error that names where they were looked for.
pub proof fn law_data_is_found_where_it_is_unique(
    options: &RunOpt,
    directory: &str,
    entries: &Vec<String>,
    path: Result<String, BenchmarkError>,
)
    requires
        call_ensures(RunOpt::get_path, (options, directory, entries), path),
    ensures
        options.path matches Some(given) ==> (path matches Ok(path) && path@ == given@),
        options.path is None ==> match path {
            Ok(path) => entries@.len() == 1 && path@ == entries@[0]@,
            Err(BenchmarkError::NoDataset { directory: place }) => entries@.len() == 0 && place@
                == directory@,
            Err(BenchmarkError::MultipleDatasets { directory: place }) => entries@.len() >= 2
                && place@ == directory@,
            Err(_) => false,
        },
{
}

/// A path that names no benchmark is an error that names the path.
pub proof fn law_unknown_paths_are_refused(path: &str, dataset: Result<Dataset, BenchmarkError>)
    requires
        call_ensures(Dataset::infer_from_data_path, (path,), dataset),
    ensures
        dataset is Ok <==> crate::text::contains_text(path@, "tpch"@) || crate::text::contains_text(
            path@,
            "tpcds"@,
        ) || crate::text::contains_text(path@, "clickbench"@),
        dataset is Ok ==> Dataset::of_path(path@) == Some(dataset->Ok_0),
        dataset matches Err(error) ==> (error matches BenchmarkError::UnknownDataset {
            path: unknown,
        } && unknown@ == path@),
{
}

/// The queries that are run are among those that there are, in their order, and none is left out but
/// the slow one.
pub proof fn law_no_query_is_left_out(dataset: &Dataset, ids: &Vec<String>, run: Vec<String>, i: int)
    requires
        0 <= i < ids@.len(),
        call_ensures(Dataset::queries, (dataset, ids), run),
    ensures
        run@.len() <= ids@.len(),
        *dataset != Dataset::Tpcds || ids@[i]@ != "q72"@ ==> crate::text::views(run@).contains(
            ids@[i]@,
        ),
        *dataset != Dataset::Tpcds ==> crate::text::views(run@) == crate::text::views(ids@),
        *dataset == Dataset::Tpcds ==> !crate::text::views(run@).contains("q72"@),
{
    let views = crate::text::views(ids@);
    let keep = |id: Seq<char>| dataset.runs(id);
    lemma_filtered(views, keep);
    assert(views[i] == ids@[i]@);
    assert(crate::text::views(run@).len() == run@.len());
    if dataset.runs(ids@[i]@) {
        assert(keep(views[i]));
        assert(views.filter(keep).contains(views[i]));
    }
    if *dataset != Dataset::Tpcds {
        assert forall|j: int| 0 <= j < views.len() implies keep(#[trigger] views[j]) by {}
        lemma_nothing_is_filtered(views, keep);
    }
    if crate::text::views(run@).contains("q72"@) {
        assert(keep("q72"@));
    }
}

proof fn lemma_filtered(list: Seq<Seq<char>>, keep: spec_fn(Seq<char>) -> bool)
    ensures
        list.filter(keep).len() <= list.len(),
        forall|i: int|
            #![trigger list[i]]
            0 <= i < list.len() && keep(list[i]) ==> list.filter(keep).contains(list[i]),
        forall|e: Seq<char>| #[trigger] list.filter(keep).contains(e) ==> keep(e),
    decreases list.len(),
{
    reveal(Seq::filter);
    if list.len() > 0 {
        let before = list.drop_last();
        lemma_filtered(before, keep);
        let kept = before.filter(keep);
        let after = list.filter(keep);
        if keep(list.last()) {
            assert(after == kept.push(list.last()));
            assert(after[kept.len() as int] == list.last());
        }
        assert forall|i: int|
            #![trigger list[i]]
            0 <= i < list.len() && keep(list[i]) implies after.contains(list[i]) by {
            if i < before.len() {
                assert(before[i] == list[i]);
                assert(kept.contains(list[i]));
                let j = choose|j: int| 0 <= j < kept.len() && kept[j] == list[i];
                assert(after[j] == list[i]);
            }
        }
        assert forall|e: Seq<char>| #[trigger] after.contains(e) implies keep(e) by {
            let j = choose|j: int| 0 <= j < after.len() && after[j] == e;
            if j < kept.len() {
                assert(kept[j] == e);
                assert(kept.contains(e));
            }
        }
    }
}

proof fn lemma_nothing_is_filtered(list: Seq<Seq<char>>, keep: spec_fn(Seq<char>) -> bool)
    requires
        forall|i: int| 0 <= i < list.len() ==> keep(#[trigger] list[i]),
    ensures
        list.filter(keep) == list,
    decreases list.len(),
{
    reveal(Seq::filter);
    if list.len() > 0 {
        let before = list.drop_last();
        assert forall|i: int| 0 <= i < before.len() implies keep(#[trigger] before[i]) by {
            assert(list[i] == before[i]);
        }
        lemma_nothing_is_filtered(before, keep);
        assert(keep(list[list.len() - 1]));
        assert(before.push(list.last()) =~= list);
    }
}

/// A case is reported under the name of its benchmark and that of its query; the file of a query is
/// named after it, so that reading the name of the file gives the query back.
pub proof fn law_names_hold_the_query(
    dataset: &Dataset,
    id: &str,
    case_name: String,
    file_name: String,
)
    requires
        call_ensures(Dataset::case_name, (dataset, id), case_name),
        call_ensures(crate::benchmark_queries::query_file_name, (id,), file_name),
    ensures
        crate::text::ends_with(case_name@, id@),
        crate::text::starts_with(
            case_name@,
            (match dataset {
                Dataset::Tpch => "Tpch "@,
                Dataset::Tpcds => "Tpcds "@,
                Dataset::Clickbench => "Clickbench "@,
            }),
        ),
        case_name@.len() == dataset.name().len() + 1 + id@.len(),
        !crate::text::ends_with(id@, ".sql"@) ==> crate::benchmark_queries::query_of_file(
            file_name@,
        ) == Some(id@),
{
    assert(" "@.len() == 1) by {
        reveal_strlit(" ");
    }
    law_query_files_name_their_query(id@, file_name@);
    law_parts_of_a_text_are_found(dataset.name() + " "@, id@, Seq::empty());
    law_parts_of_a_text_are_found(Seq::empty(), dataset.name() + " "@, id@);
    lemma_labels(*dataset);
}

proof fn lemma_labels(dataset: Dataset)
    ensures
        dataset.name() + " "@ == (match dataset {
            Dataset::Tpch => "Tpch "@,
            Dataset::Tpcds => "Tpcds "@,
            Dataset::Clickbench => "Clickbench "@,
        }),
{
    reveal_strlit(" ");
    match dataset {
        Dataset::Tpch => {
            reveal_strlit("Tpch");
            reveal_strlit("Tpch ");
            assert("Tpch"@ + " "@ =~= "Tpch "@);
        },
        Dataset::Tpcds => {
            reveal_strlit("Tpcds");
            reveal_strlit("Tpcds ");
            assert("Tpcds"@ + " "@ =~= "Tpcds "@);
        },
        Dataset::Clickbench => {
            reveal_strlit("Clickbench");
            reveal_strlit("Clickbench ");
            assert("Clickbench"@ + " "@ =~= "Clickbench "@);
        },
    }
}

/// The message of an error tells the path or the directory that it is about.
pub proof fn law_benchmark_errors_tell_the_place(error: &BenchmarkError, message: String)
    requires
        call_ensures(BenchmarkError::message, (error,), message),
    ensures
        match error {
            BenchmarkError::UnknownDataset { path } => crate::text::ends_with(message@, path@),
            BenchmarkError::NoDataset { directory } => crate::text::contains_text(
                message@,
                directory@,
            ),
            BenchmarkError::MultipleDatasets { directory } => crate::text::contains_text(
                message@,
                directory@,
            ),
        },
{
    match error {
        BenchmarkError::UnknownDataset { path } => {
            law_parts_of_a_text_are_found(
                "Cannot infer benchmark dataset from path "@,
                path@,
                Seq::empty(),
            );
        },
        BenchmarkError::NoDataset { directory } => {
            law_parts_of_a_text_are_found(
                "No Benchmarking dataset present in '"@,
                directory@,
                "'. Generate one with ./benchmarks/gen-tpch.sh"@,
            );
        },
        BenchmarkError::MultipleDatasets { directory } => {
            law_parts_of_a_text_are_found(
                "Multiple Benchmarking datasets present in '"@,
                directory@,
                "'. One must be selected with --path"@,
            );
        },
    }
}

/// The statements of a query are its parts between semicolons, without the blank ones; each is told
/// to set something up exactly if it begins with the word for that.
pub proof fn law_queries_are_run_statement_by_statement(
    sql: &str,
    list: Vec<crate::benchmark_queries::Statement>,
    i: int,
)
    requires
        0 <= i < list@.len(),
        call_ensures(crate::benchmark_queries::statements, (sql,), list),
    ensures
        ({
            let parts = crate::text::split_parts(sql@, ';');
            &&& list@.len() == all_statements(parts).len()
            &&& list@[i].text@ == all_statements(parts)[i]
            &&& list@[i].is_setup <==> crate::text::starts_with(list@[i].text@, "create"@)
                || crate::text::starts_with(list@[i].text@, "drop"@)
            &&& crate::text::joined(parts, ';') == sql@
        }),
{
    crate::text::law_split_parts_join(sql@, ';');
}

/// A table is converted from its own file, with all columns of its schema in their order, sorted by
/// the first of them if that is asked for, into as many files as were asked for. No column may be
/// null.
pub proof fn law_tables_are_converted_whole(
    options: &PrepareTpchOpt,
    table: &str,
    conversion: TableConversion,
)
    requires
        call_ensures(PrepareTpchOpt::conversion, (options, table), conversion),
        crate::tpch::tpch_tables().contains(table@),
    ensures
        conversion.table@ == table@,
        conversion.partitions == options.partitions,
        crate::text::starts_with(conversion.input_path@, options.input_path@),
        conversion.input_path@ == options.input_path@ + ("/"@ + table@ + ".tbl"@),
        conversion.schema.fields@.len() > 0,
        conversion.columns@.len() == conversion.schema.fields@.len(),
        forall|i: int|
            #![trigger conversion.columns@[i]]
            #![trigger conversion.schema.fields@[i]]
            0 <= i < conversion.columns@.len() ==> conversion.columns@[i]@
                == conversion.schema.fields@[i].name@ && !conversion.schema.fields@[i].nullable,
        conversion.sort_column is Some <==> options.sort,
        conversion.sort_column matches Some(column) ==> column@
            == conversion.schema.fields@[0].name@,
{
    let rest = "/"@ + table@ + ".tbl"@;
    assert(options.input_path@ + "/"@ + table@ + ".tbl"@ =~= options.input_path@ + rest);
    law_parts_of_a_text_are_found(Seq::empty(), options.input_path@, rest);
    let columns = crate::tpch::tpch_columns(table@);
    assert(columns.len() > 0);
    assert forall|i: int|
        #![trigger conversion.columns@[i]]
        #![trigger conversion.schema.fields@[i]]
        0 <= i < conversion.columns@.len() implies conversion.columns@[i]@
        == conversion.schema.fields@[i].name@ && !conversion.schema.fields@[i].nullable by {
        assert(crate::tpch::is_column(*conversion.schema.fields@[i], columns[i]));
    }
    assert(crate::tpch::is_column(*conversion.schema.fields@[0], columns[0]));
}

/// All tables of the benchmark are converted, each of them once.
pub proof fn law_all_tables_are_converted(
    options: &PrepareTpchOpt,
    conversions: Vec<TableConversion>,
    i: int,
)
    requires
        0 <= i < 8,
        call_ensures(PrepareTpchOpt::conversions, (options,), conversions),
    ensures
        conversions@.len() == 8,
        conversions@[i].table@ == crate::tpch::tpch_tables()[i],
        conversions@[i].columns@.len() == conversions@[i].schema.fields@.len(),
        conversions@[i].partitions == options.partitions,
        crate::tpch::tpch_tables().no_duplicates(),
{
    lemma_tables_differ();
    assert(options.converts(crate::tpch::tpch_tables()[i], conversions@[i]));
}

proof fn lemma_tables_differ()
    ensures
        crate::tpch::tpch_tables().no_duplicates(),
        crate::tpch::tpch_tables().len() == 8,
{
    reveal_strlit("part");
    reveal_strlit("supplier");
    reveal_strlit("partsupp");
    reveal_strlit("customer");
    reveal_strlit("orders");
    reveal_strlit("lineitem");
    reveal_strlit("nation");
    reveal_strlit("region");
    let tables = crate::tpch::tpch_tables();
    assert(tables[0].len() == 4 && tables[1].len() == 8 && tables[2].len() == 8 && tables[3].len()
        == 8 && tables[4].len() == 6 && tables[5].len() == 8 && tables[6].len() == 6
        && tables[7].len() == 6);
    assert(tables[1][0] == 's' && tables[2][0] == 'p' && tables[3][0] == 'c' && tables[5][0] == 'l');
    assert(tables[4][0] == 'o' && tables[6][0] == 'n' && tables[7][0] == 'r');
    assert forall|i: int, j: int| 0 <= i < j < 8 implies tables[i] != tables[j] by {
        assert(tables[i].len() != tables[j].len() || tables[i][0] != tables[j][0]);
    }
}

/// The columns that tables are joined by have the type of the key that they refer to, amounts of
/// money are exact to the cent, dates are dates, and other numbers are small. All else is text.
pub proof fn law_join_columns_have_the_type_of_their_key(name: Seq<char>)
    ensures
        ({
            let part = crate::tpch::tpch_columns("part"@);
            let supplier = crate::tpch::tpch_columns("supplier"@);
            let partsupp = crate::tpch::tpch_columns("partsupp"@);
            let customer = crate::tpch::tpch_columns("customer"@);
            let orders = crate::tpch::tpch_columns("orders"@);
            let lineitem = crate::tpch::tpch_columns("lineitem"@);
            let nation = crate::tpch::tpch_columns("nation"@);
            let region = crate::tpch::tpch_columns("region"@);
            let key = part[0].1;
            let money = part[7].1;
            let date = orders[4].1;
            &&& part.len() == 9 && supplier.len() == 7 && partsupp.len() == 5 && customer.len() == 8
            &&& orders.len() == 9 && lineitem.len() == 16 && nation.len() == 4 && region.len() == 3
            &&& key is Int64
            &&& supplier[0].1 == key && customer[0].1 == key && orders[0].1 == key
            &&& nation[0].1 == key && region[0].1 == key
            &&& partsupp[0].1 == key && partsupp[1].1 == key
            &&& supplier[3].1 == key && customer[3].1 == key && orders[1].1 == key
            &&& lineitem[0].1 == key && lineitem[1].1 == key && lineitem[2].1 == key
            &&& nation[2].1 == key
            &&& money == crate::data_type::DataType::Decimal128(15, 2)
            &&& supplier[5].1 == money && partsupp[3].1 == money && customer[5].1 == money
            &&& orders[3].1 == money && lineitem[4].1 == money && lineitem[5].1 == money
            &&& lineitem[6].1 == money && lineitem[7].1 == money
            &&& date is Date32
            &&& lineitem[10].1 == date && lineitem[11].1 == date && lineitem[12].1 == date
        }),
        ({
            let part = crate::tpch::tpch_columns("part"@);
            let supplier = crate::tpch::tpch_columns("supplier"@);
            let partsupp = crate::tpch::tpch_columns("partsupp"@);
            let customer = crate::tpch::tpch_columns("customer"@);
            let orders = crate::tpch::tpch_columns("orders"@);
            let lineitem = crate::tpch::tpch_columns("lineitem"@);
            let nation = crate::tpch::tpch_columns("nation"@);
            let region = crate::tpch::tpch_columns("region"@);
            let text = part[1].1;
            let number = part[5].1;
            &&& text is Utf8
            &&& part[2].1 == text && part[3].1 == text && part[4].1 == text && part[6].1 == text
            &&& part[8].1 == text && supplier[1].1 == text && supplier[2].1 == text
            &&& supplier[4].1 == text && supplier[6].1 == text && partsupp[4].1 == text
            &&& customer[1].1 == text && customer[2].1 == text && customer[4].1 == text
            &&& customer[6].1 == text && customer[7].1 == text && orders[2].1 == text
            &&& orders[5].1 == text && orders[6].1 == text && orders[8].1 == text
            &&& lineitem[8].1 == text && lineitem[9].1 == text && lineitem[13].1 == text
            &&& lineitem[14].1 == text && lineitem[15].1 == text && nation[1].1 == text
            &&& nation[3].1 == text && region[1].1 == text && region[2].1 == text
            &&& number is Int32
            &&& partsupp[2].1 == number && orders[7].1 == number && lineitem[3].1 == number
        }),
        !crate::tpch::tpch_tables().contains(name) ==> crate::tpch::tpch_columns(name).len() == 0,
{
    lemma_tables_differ();
    let tables = crate::tpch::tpch_tables();
    assert(tables[0] == "part"@ && tables[1] == "supplier"@ && tables[2] == "partsupp"@ && tables[3]
        == "customer"@ && tables[4] == "orders"@ && tables[5] == "lineitem"@ && tables[6]
        == "nation"@ && tables[7] == "region"@);
}

}
