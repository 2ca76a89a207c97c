//! Which queries a benchmark consists of, and what is run for each of them.
use vstd::prelude::*;
use vstd::string::*;

use crate::plan::{Plan, PlanNode};
use crate::text::{same_text, split, text_contains, text_ends_with, text_starts_with, trim};

verus! {

/// The benchmarks.
#[derive(Debug, Clone, Copy, PartialEq, Eq, Structural)]
pub enum Dataset {
    Tpch,
    Tpcds,
    Clickbench,
}

/// Why a benchmark could not be run.
#[derive(Debug, PartialEq, Eq)]
pub enum BenchmarkError {
    /// The path does not tell which benchmark its data belongs to.
    UnknownDataset { path: String },
    /// There is no data.
    NoDataset { directory: String },
    /// There is data of several benchmarks, and none was chosen.
    MultipleDatasets { directory: String },
}

impl BenchmarkError {
    /// The text of the error.
    pub open spec fn text(self) -> Seq<char> {
        match self {
            BenchmarkError::UnknownDataset { path } => {
                "Cannot infer benchmark dataset from path "@ + path@
            },
            BenchmarkError::NoDataset { directory } => {
                "No Benchmarking dataset present in '"@ + directory@
                    + "'. Generate one with ./benchmarks/gen-tpch.sh"@
            },
            BenchmarkError::MultipleDatasets { directory } => {
                "Multiple Benchmarking datasets present in '"@ + directory@
                    + "'. One must be selected with --path"@
            },
        }
    }

    /// The text of the error.
    pub fn message(&self) -> (message: String)
        ensures
            message@ == self.text(),
    {
        let mut message = String::new();
        match self {
            BenchmarkError::UnknownDataset { path } => {
                message.append("Cannot infer benchmark dataset from path ");
                message.append(path.as_str());
            },
            BenchmarkError::NoDataset { directory } => {
                message.append("No Benchmarking dataset present in '");
                message.append(directory.as_str());
                message.append("'. Generate one with ./benchmarks/gen-tpch.sh");
            },
            BenchmarkError::MultipleDatasets { directory } => {
                message.append("Multiple Benchmarking datasets present in '");
                message.append(directory.as_str());
                message.append("'. One must be selected with --path");
            },
        }
        assert(message@ =~= self.text());
        message
    }
}

impl Dataset {
    /// The benchmark that a path belongs to, by the first of the three names that occurs in it.
    pub open spec fn of_path(path: Seq<char>) -> Option<Dataset> {
        if crate::text::contains_text(path, "tpch"@) {
            Some(Dataset::Tpch)
        } else if crate::text::contains_text(path, "tpcds"@) {
            Some(Dataset::Tpcds)
        } else if crate::text::contains_text(path, "clickbench"@) {
            Some(Dataset::Clickbench)
        } else {
            None
        }
    }

    /// Tells from the path of its data which benchmark to run.
    pub fn infer_from_data_path(path: &str) -> (dataset: Result<Self, BenchmarkError>)
        ensures
            match Self::of_path(path@) {
                Some(expected) => dataset == Ok::<Dataset, BenchmarkError>(expected),
                None => dataset matches Err(BenchmarkError::UnknownDataset { path: unknown })
                    && unknown@ == path@,
            },
    {
        if text_contains(path, "tpch") {
            Ok(Dataset::Tpch)
        } else if text_contains(path, "tpcds") {
            Ok(Dataset::Tpcds)
        } else if text_contains(path, "clickbench") {
            Ok(Dataset::Clickbench)
        } else {
            Err(BenchmarkError::UnknownDataset { path: path.to_owned() })
        }
    }

    /// Whether a query of the benchmark is run; one of them is terribly slow.
    pub open spec fn runs(self, id: Seq<char>) -> bool {
        !(self is Tpcds && id == "q72"@)
    }

    /// The queries of the benchmark that are run, among those that there are.
    pub fn queries(&self, ids: &Vec<String>) -> (run: Vec<String>)
        ensures
            crate::text::views(run@) == crate::text::views(ids@).filter(
                |id: Seq<char>| self.runs(id),
            ),
    {
        let ghost keep = |id: Seq<char>| self.runs(id);
        let mut run: Vec<String> = Vec::new();
        let mut i: usize = 0;
        assert(crate::text::views(ids@).take(0).filter(keep) =~= Seq::<Seq<char>>::empty()) by {
            reveal(Seq::filter);
        }
        while i < ids.len()
            invariant
                i <= ids@.len(),
                keep == (|id: Seq<char>| self.runs(id)),
                crate::text::views(run@) == crate::text::views(ids@).take(i as int).filter(keep),
            decreases ids@.len() - i,
        {
            let ghost before = crate::text::views(run@);
            let ghost ids_before = crate::text::views(ids@).take(i as int);
            proof {
                assert(crate::text::views(ids@).take(i + 1) =~= ids_before.push(ids@[i as int]@));
                lemma_filter_push(ids_before, ids@[i as int]@, keep);
            }
            let slow = match self {
                Dataset::Tpcds => same_text(ids[i].as_str(), "q72"),
                _ => false,
            };
            if !slow {
                run.push(ids[i].clone());
                assert(crate::text::views(run@) =~= before.push(ids@[i as int]@));
            }
            i = i + 1;
        }
        assert(crate::text::views(ids@).take(ids@.len() as int) =~= crate::text::views(ids@));
        run
    }

    pub open spec fn name(self) -> Seq<char> {
        match self {
            Dataset::Tpch => "Tpch"@,
            Dataset::Tpcds => "Tpcds"@,
            Dataset::Clickbench => "Clickbench"@,
        }
    }

    /// The name under which a query of the benchmark is reported.
    pub fn case_name(&self, id: &str) -> (name: String)
        ensures
            name@ == self.name() + " "@ + id@,
    {
        let mut name = match self {
            Dataset::Tpch => "Tpch".to_owned(),
            Dataset::Tpcds => "Tpcds".to_owned(),
            Dataset::Clickbench => "Clickbench".to_owned(),
        };
        name.append(" ");
        name.append(id);
        name
    }
}

/// Filtering one more element.
proof fn lemma_filter_push(
    s: Seq<Seq<char>>,
    element: Seq<char>,
    keep: spec_fn(Seq<char>) -> bool,
)
    ensures
        s.push(element).filter(keep) == (if keep(element) {
            s.filter(keep).push(element)
        } else {
            s.filter(keep)
        }),
{
    reveal(Seq::filter);
    assert(s.push(element).drop_last() =~= s);
}

/// A text without the `suffix` at its end, however often it stands there.
pub open spec fn without_suffix(text: Seq<char>, suffix: Seq<char>) -> Seq<char>
    decreases text.len(),
{
    if suffix.len() > 0 && crate::text::ends_with(text, suffix) {
        without_suffix(text.take(text.len() - suffix.len()), suffix)
    } else {
        text
    }
}

/// The query that a file holds, if its name says that it holds one.
pub open spec fn query_of_file(name: Seq<char>) -> Option<Seq<char>> {
    if crate::text::ends_with(name, ".sql"@) {
        Some(without_suffix(name, ".sql"@))
    } else {
        None
    }
}

/// The queries of the first `n` files.
pub open spec fn queries_of_files(names: Seq<Seq<char>>, n: nat) -> Seq<Seq<char>>
    decreases n,
{
    if n == 0 || n > names.len() {
        Seq::empty()
    } else {
        let before = queries_of_files(names, (n - 1) as nat);
        match query_of_file(names[n - 1]) {
            Some(query) => before.push(query),
            None => before,
        }
    }
}

/// Removes the extension of query files from the end of a text, however often it stands there.
fn trim_sql(text: &str) -> (trimmed: String)
    ensures
        trimmed@ == without_suffix(text@, ".sql"@),
    decreases text@.len(),
{
    proof {
        reveal_strlit(".sql");
    }
    if text_ends_with(text, ".sql") {
        let length: usize = text.unicode_len();
        assert(text@.subrange(0, length - 4) =~= text@.take(length - 4));
        trim_sql(text.substring_char(0, length - 4))
    } else {
        text.to_owned()
    }
}

/// The queries among the files of a directory.
pub fn get_queries(file_names: &Vec<String>) -> (queries: Vec<String>)
    ensures
        crate::text::views(queries@) == queries_of_files(
            crate::text::views(file_names@),
            file_names@.len(),
        ),
{
    let ghost names = crate::text::views(file_names@);
    let mut queries: Vec<String> = Vec::new();
    let mut i: usize = 0;
    assert(crate::text::views(queries@) =~= Seq::<Seq<char>>::empty());
    while i < file_names.len()
        invariant
            i <= file_names@.len(),
            names == crate::text::views(file_names@),
            crate::text::views(queries@) == queries_of_files(names, i as nat),
        decreases file_names@.len() - i,
    {
        let ghost before = crate::text::views(queries@);
        assert(names[i as int] == file_names@[i as int]@);
        if text_ends_with(file_names[i].as_str(), ".sql") {
            queries.push(trim_sql(file_names[i].as_str()));
            assert(crate::text::views(queries@) =~= before.push(
                without_suffix(names[i as int], ".sql"@),
            ));
        }
        i = i + 1;
    }
    queries
}

/// The name of the file that holds a query.
pub fn query_file_name(id: &str) -> (name: String)
    ensures
        name@ == id@ + ".sql"@,
{
    let mut name = id.to_owned();
    name.append(".sql");
    name
}

/// The text of a query, given the contents of its file.
pub fn query_text(contents: &str) -> (query: String)
    ensures
        query@ == crate::text::trimmed(contents@),
{
    trim(contents)
}

/// One statement of a query.
#[derive(Debug, PartialEq, Eq)]
pub struct Statement {
    pub text: String,
    /// Whether the statement only creates or drops something, so that its result does not count.
    pub is_setup: bool,
}

/// Whether a statement only creates or drops something.
pub open spec fn sets_up(statement: Seq<char>) -> bool {
    crate::text::starts_with(statement, "create"@) || crate::text::starts_with(
        statement,
        "drop"@,
    )
}

/// The statements among the first `n` parts of a query: those that are not blank.
pub open spec fn statements_of(parts: Seq<Seq<char>>, n: nat) -> Seq<Seq<char>>
    decreases n,
{
    if n == 0 || n > parts.len() {
        Seq::empty()
    } else {
        let before = statements_of(parts, (n - 1) as nat);
        let statement = crate::text::trimmed(parts[n - 1]);
        if statement.len() > 0 {
            before.push(statement)
        } else {
            before
        }
    }
}

/// Splits a query into its statements, in their order.
pub fn statements(sql: &str) -> (list: Vec<Statement>)
    ensures
        ({
            let parts = crate::text::split_parts(sql@, ';');
            let expected = statements_of(parts, parts.len());
            &&& list@.len() == expected.len()
            &&& forall|i: int|
                #![trigger list@[i]]
                0 <= i < list@.len() ==> list@[i].text@ == expected[i] && list@[i].is_setup
                    == sets_up(expected[i])
        }),
{
    let parts = split(sql, ';');
    let ghost texts = crate::text::split_parts(sql@, ';');
    let mut list: Vec<Statement> = Vec::new();
    let mut i: usize = 0;
    while i < parts.len()
        invariant
            i <= parts@.len(),
            texts == crate::text::views(parts@),
            list@.len() == statements_of(texts, i as nat).len(),
            forall|j: int|
                #![trigger list@[j]]
                0 <= j < list@.len() ==> list@[j].text@ == statements_of(texts, i as nat)[j]
                    && list@[j].is_setup == sets_up(statements_of(texts, i as nat)[j]),
        decreases parts@.len() - i,
    {
        assert(texts[i as int] == parts@[i as int]@);
        let text = trim(parts[i].as_str());
        if text.as_str().unicode_len() > 0 {
            let is_setup = text_starts_with(text.as_str(), "create") || text_starts_with(
                text.as_str(),
                "drop",
            );
            list.push(Statement { text, is_setup });
        }
        i = i + 1;
    }
    list
}

impl Plan {
    /// The number of tasks of all stages behind network boundaries.
    pub open spec fn boundary_tasks(self) -> nat
        decreases self, 0nat,
    {
        let own = match self.op.input_stage {
            Some(stage) if self.is_network_boundary() => stage.tasks as nat,
            _ => 0,
        };
        own + self.child_boundary_tasks(self.children.len())
    }

    /// The number of tasks of all stages behind network boundaries of the first `n` children.
    pub open spec fn child_boundary_tasks(self, n: nat) -> nat
        decreases self.children, n,
    {
        if n == 0 || n > self.children.len() {
            0
        } else {
            self.child_boundary_tasks((n - 1) as nat) + self.children[n - 1].boundary_tasks()
        }
    }
}

proof fn lemma_child_boundary_tasks_grow(plan: Plan, n: nat, m: nat)
    requires
        n <= m <= plan.children.len(),
    ensures
        plan.child_boundary_tasks(n) <= plan.child_boundary_tasks(m),
    decreases m - n,
{
    if n < m {
        lemma_child_boundary_tasks_grow(plan, n, (m - 1) as nat);
    }
}

/// Counts the tasks of all stages behind network boundaries.
pub fn count_boundary_tasks(plan: &PlanNode) -> (count: usize)
    requires
        plan.plan().boundary_tasks() <= usize::MAX,
    ensures
        count == plan.plan().boundary_tasks(),
    decreases plan.plan(),
{
    proof {
        crate::plan::lemma_plan_children(plan);
    }
    let mut count: usize = 0;
    let mut i: usize = 0;
    while i < plan.children.len()
        invariant
            i <= plan.children@.len(),
            plan.plan().boundary_tasks() <= usize::MAX,
            plan.plan().children.len() == plan.children@.len(),
            forall|j: int|
                #![trigger plan.children@[j]]
                0 <= j < plan.children@.len() ==> plan.plan().children[j]
                    == plan.children@[j].plan(),
            count == plan.plan().child_boundary_tasks(i as nat),
        decreases plan.children@.len() - i,
    {
        assert(plan.plan().children[i as int] == plan.children@[i as int].plan());
        proof {
            lemma_child_boundary_tasks_grow(
                plan.plan(),
                (i + 1) as nat,
                plan.plan().children.len(),
            );
        }
        count = count + count_boundary_tasks(&plan.children[i]);
        i = i + 1;
    }
    match plan.op.input_stage {
        Some(stage) => {
            if plan.is_network_boundary() {
                count = count + stage.tasks;
            }
        },
        None => {},
    }
    count
}

/// The choices of a benchmark run that the library acts on.
#[derive(Debug, PartialEq, Eq)]
pub struct RunOpt {
    /// The queries to run; all of them, if none is given.
    pub query: Vec<String>,
    /// The directory with the data.
    pub path: Option<String>,
    /// The number of partitions to process in parallel.
    pub partitions: Option<usize>,
}

impl RunOpt {
    /// The number of partitions to process in parallel: the one given, or else the number of
    /// available cores.
    pub fn partitions(&self, available_parallelism: usize) -> (partitions: usize)
        ensures
            partitions == (match self.partitions {
                Some(partitions) => partitions,
                None => available_parallelism,
            }),
    {
        match self.partitions {
            Some(partitions) => partitions,
            None => available_parallelism,
        }
    }

    /// The directory with the data: the one given, or else the only one among the entries of
    /// `directory`.
    pub fn get_path(&self, directory: &str, entries: &Vec<String>) -> (path: Result<
        String,
        BenchmarkError,
    >)
        ensures
            match self.path {
                Some(given) => path matches Ok(path) && path@ == given@,
                None => if entries@.len() == 0 {
                    path matches Err(BenchmarkError::NoDataset { directory: place }) && place@
                        == directory@
                } else if entries@.len() == 1 {
                    path matches Ok(path) && path@ == entries@[0]@
                } else {
                    path matches Err(BenchmarkError::MultipleDatasets { directory: place })
                        && place@ == directory@
                },
            },
    {
        if let Some(path) = &self.path {
            return Ok(path.clone());
        }
        if entries.len() == 0 {
            Err(BenchmarkError::NoDataset { directory: directory.to_owned() })
        } else if entries.len() == 1 {
            Ok(entries[0].clone())
        } else {
            Err(BenchmarkError::MultipleDatasets { directory: directory.to_owned() })
        }
    }

    /// Whether a query is to be run.
    pub fn selects(&self, id: &str) -> (selected: bool)
        ensures
            selected == (self.query@.len() == 0 || crate::text::views(self.query@).contains(id@)),
    {
        if self.query.len() == 0 {
            return true;
        }
        let mut i: usize = 0;
        while i < self.query.len()
            invariant
                i <= self.query@.len(),
                forall|j: int| 0 <= j < i ==> (#[trigger] self.query@[j])@ != id@,
            decreases self.query@.len() - i,
        {
            if same_text(self.query[i].as_str(), id) {
                assert(crate::text::views(self.query@)[i as int] == id@);
                return true;
            }
            i = i + 1;
        }
        assert(!crate::text::views(self.query@).contains(id@)) by {
            if crate::text::views(self.query@).contains(id@) {
                let j = choose|j: int|
                    0 <= j < self.query@.len() && crate::text::views(self.query@)[j] == id@;
                assert(self.query@[j]@ == id@);
            }
        }
        false
    }
}

}
