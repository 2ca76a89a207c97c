//! The results of a benchmark run, and how they compare to those of an earlier one.
use chrono::{DateTime, Utc};
use std::fmt::Write;
use vstd::prelude::*;
use vstd::string::*;

use crate::text::{push_decimal, push_padded, push_padded_decimal, push_repeated, same_text};

verus! {

/// A span of time.
#[derive(Debug, Clone, Copy, PartialEq, Eq, Structural)]
pub struct Elapsed {
    pub secs: u64,
    /// The nanoseconds on top, fewer than a second.
    pub subsec_nanos: u32,
}

impl Elapsed {
    /// The whole milliseconds.
    pub open spec fn millis(self) -> nat {
        self.secs as nat * 1000 + self.subsec_nanos as nat / 1_000_000
    }

    /// The whole milliseconds.
    pub fn as_millis(&self) -> (millis: u128)
        ensures
            millis == self.millis(),
    {
        self.secs as u128 * 1000 + self.subsec_nanos as u128 / 1_000_000
    }
}

/// The circumstances of a run.
#[derive(Debug, PartialEq, Eq)]
pub struct RunContext {
    /// Benchmark crate version.
    pub benchmark_version: String,
    /// DataFusion crate version.
    pub datafusion_version: String,
    /// Number of CPU cores.
    pub num_cpus: usize,
    /// Number of workers involved in a distributed query.
    pub workers: usize,
    /// Number of physical threads used per worker.
    pub threads: usize,
    /// Start time, in seconds since the epoch.
    pub start_time: u64,
    /// CLI arguments.
    pub arguments: Vec<String>,
}

/// A single iteration of a benchmark query.
#[derive(Debug, Clone, Copy, PartialEq, Eq, Structural)]
pub struct QueryIter {
    pub elapsed: Elapsed,
    pub row_count: usize,
    pub n_tasks: usize,
}

/// A single benchmark case.
#[derive(Debug, PartialEq, Eq)]
pub struct BenchQuery {
    pub query: String,
    pub iterations: Vec<QueryIter>,
    /// Start time, in seconds since the epoch.
    pub start_time: u64,
    pub success: bool,
}

/// Collects the data of a run.
#[derive(Debug, PartialEq, Eq)]
pub struct BenchmarkRun {
    pub context: RunContext,
    pub queries: Vec<BenchQuery>,
    /// The case that iterations are added to.
    pub current_case: Option<usize>,
}

/// The milliseconds of the first `n` iterations, added up.
pub open spec fn total_millis(iterations: Seq<QueryIter>, n: nat) -> nat
    decreases n,
{
    if n == 0 || n > iterations.len() {
        0
    } else {
        total_millis(iterations, (n - 1) as nat) + iterations[n - 1].elapsed.millis()
    }
}

proof fn lemma_total_millis_grows(iterations: Seq<QueryIter>, n: nat, m: nat)
    requires
        n <= m <= iterations.len(),
    ensures
        total_millis(iterations, n) <= total_millis(iterations, m),
    decreases m - n,
{
    if n < m {
        lemma_total_millis_grows(iterations, n, (m - 1) as nat);
    }
}

impl BenchQuery {
    /// The milliseconds of all iterations.
    pub open spec fn total(self) -> nat {
        total_millis(self.iterations@, self.iterations@.len())
    }

    /// The average milliseconds of an iteration, rounded down.
    pub open spec fn average(self) -> nat {
        self.total() / self.iterations@.len()
    }

    /// The average milliseconds of an iteration, rounded down.
    pub fn avg(&self) -> (millis: u128)
        requires
            self.iterations@.len() > 0,
            self.total() <= u128::MAX,
        ensures
            millis == self.average(),
    {
        let mut total: u128 = 0;
        let mut i: usize = 0;
        while i < self.iterations.len()
            invariant
                i <= self.iterations@.len(),
                self.total() <= u128::MAX,
                total == total_millis(self.iterations@, i as nat),
            decreases self.iterations@.len() - i,
        {
            proof {
                lemma_total_millis_grows(
                    self.iterations@,
                    (i + 1) as nat,
                    self.iterations@.len(),
                );
            }
            total = total + self.iterations[i].elapsed.as_millis();
            i = i + 1;
        }
        total / self.iterations.len() as u128
    }
}

impl BenchmarkRun {
    /// Whether the current case is the last one that was started.
    pub open spec fn is_recording(self) -> bool {
        self.current_case == (if self.queries@.len() == 0 {
            None
        } else {
            Some((self.queries@.len() - 1) as usize)
        })
    }

    /// A run without any cases.
    pub fn new(context: RunContext) -> (run: Self)
        ensures
            run.context == context,
            run.queries@.len() == 0,
            run.current_case is None,
            run.is_recording(),
    {
        BenchmarkRun { context, queries: Vec::new(), current_case: None }
    }

    /// Begins a new case. Iterations added after this will be part of the new case.
    pub fn start_new_case(&mut self, id: &str, start_time: u64)
        requires
            old(self).is_recording(),
            old(self).queries@.len() < usize::MAX,
        ensures
            final(self).is_recording(),
            final(self).context == old(self).context,
            final(self).queries@.drop_last() == old(self).queries@,
            ({
                let case = final(self).queries@.last();
                &&& final(self).queries@.len() == old(self).queries@.len() + 1
                &&& case.query@ == id@
                &&& case.iterations@.len() == 0
                &&& case.start_time == start_time
                &&& case.success
            }),
    {
        self.queries.push(
            BenchQuery {
                query: id.to_owned(),
                iterations: Vec::new(),
                start_time,
                success: true,
            },
        );
        self.current_case = match self.current_case {
            Some(case) => Some(case + 1),
            None => Some(0),
        };
        assert(self.queries@.drop_last() =~= old(self).queries@);
    }

    /// Adds an iteration to the current case.
    pub fn write_iter(&mut self, query_iter: QueryIter)
        requires
            old(self).is_recording(),
            old(self).queries@.len() > 0,
        ensures
            final(self).is_recording(),
            final(self).context == old(self).context,
            final(self).queries@.len() == old(self).queries@.len(),
            final(self).queries@.drop_last() == old(self).queries@.drop_last(),
            ({
                let (before, after) = (old(self).queries@.last(), final(self).queries@.last());
                &&& after.query@ == before.query@
                &&& after.iterations@ == before.iterations@.push(query_iter)
                &&& after.start_time == before.start_time
                &&& after.success == before.success
            }),
    {
        match self.queries.pop() {
            Some(case) => {
                let mut case = case;
                case.iterations.push(query_iter);
                self.queries.push(case);
            },
            None => {},
        }
        assert(self.queries@.drop_last() =~= old(self).queries@.drop_last());
    }

    /// Marks the current case as failed.
    pub fn mark_failed(&mut self)
        requires
            old(self).is_recording(),
            old(self).queries@.len() > 0,
        ensures
            final(self).is_recording(),
            final(self).context == old(self).context,
            final(self).queries@.len() == old(self).queries@.len(),
            final(self).queries@.drop_last() == old(self).queries@.drop_last(),
            ({
                let (before, after) = (old(self).queries@.last(), final(self).queries@.last());
                &&& after.query@ == before.query@
                &&& after.iterations@ == before.iterations@
                &&& after.start_time == before.start_time
                &&& !after.success
            }),
    {
        match self.queries.pop() {
            Some(case) => {
                let mut case = case;
                case.success = false;
                self.queries.push(case);
            },
            None => {},
        }
        assert(self.queries@.drop_last() =~= old(self).queries@.drop_last());
    }
}

/// The names of the failed cases among the first `n`, with commas between them.
pub open spec fn failed_names(queries: Seq<BenchQuery>, n: nat) -> Seq<char>
    decreases n,
{
    if n == 0 || n > queries.len() {
        Seq::empty()
    } else {
        let before = failed_names(queries, (n - 1) as nat);
        if queries[n - 1].success {
            before
        } else if has_failure(queries, (n - 1) as nat) {
            before + ", "@ + queries[n - 1].query@
        } else {
            queries[n - 1].query@
        }
    }
}

/// Whether one of the first `n` cases failed.
pub open spec fn has_failure(queries: Seq<BenchQuery>, n: nat) -> bool {
    exists|i: int| #![trigger queries[i]] 0 <= i < n && i < queries.len() && !queries[i].success
}

impl BenchmarkRun {
    /// The line that names the failed cases, if there are any.
    pub fn failures(&self) -> (line: Option<String>)
        ensures
            match line {
                Some(line) => has_failure(self.queries@, self.queries@.len()) && line@
                    == "Failed Queries: "@ + failed_names(self.queries@, self.queries@.len()),
                None => !has_failure(self.queries@, self.queries@.len()),
            },
    {
        let mut names = String::new();
        let mut any = false;
        let mut i: usize = 0;
        assert(names@ =~= failed_names(self.queries@, 0));
        while i < self.queries.len()
            invariant
                i <= self.queries@.len(),
                names@ == failed_names(self.queries@, i as nat),
                any == has_failure(self.queries@, i as nat),
                !any ==> names@ == Seq::<char>::empty(),
            decreases self.queries@.len() - i,
        {
            let ghost before = names@;
            if !self.queries[i].success {
                if any {
                    names.append(", ");
                }
                names.append(self.queries[i].query.as_str());
                assert(names@ =~= failed_names(self.queries@, (i + 1) as nat));
                assert(!self.queries@[i as int].success);
                any = true;
            }
            i = i + 1;
        }
        if any {
            let mut line = "Failed Queries: ".to_owned();
            line.append(names.as_str());
            Some(line)
        } else {
            None
        }
    }
}

/// How one case compares to the case of the same name in an earlier run.
#[derive(Debug, PartialEq, Eq)]
pub enum Comparison {
    /// The case did not complete this time.
    Failed { query: String },
    /// The average milliseconds then and now, and when the earlier case started.
    Measured { query: String, previous: u128, current: u128, previous_start: u64 },
}

/// What a [`Comparison`] amounts to.
pub enum ComparisonView {
    Failed { query: Seq<char> },
    Measured { query: Seq<char>, previous: nat, current: nat, previous_start: u64 },
}

impl View for Comparison {
    type V = ComparisonView;

    open spec fn view(&self) -> ComparisonView {
        match self {
            Comparison::Failed { query } => ComparisonView::Failed { query: query@ },
            Comparison::Measured { query, previous, current, previous_start } => {
                ComparisonView::Measured {
                    query: query@,
                    previous: *previous as nat,
                    current: *current as nat,
                    previous_start: *previous_start,
                }
            },
        }
    }
}

impl Comparison {
    /// Whether the case is faster than it was.
    pub fn is_faster(&self) -> (faster: bool)
        ensures
            faster == (self@ matches ComparisonView::Measured { previous, current, .. } && current
                < previous),
    {
        match self {
            Comparison::Measured { previous, current, .. } => *current < *previous,
            Comparison::Failed { .. } => false,
        }
    }
}

/// The position of the first case of the given name, from position `from` on.
pub open spec fn find_case(queries: Seq<BenchQuery>, name: Seq<char>, from: nat) -> Option<int>
    decreases queries.len() - from,
{
    if from >= queries.len() {
        None
    } else if queries[from as int].query@ == name {
        Some(from as int)
    } else {
        find_case(queries, name, from + 1)
    }
}

/// How a case compares to an earlier run: not at all, where that run does not have it or did not
/// complete it.
pub open spec fn compared(case: BenchQuery, earlier: Seq<BenchQuery>) -> Option<ComparisonView> {
    match find_case(earlier, case.query@, 0) {
        None => None,
        Some(at) => {
            let previous = earlier[at];
            if previous.iterations@.len() == 0 {
                None
            } else if case.iterations@.len() == 0 {
                Some(ComparisonView::Failed { query: case.query@ })
            } else {
                Some(
                    ComparisonView::Measured {
                        query: case.query@,
                        previous: previous.average(),
                        current: case.average(),
                        previous_start: previous.start_time,
                    },
                )
            }
        },
    }
}

/// How the first `n` cases compare to an earlier run.
pub open spec fn comparisons(
    queries: Seq<BenchQuery>,
    earlier: Seq<BenchQuery>,
    n: nat,
) -> Seq<ComparisonView>
    decreases n,
{
    if n == 0 || n > queries.len() {
        Seq::empty()
    } else {
        let before = comparisons(queries, earlier, (n - 1) as nat);
        match compared(queries[n - 1], earlier) {
            Some(comparison) => before.push(comparison),
            None => before,
        }
    }
}

/// Whether the times of all cases can be added up.
pub open spec fn countable(queries: Seq<BenchQuery>) -> bool {
    forall|i: int| #![trigger queries[i]] 0 <= i < queries.len() ==> queries[i].total() <= u128::MAX
}

impl BenchmarkRun {
    /// Compares one case with an earlier run.
    fn compare_case(&self, case: &BenchQuery) -> (comparison: Option<Comparison>)
        requires
            countable(self.queries@),
            case.total() <= u128::MAX,
        ensures
            match compared(*case, self.queries@) {
                Some(expected) => comparison matches Some(comparison) && comparison@ == expected,
                None => comparison is None,
            },
    {
        let mut i: usize = 0;
        while i < self.queries.len()
            invariant
                i <= self.queries@.len(),
                countable(self.queries@),
                case.total() <= u128::MAX,
                find_case(self.queries@, case.query@, 0) == find_case(
                    self.queries@,
                    case.query@,
                    i as nat,
                ),
            decreases self.queries@.len() - i,
        {
            let previous = &self.queries[i];
            if same_text(previous.query.as_str(), case.query.as_str()) {
                if previous.iterations.len() == 0 {
                    return None;
                }
                if case.iterations.len() == 0 {
                    return Some(Comparison::Failed { query: case.query.clone() });
                }
                assert(self.queries@[i as int].total() <= u128::MAX);
                return Some(
                    Comparison::Measured {
                        query: case.query.clone(),
                        previous: previous.avg(),
                        current: case.avg(),
                        previous_start: previous.start_time,
                    },
                );
            }
            i = i + 1;
        }
        None
    }

    /// Compares the cases of this run, in their order, with those of an earlier one.
    pub fn compare_with_previous(&self, earlier: &BenchmarkRun) -> (list: Vec<Comparison>)
        requires
            countable(self.queries@),
            countable(earlier.queries@),
        ensures
            list@.map_values(|comparison: Comparison| comparison@) == comparisons(
                self.queries@,
                earlier.queries@,
                self.queries@.len(),
            ),
    {
        let ghost view = |comparison: Comparison| comparison@;
        let mut list: Vec<Comparison> = Vec::new();
        let mut i: usize = 0;
        assert(list@.map_values(view) =~= Seq::<ComparisonView>::empty());
        while i < self.queries.len()
            invariant
                i <= self.queries@.len(),
                countable(self.queries@),
                countable(earlier.queries@),
                view == (|comparison: Comparison| comparison@),
                list@.map_values(view) == comparisons(self.queries@, earlier.queries@, i as nat),
            decreases self.queries@.len() - i,
        {
            let ghost before = list@.map_values(view);
            assert(self.queries@[i as int].total() <= u128::MAX);
            if let Some(comparison) = earlier.compare_case(&self.queries[i]) {
                list.push(comparison);
                assert(list@.map_values(view) =~= before.push(comparison@));
            }
            i = i + 1;
        }
        list
    }
}

/// The first second of the calendar, the first of January of the year 262144 before the common era,
/// counted from the epoch.
pub const CALENDAR_START: i64 = -8_334_601_228_800;

/// The last second of the calendar, at the end of the year 262142, counted from the epoch.
pub const CALENDAR_END: i64 = 8_210_266_876_799;

/// A point in time, in seconds since the epoch, written in a pattern, if the pattern is a valid one:
/// what `DateTime::<Utc>::format` of the chrono crate makes of it.
pub uninterp spec fn utc_text(secs: i64, pattern: Seq<char>) -> Option<Seq<char>>;

/// Whether a pattern has no placeholders but those for years, months, days, hours, minutes and
/// seconds.
pub open spec fn is_plain_pattern(pattern: Seq<char>) -> bool {
    forall|i: int|
        #![trigger pattern[i]]
        0 <= i < pattern.len() && pattern[i] == '%' ==> i + 1 < pattern.len() && (pattern[i + 1]
            == 'Y' || pattern[i + 1] == 'm' || pattern[i + 1] == 'd' || pattern[i + 1] == 'H'
            || pattern[i + 1] == 'M' || pattern[i + 1] == 'S')
}

/// Writes a point in time in a pattern, by `DateTime::<Utc>::format` of the chrono crate; the
/// calendar holds the point, so that `DateTime::<Utc>::from_timestamp` gives it. The text depends
/// on the point and on the pattern, and patterns of plain placeholders are valid. What the
/// placeholders are replaced by is not stated.
#[verifier::external_body]
fn format_utc(secs: i64, pattern: &str) -> (text: Option<String>)
    requires
        CALENDAR_START <= secs <= CALENDAR_END,
    ensures
        match text {
            Some(text) => utc_text(secs, pattern@) == Some(text@),
            None => utc_text(secs, pattern@) is None,
        },
        is_plain_pattern(pattern@) ==> text is Some,
{
    let datetime = DateTime::<Utc>::from_timestamp(secs, 0)?;
    let mut text = String::new();
    write!(text, "{}", datetime.format(pattern)).ok()?;
    Some(text)
}

/// The headline of a comparison with a run at the given date and time.
pub fn comparison_headline(datetime: &str) -> (headline: String)
    ensures
        headline@ == "==== Comparison with the previous benchmark from "@ + datetime@ + " ===="@,
{
    let mut headline = "==== Comparison with the previous benchmark from ".to_owned();
    headline.append(datetime);
    headline.append(" ====");
    headline
}

/// The headline of a comparison with a run that started at the given time, if the calendar reaches
/// that far.
pub fn comparison_header(previous_start: u64) -> (headline: Option<String>)
    ensures
        headline is Some <==> previous_start <= CALENDAR_END,
        headline matches Some(headline) ==> (utc_text(
            previous_start as i64,
            "%Y-%m-%d %H:%M:%S UTC"@,
        ) matches Some(datetime) && headline@ == "==== Comparison with the previous benchmark from "@
            + datetime + " ===="@),
{
    if previous_start > CALENDAR_END as u64 {
        return None;
    }
    proof {
        reveal_strlit("%Y-%m-%d %H:%M:%S UTC");
    }
    match format_utc(previous_start as i64, "%Y-%m-%d %H:%M:%S UTC") {
        Some(datetime) => Some(comparison_headline(datetime.as_str())),
        None => None,
    }
}

/// How much a measured case has changed: the ratio of the longer to the shorter time as a text, and
/// whether it is a large one.
#[derive(Debug, PartialEq, Eq)]
pub struct Change {
    pub ratio: String,
    pub large: bool,
}

/// The sign for a change.
pub open spec fn change_sign(faster: bool, large: bool) -> Seq<char> {
    match (faster, large) {
        (true, true) => "✅"@,
        (true, false) => "✔"@,
        (false, true) => "❌"@,
        (false, false) => "✖"@,
    }
}

/// The line of a report on one comparison.
pub open spec fn line_of(comparison: ComparisonView, ratio: Seq<char>, large: bool) -> Seq<char> {
    match comparison {
        ComparisonView::Failed { query } => query + ": Failed ❌"@,
        ComparisonView::Measured { query, previous, current, .. } => {
            let faster = current < previous;
            crate::text::padded(query, 8) + ": prev="@ + crate::text::padded(
                crate::text::decimal(previous),
                4,
            ) + " ms, new="@ + crate::text::padded(crate::text::decimal(current), 4)
                + " ms, diff="@ + ratio + (if faster {
                " faster "@
            } else {
                " slower "@
            }) + change_sign(faster, large)
        },
    }
}

/// Writes the line of a report on one comparison.
pub fn comparison_line(comparison: &Comparison, change: &Change) -> (line: String)
    ensures
        line@ == line_of(comparison@, change.ratio@, change.large),
{
    match comparison {
        Comparison::Failed { query } => {
            let mut line = query.clone();
            line.append(": Failed ❌");
            line
        },
        Comparison::Measured { query, previous, current, .. } => {
            let faster = comparison.is_faster();
            let mut line = "".to_owned();
            proof {
                reveal_strlit("");
            }
            push_padded(&mut line, query.as_str(), 8);
            line.append(": prev=");
            push_padded_decimal(&mut line, *previous, 4);
            line.append(" ms, new=");
            push_padded_decimal(&mut line, *current, 4);
            line.append(" ms, diff=");
            line.append(change.ratio.as_str());
            if faster {
                line.append(" faster ");
            } else {
                line.append(" slower ");
            }
            line.append(
                match (faster, change.large) {
                    (true, true) => "✅",
                    (true, false) => "✔",
                    (false, true) => "❌",
                    (false, false) => "✖",
                },
            );
            assert(line@ =~= line_of(comparison@, change.ratio@, change.large));
            line
        },
    }
}

/// The views of comparisons.
pub open spec fn comparison_views(list: Seq<Comparison>) -> Seq<ComparisonView> {
    list.map_values(|comparison: Comparison| comparison@)
}

/// When the earlier case of the first measured one among the first `n` comparisons started.
pub open spec fn first_start(list: Seq<ComparisonView>, n: nat) -> Option<u64>
    decreases n,
{
    if n == 0 || n > list.len() {
        None
    } else {
        match (first_start(list, (n - 1) as nat), list[n - 1]) {
            (Some(start), _) => Some(start),
            (None, ComparisonView::Measured { previous_start, .. }) => Some(previous_start),
            (None, ComparisonView::Failed { .. }) => None,
        }
    }
}

/// When the earlier case of the first measured one started, which a report is headed with; there is
/// no heading without a measured case.
pub fn heading_start(list: &Vec<Comparison>) -> (start: Option<u64>)
    ensures
        start == first_start(comparison_views(list@), list@.len()),
{
    let ghost views = comparison_views(list@);
    let mut start: Option<u64> = None;
    let mut i: usize = 0;
    while i < list.len()
        invariant
            i <= list@.len(),
            views == comparison_views(list@),
            start == first_start(views, i as nat),
        decreases list@.len() - i,
    {
        assert(views[i as int] == list@[i as int]@);
        if start.is_none() {
            match &list[i] {
                Comparison::Measured { previous_start, .. } => start = Some(*previous_start),
                Comparison::Failed { .. } => {},
            }
        }
        i = i + 1;
    }
    start
}

/// The lines of a report on the first `n` comparisons: one for each, and a heading before the first
/// measured one.
pub open spec fn report(
    list: Seq<ComparisonView>,
    changes: Seq<Change>,
    heading: Seq<Seq<char>>,
    n: nat,
) -> Seq<Seq<char>>
    decreases n,
{
    if n == 0 || n > list.len() {
        Seq::empty()
    } else {
        let before = report(list, changes, heading, (n - 1) as nat);
        let headed = if list[n - 1] is Measured && first_start(list, (n - 1) as nat) is None {
            before + heading
        } else {
            before
        };
        headed.push(line_of(list[n - 1], changes[n - 1].ratio@, changes[n - 1].large))
    }
}

/// Writes a report on a list of comparisons, with the change of each.
pub fn comparison_report(
    list: &Vec<Comparison>,
    changes: &Vec<Change>,
    heading: &Vec<String>,
) -> (lines: Vec<String>)
    requires
        changes@.len() == list@.len(),
    ensures
        crate::text::views(lines@) == report(
            comparison_views(list@),
            changes@,
            crate::text::views(heading@),
            list@.len(),
        ),
{
    let ghost views = comparison_views(list@);
    let ghost head = crate::text::views(heading@);
    let mut lines: Vec<String> = Vec::new();
    let mut headed = false;
    let mut i: usize = 0;
    assert(crate::text::views(lines@) =~= Seq::<Seq<char>>::empty());
    while i < list.len()
        invariant
            i <= list@.len(),
            changes@.len() == list@.len(),
            views == comparison_views(list@),
            head == crate::text::views(heading@),
            headed == (first_start(views, i as nat) is Some),
            crate::text::views(lines@) == report(views, changes@, head, i as nat),
        decreases list@.len() - i,
    {
        assert(views[i as int] == list@[i as int]@);
        let ghost before = crate::text::views(lines@);
        let measured = match &list[i] {
            Comparison::Measured { .. } => true,
            Comparison::Failed { .. } => false,
        };
        if measured && !headed {
            append_texts(&mut lines, heading);
            headed = true;
        }
        let ghost top = crate::text::views(lines@);
        let line = comparison_line(&list[i], &changes[i]);
        let ghost text = line@;
        lines.push(line);
        assert(crate::text::views(lines@) =~= top.push(text));
        i = i + 1;
    }
    lines
}

/// Appends copies of texts to a list.
fn append_texts(lines: &mut Vec<String>, texts: &Vec<String>)
    ensures
        crate::text::views(final(lines)@) == crate::text::views(old(lines)@) + crate::text::views(
            texts@,
        ),
{
    let mut i: usize = 0;
    assert(crate::text::views(lines@) =~= crate::text::views(old(lines)@) + crate::text::views(
        texts@,
    ).take(0));
    while i < texts.len()
        invariant
            i <= texts@.len(),
            crate::text::views(lines@) == crate::text::views(old(lines)@) + crate::text::views(
                texts@,
            ).take(i as int),
        decreases texts@.len() - i,
    {
        let ghost before = crate::text::views(lines@);
        let ghost copied = crate::text::views(texts@).take(i as int);
        lines.push(texts[i].clone());
        assert(crate::text::views(lines@) =~= before.push(texts@[i as int]@));
        i = i + 1;
        assert(crate::text::views(texts@).take(i as int) =~= copied.push(texts@[i - 1]@));
        assert(crate::text::views(lines@) =~= crate::text::views(old(lines)@)
            + crate::text::views(texts@).take(i as int));
    }
    assert(crate::text::views(texts@).take(i as int) =~= crate::text::views(texts@));
}

/// The heading of a report: the headline, the machine, how the two runs were set up, and a ruler as
/// long as the headline.
pub open spec fn heading_of(
    headline: Seq<char>,
    os: Seq<char>,
    arch: Seq<char>,
    cores: usize,
    previous: RunContext,
    current: RunContext,
) -> Seq<Seq<char>> {
    seq![
        headline,
        "os:        "@ + os,
        "arch:      "@ + arch,
        "cpu cores: "@ + crate::text::decimal(cores as nat),
        "threads:   "@ + crate::text::decimal(previous.threads as nat) + " -> "@
            + crate::text::decimal(current.threads as nat),
        "workers:   "@ + crate::text::decimal(previous.workers as nat) + " -> "@
            + crate::text::decimal(current.workers as nat),
        crate::text::repeated('=', vstd::utf8::encode_utf8(headline).len() as usize as nat),
    ]
}

/// Writes the heading of a report.
pub fn heading_lines(
    headline: &str,
    os: &str,
    arch: &str,
    cores: usize,
    previous: &RunContext,
    current: &RunContext,
) -> (lines: Vec<String>)
    ensures
        crate::text::views(lines@) == heading_of(
            headline@,
            os@,
            arch@,
            cores,
            *previous,
            *current,
        ),
{
    let mut os_line = "os:        ".to_owned();
    os_line.append(os);
    let mut arch_line = "arch:      ".to_owned();
    arch_line.append(arch);
    let mut cores_line = "cpu cores: ".to_owned();
    push_decimal(&mut cores_line, cores as u128);
    let threads_line = change_line("threads:   ", previous.threads, current.threads);
    let workers_line = change_line("workers:   ", previous.workers, current.workers);
    let mut ruler = "".to_owned();
    proof {
        reveal_strlit("");
        reveal_strlit("=");
    }
    push_repeated(&mut ruler, "=", headline.len());
    let lines: Vec<String> = vec![
        headline.to_owned(),
        os_line,
        arch_line,
        cores_line,
        threads_line,
        workers_line,
        ruler,
    ];
    assert(ruler@ =~= crate::text::repeated(
        '=',
        vstd::utf8::encode_utf8(headline@).len() as usize as nat,
    ));
    assert(crate::text::views(lines@) =~= heading_of(
        headline@,
        os@,
        arch@,
        cores,
        *previous,
        *current,
    ));
    lines
}

/// A line that tells what a number was and what it is.
fn change_line(label: &str, previous: usize, current: usize) -> (line: String)
    ensures
        line@ == label@ + crate::text::decimal(previous as nat) + " -> "@ + crate::text::decimal(
            current as nat,
        ),
{
    let mut line = label.to_owned();
    push_decimal(&mut line, previous as u128);
    line.append(" -> ");
    push_decimal(&mut line, current as u128);
    line
}

/// A report without a measured case has no heading, and one with any has it once: there are as many
/// lines as comparisons, and those of the heading.
pub proof fn law_reports_are_headed_once(
    list: Seq<ComparisonView>,
    changes: Seq<Change>,
    heading: Seq<Seq<char>>,
    n: nat,
)
    requires
        n <= list.len(),
        changes.len() == list.len(),
    ensures
        report(list, changes, heading, n).len() == n + if first_start(list, n) is Some {
            heading.len()
        } else {
            0
        },
    decreases n,
{
    if n > 0 {
        law_reports_are_headed_once(list, changes, heading, (n - 1) as nat);
    }
}

/// Compared with itself, a run has no case that became faster or slower, nor one that failed.
pub proof fn law_a_run_is_not_faster_than_itself(queries: Seq<BenchQuery>, at: int)
    requires
        0 <= at < queries.len(),
        find_case(queries, queries[at].query@, 0) == Some(at),
    ensures
        compared(queries[at], queries) matches Some(ComparisonView::Measured {
            previous,
            current,
            ..
        }) ==> current == previous,
        !(compared(queries[at], queries) matches Some(ComparisonView::Failed { .. })),
{
}

}
