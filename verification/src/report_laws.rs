//! What the averages, comparisons and reports of benchmark runs promise.
use vstd::prelude::*;

use crate::benchmark_run::{BenchQuery, Change, ComparisonView, Elapsed, QueryIter};

verus! {

/// The nanoseconds of a span of time.
pub open spec fn nanos_of(elapsed: Elapsed) -> nat {
    elapsed.secs as nat * 1_000_000_000 + elapsed.subsec_nanos as nat
}

/// The time that iterations took together, each of them in whole milliseconds.
pub open spec fn time_spent(iterations: Seq<QueryIter>) -> nat
    decreases iterations.len(),
{
    if iterations.len() == 0 {
        0
    } else {
        time_spent(iterations.drop_first()) + nanos_of(iterations[0].elapsed) / 1_000_000
    }
}

proof fn lemma_time_of_joined(a: Seq<QueryIter>, b: Seq<QueryIter>)
    ensures
        time_spent(a + b) == time_spent(a) + time_spent(b),
    decreases a.len(),
{
    if a.len() == 0 {
        assert(a + b =~= b);
    } else {
        assert((a + b).drop_first() =~= a.drop_first() + b);
        lemma_time_of_joined(a.drop_first(), b);
    }
}

proof fn lemma_time_of_one(iteration: QueryIter)
    ensures
        time_spent(seq![iteration]) == nanos_of(iteration.elapsed) / 1_000_000,
{
    assert(seq![iteration].drop_first() =~= Seq::<QueryIter>::empty());
    reveal_with_fuel(time_spent, 2);
}

proof fn lemma_total_is_time_spent(iterations: Seq<QueryIter>, n: nat)
    requires
        n <= iterations.len(),
    ensures
        crate::benchmark_run::total_millis(iterations, n) == time_spent(iterations.take(n as int)),
    decreases n,
{
    if n > 0 {
        lemma_total_is_time_spent(iterations, (n - 1) as nat);
        let last = iterations[n - 1];
        assert(iterations.take(n as int) =~= iterations.take(n - 1) + seq![last]);
        lemma_time_of_joined(iterations.take(n - 1), seq![last]);
        lemma_time_of_one(last);
        assert((last.elapsed.secs * 1_000_000_000 + last.elapsed.subsec_nanos) / 1_000_000
            == last.elapsed.secs * 1000 + last.elapsed.subsec_nanos as int / 1_000_000);
    } else {
        assert(iterations.take(0) =~= Seq::<QueryIter>::empty());
    }
}

/// The average accounts for every iteration: taken as often as there are iterations, it falls short
/// of the time that they took together by less than one millisecond each.
pub proof fn law_the_average_accounts_for_every_iteration(case: BenchQuery)
    requires
        case.iterations@.len() > 0,
    ensures
        ({
            let count = case.iterations@.len() as int;
            let time = time_spent(case.iterations@) as int;
            &&& case.total() == time
            &&& case.average() * count <= time < (case.average() + 1) * count
        }),
{
    let iterations = case.iterations@;
    lemma_total_is_time_spent(iterations, iterations.len());
    assert(iterations.take(iterations.len() as int) =~= iterations);
    let (time, count) = (time_spent(iterations) as int, iterations.len() as int);
    vstd::arithmetic::div_mod::lemma_fundamental_div_mod(time, count);
    vstd::arithmetic::div_mod::lemma_mod_bound(time, count);
    let average = time / count;
    assert(average * count <= time < (average + 1) * count) by (nonlinear_arith)
        requires
            time == count * average + time % count,
            0 <= time % count < count,
    ;
}

proof fn lemma_time_of_permutation(a: Seq<QueryIter>, b: Seq<QueryIter>)
    requires
        a.to_multiset() == b.to_multiset(),
    ensures
        time_spent(a) == time_spent(b),
    decreases a.len(),
{
    a.to_multiset_ensures();
    b.to_multiset_ensures();
    if a.len() > 0 {
        let first = a[0];
        assert(a.to_multiset().count(first) > 0) by {
            assert(a.contains(first));
        }
        assert(b.contains(first));
        let i = choose|i: int| 0 <= i < b.len() && b[i] == first;
        let rest = b.remove(i);
        assert(b =~= b.take(i) + seq![first] + b.skip(i + 1));
        assert(rest =~= b.take(i) + b.skip(i + 1));
        lemma_time_of_joined(b.take(i) + seq![first], b.skip(i + 1));
        lemma_time_of_joined(b.take(i), seq![first]);
        lemma_time_of_joined(b.take(i), b.skip(i + 1));
        lemma_time_of_one(first);
        assert(a.drop_first() =~= a.remove(0));
        assert(a.remove(0).to_multiset() =~= a.to_multiset().remove(first));
        assert(rest.to_multiset() =~= b.to_multiset().remove(first));
        lemma_time_of_permutation(a.drop_first(), rest);
    } else {
        assert(b.len() == 0);
    }
}

/// The average does not depend on the order of the iterations.
pub proof fn law_the_average_ignores_the_order(a: BenchQuery, b: BenchQuery)
    requires
        a.iterations@.len() > 0,
        a.iterations@.to_multiset() == b.iterations@.to_multiset(),
    ensures
        a.average() == b.average(),
{
    a.iterations@.to_multiset_ensures();
    b.iterations@.to_multiset_ensures();
    lemma_time_of_permutation(a.iterations@, b.iterations@);
    law_the_average_accounts_for_every_iteration(a);
    law_the_average_accounts_for_every_iteration(b);
    let (x, y, n, time) = (
        a.average() as int,
        b.average() as int,
        a.iterations@.len() as int,
        time_spent(a.iterations@) as int,
    );
    assert(x == y) by (nonlinear_arith)
        requires
            x * n <= time < (x + 1) * n,
            y * n <= time < (y + 1) * n,
    ;
}

/// The average does not shrink when an iteration takes longer, and grows when every iteration takes
/// at least a millisecond more than any did before.
pub proof fn law_the_average_grows_with_every_iteration(
    case: BenchQuery,
    slower: BenchQuery,
    at: int,
)
    requires
        0 <= at < case.iterations@.len(),
        slower.iterations@ == case.iterations@.update(at, slower.iterations@[at]),
        nanos_of(case.iterations@[at].elapsed) <= nanos_of(slower.iterations@[at].elapsed),
    ensures
        case.average() <= slower.average(),
        nanos_of(slower.iterations@[at].elapsed) >= nanos_of(case.iterations@[at].elapsed)
            + case.iterations@.len() * 1_000_000 ==> case.average() < slower.average(),
{
    let (a, b) = (case.iterations@, slower.iterations@);
    let (head, tail) = (a.take(at), a.skip(at + 1));
    assert(a =~= head + seq![a[at]] + tail);
    assert(b =~= head + seq![b[at]] + tail);
    lemma_time_of_joined(head + seq![a[at]], tail);
    lemma_time_of_joined(head, seq![a[at]]);
    lemma_time_of_joined(head + seq![b[at]], tail);
    lemma_time_of_joined(head, seq![b[at]]);
    lemma_time_of_one(a[at]);
    lemma_time_of_one(b[at]);
    law_the_average_accounts_for_every_iteration(case);
    law_the_average_accounts_for_every_iteration(slower);
    let (x, y, n) = (case.average() as int, slower.average() as int, a.len() as int);
    let (s, t) = (time_spent(a) as int, time_spent(b) as int);
    assert(x <= y) by (nonlinear_arith)
        requires
            x * n <= s < (x + 1) * n,
            y * n <= t < (y + 1) * n,
            s <= t,
    ;
    if nanos_of(b[at].elapsed) >= nanos_of(a[at].elapsed) + n * 1_000_000 {
        assert(t >= s + n);
        assert(x < y) by (nonlinear_arith)
            requires
                x * n <= s < (x + 1) * n,
                y * n <= t < (y + 1) * n,
                t >= s + n,
        ;
    }
}

proof fn lemma_first_of_a_name(queries: Seq<BenchQuery>, name: Seq<char>, from: nat, at: int)
    requires
        from <= at < queries.len(),
        queries[at].query@ == name,
        forall|j: int| #![trigger queries[j]] from <= j < at ==> queries[j].query@ != name,
    ensures
        crate::benchmark_run::find_case(queries, name, from) == Some(at),
    decreases at - from,
{
    if from < at {
        assert(queries[from as int].query@ != name);
        lemma_first_of_a_name(queries, name, from + 1, at);
    }
}

proof fn lemma_none_of_a_name(queries: Seq<BenchQuery>, name: Seq<char>, from: nat)
    requires
        forall|j: int|
            #![trigger queries[j]]
            from <= j < queries.len() ==> queries[j].query@ != name,
    ensures
        crate::benchmark_run::find_case(queries, name, from) is None,
    decreases queries.len() - from,
{
    if from < queries.len() {
        assert(queries[from as int].query@ != name);
        lemma_none_of_a_name(queries, name, from + 1);
    }
}

/// A case is compared with the first case of its name in an earlier run, and only if that was
/// completed; a case that was not completed itself counts as failed. The two averages stand for the
/// two cases, the earlier one first.
pub proof fn law_cases_are_compared_by_name(case: BenchQuery, earlier: Seq<BenchQuery>, at: int)
    requires
        0 <= at < earlier.len(),
        earlier[at].query@ == case.query@,
        forall|j: int| #![trigger earlier[j]] 0 <= j < at ==> earlier[j].query@ != case.query@,
    ensures
        match crate::benchmark_run::compared(case, earlier) {
            None => earlier[at].iterations@.len() == 0,
            Some(ComparisonView::Failed { query }) => {
                &&& earlier[at].iterations@.len() > 0
                &&& case.iterations@.len() == 0
                &&& query == case.query@
            },
            Some(ComparisonView::Measured { query, previous, current, previous_start }) => {
                let (then, now) = (earlier[at].iterations@, case.iterations@);
                &&& then.len() > 0 && now.len() > 0
                &&& query == case.query@
                &&& previous_start == earlier[at].start_time
                &&& previous * then.len() <= time_spent(then) < (previous + 1) * then.len()
                &&& current * now.len() <= time_spent(now) < (current + 1) * now.len()
            },
        },
{
    lemma_first_of_a_name(earlier, case.query@, 0, at);
    if earlier[at].iterations@.len() > 0 && case.iterations@.len() > 0 {
        law_the_average_accounts_for_every_iteration(earlier[at]);
        law_the_average_accounts_for_every_iteration(case);
    }
}

/// A case that an earlier run does not have is not compared.
pub proof fn law_new_cases_are_not_compared(case: BenchQuery, earlier: Seq<BenchQuery>)
    requires
        forall|j: int|
            #![trigger earlier[j]]
            0 <= j < earlier.len() ==> earlier[j].query@ != case.query@,
    ensures
        crate::benchmark_run::compared(case, earlier) is None,
{
    lemma_none_of_a_name(earlier, case.query@, 0);
}

/// The comparisons of a run, all of them.
pub open spec fn all_comparisons(queries: Seq<BenchQuery>, earlier: Seq<BenchQuery>) -> Seq<
    ComparisonView,
> {
    crate::benchmark_run::comparisons(queries, earlier, queries.len())
}

proof fn lemma_comparisons_of_a_prefix(
    a: Seq<BenchQuery>,
    b: Seq<BenchQuery>,
    earlier: Seq<BenchQuery>,
    n: nat,
)
    requires
        n <= a.len(),
    ensures
        crate::benchmark_run::comparisons(a + b, earlier, n) == crate::benchmark_run::comparisons(
            a,
            earlier,
            n,
        ),
    decreases n,
{
    if n > 0 {
        lemma_comparisons_of_a_prefix(a, b, earlier, (n - 1) as nat);
        assert((a + b)[n - 1] == a[n - 1]);
    }
}

proof fn lemma_comparisons_of_joined(
    a: Seq<BenchQuery>,
    b: Seq<BenchQuery>,
    earlier: Seq<BenchQuery>,
    n: nat,
)
    requires
        n <= b.len(),
    ensures
        crate::benchmark_run::comparisons(a + b, earlier, a.len() + n) == all_comparisons(
            a,
            earlier,
        ) + crate::benchmark_run::comparisons(b, earlier, n),
    decreases n,
{
    let before = all_comparisons(a, earlier);
    if n == 0 {
        lemma_comparisons_of_a_prefix(a, b, earlier, a.len());
        assert(before + Seq::<ComparisonView>::empty() =~= before);
    } else {
        lemma_comparisons_of_joined(a, b, earlier, (n - 1) as nat);
        assert((a + b)[a.len() + n - 1] == b[n - 1]);
        let done = crate::benchmark_run::comparisons(b, earlier, (n - 1) as nat);
        if let Some(comparison) = crate::benchmark_run::compared(b[n - 1], earlier) {
            assert((before + done).push(comparison) =~= before + done.push(comparison));
        }
    }
}

/// Every case is compared by itself, in the order of the run: what two lists of cases compare to is
/// what the first compares to, followed by what the second does; one case makes at most one
/// comparison.
pub proof fn law_cases_are_compared_one_by_one(
    a: Seq<BenchQuery>,
    b: Seq<BenchQuery>,
    case: BenchQuery,
    earlier: Seq<BenchQuery>,
)
    ensures
        all_comparisons(a + b, earlier) == all_comparisons(a, earlier) + all_comparisons(
            b,
            earlier,
        ),
        all_comparisons(seq![case], earlier) == match crate::benchmark_run::compared(
            case,
            earlier,
        ) {
            Some(comparison) => seq![comparison],
            None => Seq::empty(),
        },
{
    lemma_comparisons_of_joined(a, b, earlier, b.len());
    let one = seq![case];
    reveal_with_fuel(crate::benchmark_run::comparisons, 2);
    assert(one[0] == case);
    assert(crate::benchmark_run::comparisons(one, earlier, 0) == Seq::<ComparisonView>::empty());
    if let Some(comparison) = crate::benchmark_run::compared(case, earlier) {
        assert(Seq::<ComparisonView>::empty().push(comparison) =~= seq![comparison]);
    }
}

/// The names of all failed cases.
pub open spec fn all_failed_names(queries: Seq<BenchQuery>) -> Seq<char> {
    crate::benchmark_run::failed_names(queries, queries.len())
}

/// Whether a case of the list failed.
pub open spec fn any_failed(queries: Seq<BenchQuery>) -> bool {
    exists|i: int| #![trigger queries[i]] 0 <= i < queries.len() && !queries[i].success
}

proof fn lemma_names_of_a_prefix(a: Seq<BenchQuery>, b: Seq<BenchQuery>, n: nat)
    requires
        n <= a.len(),
    ensures
        crate::benchmark_run::failed_names(a + b, n) == crate::benchmark_run::failed_names(a, n),
        crate::benchmark_run::has_failure(a + b, n) == crate::benchmark_run::has_failure(a, n),
    decreases n,
{
    assert forall|i: int| 0 <= i < n implies (a + b)[i] == a[i] by {}
    if crate::benchmark_run::has_failure(a, n) {
        let i = choose|i: int| #![trigger a[i]] 0 <= i < n && i < a.len() && !a[i].success;
        assert(!(a + b)[i].success);
    }
    if crate::benchmark_run::has_failure(a + b, n) {
        let i = choose|i: int|
            #![trigger (a + b)[i]]
            0 <= i < n && i < (a + b).len() && !(a + b)[i].success;
        assert(!a[i].success);
    }
    if n > 0 {
        lemma_names_of_a_prefix(a, b, (n - 1) as nat);
    }
}

proof fn lemma_no_failed_names(queries: Seq<BenchQuery>, n: nat)
    requires
        n <= queries.len(),
        !crate::benchmark_run::has_failure(queries, n),
    ensures
        crate::benchmark_run::failed_names(queries, n) == Seq::<char>::empty(),
    decreases n,
{
    if n > 0 {
        assert(queries[n - 1].success);
        assert(!crate::benchmark_run::has_failure(queries, (n - 1) as nat));
        lemma_no_failed_names(queries, (n - 1) as nat);
    }
}

proof fn lemma_names_of_joined(a: Seq<BenchQuery>, b: Seq<BenchQuery>, n: nat)
    requires
        n <= b.len(),
    ensures
        ({
            let names = crate::benchmark_run::failed_names(a + b, a.len() + n);
            let (first, second) = (all_failed_names(a), crate::benchmark_run::failed_names(b, n));
            &&& crate::benchmark_run::has_failure(a + b, a.len() + n) == (any_failed(a)
                || crate::benchmark_run::has_failure(b, n))
            &&& any_failed(a) && crate::benchmark_run::has_failure(b, n) ==> names == first + ", "@
                + second
            &&& !any_failed(a) ==> names == second
            &&& !crate::benchmark_run::has_failure(b, n) ==> names == first
        }),
    decreases n,
{
    assert(any_failed(a) == crate::benchmark_run::has_failure(a, a.len()));
    if n == 0 {
        lemma_names_of_a_prefix(a, b, a.len());
        if !any_failed(a) {
            lemma_no_failed_names(a, a.len());
        }
    } else {
        lemma_names_of_joined(a, b, (n - 1) as nat);
        let m = (a.len() + n - 1) as nat;
        assert((a + b)[m as int] == b[n - 1]);
        lemma_one_more_case(a + b, m);
        lemma_one_more_case(b, (n - 1) as nat);
        if !any_failed(a) {
            lemma_no_failed_names(a, a.len());
        }
        let first = all_failed_names(a);
        let second = crate::benchmark_run::failed_names(b, (n - 1) as nat);
        let name = b[n - 1].query@;
        assert((first + ", "@ + second) + ", "@ + name =~= first + ", "@ + (second + ", "@ + name));
    }
}

proof fn lemma_one_more_case(queries: Seq<BenchQuery>, n: nat)
    requires
        n < queries.len(),
    ensures
        crate::benchmark_run::has_failure(queries, n + 1) == (crate::benchmark_run::has_failure(
            queries,
            n,
        ) || !queries[n as int].success),
{
    assert(queries[n as int] == queries[n as int]);
    if crate::benchmark_run::has_failure(queries, n) {
        let i = choose|i: int| #![trigger queries[i]] 0 <= i < n && i < queries.len()
            && !queries[i].success;
        assert(!queries[i].success);
    }
}

/// The names of failed cases are listed in the order of the run, with a comma and a space between
/// two of them: those of two lists of cases are those of the first, followed by those of the second.
/// A case that succeeded is not named.
pub proof fn law_failed_cases_are_named(a: Seq<BenchQuery>, b: Seq<BenchQuery>, case: BenchQuery)
    ensures
        all_failed_names(a + b) == if any_failed(a) && any_failed(b) {
            all_failed_names(a) + ", "@ + all_failed_names(b)
        } else if any_failed(a) {
            all_failed_names(a)
        } else {
            all_failed_names(b)
        },
        all_failed_names(seq![case]) == if case.success {
            Seq::empty()
        } else {
            case.query@
        },
{
    lemma_names_of_joined(a, b, b.len());
    assert(any_failed(b) == crate::benchmark_run::has_failure(b, b.len()));
    let one = seq![case];
    reveal_with_fuel(crate::benchmark_run::failed_names, 2);
    assert(one[0] == case);
    assert(!crate::benchmark_run::has_failure(one, 0));
}

/// A report is headed with the time of the earlier run that its first measured case was compared
/// with, wherever that case stands.
pub proof fn law_reports_are_headed_by_the_first_measured_case(
    list: Seq<ComparisonView>,
    n: nat,
    at: int,
)
    requires
        0 <= at < n <= list.len(),
        list[at] is Measured,
        forall|j: int| #![trigger list[j]] 0 <= j < at ==> list[j] is Failed,
    ensures
        crate::benchmark_run::first_start(list, n) == Some(list[at]->previous_start),
    decreases n,
{
    if n > at + 1 {
        law_reports_are_headed_by_the_first_measured_case(list, (n - 1) as nat, at);
    } else {
        law_failures_alone_have_no_heading(list, at as nat);
    }
}

/// Cases that failed say nothing of when the earlier run was.
pub proof fn law_failures_alone_have_no_heading(list: Seq<ComparisonView>, n: nat)
    requires
        n <= list.len(),
        forall|j: int| #![trigger list[j]] 0 <= j < n ==> list[j] is Failed,
    ensures
        crate::benchmark_run::first_start(list, n) is None,
    decreases n,
{
    if n > 0 {
        law_failures_alone_have_no_heading(list, (n - 1) as nat);
        assert(list[n - 1] is Failed);
    }
}

/// The lines of the first `n` comparisons.
pub open spec fn lines_of(list: Seq<ComparisonView>, changes: Seq<Change>, n: nat) -> Seq<Seq<char>> {
    Seq::new(
        n,
        |j: int| crate::benchmark_run::line_of(list[j], changes[j].ratio@, changes[j].large),
    )
}

/// In a report every comparison has a line of its own, in the order of the comparisons; the heading
/// stands before the line of the first measured case, and behind those of the cases that failed
/// before it.
pub proof fn law_reports_list_every_comparison(
    list: Seq<ComparisonView>,
    changes: Seq<Change>,
    heading: Seq<Seq<char>>,
    n: nat,
    at: int,
)
    requires
        0 <= at <= n <= list.len(),
        changes.len() == list.len(),
        at < n ==> list[at] is Measured,
        forall|j: int| #![trigger list[j]] 0 <= j < at ==> list[j] is Failed,
    ensures
        crate::benchmark_run::report(list, changes, heading, n) == if at < n {
            lines_of(list, changes, n).take(at) + heading + lines_of(list, changes, n).skip(at)
        } else {
            lines_of(list, changes, n)
        },
    decreases n,
{
    let lines = lines_of(list, changes, n);
    if n > 0 {
        let m = (n - 1) as nat;
        let fewer = lines_of(list, changes, m);
        assert(lines =~= fewer.push(lines[n - 1]));
        if at == n {
            assert(list[n - 1] is Failed);
            law_reports_list_every_comparison(list, changes, heading, m, at - 1);
        } else {
            law_reports_list_every_comparison(list, changes, heading, m, at);
            assert(lines.take(at) =~= fewer.take(at));
            if at < m {
                law_reports_are_headed_by_the_first_measured_case(list, m, at);
                assert(lines.skip(at) =~= fewer.skip(at).push(lines[n - 1]));
                assert((fewer.take(at) + heading + fewer.skip(at)).push(lines[n - 1])
                    =~= lines.take(at) + heading + lines.skip(at));
            } else {
                law_failures_alone_have_no_heading(list, at as nat);
                assert(lines.skip(at) =~= seq![lines[n - 1]]);
                assert(fewer.take(at) =~= fewer);
                assert((fewer + heading).push(lines[n - 1]) =~= lines.take(at) + heading
                    + lines.skip(at));
            }
        }
    } else {
        assert(lines =~= Seq::<Seq<char>>::empty());
    }
}

/// The line of a case that failed says so. The line of a measured case begins with its name, right
/// aligned, tells both times in milliseconds, the earlier one first, and ends with the outcome:
/// faster if it took less time than before, and slower if it did not.
pub proof fn law_lines_tell_the_outcome(
    query: Seq<char>,
    previous: nat,
    current: nat,
    start: u64,
    ratio: Seq<char>,
    large: bool,
)
    ensures
        crate::benchmark_run::line_of(ComparisonView::Failed { query }, ratio, large) == query
            + ": Failed ❌"@,
        ({
            let line = crate::benchmark_run::line_of(
                ComparisonView::Measured { query, previous, current, previous_start: start },
                ratio,
                large,
            );
            let times = ": prev="@ + crate::text::padded(crate::text::decimal(previous), 4)
                + " ms, new="@ + crate::text::padded(crate::text::decimal(current), 4)
                + " ms, diff="@;
            let outcome = match (current < previous, large) {
                (true, true) => " faster "@ + "✅"@,
                (true, false) => " faster "@ + "✔"@,
                (false, true) => " slower "@ + "❌"@,
                (false, false) => " slower "@ + "✖"@,
            };
            line == crate::text::padded(query, 8) + (times + ratio) + outcome
        }),
{
    let line = crate::benchmark_run::line_of(
        ComparisonView::Measured { query, previous, current, previous_start: start },
        ratio,
        large,
    );
    let times = ": prev="@ + crate::text::padded(crate::text::decimal(previous), 4) + " ms, new="@
        + crate::text::padded(crate::text::decimal(current), 4) + " ms, diff="@;
    let outcome = match (current < previous, large) {
        (true, true) => " faster "@ + "✅"@,
        (true, false) => " faster "@ + "✔"@,
        (false, true) => " slower "@ + "❌"@,
        (false, false) => " slower "@ + "✖"@,
    };
    assert(line =~= crate::text::padded(query, 8) + (times + ratio) + outcome);
}

}
