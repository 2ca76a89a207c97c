//! How the tasks of a union are divided among its children.
use vstd::prelude::*;

verus! {

/// A union whose children run in tasks of their own.
#[derive(Debug, PartialEq, Eq)]
pub struct IsolatedUnion {
    /// The number of tasks that each child runs on.
    pub child_tasks: Vec<usize>,
    /// The number of output partitions of every task.
    pub partition_count: usize,
}

/// What an [`IsolatedUnion`] amounts to.
pub struct UnionShape {
    pub child_tasks: Seq<usize>,
    pub partition_count: usize,
}

impl View for IsolatedUnion {
    type V = UnionShape;

    open spec fn view(&self) -> UnionShape {
        UnionShape { child_tasks: self.child_tasks@, partition_count: self.partition_count }
    }
}

/// Divides the tasks of a union among its children.
pub trait UnionLayout {
    /// The division, if there is one, given the number of tasks that each child would run on by
    /// itself, its number of partitions, and the number of tasks of the union.
    spec fn isolated(
        &self,
        child_task_counts: Seq<usize>,
        child_partition_counts: Seq<usize>,
        tasks: usize,
    ) -> Option<UnionShape>;

    /// Divides the tasks of a union among its children: each of them gets a number.
    fn isolate(
        &self,
        child_task_counts: &Vec<usize>,
        child_partition_counts: &Vec<usize>,
        tasks: usize,
    ) -> (union: Option<IsolatedUnion>)
        requires
            child_task_counts@.len() == child_partition_counts@.len(),
        ensures
            match self.isolated(child_task_counts@, child_partition_counts@, tasks) {
                Some(shape) => union matches Some(union) && union@ == shape
                    && shape.child_tasks.len() == child_task_counts@.len(),
                None => union is None,
            },
    ;
}

/// The first `n` counts, added up.
pub open spec fn total_tasks(counts: Seq<usize>, n: nat) -> nat
    decreases n,
{
    if n == 0 || n > counts.len() {
        0
    } else {
        total_tasks(counts, (n - 1) as nat) + counts[n - 1] as nat
    }
}

/// The largest of the first `n` counts.
pub open spec fn largest_count(counts: Seq<usize>, n: nat) -> usize
    decreases n,
{
    if n == 0 || n > counts.len() {
        0
    } else {
        let before = largest_count(counts, (n - 1) as nat);
        if counts[n - 1] > before {
            counts[n - 1]
        } else {
            before
        }
    }
}

/// Where the share of the tasks after the first `n` children ends, in proportion to their counts.
pub open spec fn share_end(counts: Seq<usize>, tasks: usize, n: nat) -> nat {
    total_tasks(counts, n) * tasks as nat / total_tasks(counts, counts.len())
}

/// Divides tasks in proportion to the counts of the children, each child getting at least one.
#[derive(Debug, Clone, Copy)]
pub struct ProportionalUnions;

impl ProportionalUnions {
    /// The number of tasks of the `i`-th child.
    pub open spec fn share(counts: Seq<usize>, tasks: usize, i: int) -> nat {
        let share = (share_end(counts, tasks, (i + 1) as nat) - share_end(
            counts,
            tasks,
            i as nat,
        )) as nat;
        if share == 0 {
            1
        } else {
            share
        }
    }
}

proof fn lemma_total_grows(counts: Seq<usize>, n: nat, m: nat)
    requires
        n <= m <= counts.len(),
    ensures
        total_tasks(counts, n) <= total_tasks(counts, m),
    decreases m - n,
{
    if n < m {
        lemma_total_grows(counts, n, (m - 1) as nat);
    }
}

pub proof fn lemma_share_ends(counts: Seq<usize>, tasks: usize, n: nat)
    requires
        n <= counts.len(),
        total_tasks(counts, counts.len()) > 0,
    ensures
        share_end(counts, tasks, n) <= tasks,
        n > 0 ==> share_end(counts, tasks, (n - 1) as nat) <= share_end(counts, tasks, n),
        share_end(counts, tasks, 0) == 0,
        share_end(counts, tasks, counts.len()) == tasks,
{
    let total = total_tasks(counts, counts.len()) as int;
    let t = tasks as int;
    lemma_total_grows(counts, n, counts.len());
    let a = total_tasks(counts, n) as int;
    vstd::arithmetic::mul::lemma_mul_inequality(a, total, t);
    vstd::arithmetic::mul::lemma_mul_is_commutative(total, t);
    vstd::arithmetic::div_mod::lemma_div_is_ordered(a * t, total * t, total);
    vstd::arithmetic::div_mod::lemma_div_multiples_vanish(t, total);
    vstd::arithmetic::div_mod::lemma_div_basics(total);
    vstd::arithmetic::mul::lemma_mul_basics(t);
    assert(total_tasks(counts, 0) == 0);
    if n > 0 {
        let b = total_tasks(counts, (n - 1) as nat) as int;
        vstd::arithmetic::mul::lemma_mul_inequality(b, a, t);
        vstd::arithmetic::div_mod::lemma_div_is_ordered(b * t, a * t, total);
    }
}

impl UnionLayout for ProportionalUnions {
    open spec fn isolated(
        &self,
        child_task_counts: Seq<usize>,
        child_partition_counts: Seq<usize>,
        tasks: usize,
    ) -> Option<UnionShape> {
        let total = total_tasks(child_task_counts, child_task_counts.len());
        if total == 0 || total * tasks > u128::MAX {
            None
        } else {
            Some(
                UnionShape {
                    child_tasks: Seq::new(
                        child_task_counts.len(),
                        |i: int| Self::share(child_task_counts, tasks, i) as usize,
                    ),
                    partition_count: largest_count(
                        child_partition_counts,
                        child_partition_counts.len(),
                    ),
                },
            )
        }
    }

    fn isolate(
        &self,
        child_task_counts: &Vec<usize>,
        child_partition_counts: &Vec<usize>,
        tasks: usize,
    ) -> (union: Option<IsolatedUnion>) {
        let ghost counts = child_task_counts@;
        let n: usize = child_task_counts.len();
        let mut total: u128 = 0;
        let mut i: usize = 0;
        while i < n
            invariant
                i <= n,
                n == counts.len(),
                counts == child_task_counts@,
                total == total_tasks(counts, i as nat),
                total <= i * usize::MAX,
            decreases n - i,
        {
            assert((i + 1) * usize::MAX == i * usize::MAX + usize::MAX) by (nonlinear_arith);
            assert(i * usize::MAX + usize::MAX <= u128::MAX) by {
                let (x, m) = (i as int, usize::MAX as int);
                assert(x * m + m <= 0xffff_ffff_ffff_ffff * 0x1_0000_0000_0000_0000)
                    by (nonlinear_arith)
                    requires
                        0 <= x < 0xffff_ffff_ffff_ffff,
                        0 <= m <= 0xffff_ffff_ffff_ffff,
                ;
            }
            total = total + child_task_counts[i] as u128;
            i = i + 1;
        }
        if total == 0 {
            return None;
        }
        match total.checked_mul(tasks as u128) {
            Some(_) => {},
            None => {
                return None;
            },
        }
        let mut child_tasks: Vec<usize> = Vec::new();
        let mut before: u128 = 0;
        let mut end_before: usize = 0;
        let mut partition_count: usize = 0;
        let mut i: usize = 0;
        proof {
            lemma_share_ends(counts, tasks, 0);
        }
        while i < n
            invariant
                i <= n,
                n == counts.len(),
                n == child_partition_counts@.len(),
                counts == child_task_counts@,
                total == total_tasks(counts, n as nat),
                total > 0,
                total * tasks <= u128::MAX,
                before == total_tasks(counts, i as nat),
                end_before == share_end(counts, tasks, i as nat),
                child_tasks@.len() == i,
                forall|j: int|
                    0 <= j < i ==> #[trigger] child_tasks@[j] == Self::share(counts, tasks, j),
                partition_count == largest_count(child_partition_counts@, i as nat),
            decreases n - i,
        {
            proof {
                lemma_total_grows(counts, (i + 1) as nat, n as nat);
                lemma_share_ends(counts, tasks, (i + 1) as nat);
                let (a, b, t) = (
                    total_tasks(counts, (i + 1) as nat) as int,
                    total as int,
                    tasks as int,
                );
                vstd::arithmetic::mul::lemma_mul_inequality(a, b, t);
                vstd::arithmetic::mul::lemma_mul_nonnegative(a, t);
            }
            before = before + child_task_counts[i] as u128;
            let end: usize = (before * tasks as u128 / total) as usize;
            let share: usize = end - end_before;
            child_tasks.push(
                if share == 0 {
                    1
                } else {
                    share
                },
            );
            if child_partition_counts[i] > partition_count {
                partition_count = child_partition_counts[i];
            }
            end_before = end;
            i = i + 1;
        }
        let union = IsolatedUnion { child_tasks, partition_count };
        assert(union@.child_tasks =~= Seq::new(
            counts.len(),
            |i: int| Self::share(counts, tasks, i) as usize,
        ));
        Some(union)
    }
}

/// The shares of the children make up the tasks of the union, where each child has a share before
/// rounding up.
pub proof fn law_shares_fill_the_union(counts: Seq<usize>, tasks: usize)
    requires
        total_tasks(counts, counts.len()) > 0,
        forall|i: int|
            #![trigger counts[i]]
            0 <= i < counts.len() ==> share_end(counts, tasks, i as nat) < share_end(
                counts,
                tasks,
                (i + 1) as nat,
            ),
    ensures
        total_tasks(
            Seq::new(
                counts.len(),
                |i: int| ProportionalUnions::share(counts, tasks, i) as usize,
            ),
            counts.len(),
        ) == tasks,
{
    lemma_share_ends(counts, tasks, counts.len());
    lemma_shares_add_up(counts, tasks, counts.len());
}

proof fn lemma_shares_add_up(counts: Seq<usize>, tasks: usize, n: nat)
    requires
        n <= counts.len(),
        total_tasks(counts, counts.len()) > 0,
        forall|i: int|
            #![trigger counts[i]]
            0 <= i < counts.len() ==> share_end(counts, tasks, i as nat) < share_end(
                counts,
                tasks,
                (i + 1) as nat,
            ),
    ensures
        total_tasks(
            Seq::new(
                counts.len(),
                |i: int| ProportionalUnions::share(counts, tasks, i) as usize,
            ),
            n,
        ) == share_end(counts, tasks, n),
    decreases n,
{
    lemma_share_ends(counts, tasks, n);
    if n > 0 {
        lemma_shares_add_up(counts, tasks, (n - 1) as nat);
        assert(counts[n - 1] == counts[n - 1]);
    }
}

}
