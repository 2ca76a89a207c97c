//! When the partitioning of an input meets the distribution that its consumer demands.
use std::sync::Arc;
use vstd::prelude::*;

use datafusion::arrow::datatypes::Schema;
use datafusion::physical_expr::expressions::Column;
use datafusion::physical_expr::{EquivalenceProperties, Partitioning, PhysicalExpr};

use crate::plan::{PartitionScheme, PlanNode, SchemeView};

verus! {

/// Whether one of the pairs states that `a` and `b` are equal.
pub open spec fn stated_equal(pairs: Seq<(usize, usize)>, a: usize, b: usize) -> bool {
    pairs.contains((a, b)) || pairs.contains((b, a))
}

/// Whether every expression of the chain is stated to be equal to the one after it.
pub open spec fn is_chain(pairs: Seq<(usize, usize)>, chain: Seq<usize>) -> bool {
    &&& chain.len() > 0
    &&& forall|i: int|
        #![trigger chain[i]]
        0 <= i < chain.len() - 1 ==> stated_equal(pairs, chain[i], chain[i + 1])
}

/// Whether the pairs imply that two expressions are equal.
pub open spec fn implied_equal(pairs: Seq<(usize, usize)>, a: usize, b: usize) -> bool {
    exists|chain: Seq<usize>| #[trigger]
        is_chain(pairs, chain) && chain.first() == a && chain.last() == b
}

/// Whether `count` partitions under `scheme` hold rows with equal values of `keys` together, given
/// which expressions are equal: a single partition does, and so does hashing by the same
/// expressions in the same order.
pub open spec fn hash_satisfied(
    scheme: SchemeView,
    count: usize,
    equal_exprs: Seq<(usize, usize)>,
    keys: Seq<usize>,
) -> bool {
    ||| count == 1
    ||| {
        &&& scheme matches SchemeView::Hash(exprs)
        &&& exprs.len() > 0
        &&& exprs.len() == keys.len()
        &&& forall|i: int|
            #![trigger exprs[i]]
            0 <= i < keys.len() ==> implied_equal(equal_exprs, keys[i], exprs[i])
    }
}

/// Whether a demand to be hash partitioned by `keys` is met, by `Partitioning::satisfaction` of
/// DataFusion with subsets not allowed.
///
/// Each number becomes the column of that index, so that two of them compare equal exactly where
/// the numbers do; each pair is added with `EquivalenceProperties::add_equal_conditions`, which
/// merges the equivalence classes of its two columns. The claim is that the demand counts as
/// satisfied for a single partition, and otherwise only for hash partitioning by as many
/// expressions as there are keys, at least one, each in the equivalence class of its key.
#[verifier::external_body]
fn hash_satisfaction(
    scheme: &PartitionScheme,
    count: usize,
    equal_exprs: &Vec<(usize, usize)>,
    keys: &Vec<usize>,
) -> (satisfied: bool)
    ensures
        satisfied == hash_satisfied(scheme@, count, equal_exprs@, keys@),
{
    let column = |id: &usize| -> Arc<dyn PhysicalExpr> { Arc::new(Column::new("", *id)) };
    let partitioning = match scheme {
        PartitionScheme::RoundRobin => Partitioning::RoundRobinBatch(count),
        PartitionScheme::Hash(ids) => Partitioning::Hash(ids.iter().map(column).collect(), count),
        PartitionScheme::Unknown => Partitioning::UnknownPartitioning(count),
    };
    let keys = keys.iter().map(column).collect();
    let demand = datafusion::physical_expr::Distribution::HashPartitioned(keys);
    let mut known = EquivalenceProperties::new(Arc::new(Schema::empty()));
    for (left, right) in equal_exprs {
        let _ = known.add_equal_conditions(column(left), column(right));
    }
    partitioning.satisfaction(&demand, &known, false).is_satisfied()
}

/// Whether the output of a node is hash partitioned by `keys`, as far as its consumer can tell.
pub fn satisfies_hash(node: &PlanNode, keys: &Vec<usize>) -> (satisfied: bool)
    ensures
        satisfied == node.plan().satisfies_hash(keys@),
{
    hash_satisfaction(&node.op.scheme, node.partition_count, &node.op.equal_exprs, keys)
}

impl crate::plan::Plan {
    /// Whether the output is hash partitioned by `keys`, as far as the consumer can tell.
    pub open spec fn satisfies_hash(self, keys: Seq<usize>) -> bool {
        hash_satisfied(self.op.scheme, self.partition_count, self.op.equal_exprs, keys)
    }
}

/// The keys that an output is hashed by satisfy a demand for those keys.
pub proof fn law_own_hash_keys_are_satisfied(
    count: usize,
    equal_exprs: Seq<(usize, usize)>,
    keys: Seq<usize>,
)
    requires
        keys.len() > 0,
    ensures
        hash_satisfied(SchemeView::Hash(keys), count, equal_exprs, keys),
{
    assert forall|i: int| #![trigger keys[i]] 0 <= i < keys.len() implies implied_equal(
        equal_exprs,
        keys[i],
        keys[i],
    ) by {
        assert(is_chain(equal_exprs, seq![keys[i]]));
    }
}

}
