//! Prepares schemas for being sent.
use std::sync::Arc;
use vstd::prelude::*;

use datafusion::arrow::ipc::writer::DictionaryTracker;

use crate::data_type::{DataType, Field, Schema};
use crate::plan::share;

verus! {

/// The dictionary tracker of the arrow crates.
#[verifier::external_type_specification]
#[verifier::external_body]
pub struct ExDictionaryTracker(DictionaryTracker);

/// The dictionary ids that a tracker has recorded, in their order.
pub uninterp spec fn dict_ids_of(tracker: DictionaryTracker) -> Seq<i64>;

/// The id that follows the recorded ones.
pub open spec fn next_id(ids: Seq<i64>) -> int {
    if ids.len() == 0 {
        0
    } else {
        ids.last() + 1
    }
}

/// The recorded ids after `n` more.
pub open spec fn ids_after(ids: Seq<i64>, n: nat) -> Seq<i64>
    decreases n,
{
    if n == 0 {
        ids
    } else {
        let before = ids_after(ids, (n - 1) as nat);
        before.push(next_id(before) as i64)
    }
}

/// Whether a tracker takes a dictionary that replaces another for an error.
pub uninterp spec fn errs_on_replacement(tracker: DictionaryTracker) -> bool;

/// A tracker that has recorded no ids, by `DictionaryTracker::new`, which is told whether
/// dictionaries may be replaced.
#[verifier::external_body]
fn new_tracker(error_on_replacement: bool) -> (tracker: DictionaryTracker)
    ensures
        dict_ids_of(tracker) == Seq::<i64>::empty(),
        errs_on_replacement(tracker) == error_on_replacement,
{
    DictionaryTracker::new(error_on_replacement)
}

/// Records the next dictionary id, by `DictionaryTracker::next_dict_id`: the one after the last,
/// or zero. Nothing else changes. It panics where there is no number after the last.
#[verifier::external_body]
fn next_dict_id(tracker: &mut DictionaryTracker) -> (id: i64)
    requires
        next_id(dict_ids_of(*old(tracker))) <= i64::MAX,
    ensures
        id == next_id(dict_ids_of(*old(tracker))),
        dict_ids_of(*final(tracker)) == dict_ids_of(*old(tracker)).push(id),
        errs_on_replacement(*final(tracker)) == errs_on_replacement(*old(tracker)),
{
    tracker.next_dict_id()
}

impl DataType {
    /// The number of dictionaries in a type, those within the values of a dictionary included.
    pub open spec fn dictionaries(&self) -> nat
        decreases self, 0nat,
    {
        match self {
            DataType::List(inner) => inner.dictionaries(),
            DataType::LargeList(inner) => inner.dictionaries(),
            DataType::ListView(inner) => inner.dictionaries(),
            DataType::LargeListView(inner) => inner.dictionaries(),
            DataType::FixedSizeList(inner, _) => inner.dictionaries(),
            DataType::Struct(fields) => struct_dictionaries(fields@, fields@.len()),
            DataType::Union(fields, _) => union_dictionaries(fields@, fields@.len()),
            DataType::Dictionary(_, values) => values.dictionaries() + 1,
            DataType::RunEndEncoded(_, values) => values.dictionaries(),
            DataType::MapType(inner, _) => inner.dictionaries(),
            _ => 0,
        }
    }
}

impl Field {
    pub open spec fn dictionaries(&self) -> nat
        decreases self, 1nat,
    {
        self.data_type.dictionaries()
    }
}

/// The number of dictionaries in the first `n` columns.
pub open spec fn struct_dictionaries(fields: Seq<Arc<Field>>, n: nat) -> nat
    decreases fields, n,
{
    if n == 0 || n > fields.len() {
        0
    } else {
        struct_dictionaries(fields, (n - 1) as nat) + fields[n - 1].dictionaries()
    }
}

/// The number of dictionaries in the first `n` members.
pub open spec fn union_dictionaries(fields: Seq<(i8, Arc<Field>)>, n: nat) -> nat
    decreases fields, n,
{
    if n == 0 || n > fields.len() {
        0
    } else {
        union_dictionaries(fields, (n - 1) as nat) + fields[n - 1].1.dictionaries()
    }
}

impl DataType {
    /// Whether `after` is this type prepared: all columns in it prepared, but dictionaries and the
    /// ends of runs as they were.
    pub open spec fn is_prepared_as(&self, after: &DataType) -> bool
        decreases self, 0nat,
    {
        match self {
            DataType::List(inner) => after matches DataType::List(prepared)
                && inner.is_prepared_as(&**prepared),
            DataType::LargeList(inner) => after matches DataType::LargeList(prepared)
                && inner.is_prepared_as(&**prepared),
            DataType::ListView(inner) => after matches DataType::ListView(prepared)
                && inner.is_prepared_as(&**prepared),
            DataType::LargeListView(inner) => after matches DataType::LargeListView(prepared)
                && inner.is_prepared_as(&**prepared),
            DataType::FixedSizeList(inner, size) => after matches DataType::FixedSizeList(
                prepared,
                prepared_size,
            ) && inner.is_prepared_as(&**prepared) && prepared_size == size,
            DataType::Struct(fields) => {
                &&& after matches DataType::Struct(prepared)
                &&& prepared@.len() == fields@.len()
                &&& forall|i: int|
                    #![trigger fields@[i]]
                    #![trigger prepared@[i]]
                    0 <= i < fields@.len() ==> fields@[i].is_prepared_as(&*prepared@[i])
            },
            DataType::Union(fields, mode) => {
                &&& after matches DataType::Union(prepared, prepared_mode)
                &&& prepared_mode == mode
                &&& prepared@.len() == fields@.len()
                &&& forall|i: int|
                    #![trigger fields@[i]]
                    #![trigger prepared@[i]]
                    0 <= i < fields@.len() ==> {
                        &&& prepared@[i].0 == fields@[i].0
                        &&& fields@[i].1.is_prepared_as(&*prepared@[i].1)
                    }
            },
            DataType::RunEndEncoded(run_ends, values) => after matches DataType::RunEndEncoded(
                prepared_ends,
                prepared,
            ) && prepared_ends == run_ends && values.is_prepared_as(&**prepared),
            DataType::MapType(inner, sorted) => after matches DataType::MapType(prepared, prepared_sorted)
                && inner.is_prepared_as(&**prepared) && prepared_sorted == sorted,
            _ => after == self,
        }
    }
}

impl Field {
    /// Whether `after` is this column prepared: its type prepared, with its name, nullability and
    /// metadata, and the order of its dictionary if it is one.
    pub open spec fn is_prepared_as(&self, after: &Field) -> bool
        decreases self, 1nat,
    {
        &&& after.name == self.name
        &&& after.nullable == self.nullable
        &&& after.metadata == self.metadata
        &&& after.dict_is_ordered == (self.data_type is Dictionary && self.dict_is_ordered)
        &&& self.data_type.is_prepared_as(&after.data_type)
    }
}

impl Schema {
    pub open spec fn dictionaries(&self) -> nat {
        struct_dictionaries(self.fields@, self.fields@.len())
    }

    /// Whether `after` is this schema with every column prepared.
    pub open spec fn is_prepared_as(&self, after: &Schema) -> bool {
        &&& after.metadata == self.metadata
        &&& after.fields@.len() == self.fields@.len()
        &&& forall|i: int|
            #![trigger self.fields@[i]]
            #![trigger after.fields@[i]]
            0 <= i < self.fields@.len() ==> self.fields@[i].is_prepared_as(&*after.fields@[i])
    }
}

proof fn lemma_ids_after_adds(ids: Seq<i64>, a: nat, b: nat)
    ensures
        ids_after(ids, a + b) == ids_after(ids_after(ids, a), b),
    decreases b,
{
    if b > 0 {
        lemma_ids_after_adds(ids, a, (b - 1) as nat);
    }
}

proof fn lemma_next_id_after(ids: Seq<i64>, n: nat)
    requires
        next_id(ids) + n <= i64::MAX + 1,
        next_id(ids) >= i64::MIN,
    ensures
        next_id(ids_after(ids, n)) == next_id(ids) + n,
    decreases n,
{
    if n > 0 {
        lemma_next_id_after(ids, (n - 1) as nat);
    }
}

/// Prepares a type, recording a dictionary id for each dictionary in it. The ids are assigned
/// depth-first, the order in which the dictionaries are sent.
fn prepare_type_for_flight(data_type: &DataType, dictionary_tracker: &mut DictionaryTracker) -> (prepared:
    DataType)
    requires
        next_id(dict_ids_of(*old(dictionary_tracker))) + data_type.dictionaries() <= i64::MAX + 1,
    ensures
        data_type.is_prepared_as(&prepared),
        dict_ids_of(*final(dictionary_tracker)) == ids_after(
            dict_ids_of(*old(dictionary_tracker)),
            data_type.dictionaries(),
        ),
        errs_on_replacement(*final(dictionary_tracker)) == errs_on_replacement(
            *old(dictionary_tracker),
        ),
    decreases *data_type, 0nat,
{
    match data_type {
        DataType::List(inner) => {
            DataType::List(Arc::new(prepare_field_for_flight(inner, dictionary_tracker)))
        },
        DataType::LargeList(inner) => {
            DataType::LargeList(Arc::new(prepare_field_for_flight(inner, dictionary_tracker)))
        },
        DataType::ListView(inner) => {
            DataType::ListView(Arc::new(prepare_field_for_flight(inner, dictionary_tracker)))
        },
        DataType::LargeListView(inner) => {
            DataType::LargeListView(Arc::new(prepare_field_for_flight(inner, dictionary_tracker)))
        },
        DataType::FixedSizeList(inner, size) => {
            DataType::FixedSizeList(
                Arc::new(prepare_field_for_flight(inner, dictionary_tracker)),
                *size,
            )
        },
        DataType::Struct(fields) => {
            DataType::Struct(prepare_fields_for_flight(fields, dictionary_tracker))
        },
        DataType::Union(fields, mode) => {
            DataType::Union(prepare_members_for_flight(fields, dictionary_tracker), *mode)
        },
        DataType::Dictionary(keys, values) => {
            // Dictionaries within the values come first.
            let ghost ids = dict_ids_of(*dictionary_tracker);
            prepare_type_for_flight(values, dictionary_tracker);
            proof {
                lemma_next_id_after(ids, values.dictionaries());
            }
            next_dict_id(dictionary_tracker);
            DataType::Dictionary(share(keys), share(values))
        },
        DataType::RunEndEncoded(run_ends, values) => {
            DataType::RunEndEncoded(
                share(run_ends),
                Arc::new(prepare_field_for_flight(values, dictionary_tracker)),
            )
        },
        DataType::MapType(inner, sorted) => {
            DataType::MapType(
                Arc::new(prepare_field_for_flight(inner, dictionary_tracker)),
                *sorted,
            )
        },
        _ => data_type.copy_simple(),
    }
}

/// Prepares a column, recording a dictionary id for each dictionary in it.
pub fn prepare_field_for_flight(field: &Field, dictionary_tracker: &mut DictionaryTracker) -> (prepared:
    Field)
    requires
        next_id(dict_ids_of(*old(dictionary_tracker))) + field.dictionaries() <= i64::MAX + 1,
    ensures
        field.is_prepared_as(&prepared),
        dict_ids_of(*final(dictionary_tracker)) == ids_after(
            dict_ids_of(*old(dictionary_tracker)),
            field.dictionaries(),
        ),
        errs_on_replacement(*final(dictionary_tracker)) == errs_on_replacement(
            *old(dictionary_tracker),
        ),
    decreases *field, 1nat,
{
    let data_type = prepare_type_for_flight(&field.data_type, dictionary_tracker);
    let is_dictionary = match &field.data_type {
        DataType::Dictionary(_, _) => true,
        _ => false,
    };
    Field {
        name: share(&field.name),
        data_type,
        nullable: field.nullable,
        dict_is_ordered: is_dictionary && field.dict_is_ordered,
        metadata: share(&field.metadata),
    }
}

/// Prepares a list of columns from left to right.
fn prepare_fields_for_flight(
    fields: &Vec<Arc<Field>>,
    dictionary_tracker: &mut DictionaryTracker,
) -> (prepared: Vec<Arc<Field>>)
    requires
        next_id(dict_ids_of(*old(dictionary_tracker))) + struct_dictionaries(
            fields@,
            fields@.len(),
        ) <= i64::MAX + 1,
    ensures
        prepared@.len() == fields@.len(),
        forall|i: int|
            #![trigger fields@[i]]
            #![trigger prepared@[i]]
            0 <= i < fields@.len() ==> fields@[i].is_prepared_as(&*prepared@[i]),
        dict_ids_of(*final(dictionary_tracker)) == ids_after(
            dict_ids_of(*old(dictionary_tracker)),
            struct_dictionaries(fields@, fields@.len()),
        ),
        errs_on_replacement(*final(dictionary_tracker)) == errs_on_replacement(
            *old(dictionary_tracker),
        ),
    decreases *fields, 0nat,
{
    let ghost ids = dict_ids_of(*dictionary_tracker);
    let mut prepared: Vec<Arc<Field>> = Vec::new();
    let mut i: usize = 0;
    while i < fields.len()
        invariant
            i <= fields@.len(),
            ids == dict_ids_of(*old(dictionary_tracker)),
            next_id(ids) + struct_dictionaries(fields@, fields@.len()) <= i64::MAX + 1,
            prepared@.len() == i,
            forall|j: int|
                #![trigger fields@[j]]
                #![trigger prepared@[j]]
                0 <= j < i ==> fields@[j].is_prepared_as(&*prepared@[j]),
            dict_ids_of(*dictionary_tracker) == ids_after(
                ids,
                struct_dictionaries(fields@, i as nat),
            ),
            errs_on_replacement(*dictionary_tracker) == errs_on_replacement(
                *old(dictionary_tracker),
            ),
        decreases fields@.len() - i,
    {
        proof {
            lemma_struct_dictionaries_grow(fields@, (i + 1) as nat, fields@.len());
            lemma_next_id_after(ids, struct_dictionaries(fields@, i as nat));
            lemma_ids_after_adds(
                ids,
                struct_dictionaries(fields@, i as nat),
                fields@[i as int].dictionaries(),
            );
        }
        prepared.push(Arc::new(prepare_field_for_flight(&fields[i], dictionary_tracker)));
        i = i + 1;
    }
    prepared
}

/// Prepares the members of a union from left to right.
fn prepare_members_for_flight(
    fields: &Vec<(i8, Arc<Field>)>,
    dictionary_tracker: &mut DictionaryTracker,
) -> (prepared: Vec<(i8, Arc<Field>)>)
    requires
        next_id(dict_ids_of(*old(dictionary_tracker))) + union_dictionaries(fields@, fields@.len())
            <= i64::MAX + 1,
    ensures
        prepared@.len() == fields@.len(),
        forall|i: int|
            #![trigger fields@[i]]
            #![trigger prepared@[i]]
            0 <= i < fields@.len() ==> {
                &&& prepared@[i].0 == fields@[i].0
                &&& fields@[i].1.is_prepared_as(&*prepared@[i].1)
            },
        dict_ids_of(*final(dictionary_tracker)) == ids_after(
            dict_ids_of(*old(dictionary_tracker)),
            union_dictionaries(fields@, fields@.len()),
        ),
        errs_on_replacement(*final(dictionary_tracker)) == errs_on_replacement(
            *old(dictionary_tracker),
        ),
    decreases *fields, 0nat,
{
    let ghost ids = dict_ids_of(*dictionary_tracker);
    let mut prepared: Vec<(i8, Arc<Field>)> = Vec::new();
    let mut i: usize = 0;
    while i < fields.len()
        invariant
            i <= fields@.len(),
            ids == dict_ids_of(*old(dictionary_tracker)),
            next_id(ids) + union_dictionaries(fields@, fields@.len()) <= i64::MAX + 1,
            prepared@.len() == i,
            forall|j: int|
                #![trigger fields@[j]]
                #![trigger prepared@[j]]
                0 <= j < i ==> {
                    &&& prepared@[j].0 == fields@[j].0
                    &&& fields@[j].1.is_prepared_as(&*prepared@[j].1)
                },
            dict_ids_of(*dictionary_tracker) == ids_after(
                ids,
                union_dictionaries(fields@, i as nat),
            ),
            errs_on_replacement(*dictionary_tracker) == errs_on_replacement(
                *old(dictionary_tracker),
            ),
        decreases fields@.len() - i,
    {
        proof {
            lemma_union_dictionaries_grow(fields@, (i + 1) as nat, fields@.len());
            lemma_next_id_after(ids, union_dictionaries(fields@, i as nat));
            lemma_ids_after_adds(
                ids,
                union_dictionaries(fields@, i as nat),
                fields@[i as int].1.dictionaries(),
            );
        }
        let member = &fields[i];
        prepared.push(
            (member.0, Arc::new(prepare_field_for_flight(&member.1, dictionary_tracker))),
        );
        i = i + 1;
    }
    prepared
}

proof fn lemma_struct_dictionaries_grow(fields: Seq<Arc<Field>>, n: nat, m: nat)
    requires
        n <= m <= fields.len(),
    ensures
        struct_dictionaries(fields, n) <= struct_dictionaries(fields, m),
    decreases m - n,
{
    if n < m {
        lemma_struct_dictionaries_grow(fields, n, (m - 1) as nat);
    }
}

proof fn lemma_union_dictionaries_grow(fields: Seq<(i8, Arc<Field>)>, n: nat, m: nat)
    requires
        n <= m <= fields.len(),
    ensures
        union_dictionaries(fields, n) <= union_dictionaries(fields, m),
    decreases m - n,
{
    if n < m {
        lemma_union_dictionaries_grow(fields, n, (m - 1) as nat);
    }
}

/// Prepares a schema, recording a dictionary id for each dictionary in it.
pub fn prepare_schema_for_flight(schema: &Schema, dictionary_tracker: &mut DictionaryTracker) -> (prepared:
    Schema)
    requires
        next_id(dict_ids_of(*old(dictionary_tracker))) + schema.dictionaries() <= i64::MAX + 1,
    ensures
        schema.is_prepared_as(&prepared),
        dict_ids_of(*final(dictionary_tracker)) == ids_after(
            dict_ids_of(*old(dictionary_tracker)),
            schema.dictionaries(),
        ),
        errs_on_replacement(*final(dictionary_tracker)) == errs_on_replacement(
            *old(dictionary_tracker),
        ),
{
    let fields = prepare_fields_for_flight(&schema.fields, dictionary_tracker);
    Schema { fields, metadata: share(&schema.metadata) }
}

/// Prepares a schema for a new stream, with a tracker that has recorded an id for each of its
/// dictionaries and nothing else, and lets them be replaced.
pub fn prepare_stream_schema(schema: &Schema) -> (prepared: (Schema, DictionaryTracker))
    requires
        schema.dictionaries() <= i64::MAX + 1,
    ensures
        schema.is_prepared_as(&prepared.0),
        dict_ids_of(prepared.1) == Seq::new(schema.dictionaries(), |i: int| i as i64),
        !errs_on_replacement(prepared.1),
{
    let mut dictionary_tracker = new_tracker(false);
    let prepared = prepare_schema_for_flight(schema, &mut dictionary_tracker);
    proof {
        lemma_fresh_ids(schema.dictionaries());
    }
    (prepared, dictionary_tracker)
}

/// The ids of a new stream count up from zero.
proof fn lemma_fresh_ids(n: nat)
    requires
        n <= i64::MAX + 1,
    ensures
        ids_after(Seq::empty(), n) == Seq::new(n, |i: int| i as i64),
    decreases n,
{
    if n > 0 {
        lemma_fresh_ids((n - 1) as nat);
        lemma_next_id_after(Seq::empty(), (n - 1) as nat);
    }
    assert(ids_after(Seq::empty(), n) =~= Seq::new(n, |i: int| i as i64));
}

/// Preparing a column changes nothing about its dictionaries.
pub proof fn law_prepared_fields_keep_their_dictionaries(field: &Field, prepared: &Field)
    requires
        field.is_prepared_as(prepared),
    ensures
        prepared.dictionaries() == field.dictionaries(),
    decreases field,
{
    lemma_prepared_types_keep_their_dictionaries(&field.data_type, &prepared.data_type);
}

proof fn lemma_prepared_types_keep_their_dictionaries(data_type: &DataType, prepared: &DataType)
    requires
        data_type.is_prepared_as(prepared),
    ensures
        prepared.dictionaries() == data_type.dictionaries(),
    decreases data_type,
{
    match (data_type, prepared) {
        (DataType::List(a), DataType::List(b)) => {
            law_prepared_fields_keep_their_dictionaries(&**a, &**b);
        },
        (DataType::LargeList(a), DataType::LargeList(b)) => {
            law_prepared_fields_keep_their_dictionaries(&**a, &**b);
        },
        (DataType::ListView(a), DataType::ListView(b)) => {
            law_prepared_fields_keep_their_dictionaries(&**a, &**b);
        },
        (DataType::LargeListView(a), DataType::LargeListView(b)) => {
            law_prepared_fields_keep_their_dictionaries(&**a, &**b);
        },
        (DataType::FixedSizeList(a, _), DataType::FixedSizeList(b, _)) => {
            law_prepared_fields_keep_their_dictionaries(&**a, &**b);
        },
        (DataType::RunEndEncoded(_, a), DataType::RunEndEncoded(_, b)) => {
            law_prepared_fields_keep_their_dictionaries(&**a, &**b);
        },
        (DataType::MapType(a, _), DataType::MapType(b, _)) => {
            law_prepared_fields_keep_their_dictionaries(&**a, &**b);
        },
        (DataType::Struct(a), DataType::Struct(b)) => {
            lemma_prepared_columns_keep_their_dictionaries(a@, b@, a@.len());
        },
        (DataType::Union(a, _), DataType::Union(b, _)) => {
            lemma_prepared_members_keep_their_dictionaries(a@, b@, a@.len());
        },
        _ => {},
    }
}

proof fn lemma_prepared_columns_keep_their_dictionaries(
    before: Seq<Arc<Field>>,
    after: Seq<Arc<Field>>,
    n: nat,
)
    requires
        n <= before.len(),
        before.len() == after.len(),
        forall|i: int|
            #![trigger before[i]]
            0 <= i < before.len() ==> before[i].is_prepared_as(&*after[i]),
    ensures
        struct_dictionaries(before, n) == struct_dictionaries(after, n),
    decreases before, n,
{
    if n > 0 {
        lemma_prepared_columns_keep_their_dictionaries(before, after, (n - 1) as nat);
        law_prepared_fields_keep_their_dictionaries(&*before[n - 1], &*after[n - 1]);
    }
}

proof fn lemma_prepared_members_keep_their_dictionaries(
    before: Seq<(i8, Arc<Field>)>,
    after: Seq<(i8, Arc<Field>)>,
    n: nat,
)
    requires
        n <= before.len(),
        before.len() == after.len(),
        forall|i: int|
            #![trigger before[i]]
            0 <= i < before.len() ==> before[i].1.is_prepared_as(&*after[i].1),
    ensures
        union_dictionaries(before, n) == union_dictionaries(after, n),
    decreases before, n,
{
    if n > 0 {
        lemma_prepared_members_keep_their_dictionaries(before, after, (n - 1) as nat);
        law_prepared_fields_keep_their_dictionaries(&*before[n - 1].1, &*after[n - 1].1);
    }
}

}
