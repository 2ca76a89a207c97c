//! What preparing a schema keeps, and what is sent of it.
use std::sync::Arc;
use vstd::prelude::*;

use crate::data_type::{DataType, Field, Schema, UnionMode};
use crate::schema_message::{FieldView, SchemaView, TypeView};

verus! {

impl FieldView {
    /// The column without the order flags that mean nothing: those of columns that are no
    /// dictionaries, at any depth. What is within dictionaries and the ends of runs stays as it is.
    pub open spec fn without_idle_flags(self) -> FieldView
        decreases self,
    {
        FieldView {
            data_type: self.data_type.without_idle_flags(),
            dict_is_ordered: self.dict_is_ordered && self.data_type is Dictionary,
            ..self
        }
    }

    /// Whether no column that is no dictionary has the order flag set, at any depth.
    pub open spec fn has_no_idle_flag(self) -> bool
        decreases self,
    {
        &&& self.dict_is_ordered ==> self.data_type is Dictionary
        &&& self.data_type.has_no_idle_flag()
    }
}

impl TypeView {
    pub open spec fn without_idle_flags(self) -> TypeView
        decreases self,
    {
        match self {
            TypeView::List(inner) => TypeView::List(Box::new(inner.without_idle_flags())),
            TypeView::ListView(inner) => TypeView::ListView(Box::new(inner.without_idle_flags())),
            TypeView::FixedSizeList(inner, size) => TypeView::FixedSizeList(
                Box::new(inner.without_idle_flags()),
                size,
            ),
            TypeView::LargeList(inner) => TypeView::LargeList(Box::new(inner.without_idle_flags())),
            TypeView::LargeListView(inner) => TypeView::LargeListView(
                Box::new(inner.without_idle_flags()),
            ),
            TypeView::Struct(fields) => TypeView::Struct(
                Seq::new(
                    fields.len(),
                    |i: int|
                        if 0 <= i < fields.len() {
                            fields[i].without_idle_flags()
                        } else {
                            arbitrary()
                        },
                ),
            ),
            TypeView::Union(members, mode) => TypeView::Union(
                Seq::new(
                    members.len(),
                    |i: int|
                        if 0 <= i < members.len() {
                            (members[i].0, members[i].1.without_idle_flags())
                        } else {
                            arbitrary()
                        },
                ),
                mode,
            ),
            TypeView::MapType(inner, sorted) => TypeView::MapType(
                Box::new(inner.without_idle_flags()),
                sorted,
            ),
            TypeView::RunEndEncoded(ends, values) => TypeView::RunEndEncoded(
                ends,
                Box::new(values.without_idle_flags()),
            ),
            _ => self,
        }
    }

    pub open spec fn has_no_idle_flag(self) -> bool
        decreases self,
    {
        match self {
            TypeView::List(inner) => inner.has_no_idle_flag(),
            TypeView::ListView(inner) => inner.has_no_idle_flag(),
            TypeView::FixedSizeList(inner, _) => inner.has_no_idle_flag(),
            TypeView::LargeList(inner) => inner.has_no_idle_flag(),
            TypeView::LargeListView(inner) => inner.has_no_idle_flag(),
            TypeView::Struct(fields) => forall|i: int|
                #![trigger fields[i]]
                0 <= i < fields.len() ==> fields[i].has_no_idle_flag(),
            TypeView::Union(members, _) => forall|i: int|
                #![trigger members[i]]
                0 <= i < members.len() ==> members[i].1.has_no_idle_flag(),
            TypeView::MapType(inner, _) => inner.has_no_idle_flag(),
            TypeView::RunEndEncoded(_, values) => values.has_no_idle_flag(),
            _ => true,
        }
    }
}

impl SchemaView {
    /// Whether no column of the schema that is no dictionary has the order flag set.
    pub open spec fn has_no_idle_flag(self) -> bool {
        forall|i: int|
            #![trigger self.fields[i]]
            0 <= i < self.fields.len() ==> self.fields[i].has_no_idle_flag()
    }

    /// The schema without the order flags of columns that are no dictionaries.
    pub open spec fn without_idle_flags(self) -> SchemaView {
        SchemaView {
            fields: self.fields.map_values(|field: FieldView| field.without_idle_flags()),
            ..self
        }
    }
}

pub proof fn lemma_prepared_fields_look_the_same(field: &Field, prepared: &Field)
    requires
        field.is_prepared_as(prepared),
    ensures
        prepared.field_view() == field.field_view().without_idle_flags(),
    decreases field,
{
    lemma_prepared_types_look_the_same(&field.data_type, &prepared.data_type);
}

proof fn lemma_prepared_types_look_the_same(data_type: &DataType, prepared: &DataType)
    requires
        data_type.is_prepared_as(prepared),
    ensures
        prepared.type_view() == data_type.type_view().without_idle_flags(),
    decreases data_type,
{
    match (data_type, prepared) {
        (DataType::List(a), DataType::List(b)) => {
            lemma_prepared_fields_look_the_same(&**a, &**b);
        },
        (DataType::LargeList(a), DataType::LargeList(b)) => {
            lemma_prepared_fields_look_the_same(&**a, &**b);
        },
        (DataType::ListView(a), DataType::ListView(b)) => {
            lemma_prepared_fields_look_the_same(&**a, &**b);
        },
        (DataType::LargeListView(a), DataType::LargeListView(b)) => {
            lemma_prepared_fields_look_the_same(&**a, &**b);
        },
        (DataType::FixedSizeList(a, _), DataType::FixedSizeList(b, _)) => {
            lemma_prepared_fields_look_the_same(&**a, &**b);
        },
        (DataType::RunEndEncoded(_, a), DataType::RunEndEncoded(_, b)) => {
            lemma_prepared_fields_look_the_same(&**a, &**b);
        },
        (DataType::MapType(a, _), DataType::MapType(b, _)) => {
            lemma_prepared_fields_look_the_same(&**a, &**b);
        },
        (DataType::Struct(a), DataType::Struct(b)) => {
            let expected = data_type.type_view().without_idle_flags()->Struct_0;
            let found = prepared.type_view()->Struct_0;
            assert forall|i: int| 0 <= i < a@.len() implies #[trigger] found[i] == expected[i] by {
                assert(a@[i].is_prepared_as(&*b@[i]));
                lemma_prepared_fields_look_the_same(&*a@[i], &*b@[i]);
            }
            assert(found =~= expected);
        },
        (DataType::Union(a, _), DataType::Union(b, _)) => {
            let expected = data_type.type_view().without_idle_flags()->Union_0;
            let found = prepared.type_view()->Union_0;
            assert forall|i: int| 0 <= i < a@.len() implies #[trigger] found[i] == expected[i] by {
                assert(a@[i].1.is_prepared_as(&*b@[i].1));
                lemma_prepared_fields_look_the_same(&*a@[i].1, &*b@[i].1);
            }
            assert(found =~= expected);
        },
        _ => {},
    }
}

proof fn lemma_columns_without_idle_flags(field: FieldView)
    requires
        field.has_no_idle_flag(),
    ensures
        field.without_idle_flags() == field,
    decreases field,
{
    lemma_types_without_idle_flags(field.data_type);
}

proof fn lemma_types_without_idle_flags(data_type: TypeView)
    requires
        data_type.has_no_idle_flag(),
    ensures
        data_type.without_idle_flags() == data_type,
    decreases data_type,
{
    match data_type {
        TypeView::List(inner) => lemma_columns_without_idle_flags(*inner),
        TypeView::ListView(inner) => lemma_columns_without_idle_flags(*inner),
        TypeView::FixedSizeList(inner, _) => lemma_columns_without_idle_flags(*inner),
        TypeView::LargeList(inner) => lemma_columns_without_idle_flags(*inner),
        TypeView::LargeListView(inner) => lemma_columns_without_idle_flags(*inner),
        TypeView::MapType(inner, _) => lemma_columns_without_idle_flags(*inner),
        TypeView::RunEndEncoded(_, values) => lemma_columns_without_idle_flags(*values),
        TypeView::Struct(fields) => {
            let found = data_type.without_idle_flags()->Struct_0;
            assert forall|i: int| 0 <= i < fields.len() implies #[trigger] found[i]
                == fields[i] by {
                lemma_columns_without_idle_flags(fields[i]);
            }
            assert(found =~= fields);
        },
        TypeView::Union(members, _) => {
            let found = data_type.without_idle_flags()->Union_0;
            assert forall|i: int| 0 <= i < members.len() implies #[trigger] found[i]
                == members[i] by {
                lemma_columns_without_idle_flags(members[i].1);
            }
            assert(found =~= members);
        },
        _ => {},
    }
}

/// Preparing a schema changes nothing that the receiver sees but the order flags of columns that are
/// no dictionaries, which are cleared: names, types, nullability and metadata stay as they are, at
/// every depth.
pub proof fn law_preparing_clears_idle_flags_only(schema: &Schema, prepared: &Schema)
    requires
        schema.is_prepared_as(prepared),
    ensures
        prepared@ == schema@.without_idle_flags(),
{
    let expected = schema@.without_idle_flags();
    assert forall|i: int| 0 <= i < schema.fields@.len() implies #[trigger] prepared@.fields[i]
        == expected.fields[i] by {
        assert(schema.fields@[i].is_prepared_as(&*prepared.fields@[i]));
        lemma_prepared_fields_look_the_same(&*schema.fields@[i], &*prepared.fields@[i]);
    }
    assert(prepared@.fields =~= expected.fields);
}

/// Where no column that is no dictionary has its order flag set, the receiver sees the very schema
/// that was given.
pub proof fn law_prepared_schemas_look_the_same(schema: &Schema, prepared: &Schema)
    requires
        schema.is_prepared_as(prepared),
        schema@.has_no_idle_flag(),
    ensures
        prepared@ == schema@,
{
    law_preparing_clears_idle_flags_only(schema, prepared);
    assert forall|i: int| 0 <= i < schema.fields@.len() implies #[trigger] prepared@.fields[i]
        == schema@.fields[i] by {
        lemma_columns_without_idle_flags(schema@.fields[i]);
    }
    assert(prepared@.fields =~= schema@.fields);
}

/// Preparing a schema that was prepared already changes nothing that the receiver sees.
pub proof fn law_preparing_twice_changes_nothing_more(
    schema: &Schema,
    prepared: &Schema,
    again: &Schema,
)
    requires
        schema.is_prepared_as(prepared),
        prepared.is_prepared_as(again),
    ensures
        again@ == prepared@,
{
    law_preparing_clears_idle_flags_only(schema, prepared);
    assert forall|i: int|
        #![trigger prepared@.fields[i]]
        0 <= i < prepared@.fields.len() implies prepared@.fields[i].has_no_idle_flag() by {
        lemma_idle_flags_are_cleared(schema@.fields[i]);
    }
    law_prepared_schemas_look_the_same(prepared, again);
}

proof fn lemma_idle_flags_are_cleared(field: FieldView)
    ensures
        field.without_idle_flags().has_no_idle_flag(),
    decreases field,
{
    lemma_idle_flags_are_cleared_in_types(field.data_type);
}

proof fn lemma_idle_flags_are_cleared_in_types(data_type: TypeView)
    ensures
        data_type.without_idle_flags().has_no_idle_flag(),
    decreases data_type,
{
    match data_type {
        TypeView::List(inner) => lemma_idle_flags_are_cleared(*inner),
        TypeView::ListView(inner) => lemma_idle_flags_are_cleared(*inner),
        TypeView::FixedSizeList(inner, _) => lemma_idle_flags_are_cleared(*inner),
        TypeView::LargeList(inner) => lemma_idle_flags_are_cleared(*inner),
        TypeView::LargeListView(inner) => lemma_idle_flags_are_cleared(*inner),
        TypeView::MapType(inner, _) => lemma_idle_flags_are_cleared(*inner),
        TypeView::RunEndEncoded(_, values) => lemma_idle_flags_are_cleared(*values),
        TypeView::Struct(fields) => {
            let found = data_type.without_idle_flags()->Struct_0;
            assert forall|i: int| #![trigger found[i]] 0 <= i < found.len() implies
                found[i].has_no_idle_flag() by {
                lemma_idle_flags_are_cleared(fields[i]);
            }
        },
        TypeView::Union(members, _) => {
            let found = data_type.without_idle_flags()->Union_0;
            assert forall|i: int| #![trigger found[i]] 0 <= i < found.len() implies
                found[i].1.has_no_idle_flag() by {
                lemma_idle_flags_are_cleared(members[i].1);
            }
        },
        _ => {},
    }
}

/// Of several entries of metadata with one key the last one is sent, and nothing is sent that is no
/// entry.
pub proof fn law_the_last_entry_of_a_key_counts(metadata: Seq<(String, String)>, n: nat, at: int)
    requires
        0 <= at < n <= metadata.len(),
        forall|j: int| #![trigger metadata[j]] at < j < n ==> metadata[j].0@ != metadata[at].0@,
    ensures
        crate::schema_message::entries(metadata, n).dom().contains(metadata[at].0@),
        crate::schema_message::entries(metadata, n)[metadata[at].0@] == metadata[at].1@,
    decreases n,
{
    if at < n - 1 {
        assert(metadata[n - 1].0@ != metadata[at].0@);
        law_the_last_entry_of_a_key_counts(metadata, (n - 1) as nat, at);
    }
}

/// Keys that no entry has are not sent.
pub proof fn law_other_keys_have_no_entry(
    metadata: Seq<(String, String)>,
    n: nat,
    key: Seq<char>,
)
    requires
        n <= metadata.len(),
        forall|j: int| #![trigger metadata[j]] 0 <= j < n ==> metadata[j].0@ != key,
    ensures
        !crate::schema_message::entries(metadata, n).dom().contains(key),
    decreases n,
{
    if n > 0 {
        assert(metadata[n - 1].0@ != key);
        law_other_keys_have_no_entry(metadata, (n - 1) as nat, key);
    }
}

/// What is sent of a column tells what it holds, and what is sent of its type tells the type: the
/// kind, the columns within it, and the sizes, units and flags.
pub proof fn law_views_tell_columns_apart(field: &Field)
    ensures
        field.field_view().name == field.name@,
        field.field_view().nullable == field.nullable,
        field.field_view().dict_is_ordered == field.dict_is_ordered,
        match field.field_view().data_type {
            TypeView::Leaf(data_type) => field.data_type == data_type,
            TypeView::Timestamp(unit, zone) => field.data_type matches DataType::Timestamp(
                given,
                given_zone,
            ) && given == unit && (zone is Some <==> given_zone is Some) && (zone is Some
                ==> given_zone->0@ == zone->0),
            TypeView::List(inner) => field.data_type matches DataType::List(given)
                && given.field_view() == *inner,
            TypeView::ListView(inner) => field.data_type matches DataType::ListView(given)
                && given.field_view() == *inner,
            TypeView::FixedSizeList(inner, size) => field.data_type matches DataType::FixedSizeList(
                given,
                given_size,
            ) && given.field_view() == *inner && given_size == size,
            TypeView::LargeList(inner) => field.data_type matches DataType::LargeList(given)
                && given.field_view() == *inner,
            TypeView::LargeListView(inner) => field.data_type matches DataType::LargeListView(given)
                && given.field_view() == *inner,
            TypeView::Struct(fields) => field.data_type matches DataType::Struct(given)
                && given@.len() == fields.len() && forall|i: int|
                #![trigger given@[i]]
                0 <= i < fields.len() ==> given@[i].field_view() == fields[i],
            TypeView::Union(members, mode) => field.data_type matches DataType::Union(
                given,
                given_mode,
            ) && given_mode == mode && given@.len() == members.len() && forall|i: int|
                #![trigger given@[i]]
                0 <= i < members.len() ==> given@[i].0 == members[i].0 && given@[i].1.field_view()
                    == members[i].1,
            TypeView::Dictionary(keys, values) => field.data_type matches DataType::Dictionary(
                given_keys,
                given,
            ) && given_keys.type_view() == *keys && given.type_view() == *values,
            TypeView::MapType(inner, sorted) => field.data_type matches DataType::MapType(
                given,
                given_sorted,
            ) && given.field_view() == *inner && given_sorted == sorted,
            TypeView::RunEndEncoded(ends, values) => field.data_type matches DataType::RunEndEncoded(
                given_ends,
                given,
            ) && given_ends.field_view() == *ends && given.field_view() == *values,
        },
{
}

/// Dictionary ids continue from those that are recorded: these stay as they are, and each new one
/// is the number after the one before it, from zero on if there is none.
pub proof fn law_dictionary_ids_count_up(ids: Seq<i64>, n: nat, i: int)
    requires
        0 <= i < n,
        (if ids.len() == 0 {
            0
        } else {
            ids.last() + 1
        }) + n <= i64::MAX + 1,
    ensures
        ({
            let after = crate::flight_schema::ids_after(ids, n);
            &&& after.len() == ids.len() + n
            &&& after.take(ids.len() as int) == ids
            &&& after[ids.len() + i] == i + if ids.len() == 0 {
                0
            } else {
                ids.last() + 1
            }
        }),
    decreases n,
{
    let after = crate::flight_schema::ids_after(ids, n);
    let before = crate::flight_schema::ids_after(ids, (n - 1) as nat);
    let first = if ids.len() == 0 {
        0
    } else {
        ids.last() + 1
    };
    if n > 1 {
        law_dictionary_ids_count_up(ids, (n - 1) as nat, n - 2);
        if i < n - 1 {
            law_dictionary_ids_count_up(ids, (n - 1) as nat, i);
        }
        assert(before.last() == first + n - 2);
    } else {
        assert(before == ids);
    }
    assert(after == before.push((first + n - 1) as i64));
    assert(after.take(ids.len() as int) =~= before.take(ids.len() as int));
    assert(ids.take(ids.len() as int) =~= ids);
}

/// A type that holds other columns has the dictionaries of these; a dictionary has those of its
/// values and one more. No other type has any, and neither have the ends of runs.
pub proof fn law_dictionaries_are_counted_once(
    inner: Arc<Field>,
    ends: Arc<Field>,
    keys: Arc<DataType>,
    size: i32,
    sorted: bool,
)
    ensures
        DataType::List(inner).dictionaries() == inner.data_type.dictionaries(),
        DataType::LargeList(inner).dictionaries() == inner.data_type.dictionaries(),
        DataType::ListView(inner).dictionaries() == inner.data_type.dictionaries(),
        DataType::LargeListView(inner).dictionaries() == inner.data_type.dictionaries(),
        DataType::FixedSizeList(inner, size).dictionaries() == inner.data_type.dictionaries(),
        DataType::MapType(inner, sorted).dictionaries() == inner.data_type.dictionaries(),
        DataType::RunEndEncoded(ends, inner).dictionaries() == inner.data_type.dictionaries(),
        DataType::Dictionary(keys, Arc::new(inner.data_type)).dictionaries()
            == inner.data_type.dictionaries() + 1,
        DataType::Utf8.dictionaries() == 0,
        DataType::Int64.dictionaries() == 0,
{
    assert(inner.dictionaries() == inner.data_type.dictionaries());
}

proof fn lemma_dictionaries_of_a_prefix(a: Seq<Arc<Field>>, b: Seq<Arc<Field>>, n: nat)
    requires
        n <= a.len(),
    ensures
        crate::flight_schema::struct_dictionaries(a + b, n)
            == crate::flight_schema::struct_dictionaries(a, n),
    decreases n,
{
    if n > 0 {
        lemma_dictionaries_of_a_prefix(a, b, (n - 1) as nat);
        assert((a + b)[n - 1] == a[n - 1]);
    }
}

/// Columns have their dictionaries one after the other: those of two lists of columns are those of
/// the first and those of the second, and those of a single column are those of its type.
pub proof fn law_dictionaries_of_columns_add_up(
    a: Seq<Arc<Field>>,
    b: Seq<Arc<Field>>,
    column: Arc<Field>,
    n: nat,
)
    requires
        n <= b.len(),
    ensures
        crate::flight_schema::struct_dictionaries(a + b, a.len() + n)
            == crate::flight_schema::struct_dictionaries(a, a.len())
            + crate::flight_schema::struct_dictionaries(b, n),
        crate::flight_schema::struct_dictionaries(seq![column], 1)
            == column.data_type.dictionaries(),
    decreases n,
{
    reveal_with_fuel(crate::flight_schema::struct_dictionaries, 2);
    assert(seq![column][0] == column);
    if n == 0 {
        lemma_dictionaries_of_a_prefix(a, b, a.len());
    } else {
        law_dictionaries_of_columns_add_up(a, b, column, (n - 1) as nat);
        assert((a + b)[a.len() + n - 1] == b[n - 1]);
    }
}

/// The lengths of the names of columns, added up.
pub open spec fn name_lengths(fields: Seq<Arc<Field>>) -> nat
    decreases fields.len(),
{
    if fields.len() == 0 {
        0
    } else {
        name_lengths(fields.drop_last()) + fields.last().name@.len()
    }
}

/// Whether a column is of a type without parts, and has no metadata.
pub open spec fn is_bare(field: &Field) -> bool {
    &&& field.data_type.type_view() is Leaf
    &&& field.metadata@.len() == 0
}

proof fn lemma_bare_columns(fields: Seq<Arc<Field>>, n: nat)
    requires
        n <= fields.len(),
        forall|i: int| #![trigger fields[i]] 0 <= i < fields.len() ==> is_bare(&*fields[i]),
    ensures
        crate::schema_message::fields_weight(fields, n) == 256 * n + 4 * name_lengths(
            fields.take(n as int),
        ),
        forall|i: int|
            #![trigger fields[i]]
            0 <= i < n ==> fields[i].unions_are_valid(),
    decreases n,
{
    if n > 0 {
        lemma_bare_columns(fields, (n - 1) as nat);
        let taken = fields.take(n as int);
        assert(taken.drop_last() =~= fields.take(n - 1));
        let last = fields[n - 1];
        assert(is_bare(&*last));
        assert(taken.last() == last);
        lemma_leaves_weigh_nothing(&last.data_type);
        assert(crate::schema_message::entries_weight(last.metadata@, 0) == 0);
        assert(last.weight() == 256 + 4 * last.name@.len());
    } else {
        assert(fields.take(0) =~= Seq::<Arc<Field>>::empty());
    }
}

proof fn lemma_leaves_weigh_nothing(data_type: &DataType)
    requires
        data_type.type_view() is Leaf,
    ensures
        data_type.weight() == 0,
        data_type.unions_are_valid(),
{
}

/// Schemas of plain columns can be sent up to two gigabytes, at a quarter of a kilobyte for each
/// column and four bytes for each character of its name, on top of half a kilobyte.
pub proof fn law_schemas_of_plain_columns_can_be_sent(schema: &Schema)
    requires
        schema.metadata@.len() == 0,
        forall|i: int|
            #![trigger schema.fields@[i]]
            0 <= i < schema.fields@.len() ==> is_bare(&*schema.fields@[i]),
    ensures
        schema.sendable() <==> 512 + 256 * schema.fields@.len() + 4 * name_lengths(schema.fields@)
            <= 0x8000_0000,
{
    let fields = schema.fields@;
    lemma_bare_columns(fields, fields.len());
    assert(fields.take(fields.len() as int) =~= fields);
    assert(crate::schema_message::entries_weight(schema.metadata@, 0) == 0);
}

/// Ids of union members can be told apart exactly if none is negative and no two are the same.
pub proof fn law_union_ids_are_distinct(ids: Seq<i8>)
    ensures
        crate::schema_message::are_type_ids(ids) <==> (forall|i: int|
            #![trigger ids[i]]
            0 <= i < ids.len() ==> ids[i] >= 0) && forall|i: int, j: int|
            #![trigger ids[i], ids[j]]
            0 <= i < j < ids.len() ==> ids[i] != ids[j],
{
    if crate::schema_message::are_type_ids(ids) {
        assert forall|i: int, j: int| #![trigger ids[i], ids[j]] 0 <= i < j < ids.len() implies ids[i]
            != ids[j] by {
            assert(!ids.take(j).contains(ids[j]));
            assert(ids.take(j)[i] == ids[i]);
        }
    }
    if (forall|i: int| #![trigger ids[i]] 0 <= i < ids.len() ==> ids[i] >= 0) && forall|i: int, j: int|
        #![trigger ids[i], ids[j]]
        0 <= i < j < ids.len() ==> ids[i] != ids[j] {
        assert forall|j: int| #![trigger ids[j]] 0 <= j < ids.len() implies ids[j] >= 0
            && !ids.take(j).contains(ids[j]) by {
            if ids.take(j).contains(ids[j]) {
                let i = choose|i: int| 0 <= i < j && ids.take(j)[i] == ids[j];
                assert(ids[i] == ids[j]);
            }
        }
    }
}

/// A type takes the room of the columns that it holds; a dictionary takes some for itself, and that
/// of its keys and of its values.
pub proof fn law_types_weigh_what_they_hold(
    inner: Arc<Field>,
    ends: Arc<Field>,
    keys: Arc<DataType>,
    values: Arc<DataType>,
    size: i32,
    sorted: bool,
)
    ensures
        DataType::List(inner).weight() == inner.weight(),
        DataType::LargeList(inner).weight() == inner.weight(),
        DataType::ListView(inner).weight() == inner.weight(),
        DataType::LargeListView(inner).weight() == inner.weight(),
        DataType::FixedSizeList(inner, size).weight() == inner.weight(),
        DataType::MapType(inner, sorted).weight() == inner.weight(),
        DataType::RunEndEncoded(ends, inner).weight() == ends.weight() + inner.weight(),
        DataType::Dictionary(keys, values).weight() == keys.weight() + values.weight() + 128,
        inner.weight() >= 256 + 4 * inner.name@.len() + inner.data_type.weight(),
        inner.metadata@.len() == 0 ==> inner.weight() == 256 + 4 * inner.name@.len()
            + inner.data_type.weight(),
{
    assert(crate::schema_message::entries_weight(inner.metadata@, 0) == 0);
}

/// Metadata takes room entry by entry: four bytes for each character of key and value, and some for
/// the entry.
pub proof fn law_entries_weigh_their_texts(metadata: Seq<(String, String)>, n: nat)
    requires
        n < metadata.len(),
    ensures
        crate::schema_message::entries_weight(metadata, n + 1)
            == crate::schema_message::entries_weight(metadata, n) + 64 + 4 * (
        metadata[n as int].0@.len() + metadata[n as int].1@.len()),
{
}

proof fn lemma_members_of_a_prefix(a: Seq<(i8, Arc<Field>)>, b: Seq<(i8, Arc<Field>)>, n: nat)
    requires
        n <= a.len(),
    ensures
        crate::flight_schema::union_dictionaries(a + b, n)
            == crate::flight_schema::union_dictionaries(a, n),
    decreases n,
{
    if n > 0 {
        lemma_members_of_a_prefix(a, b, (n - 1) as nat);
        assert((a + b)[n - 1] == a[n - 1]);
    }
}

/// The members of a union have their dictionaries one after the other, as columns do.
pub proof fn law_dictionaries_of_members_add_up(
    a: Seq<(i8, Arc<Field>)>,
    b: Seq<(i8, Arc<Field>)>,
    member: (i8, Arc<Field>),
    n: nat,
)
    requires
        n <= b.len(),
    ensures
        crate::flight_schema::union_dictionaries(a + b, a.len() + n)
            == crate::flight_schema::union_dictionaries(a, a.len())
            + crate::flight_schema::union_dictionaries(b, n),
        crate::flight_schema::union_dictionaries(seq![member], 1)
            == member.1.data_type.dictionaries(),
    decreases n,
{
    reveal_with_fuel(crate::flight_schema::union_dictionaries, 2);
    assert(seq![member][0] == member);
    if n == 0 {
        lemma_members_of_a_prefix(a, b, a.len());
    } else {
        law_dictionaries_of_members_add_up(a, b, member, (n - 1) as nat);
        assert((a + b)[a.len() + n - 1] == b[n - 1]);
    }
}

/// Structs, unions and schemas have the dictionaries of all their columns and members.
pub proof fn law_dictionaries_of_all_columns_count(
    fields: Vec<Arc<Field>>,
    members: Vec<(i8, Arc<Field>)>,
    mode: UnionMode,
    schema: &Schema,
)
    ensures
        DataType::Struct(fields).dictionaries() == crate::flight_schema::struct_dictionaries(
            fields@,
            fields@.len(),
        ),
        DataType::Union(members, mode).dictionaries() == crate::flight_schema::union_dictionaries(
            members@,
            members@.len(),
        ),
        schema.dictionaries() == crate::flight_schema::struct_dictionaries(
            schema.fields@,
            schema.fields@.len(),
        ),
{
}

}
