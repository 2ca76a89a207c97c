//! The message that a stream starts with: its schema.
//!
//! A schema is turned into one of the arrow crates, column by column, and then into a message by
//! Arrow Flight.
use std::sync::Arc;
use vstd::prelude::*;
use vstd::string::*;

use arrow_flight::{FlightData, SchemaAsIpc};
use datafusion::arrow::datatypes as arrow;
use datafusion::arrow::datatypes::{
    DataType as ArrowType, Field as ArrowField, Schema as ArrowSchema,
};
use datafusion::arrow::ipc::writer::IpcWriteOptions;

use crate::data_type::{DataType, Field, IntervalUnit, Schema, TimeUnit, UnionMode};
use crate::memory_footprint::{FlightMessage, MessageView};

verus! {

/// The type of a column in the arrow crates.
#[verifier::external_type_specification]
#[verifier::external_body]
pub struct ExArrowType(ArrowType);

/// A column in the arrow crates.
#[verifier::external_type_specification]
#[verifier::external_body]
pub struct ExArrowField(ArrowField);

/// A schema in the arrow crates.
#[verifier::external_type_specification]
#[verifier::external_body]
pub struct ExArrowSchema(ArrowSchema);

/// How the arrow crates write messages.
#[verifier::external_type_specification]
#[verifier::external_body]
pub struct ExIpcWriteOptions(IpcWriteOptions);

/// What a [`DataType`] amounts to.
pub enum TypeView {
    /// A type that is not made of columns or texts.
    Leaf(DataType),
    Timestamp(TimeUnit, Option<Seq<char>>),
    List(Box<FieldView>),
    ListView(Box<FieldView>),
    FixedSizeList(Box<FieldView>, i32),
    LargeList(Box<FieldView>),
    LargeListView(Box<FieldView>),
    Struct(Seq<FieldView>),
    Union(Seq<(i8, FieldView)>, UnionMode),
    Dictionary(Box<TypeView>, Box<TypeView>),
    MapType(Box<FieldView>, bool),
    RunEndEncoded(Box<FieldView>, Box<FieldView>),
}

/// What a [`Field`] amounts to.
pub struct FieldView {
    pub name: Seq<char>,
    pub data_type: TypeView,
    pub nullable: bool,
    pub dict_is_ordered: bool,
    pub metadata: Map<Seq<char>, Seq<char>>,
}

/// What a [`Schema`] amounts to.
pub struct SchemaView {
    pub fields: Seq<FieldView>,
    pub metadata: Map<Seq<char>, Seq<char>>,
}

/// The first `n` entries of a list of metadata; of several with one key the last counts.
pub open spec fn entries(metadata: Seq<(String, String)>, n: nat) -> Map<Seq<char>, Seq<char>>
    decreases n,
{
    if n == 0 || n > metadata.len() {
        Map::empty()
    } else {
        entries(metadata, (n - 1) as nat).insert(metadata[n - 1].0@, metadata[n - 1].1@)
    }
}

impl DataType {
    pub open spec fn type_view(&self) -> TypeView
        decreases self, 0nat,
    {
        match self {
            DataType::Timestamp(unit, zone) => TypeView::Timestamp(
                *unit,
                match zone {
                    Some(zone) => Some(zone@),
                    None => None,
                },
            ),
            DataType::List(inner) => TypeView::List(Box::new(inner.field_view())),
            DataType::ListView(inner) => TypeView::ListView(Box::new(inner.field_view())),
            DataType::FixedSizeList(inner, size) => TypeView::FixedSizeList(
                Box::new(inner.field_view()),
                *size,
            ),
            DataType::LargeList(inner) => TypeView::LargeList(Box::new(inner.field_view())),
            DataType::LargeListView(inner) => TypeView::LargeListView(Box::new(inner.field_view())),
            DataType::Struct(fields) => TypeView::Struct(
                Seq::new(
                    fields@.len(),
                    |i: int|
                        if 0 <= i < fields@.len() {
                            fields@[i].field_view()
                        } else {
                            arbitrary()
                        },
                ),
            ),
            DataType::Union(members, mode) => TypeView::Union(
                Seq::new(
                    members@.len(),
                    |i: int|
                        if 0 <= i < members@.len() {
                            (members@[i].0, members@[i].1.field_view())
                        } else {
                            arbitrary()
                        },
                ),
                *mode,
            ),
            DataType::Dictionary(keys, values) => TypeView::Dictionary(
                Box::new(keys.type_view()),
                Box::new(values.type_view()),
            ),
            DataType::MapType(inner, sorted) => TypeView::MapType(
                Box::new(inner.field_view()),
                *sorted,
            ),
            DataType::RunEndEncoded(ends, values) => TypeView::RunEndEncoded(
                Box::new(ends.field_view()),
                Box::new(values.field_view()),
            ),
            _ => TypeView::Leaf(*self),
        }
    }

    /// Whether the type is a number, a truth value or nothing.
    pub open spec fn is_number(&self) -> bool {
        match self {
            DataType::Null
            | DataType::Boolean
            | DataType::Int8
            | DataType::Int16
            | DataType::Int32
            | DataType::Int64
            | DataType::UInt8
            | DataType::UInt16
            | DataType::UInt32
            | DataType::UInt64
            | DataType::Float16
            | DataType::Float32
            | DataType::Float64 => true,
            _ => false,
        }
    }

    /// Whether the type is a date, a time of day or a duration.
    pub open spec fn is_time(&self) -> bool {
        match self {
            DataType::Date32
            | DataType::Date64
            | DataType::Time32(_)
            | DataType::Time64(_)
            | DataType::Duration(_) => true,
            _ => false,
        }
    }

    /// Whether the type is made of bytes, characters or decimal digits.
    pub open spec fn is_text(&self) -> bool {
        match self {
            DataType::Binary
            | DataType::FixedSizeBinary(_)
            | DataType::LargeBinary
            | DataType::BinaryView
            | DataType::Utf8
            | DataType::LargeUtf8
            | DataType::Utf8View
            | DataType::Decimal32(_, _)
            | DataType::Decimal64(_, _)
            | DataType::Decimal128(_, _)
            | DataType::Decimal256(_, _) => true,
            _ => false,
        }
    }
}

impl Field {
    pub open spec fn field_view(&self) -> FieldView
        decreases self, 1nat,
    {
        FieldView {
            name: self.name@,
            data_type: self.data_type.type_view(),
            nullable: self.nullable,
            dict_is_ordered: self.dict_is_ordered,
            metadata: entries(self.metadata@, self.metadata@.len()),
        }
    }
}

/// The views of a list of columns.
pub open spec fn field_views(fields: Seq<Arc<Field>>) -> Seq<FieldView> {
    Seq::new(fields.len(), |i: int| fields[i].field_view())
}

/// The views of the members of a union.
pub open spec fn member_views(members: Seq<(i8, Arc<Field>)>) -> Seq<(i8, FieldView)> {
    Seq::new(members.len(), |i: int| (members[i].0, members[i].1.field_view()))
}

impl View for Schema {
    type V = SchemaView;

    open spec fn view(&self) -> SchemaView {
        SchemaView {
            fields: field_views(self.fields@),
            metadata: entries(self.metadata@, self.metadata@.len()),
        }
    }
}

/// What a type of the arrow crates is.
pub uninterp spec fn type_of(data_type: ArrowType) -> TypeView;

/// What a column of the arrow crates holds.
pub uninterp spec fn field_of(field: ArrowField) -> FieldView;

/// What a schema of the arrow crates holds.
pub uninterp spec fn schema_of(schema: ArrowSchema) -> SchemaView;

/// What a list of columns of the arrow crates holds.
pub open spec fn fields_of(fields: Seq<ArrowField>) -> Seq<FieldView> {
    fields.map_values(|field: ArrowField| field_of(field))
}

/// The variant of arrow's `DataType` with the name of a number.
#[verifier::external_body]
fn number_type(data_type: &DataType) -> (converted: ArrowType)
    requires
        data_type.is_number(),
    ensures
        type_of(converted) == TypeView::Leaf(*data_type),
{
    match data_type {
        DataType::Boolean => ArrowType::Boolean,
        DataType::Int8 => ArrowType::Int8,
        DataType::Int16 => ArrowType::Int16,
        DataType::Int32 => ArrowType::Int32,
        DataType::Int64 => ArrowType::Int64,
        DataType::UInt8 => ArrowType::UInt8,
        DataType::UInt16 => ArrowType::UInt16,
        DataType::UInt32 => ArrowType::UInt32,
        DataType::UInt64 => ArrowType::UInt64,
        DataType::Float16 => ArrowType::Float16,
        DataType::Float32 => ArrowType::Float32,
        DataType::Float64 => ArrowType::Float64,
        _ => ArrowType::Null,
    }
}

/// The variant of arrow's `DataType` with the name and unit of a date, a time of day or a duration.
#[verifier::external_body]
fn time_type(data_type: &DataType) -> (converted: ArrowType)
    requires
        data_type.is_time(),
    ensures
        type_of(converted) == TypeView::Leaf(*data_type),
{
    let unit = |unit: &TimeUnit| match unit {
        TimeUnit::Second => arrow::TimeUnit::Second,
        TimeUnit::Millisecond => arrow::TimeUnit::Millisecond,
        TimeUnit::Microsecond => arrow::TimeUnit::Microsecond,
        TimeUnit::Nanosecond => arrow::TimeUnit::Nanosecond,
    };
    match data_type {
        DataType::Date32 => ArrowType::Date32,
        DataType::Time32(given) => ArrowType::Time32(unit(given)),
        DataType::Time64(given) => ArrowType::Time64(unit(given)),
        DataType::Duration(given) => ArrowType::Duration(unit(given)),
        _ => ArrowType::Date64,
    }
}

/// The variant `Interval` of arrow's `DataType` with a unit.
#[verifier::external_body]
fn interval_type(unit: &IntervalUnit) -> (converted: ArrowType)
    ensures
        type_of(converted) == TypeView::Leaf(DataType::Interval(*unit)),
{
    ArrowType::Interval(
        match unit {
            IntervalUnit::YearMonth => arrow::IntervalUnit::YearMonth,
            IntervalUnit::DayTime => arrow::IntervalUnit::DayTime,
            IntervalUnit::MonthDayNano => arrow::IntervalUnit::MonthDayNano,
        },
    )
}

/// The variant `Timestamp` of arrow's `DataType` with a unit and a time zone.
#[verifier::external_body]
fn timestamp_type(unit: &TimeUnit, zone: Option<&str>) -> (converted: ArrowType)
    ensures
        type_of(converted) == TypeView::Timestamp(
            *unit,
            (match zone {
                Some(zone) => Some(zone@),
                None => None,
            }),
        ),
{
    let unit = match unit {
        TimeUnit::Second => arrow::TimeUnit::Second,
        TimeUnit::Millisecond => arrow::TimeUnit::Millisecond,
        TimeUnit::Microsecond => arrow::TimeUnit::Microsecond,
        TimeUnit::Nanosecond => arrow::TimeUnit::Nanosecond,
    };
    ArrowType::Timestamp(unit, zone.map(Arc::from))
}

/// The variant of arrow's `DataType` with the name of a type of bytes, characters or decimal
/// digits, and its sizes.
#[verifier::external_body]
fn text_type(data_type: &DataType) -> (converted: ArrowType)
    requires
        data_type.is_text(),
    ensures
        type_of(converted) == TypeView::Leaf(*data_type),
{
    match data_type {
        DataType::FixedSizeBinary(size) => ArrowType::FixedSizeBinary(*size),
        DataType::LargeBinary => ArrowType::LargeBinary,
        DataType::BinaryView => ArrowType::BinaryView,
        DataType::Utf8 => ArrowType::Utf8,
        DataType::LargeUtf8 => ArrowType::LargeUtf8,
        DataType::Utf8View => ArrowType::Utf8View,
        DataType::Decimal32(precision, scale) => ArrowType::Decimal32(*precision, *scale),
        DataType::Decimal64(precision, scale) => ArrowType::Decimal64(*precision, *scale),
        DataType::Decimal128(precision, scale) => ArrowType::Decimal128(*precision, *scale),
        DataType::Decimal256(precision, scale) => ArrowType::Decimal256(*precision, *scale),
        _ => ArrowType::Binary,
    }
}

/// Whether the type is a list of some sort, or a map.
pub open spec fn is_list(data_type: DataType) -> bool {
    match data_type {
        DataType::List(_)
        | DataType::ListView(_)
        | DataType::FixedSizeList(_, _)
        | DataType::LargeList(_)
        | DataType::LargeListView(_)
        | DataType::MapType(_, _) => true,
        _ => false,
    }
}

/// A list of the sort of `data_type`, or a map, of `inner`.
pub open spec fn list_of(data_type: DataType, inner: FieldView) -> TypeView {
    match data_type {
        DataType::ListView(_) => TypeView::ListView(Box::new(inner)),
        DataType::FixedSizeList(_, size) => TypeView::FixedSizeList(Box::new(inner), size),
        DataType::LargeList(_) => TypeView::LargeList(Box::new(inner)),
        DataType::LargeListView(_) => TypeView::LargeListView(Box::new(inner)),
        DataType::MapType(_, sorted) => TypeView::MapType(Box::new(inner), sorted),
        _ => TypeView::List(Box::new(inner)),
    }
}

/// The variant of arrow's `DataType` with the name of a list or a map, of an inner column.
#[verifier::external_body]
fn list_type(data_type: &DataType, inner: ArrowField) -> (converted: ArrowType)
    requires
        is_list(*data_type),
    ensures
        type_of(converted) == list_of(*data_type, field_of(inner)),
{
    let inner = Arc::new(inner);
    match data_type {
        DataType::ListView(_) => ArrowType::ListView(inner),
        DataType::FixedSizeList(_, size) => ArrowType::FixedSizeList(inner, *size),
        DataType::LargeList(_) => ArrowType::LargeList(inner),
        DataType::LargeListView(_) => ArrowType::LargeListView(inner),
        DataType::MapType(_, sorted) => ArrowType::Map(inner, *sorted),
        _ => ArrowType::List(inner),
    }
}

/// The variant `Struct` of arrow's `DataType`.
#[verifier::external_body]
fn struct_type(fields: Vec<ArrowField>) -> (converted: ArrowType)
    ensures
        type_of(converted) == TypeView::Struct(fields_of(fields@)),
{
    ArrowType::Struct(fields.into())
}

/// Whether no id is negative, and none is used twice.
pub open spec fn are_type_ids(ids: Seq<i8>) -> bool {
    forall|i: int|
        #![trigger ids[i]]
        0 <= i < ids.len() ==> ids[i] >= 0 && !ids.take(i).contains(ids[i])
}

/// The variant `Union` of arrow's `DataType`, whose members are built by `UnionFields::try_new`.
/// That refuses negative ids and ids that are used twice, and nothing else.
#[verifier::external_body]
fn union_type(ids: Vec<i8>, fields: Vec<ArrowField>, mode: &UnionMode) -> (converted: ArrowType)
    requires
        ids@.len() == fields@.len(),
        are_type_ids(ids@),
    ensures
        type_of(converted) == TypeView::Union(
            Seq::new(ids@.len(), |i: int| (ids@[i], field_of(fields@[i]))),
            *mode,
        ),
{
    let mode = match mode {
        UnionMode::Sparse => arrow::UnionMode::Sparse,
        UnionMode::Dense => arrow::UnionMode::Dense,
    };
    ArrowType::Union(arrow::UnionFields::try_new(ids, fields).unwrap(), mode)
}

/// The variant `Dictionary` of arrow's `DataType`.
#[verifier::external_body]
fn dictionary_type(keys: ArrowType, values: ArrowType) -> (converted: ArrowType)
    ensures
        type_of(converted) == TypeView::Dictionary(
            Box::new(type_of(keys)),
            Box::new(type_of(values)),
        ),
{
    ArrowType::Dictionary(Box::new(keys), Box::new(values))
}

/// The variant `RunEndEncoded` of arrow's `DataType`.
#[verifier::external_body]
fn run_end_type(ends: ArrowField, values: ArrowField) -> (converted: ArrowType)
    ensures
        type_of(converted) == TypeView::RunEndEncoded(
            Box::new(field_of(ends)),
            Box::new(field_of(values)),
        ),
{
    ArrowType::RunEndEncoded(Arc::new(ends), Arc::new(values))
}

/// A column, by arrow's `Field::new_dict`, with metadata, by `Field::with_metadata`. It holds what
/// it was given.
#[verifier::external_body]
#[allow(deprecated)]
fn new_field(
    name: &str,
    data_type: ArrowType,
    nullable: bool,
    dict_is_ordered: bool,
    metadata: &Vec<(String, String)>,
) -> (field: ArrowField)
    ensures
        field_of(field) == (FieldView {
            name: name@,
            data_type: type_of(data_type),
            nullable,
            dict_is_ordered,
            metadata: entries(metadata@, metadata@.len()),
        }),
{
    ArrowField::new_dict(name, data_type, nullable, 0, dict_is_ordered)
        .with_metadata(metadata.iter().cloned().collect())
}

/// A schema, by arrow's `Schema::new`, with metadata, by `Schema::with_metadata`. It holds what it
/// was given.
#[verifier::external_body]
fn new_schema(fields: Vec<ArrowField>, metadata: &Vec<(String, String)>) -> (schema: ArrowSchema)
    ensures
        schema_of(schema) == (SchemaView {
            fields: fields_of(fields@),
            metadata: entries(metadata@, metadata@.len()),
        }),
{
    ArrowSchema::new(fields).with_metadata(metadata.iter().cloned().collect())
}

impl DataType {
    /// Whether the members of all unions in the type can be told apart.
    pub open spec fn unions_are_valid(&self) -> bool
        decreases self, 0nat,
    {
        match self {
            DataType::List(inner) => inner.unions_are_valid(),
            DataType::ListView(inner) => inner.unions_are_valid(),
            DataType::FixedSizeList(inner, _) => inner.unions_are_valid(),
            DataType::LargeList(inner) => inner.unions_are_valid(),
            DataType::LargeListView(inner) => inner.unions_are_valid(),
            DataType::Struct(fields) => forall|i: int|
                #![trigger fields@[i]]
                0 <= i < fields@.len() ==> fields@[i].unions_are_valid(),
            DataType::Union(members, _) => {
                &&& are_type_ids(members@.map_values(|member: (i8, Arc<Field>)| member.0))
                &&& forall|i: int|
                    #![trigger members@[i]]
                    0 <= i < members@.len() ==> members@[i].1.unions_are_valid()
            },
            DataType::Dictionary(keys, values) => keys.unions_are_valid()
                && values.unions_are_valid(),
            DataType::MapType(inner, _) => inner.unions_are_valid(),
            DataType::RunEndEncoded(ends, values) => ends.unions_are_valid()
                && values.unions_are_valid(),
            _ => true,
        }
    }
}

impl Field {
    pub open spec fn unions_are_valid(&self) -> bool
        decreases self, 1nat,
    {
        self.data_type.unions_are_valid()
    }
}

impl Schema {
    /// Whether the members of all unions in the schema can be told apart.
    pub open spec fn unions_are_valid(&self) -> bool {
        forall|i: int|
            #![trigger self.fields@[i]]
            0 <= i < self.fields@.len() ==> self.fields@[i].unions_are_valid()
    }
}

/// Turns a type into one of the arrow crates.
fn arrow_type(data_type: &DataType) -> (converted: ArrowType)
    requires
        data_type.unions_are_valid(),
    ensures
        type_of(converted) == data_type.type_view(),
    decreases *data_type, 0nat,
{
    match data_type {
        DataType::Null
        | DataType::Boolean
        | DataType::Int8
        | DataType::Int16
        | DataType::Int32
        | DataType::Int64
        | DataType::UInt8
        | DataType::UInt16
        | DataType::UInt32
        | DataType::UInt64
        | DataType::Float16
        | DataType::Float32
        | DataType::Float64 => number_type(data_type),
        DataType::Date32
        | DataType::Date64
        | DataType::Time32(_)
        | DataType::Time64(_)
        | DataType::Duration(_) => time_type(data_type),
        DataType::Interval(unit) => interval_type(unit),
        DataType::Timestamp(unit, zone) => {
            match zone {
                Some(zone) => timestamp_type(unit, Some(zone.as_str())),
                None => timestamp_type(unit, None),
            }
        },
        DataType::Binary
        | DataType::FixedSizeBinary(_)
        | DataType::LargeBinary
        | DataType::BinaryView
        | DataType::Utf8
        | DataType::LargeUtf8
        | DataType::Utf8View
        | DataType::Decimal32(_, _)
        | DataType::Decimal64(_, _)
        | DataType::Decimal128(_, _)
        | DataType::Decimal256(_, _) => text_type(data_type),
        DataType::List(inner) => list_type(data_type, arrow_field(inner)),
        DataType::ListView(inner) => list_type(data_type, arrow_field(inner)),
        DataType::FixedSizeList(inner, _) => list_type(data_type, arrow_field(inner)),
        DataType::LargeList(inner) => list_type(data_type, arrow_field(inner)),
        DataType::LargeListView(inner) => list_type(data_type, arrow_field(inner)),
        DataType::MapType(inner, _) => list_type(data_type, arrow_field(inner)),
        DataType::Struct(fields) => {
            let converted = arrow_fields(fields);
            assert(data_type.type_view() matches TypeView::Struct(views) && views =~= fields_of(
                converted@,
            ));
            struct_type(converted)
        },
        DataType::Union(members, mode) => {
            let converted = arrow_union(members, mode);
            assert(data_type.type_view() matches TypeView::Union(views, _) && views
                =~= member_views(members@));
            converted
        },
        DataType::Dictionary(keys, values) => {
            dictionary_type(arrow_type(keys), arrow_type(values))
        },
        DataType::RunEndEncoded(ends, values) => {
            run_end_type(arrow_field(ends), arrow_field(values))
        },
    }
}

/// Turns a column into one of the arrow crates.
fn arrow_field(field: &Field) -> (converted: ArrowField)
    requires
        field.unions_are_valid(),
    ensures
        field_of(converted) == field.field_view(),
    decreases *field, 1nat,
{
    new_field(
        field.name.as_str(),
        arrow_type(&field.data_type),
        field.nullable,
        field.dict_is_ordered,
        &field.metadata,
    )
}

/// Turns a list of columns into one of the arrow crates.
fn arrow_fields(fields: &Vec<Arc<Field>>) -> (converted: Vec<ArrowField>)
    requires
        forall|i: int|
            #![trigger fields@[i]]
            0 <= i < fields@.len() ==> fields@[i].unions_are_valid(),
    ensures
        fields_of(converted@) == field_views(fields@),
    decreases *fields, 0nat,
{
    let mut converted: Vec<ArrowField> = Vec::new();
    let mut i: usize = 0;
    while i < fields.len()
        invariant
            i <= fields@.len(),
            forall|j: int|
                #![trigger fields@[j]]
                0 <= j < fields@.len() ==> fields@[j].unions_are_valid(),
            converted@.len() == i,
            forall|j: int|
                #![trigger converted@[j]]
                0 <= j < i ==> field_of(converted@[j]) == fields@[j].field_view(),
        decreases fields@.len() - i,
    {
        converted.push(arrow_field(&fields[i]));
        i = i + 1;
    }
    assert(fields_of(converted@) =~= field_views(fields@));
    converted
}

/// Turns a union into one of the arrow crates.
fn arrow_union(members: &Vec<(i8, Arc<Field>)>, mode: &UnionMode) -> (converted: ArrowType)
    requires
        are_type_ids(members@.map_values(|member: (i8, Arc<Field>)| member.0)),
        forall|i: int|
            #![trigger members@[i]]
            0 <= i < members@.len() ==> members@[i].1.unions_are_valid(),
    ensures
        type_of(converted) == TypeView::Union(member_views(members@), *mode),
    decreases *members, 0nat,
{
    let mut ids: Vec<i8> = Vec::new();
    let mut fields: Vec<ArrowField> = Vec::new();
    let mut i: usize = 0;
    while i < members.len()
        invariant
            i <= members@.len(),
            forall|j: int|
                #![trigger members@[j]]
                0 <= j < members@.len() ==> members@[j].1.unions_are_valid(),
            ids@.len() == i,
            fields@.len() == i,
            forall|j: int| #![trigger ids@[j]] 0 <= j < i ==> ids@[j] == members@[j].0,
            forall|j: int|
                #![trigger fields@[j]]
                0 <= j < i ==> field_of(fields@[j]) == members@[j].1.field_view(),
        decreases members@.len() - i,
    {
        let member = &members[i];
        ids.push(member.0);
        fields.push(arrow_field(&member.1));
        i = i + 1;
    }
    assert(ids@ =~= members@.map_values(|member: (i8, Arc<Field>)| member.0));
    assert(Seq::new(ids@.len(), |i: int| (ids@[i], field_of(fields@[i]))) =~= member_views(
        members@,
    ));
    union_type(ids, fields, mode)
}

/// Turns a schema into one of the arrow crates.
fn arrow_schema(schema: &Schema) -> (converted: ArrowSchema)
    requires
        schema.unions_are_valid(),
    ensures
        schema_of(converted) == schema@,
{
    let fields = arrow_fields(&schema.fields);
    new_schema(fields, &schema.metadata)
}

/// How many bytes of a schema message its schema may account for.
pub const MESSAGE_LIMIT: u64 = 0x8000_0000;

/// At least as many bytes as the first `n` entries of a list of metadata take in a message.
pub open spec fn entries_weight(metadata: Seq<(String, String)>, n: nat) -> nat
    decreases n,
{
    if n == 0 || n > metadata.len() {
        0
    } else {
        entries_weight(metadata, (n - 1) as nat) + 64 + 4 * metadata[n - 1].0@.len() + 4
            * metadata[n - 1].1@.len()
    }
}

impl DataType {
    /// At least as many bytes as the type takes in a message.
    pub open spec fn weight(&self) -> nat
        decreases self, 0nat,
    {
        match self {
            DataType::Timestamp(_, Some(zone)) => 4 * zone@.len(),
            DataType::List(inner) => inner.weight(),
            DataType::ListView(inner) => inner.weight(),
            DataType::FixedSizeList(inner, _) => inner.weight(),
            DataType::LargeList(inner) => inner.weight(),
            DataType::LargeListView(inner) => inner.weight(),
            DataType::Struct(fields) => fields_weight(fields@, fields@.len()),
            DataType::Union(members, _) => members_weight(members@, members@.len()),
            DataType::Dictionary(keys, values) => 128 + keys.weight() + values.weight(),
            DataType::MapType(inner, _) => inner.weight(),
            DataType::RunEndEncoded(ends, values) => ends.weight() + values.weight(),
            _ => 0,
        }
    }
}

impl Field {
    /// At least as many bytes as the column takes in a message.
    pub open spec fn weight(&self) -> nat
        decreases self, 1nat,
    {
        256 + 4 * self.name@.len() + entries_weight(self.metadata@, self.metadata@.len())
            + self.data_type.weight()
    }
}

/// The weight of the first `n` columns.
pub open spec fn fields_weight(fields: Seq<Arc<Field>>, n: nat) -> nat
    decreases fields, n,
{
    if n == 0 || n > fields.len() {
        0
    } else {
        fields_weight(fields, (n - 1) as nat) + fields[n - 1].weight()
    }
}

/// The weight of the first `n` members.
pub open spec fn members_weight(members: Seq<(i8, Arc<Field>)>, n: nat) -> nat
    decreases members, n,
{
    if n == 0 || n > members.len() {
        0
    } else {
        members_weight(members, (n - 1) as nat) + members[n - 1].1.weight()
    }
}

impl Schema {
    /// At least as many bytes as the schema takes in a message.
    pub open spec fn weight(&self) -> nat {
        512 + entries_weight(self.metadata@, self.metadata@.len()) + fields_weight(
            self.fields@,
            self.fields@.len(),
        )
    }

    /// Whether the schema is one of the arrow crates, and fits into a message.
    pub open spec fn sendable(&self) -> bool {
        self.unions_are_valid() && self.weight() <= MESSAGE_LIMIT
    }
}

/// The header of the message that `SchemaAsIpc` makes of a schema.
pub uninterp spec fn schema_header(schema: SchemaView, options: IpcWriteOptions) -> Seq<u8>;

/// The message of a schema: a header, and nothing else.
pub open spec fn schema_message_of(schema: SchemaView, options: IpcWriteOptions) -> MessageView {
    MessageView {
        data_header: schema_header(schema, options),
        data_body: Seq::empty(),
        app_metadata: Seq::empty(),
    }
}

/// Makes the message of a schema, by arrow-flight's `SchemaAsIpc`, of which the header depends on
/// what the schema holds and on the options; entries of metadata are written in the order of their
/// keys. It panics where a message gets longer than two gigabytes.
#[verifier::external_body]
fn encode_schema(schema: &ArrowSchema, options: &IpcWriteOptions) -> (message: FlightMessage)
    requires
        exists|held: Schema|
            #![trigger held@]
            held@ == schema_of(*schema) && held.weight() <= MESSAGE_LIMIT,
    ensures
        message.data_header@ == schema_header(schema_of(*schema), *options),
        message.data_body@.len() == 0,
        message.app_metadata@.len() == 0,
{
    let data = FlightData::from(SchemaAsIpc::new(schema, options));
    FlightMessage {
        data_header: data.data_header.into(),
        data_body: data.data_body.into(),
        app_metadata: data.app_metadata.into(),
    }
}

/// Makes the message of a schema.
pub fn schema_message(schema: &Schema, options: &IpcWriteOptions) -> (message: FlightMessage)
    requires
        schema.sendable(),
    ensures
        message@ == schema_message_of(schema@, *options),
{
    let converted = arrow_schema(schema);
    let message = encode_schema(&converted, options);
    assert(message@ =~= schema_message_of(schema@, *options));
    message
}

/// Takes `cost` out of a budget, if it is in there.
fn spend(budget: u64, cost: u64) -> (left: Option<u64>)
    ensures
        match left {
            Some(left) => left == budget - cost,
            None => cost > budget,
        },
{
    if cost <= budget {
        Some(budget - cost)
    } else {
        None
    }
}

/// Takes the weight of a text out of a budget.
fn spend_text(text: &str, budget: u64) -> (left: Option<u64>)
    ensures
        match left {
            Some(left) => left == budget - 4 * text@.len(),
            None => 4 * text@.len() > budget,
        },
{
    let len: usize = text.unicode_len();
    if len as u64 <= budget / 4 {
        Some(budget - 4 * (len as u64))
    } else {
        None
    }
}

/// Takes the weight of a list of metadata out of a budget.
fn spend_entries(metadata: &Vec<(String, String)>, budget: u64) -> (left: Option<u64>)
    ensures
        match left {
            Some(left) => left == budget - entries_weight(metadata@, metadata@.len()),
            None => entries_weight(metadata@, metadata@.len()) > budget,
        },
{
    let mut left: u64 = budget;
    let mut i: usize = 0;
    while i < metadata.len()
        invariant
            i <= metadata@.len(),
            left == budget - entries_weight(metadata@, i as nat),
        decreases metadata@.len() - i,
    {
        proof {
            lemma_entries_weight_grows(metadata@, (i + 1) as nat, metadata@.len());
        }
        let entry = &metadata[i];
        match spend(left, 64) {
            Some(rest) => match spend_text(entry.0.as_str(), rest) {
                Some(rest) => match spend_text(entry.1.as_str(), rest) {
                    Some(rest) => left = rest,
                    None => return None,
                },
                None => return None,
            },
            None => return None,
        }
        i = i + 1;
    }
    Some(left)
}

proof fn lemma_entries_weight_grows(metadata: Seq<(String, String)>, n: nat, m: nat)
    requires
        n <= m <= metadata.len(),
    ensures
        entries_weight(metadata, n) <= entries_weight(metadata, m),
    decreases m - n,
{
    if n < m {
        lemma_entries_weight_grows(metadata, n, (m - 1) as nat);
    }
}

proof fn lemma_fields_weight_grows(fields: Seq<Arc<Field>>, n: nat, m: nat)
    requires
        n <= m <= fields.len(),
    ensures
        fields_weight(fields, n) <= fields_weight(fields, m),
    decreases m - n,
{
    if n < m {
        lemma_fields_weight_grows(fields, n, (m - 1) as nat);
    }
}

proof fn lemma_members_weight_grows(members: Seq<(i8, Arc<Field>)>, n: nat, m: nat)
    requires
        n <= m <= members.len(),
    ensures
        members_weight(members, n) <= members_weight(members, m),
    decreases m - n,
{
    if n < m {
        lemma_members_weight_grows(members, n, (m - 1) as nat);
    }
}

/// Takes the weight of a type out of a budget, if its unions are valid.
fn spend_type(data_type: &DataType, budget: u64) -> (left: Option<u64>)
    ensures
        match left {
            Some(left) => data_type.unions_are_valid() && left == budget - data_type.weight(),
            None => !data_type.unions_are_valid() || data_type.weight() > budget,
        },
    decreases *data_type, 0nat,
{
    match data_type {
        DataType::Timestamp(_, Some(zone)) => spend_text(zone.as_str(), budget),
        DataType::List(inner) => spend_field(inner, budget),
        DataType::ListView(inner) => spend_field(inner, budget),
        DataType::FixedSizeList(inner, _) => spend_field(inner, budget),
        DataType::LargeList(inner) => spend_field(inner, budget),
        DataType::LargeListView(inner) => spend_field(inner, budget),
        DataType::MapType(inner, _) => spend_field(inner, budget),
        DataType::Struct(fields) => spend_fields(fields, budget),
        DataType::Union(members, _) => spend_members(members, budget),
        DataType::Dictionary(keys, values) => match spend(budget, 128) {
            Some(left) => match spend_type(keys, left) {
                Some(left) => spend_type(values, left),
                None => None,
            },
            None => None,
        },
        DataType::RunEndEncoded(ends, values) => match spend_field(ends, budget) {
            Some(left) => spend_field(values, left),
            None => None,
        },
        _ => Some(budget),
    }
}

/// Takes the weight of a column out of a budget, if its unions are valid.
fn spend_field(field: &Field, budget: u64) -> (left: Option<u64>)
    ensures
        match left {
            Some(left) => field.unions_are_valid() && left == budget - field.weight(),
            None => !field.unions_are_valid() || field.weight() > budget,
        },
    decreases *field, 1nat,
{
    match spend(budget, 256) {
        Some(left) => match spend_text(field.name.as_str(), left) {
            Some(left) => match spend_entries(&field.metadata, left) {
                Some(left) => spend_type(&field.data_type, left),
                None => None,
            },
            None => None,
        },
        None => None,
    }
}

/// Takes the weight of a list of columns out of a budget, if their unions are valid.
fn spend_fields(fields: &Vec<Arc<Field>>, budget: u64) -> (left: Option<u64>)
    ensures
        ({
            let valid = forall|i: int|
                #![trigger fields@[i]]
                0 <= i < fields@.len() ==> fields@[i].unions_are_valid();
            let weight = fields_weight(fields@, fields@.len());
            match left {
                Some(left) => valid && left == budget - weight,
                None => !valid || weight > budget,
            }
        }),
    decreases *fields, 0nat,
{
    let mut left: u64 = budget;
    let mut i: usize = 0;
    while i < fields.len()
        invariant
            i <= fields@.len(),
            left == budget - fields_weight(fields@, i as nat),
            forall|j: int| #![trigger fields@[j]] 0 <= j < i ==> fields@[j].unions_are_valid(),
        decreases fields@.len() - i,
    {
        proof {
            lemma_fields_weight_grows(fields@, (i + 1) as nat, fields@.len());
        }
        match spend_field(&fields[i], left) {
            Some(rest) => left = rest,
            None => return None,
        }
        i = i + 1;
    }
    Some(left)
}

/// Takes the weight of the members of a union out of a budget, if the members can be told apart
/// and the unions in them are valid.
fn spend_members(members: &Vec<(i8, Arc<Field>)>, budget: u64) -> (left: Option<u64>)
    ensures
        ({
            let valid = are_type_ids(members@.map_values(|member: (i8, Arc<Field>)| member.0))
                && forall|i: int|
                #![trigger members@[i]]
                0 <= i < members@.len() ==> members@[i].1.unions_are_valid();
            let weight = members_weight(members@, members@.len());
            match left {
                Some(left) => valid && left == budget - weight,
                None => !valid || weight > budget,
            }
        }),
    decreases *members, 0nat,
{
    let ghost ids = members@.map_values(|member: (i8, Arc<Field>)| member.0);
    let mut left: u64 = budget;
    let mut i: usize = 0;
    while i < members.len()
        invariant
            i <= members@.len(),
            ids == members@.map_values(|member: (i8, Arc<Field>)| member.0),
            left == budget - members_weight(members@, i as nat),
            forall|j: int|
                #![trigger ids[j]]
                0 <= j < i ==> ids[j] >= 0 && !ids.take(j).contains(ids[j]),
            forall|j: int|
                #![trigger members@[j]]
                0 <= j < i ==> members@[j].1.unions_are_valid(),
        decreases members@.len() - i,
    {
        proof {
            lemma_members_weight_grows(members@, (i + 1) as nat, members@.len());
        }
        let member = &members[i];
        assert(ids[i as int] == member.0);
        if member.0 < 0 || has_member(members, i, member.0) {
            return None;
        }
        match spend_field(&member.1, left) {
            Some(rest) => left = rest,
            None => return None,
        }
        i = i + 1;
    }
    Some(left)
}

/// Tells whether one of the first `n` members has an id.
fn has_member(members: &Vec<(i8, Arc<Field>)>, n: usize, id: i8) -> (found: bool)
    requires
        n <= members@.len(),
    ensures
        found == members@.map_values(|member: (i8, Arc<Field>)| member.0).take(
            n as int,
        ).contains(id),
{
    let ghost ids = members@.map_values(|member: (i8, Arc<Field>)| member.0);
    let mut i: usize = 0;
    while i < n
        invariant
            i <= n <= members@.len(),
            ids == members@.map_values(|member: (i8, Arc<Field>)| member.0),
            forall|j: int| #![trigger ids.take(n as int)[j]] 0 <= j < i ==> ids.take(n as int)[j]
                != id,
        decreases n - i,
    {
        assert(ids.take(n as int)[i as int] == members@[i as int].0);
        if members[i].0 == id {
            return true;
        }
        i = i + 1;
    }
    false
}

impl Schema {
    /// Tells whether a schema can be sent.
    pub fn is_sendable(&self) -> (sendable: bool)
        ensures
            sendable == self.sendable(),
    {
        match spend(MESSAGE_LIMIT, 512) {
            Some(left) => match spend_entries(&self.metadata, left) {
                Some(left) => spend_fields(&self.fields, left).is_some(),
                None => false,
            },
            None => false,
        }
    }
}

/// A schema can be sent where it can be prepared, and the other way round: preparing keeps the
/// size of its message, and its unions.
pub proof fn law_prepared_schemas_can_be_sent(schema: &Schema, prepared: &Schema)
    requires
        schema.is_prepared_as(prepared),
    ensures
        prepared.weight() == schema.weight(),
        prepared.sendable() == schema.sendable(),
{
    lemma_prepared_columns_weigh_the_same(schema.fields@, prepared.fields@, schema.fields@.len());
}

proof fn lemma_prepared_fields_weigh_the_same(field: &Field, prepared: &Field)
    requires
        field.is_prepared_as(prepared),
    ensures
        prepared.weight() == field.weight(),
        prepared.unions_are_valid() == field.unions_are_valid(),
    decreases field,
{
    lemma_prepared_types_weigh_the_same(&field.data_type, &prepared.data_type);
}

proof fn lemma_prepared_types_weigh_the_same(data_type: &DataType, prepared: &DataType)
    requires
        data_type.is_prepared_as(prepared),
    ensures
        prepared.weight() == data_type.weight(),
        prepared.unions_are_valid() == data_type.unions_are_valid(),
    decreases data_type,
{
    match (data_type, prepared) {
        (DataType::List(a), DataType::List(b)) => {
            lemma_prepared_fields_weigh_the_same(&**a, &**b);
        },
        (DataType::LargeList(a), DataType::LargeList(b)) => {
            lemma_prepared_fields_weigh_the_same(&**a, &**b);
        },
        (DataType::ListView(a), DataType::ListView(b)) => {
            lemma_prepared_fields_weigh_the_same(&**a, &**b);
        },
        (DataType::LargeListView(a), DataType::LargeListView(b)) => {
            lemma_prepared_fields_weigh_the_same(&**a, &**b);
        },
        (DataType::FixedSizeList(a, _), DataType::FixedSizeList(b, _)) => {
            lemma_prepared_fields_weigh_the_same(&**a, &**b);
        },
        (DataType::RunEndEncoded(_, a), DataType::RunEndEncoded(_, b)) => {
            lemma_prepared_fields_weigh_the_same(&**a, &**b);
        },
        (DataType::MapType(a, _), DataType::MapType(b, _)) => {
            lemma_prepared_fields_weigh_the_same(&**a, &**b);
        },
        (DataType::Struct(a), DataType::Struct(b)) => {
            lemma_prepared_columns_weigh_the_same(a@, b@, a@.len());
        },
        (DataType::Union(a, _), DataType::Union(b, _)) => {
            lemma_prepared_members_weigh_the_same(a@, b@, a@.len());
            assert(a@.map_values(|member: (i8, Arc<Field>)| member.0) =~= b@.map_values(
                |member: (i8, Arc<Field>)| member.0,
            ));
        },
        _ => {},
    }
}

proof fn lemma_prepared_columns_weigh_the_same(
    before: Seq<Arc<Field>>,
    after: Seq<Arc<Field>>,
    n: nat,
)
    requires
        n <= before.len(),
        before.len() == after.len(),
        forall|i: int|
            #![trigger before[i]]
            #![trigger after[i]]
            0 <= i < before.len() ==> before[i].is_prepared_as(&*after[i]),
    ensures
        fields_weight(before, n) == fields_weight(after, n),
        forall|i: int|
            #![trigger before[i]]
            #![trigger after[i]]
            0 <= i < n ==> before[i].unions_are_valid() == after[i].unions_are_valid(),
    decreases before, n,
{
    if n > 0 {
        lemma_prepared_columns_weigh_the_same(before, after, (n - 1) as nat);
        lemma_prepared_fields_weigh_the_same(&*before[n - 1], &*after[n - 1]);
    }
}

proof fn lemma_prepared_members_weigh_the_same(
    before: Seq<(i8, Arc<Field>)>,
    after: Seq<(i8, Arc<Field>)>,
    n: nat,
)
    requires
        n <= before.len(),
        before.len() == after.len(),
        forall|i: int|
            #![trigger before[i]]
            #![trigger after[i]]
            0 <= i < before.len() ==> before[i].1.is_prepared_as(&*after[i].1),
    ensures
        members_weight(before, n) == members_weight(after, n),
        forall|i: int|
            #![trigger before[i]]
            #![trigger after[i]]
            0 <= i < n ==> before[i].1.unions_are_valid() == after[i].1.unions_are_valid(),
    decreases before, n,
{
    if n > 0 {
        lemma_prepared_members_weigh_the_same(before, after, (n - 1) as nat);
        lemma_prepared_fields_weigh_the_same(&*before[n - 1].1, &*after[n - 1].1);
    }
}

/// A schema weighs more than it has dictionaries.
pub proof fn lemma_schemas_outweigh_their_dictionaries(schema: &Schema)
    ensures
        schema.dictionaries() <= schema.weight(),
{
    lemma_columns_outweigh_their_dictionaries(schema.fields@, schema.fields@.len());
}

proof fn lemma_fields_outweigh_their_dictionaries(field: &Field)
    ensures
        field.dictionaries() <= field.weight(),
    decreases field,
{
    lemma_types_outweigh_their_dictionaries(&field.data_type);
}

proof fn lemma_types_outweigh_their_dictionaries(data_type: &DataType)
    ensures
        data_type.dictionaries() <= data_type.weight(),
    decreases data_type,
{
    match data_type {
        DataType::List(inner) => lemma_fields_outweigh_their_dictionaries(&**inner),
        DataType::LargeList(inner) => lemma_fields_outweigh_their_dictionaries(&**inner),
        DataType::ListView(inner) => lemma_fields_outweigh_their_dictionaries(&**inner),
        DataType::LargeListView(inner) => lemma_fields_outweigh_their_dictionaries(&**inner),
        DataType::FixedSizeList(inner, _) => lemma_fields_outweigh_their_dictionaries(&**inner),
        DataType::MapType(inner, _) => lemma_fields_outweigh_their_dictionaries(&**inner),
        DataType::RunEndEncoded(_, values) => lemma_fields_outweigh_their_dictionaries(&**values),
        DataType::Dictionary(_, values) => lemma_types_outweigh_their_dictionaries(&**values),
        DataType::Struct(fields) => {
            lemma_columns_outweigh_their_dictionaries(fields@, fields@.len());
        },
        DataType::Union(members, _) => {
            lemma_members_outweigh_their_dictionaries(members@, members@.len());
        },
        _ => {},
    }
}

proof fn lemma_columns_outweigh_their_dictionaries(fields: Seq<Arc<Field>>, n: nat)
    requires
        n <= fields.len(),
    ensures
        crate::flight_schema::struct_dictionaries(fields, n) <= fields_weight(fields, n),
    decreases fields, n,
{
    if n > 0 {
        lemma_columns_outweigh_their_dictionaries(fields, (n - 1) as nat);
        lemma_fields_outweigh_their_dictionaries(&*fields[n - 1]);
    }
}

proof fn lemma_members_outweigh_their_dictionaries(members: Seq<(i8, Arc<Field>)>, n: nat)
    requires
        n <= members.len(),
    ensures
        crate::flight_schema::union_dictionaries(members, n) <= members_weight(members, n),
    decreases members, n,
{
    if n > 0 {
        lemma_members_outweigh_their_dictionaries(members, (n - 1) as nat);
        lemma_fields_outweigh_their_dictionaries(&*members[n - 1].1);
    }
}

}
