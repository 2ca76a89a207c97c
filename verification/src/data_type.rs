//! The types of columns.
use std::sync::Arc;
use vstd::prelude::*;

use crate::plan::share;

verus! {

/// The unit of a point or span of time.
#[derive(Debug, Clone, Copy, PartialEq, Eq, Structural)]
pub enum TimeUnit {
    Second,
    Millisecond,
    Microsecond,
    Nanosecond,
}

/// The unit of an interval on the calendar.
#[derive(Debug, Clone, Copy, PartialEq, Eq, Structural)]
pub enum IntervalUnit {
    YearMonth,
    DayTime,
    MonthDayNano,
}

/// How the values of a union are laid out.
#[derive(Debug, Clone, Copy, PartialEq, Eq, Structural)]
pub enum UnionMode {
    Sparse,
    Dense,
}

/// The type of a column.
#[derive(Debug, PartialEq, Eq)]
pub enum DataType {
    Null,
    Boolean,
    Int8,
    Int16,
    Int32,
    Int64,
    UInt8,
    UInt16,
    UInt32,
    UInt64,
    Float16,
    Float32,
    Float64,
    Timestamp(TimeUnit, Option<Arc<String>>),
    Date32,
    Date64,
    Time32(TimeUnit),
    Time64(TimeUnit),
    Duration(TimeUnit),
    Interval(IntervalUnit),
    Binary,
    FixedSizeBinary(i32),
    LargeBinary,
    BinaryView,
    Utf8,
    LargeUtf8,
    Utf8View,
    Decimal32(u8, i8),
    Decimal64(u8, i8),
    Decimal128(u8, i8),
    Decimal256(u8, i8),
    List(Arc<Field>),
    ListView(Arc<Field>),
    FixedSizeList(Arc<Field>, i32),
    LargeList(Arc<Field>),
    LargeListView(Arc<Field>),
    Struct(Vec<Arc<Field>>),
    Union(Vec<(i8, Arc<Field>)>, UnionMode),
    /// Keys of the first type that stand for values of the second.
    Dictionary(Arc<DataType>, Arc<DataType>),
    /// Entries of keys and values, and whether the keys are sorted.
    MapType(Arc<Field>, bool),
    /// The ends of runs, and their values.
    RunEndEncoded(Arc<Field>, Arc<Field>),
}

/// A named column.
#[derive(Debug, PartialEq, Eq)]
pub struct Field {
    pub name: Arc<String>,
    pub data_type: DataType,
    pub nullable: bool,
    /// Whether the values of a dictionary are in order; meaningless for other types.
    pub dict_is_ordered: bool,
    pub metadata: Arc<Vec<(String, String)>>,
}

/// The columns of a table or stream.
#[derive(Debug, PartialEq, Eq)]
pub struct Schema {
    pub fields: Vec<Arc<Field>>,
    pub metadata: Arc<Vec<(String, String)>>,
}

impl DataType {
    /// Whether the type is made of other types that a copy would have to be made of too.
    pub open spec fn is_nested(self) -> bool {
        match self {
            DataType::Struct(_) | DataType::Union(_, _) => true,
            _ => false,
        }
    }

    /// A copy of a type that has no list of columns.
    pub fn copy_simple(&self) -> (copy: Self)
        requires
            !self.is_nested(),
        ensures
            copy == *self,
    {
        match self {
            DataType::Null => DataType::Null,
            DataType::Boolean => DataType::Boolean,
            DataType::Int8 => DataType::Int8,
            DataType::Int16 => DataType::Int16,
            DataType::Int32 => DataType::Int32,
            DataType::Int64 => DataType::Int64,
            DataType::UInt8 => DataType::UInt8,
            DataType::UInt16 => DataType::UInt16,
            DataType::UInt32 => DataType::UInt32,
            DataType::UInt64 => DataType::UInt64,
            DataType::Float16 => DataType::Float16,
            DataType::Float32 => DataType::Float32,
            DataType::Float64 => DataType::Float64,
            DataType::Timestamp(unit, zone) => DataType::Timestamp(
                *unit,
                match zone {
                    Some(zone) => Some(share(zone)),
                    None => None,
                },
            ),
            DataType::Date32 => DataType::Date32,
            DataType::Date64 => DataType::Date64,
            DataType::Time32(unit) => DataType::Time32(*unit),
            DataType::Time64(unit) => DataType::Time64(*unit),
            DataType::Duration(unit) => DataType::Duration(*unit),
            DataType::Interval(unit) => DataType::Interval(*unit),
            DataType::Binary => DataType::Binary,
            DataType::FixedSizeBinary(size) => DataType::FixedSizeBinary(*size),
            DataType::LargeBinary => DataType::LargeBinary,
            DataType::BinaryView => DataType::BinaryView,
            DataType::Utf8 => DataType::Utf8,
            DataType::LargeUtf8 => DataType::LargeUtf8,
            DataType::Utf8View => DataType::Utf8View,
            DataType::Decimal32(precision, scale) => DataType::Decimal32(*precision, *scale),
            DataType::Decimal64(precision, scale) => DataType::Decimal64(*precision, *scale),
            DataType::Decimal128(precision, scale) => DataType::Decimal128(*precision, *scale),
            DataType::Decimal256(precision, scale) => DataType::Decimal256(*precision, *scale),
            DataType::List(inner) => DataType::List(share(inner)),
            DataType::ListView(inner) => DataType::ListView(share(inner)),
            DataType::FixedSizeList(inner, size) => DataType::FixedSizeList(share(inner), *size),
            DataType::LargeList(inner) => DataType::LargeList(share(inner)),
            DataType::LargeListView(inner) => DataType::LargeListView(share(inner)),
            DataType::Dictionary(keys, values) => DataType::Dictionary(share(keys), share(values)),
            DataType::MapType(inner, sorted) => DataType::MapType(share(inner), *sorted),
            DataType::RunEndEncoded(run_ends, values) => DataType::RunEndEncoded(
                share(run_ends),
                share(values),
            ),
            DataType::Struct(_) | DataType::Union(_, _) => {
                assert(false);
                DataType::Null
            },
        }
    }
}

}
