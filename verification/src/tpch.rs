//! The tables of the TPC-H benchmark, and how their files are converted.
use std::sync::Arc;
use vstd::prelude::*;
use vstd::string::*;

use crate::data_type::{DataType, Field, Schema};
use crate::plan::share;
use crate::text::same_text;

verus! {

/// The names of the tables, in the order in which they are converted.
pub open spec fn tpch_tables() -> Seq<Seq<char>> {
    seq![
        "part"@,
        "supplier"@,
        "partsupp"@,
        "customer"@,
        "orders"@,
        "lineitem"@,
        "nation"@,
        "region"@,
    ]
}

/// The columns of a table: their names and types. They are signed throughout, so that the files can
/// be used by tools that only support signed integers.
pub open spec fn tpch_columns(table: Seq<char>) -> Seq<(Seq<char>, DataType)> {
    if table == "part"@ {
        seq![
            ("p_partkey"@, DataType::Int64),
            ("p_name"@, DataType::Utf8),
            ("p_mfgr"@, DataType::Utf8),
            ("p_brand"@, DataType::Utf8),
            ("p_type"@, DataType::Utf8),
            ("p_size"@, DataType::Int32),
            ("p_container"@, DataType::Utf8),
            ("p_retailprice"@, DataType::Decimal128(15, 2)),
            ("p_comment"@, DataType::Utf8),
        ]
    } else if table == "supplier"@ {
        seq![
            ("s_suppkey"@, DataType::Int64),
            ("s_name"@, DataType::Utf8),
            ("s_address"@, DataType::Utf8),
            ("s_nationkey"@, DataType::Int64),
            ("s_phone"@, DataType::Utf8),
            ("s_acctbal"@, DataType::Decimal128(15, 2)),
            ("s_comment"@, DataType::Utf8),
        ]
    } else if table == "partsupp"@ {
        seq![
            ("ps_partkey"@, DataType::Int64),
            ("ps_suppkey"@, DataType::Int64),
            ("ps_availqty"@, DataType::Int32),
            ("ps_supplycost"@, DataType::Decimal128(15, 2)),
            ("ps_comment"@, DataType::Utf8),
        ]
    } else if table == "customer"@ {
        seq![
            ("c_custkey"@, DataType::Int64),
            ("c_name"@, DataType::Utf8),
            ("c_address"@, DataType::Utf8),
            ("c_nationkey"@, DataType::Int64),
            ("c_phone"@, DataType::Utf8),
            ("c_acctbal"@, DataType::Decimal128(15, 2)),
            ("c_mktsegment"@, DataType::Utf8),
            ("c_comment"@, DataType::Utf8),
        ]
    } else if table == "orders"@ {
        seq![
            ("o_orderkey"@, DataType::Int64),
            ("o_custkey"@, DataType::Int64),
            ("o_orderstatus"@, DataType::Utf8),
            ("o_totalprice"@, DataType::Decimal128(15, 2)),
            ("o_orderdate"@, DataType::Date32),
            ("o_orderpriority"@, DataType::Utf8),
            ("o_clerk"@, DataType::Utf8),
            ("o_shippriority"@, DataType::Int32),
            ("o_comment"@, DataType::Utf8),
        ]
    } else if table == "lineitem"@ {
        seq![
            ("l_orderkey"@, DataType::Int64),
            ("l_partkey"@, DataType::Int64),
            ("l_suppkey"@, DataType::Int64),
            ("l_linenumber"@, DataType::Int32),
            ("l_quantity"@, DataType::Decimal128(15, 2)),
            ("l_extendedprice"@, DataType::Decimal128(15, 2)),
            ("l_discount"@, DataType::Decimal128(15, 2)),
            ("l_tax"@, DataType::Decimal128(15, 2)),
            ("l_returnflag"@, DataType::Utf8),
            ("l_linestatus"@, DataType::Utf8),
            ("l_shipdate"@, DataType::Date32),
            ("l_commitdate"@, DataType::Date32),
            ("l_receiptdate"@, DataType::Date32),
            ("l_shipinstruct"@, DataType::Utf8),
            ("l_shipmode"@, DataType::Utf8),
            ("l_comment"@, DataType::Utf8),
        ]
    } else if table == "nation"@ {
        seq![
            ("n_nationkey"@, DataType::Int64),
            ("n_name"@, DataType::Utf8),
            ("n_regionkey"@, DataType::Int64),
            ("n_comment"@, DataType::Utf8),
        ]
    } else if table == "region"@ {
        seq![
            ("r_regionkey"@, DataType::Int64),
            ("r_name"@, DataType::Utf8),
            ("r_comment"@, DataType::Utf8),
        ]
    } else {
        Seq::empty()
    }
}

/// Whether `schema` has these columns, none of which may be null, and nothing else.
pub open spec fn has_columns(schema: Schema, columns: Seq<(Seq<char>, DataType)>) -> bool {
    &&& schema.metadata@.len() == 0
    &&& schema.fields@.len() == columns.len()
    &&& forall|i: int|
        #![trigger schema.fields@[i]]
        #![trigger columns[i]]
        0 <= i < columns.len() ==> is_column(*schema.fields@[i], columns[i])
}

/// Whether `field` is a column of this name and type that may not be null.
pub open spec fn is_column(field: Field, column: (Seq<char>, DataType)) -> bool {
    &&& field.name@ == column.0
    &&& field.data_type == column.1
    &&& !field.nullable
    &&& !field.dict_is_ordered
    &&& field.metadata@.len() == 0
}

/// A column that may not be null.
fn column(name: &str, data_type: DataType) -> (field: Arc<Field>)
    ensures
        is_column(*field, (name@, data_type)),
{
    Arc::new(
        Field {
            name: Arc::new(name.to_owned()),
            data_type,
            nullable: false,
            dict_is_ordered: false,
            metadata: Arc::new(Vec::new()),
        },
    )
}

/// The names of the tables.
pub fn tpch_table_names() -> (names: Vec<String>)
    ensures
        crate::text::views(names@) == tpch_tables(),
{
    let mut names: Vec<String> = Vec::new();
    names.push("part".to_owned());
    names.push("supplier".to_owned());
    names.push("partsupp".to_owned());
    names.push("customer".to_owned());
    names.push("orders".to_owned());
    names.push("lineitem".to_owned());
    names.push("nation".to_owned());
    names.push("region".to_owned());
    assert(crate::text::views(names@) =~= tpch_tables());
    names
}

/// The schema of a table.
#[verifier::rlimit(40)]
pub fn get_tpch_table_schema(table: &str) -> (schema: Schema)
    requires
        tpch_tables().contains(table@),
    ensures
        has_columns(schema, tpch_columns(table@)),
{
    let mut fields: Vec<Arc<Field>> = Vec::new();
    if same_text(table, "part") {
        fields.push(column("p_partkey", DataType::Int64));
        fields.push(column("p_name", DataType::Utf8));
        fields.push(column("p_mfgr", DataType::Utf8));
        fields.push(column("p_brand", DataType::Utf8));
        fields.push(column("p_type", DataType::Utf8));
        fields.push(column("p_size", DataType::Int32));
        fields.push(column("p_container", DataType::Utf8));
        fields.push(column("p_retailprice", DataType::Decimal128(15, 2)));
        fields.push(column("p_comment", DataType::Utf8));
    } else if same_text(table, "supplier") {
        fields.push(column("s_suppkey", DataType::Int64));
        fields.push(column("s_name", DataType::Utf8));
        fields.push(column("s_address", DataType::Utf8));
        fields.push(column("s_nationkey", DataType::Int64));
        fields.push(column("s_phone", DataType::Utf8));
        fields.push(column("s_acctbal", DataType::Decimal128(15, 2)));
        fields.push(column("s_comment", DataType::Utf8));
    } else if same_text(table, "partsupp") {
        fields.push(column("ps_partkey", DataType::Int64));
        fields.push(column("ps_suppkey", DataType::Int64));
        fields.push(column("ps_availqty", DataType::Int32));
        fields.push(column("ps_supplycost", DataType::Decimal128(15, 2)));
        fields.push(column("ps_comment", DataType::Utf8));
    } else if same_text(table, "customer") {
        fields.push(column("c_custkey", DataType::Int64));
        fields.push(column("c_name", DataType::Utf8));
        fields.push(column("c_address", DataType::Utf8));
        fields.push(column("c_nationkey", DataType::Int64));
        fields.push(column("c_phone", DataType::Utf8));
        fields.push(column("c_acctbal", DataType::Decimal128(15, 2)));
        fields.push(column("c_mktsegment", DataType::Utf8));
        fields.push(column("c_comment", DataType::Utf8));
    } else if same_text(table, "orders") {
        fields.push(column("o_orderkey", DataType::Int64));
        fields.push(column("o_custkey", DataType::Int64));
        fields.push(column("o_orderstatus", DataType::Utf8));
        fields.push(column("o_totalprice", DataType::Decimal128(15, 2)));
        fields.push(column("o_orderdate", DataType::Date32));
        fields.push(column("o_orderpriority", DataType::Utf8));
        fields.push(column("o_clerk", DataType::Utf8));
        fields.push(column("o_shippriority", DataType::Int32));
        fields.push(column("o_comment", DataType::Utf8));
    } else if same_text(table, "lineitem") {
        fields.push(column("l_orderkey", DataType::Int64));
        fields.push(column("l_partkey", DataType::Int64));
        fields.push(column("l_suppkey", DataType::Int64));
        fields.push(column("l_linenumber", DataType::Int32));
        fields.push(column("l_quantity", DataType::Decimal128(15, 2)));
        fields.push(column("l_extendedprice", DataType::Decimal128(15, 2)));
        fields.push(column("l_discount", DataType::Decimal128(15, 2)));
        fields.push(column("l_tax", DataType::Decimal128(15, 2)));
        fields.push(column("l_returnflag", DataType::Utf8));
        fields.push(column("l_linestatus", DataType::Utf8));
        fields.push(column("l_shipdate", DataType::Date32));
        fields.push(column("l_commitdate", DataType::Date32));
        fields.push(column("l_receiptdate", DataType::Date32));
        fields.push(column("l_shipinstruct", DataType::Utf8));
        fields.push(column("l_shipmode", DataType::Utf8));
        fields.push(column("l_comment", DataType::Utf8));
    } else if same_text(table, "nation") {
        fields.push(column("n_nationkey", DataType::Int64));
        fields.push(column("n_name", DataType::Utf8));
        fields.push(column("n_regionkey", DataType::Int64));
        fields.push(column("n_comment", DataType::Utf8));
    } else if same_text(table, "region") {
        fields.push(column("r_regionkey", DataType::Int64));
        fields.push(column("r_name", DataType::Utf8));
        fields.push(column("r_comment", DataType::Utf8));
    }
    Schema { fields, metadata: Arc::new(Vec::new()) }
}

/// How to convert the tables of the benchmark.
#[derive(Debug, PartialEq, Eq)]
pub struct PrepareTpchOpt {
    /// The directory with the unprepared files.
    pub input_path: String,
    /// The directory that the converted tables are written to.
    pub output_path: String,
    /// The number of files to write for each table.
    pub partitions: usize,
    /// Whether each table is sorted by its first column.
    pub sort: bool,
}

/// How to convert one table.
#[derive(Debug)]
pub struct TableConversion {
    pub table: String,
    /// The file to read, with its fields separated by bars and without a header.
    pub input_path: String,
    pub schema: Schema,
    /// The columns to keep.
    pub columns: Vec<Arc<String>>,
    /// The column to sort by, if the table is sorted.
    pub sort_column: Option<Arc<String>>,
    pub partitions: usize,
}

impl PrepareTpchOpt {
    /// Whether `conversion` is how `table` is to be converted: all its columns are kept, so that
    /// only the padding after the last separator of a line is left out, and it is sorted by the
    /// first one if that is asked for.
    pub open spec fn converts(self, table: Seq<char>, conversion: TableConversion) -> bool {
        let columns = tpch_columns(table);
        &&& conversion.table@ == table
        &&& conversion.input_path@ == self.input_path@ + "/"@ + table + ".tbl"@
        &&& has_columns(conversion.schema, columns)
        &&& conversion.columns@.len() == columns.len()
        &&& forall|i: int|
            #![trigger conversion.columns@[i]]
            0 <= i < columns.len() ==> conversion.columns@[i]@ == columns[i].0
        &&& match conversion.sort_column {
            Some(column) => self.sort && column@ == columns[0].0,
            None => !self.sort,
        }
        &&& conversion.partitions == self.partitions
    }

    /// How to convert one table.
    pub fn conversion(&self, table: &str) -> (conversion: TableConversion)
        requires
            tpch_tables().contains(table@),
        ensures
            self.converts(table@, conversion),
    {
        let schema = get_tpch_table_schema(table);
        assert(tpch_columns(table@).len() > 0);
        let mut input_path = self.input_path.clone();
        input_path.append("/");
        input_path.append(table);
        input_path.append(".tbl");
        let mut columns: Vec<Arc<String>> = Vec::new();
        let mut i: usize = 0;
        while i < schema.fields.len()
            invariant
                has_columns(schema, tpch_columns(table@)),
                i <= schema.fields@.len(),
                columns@.len() == i,
                forall|j: int|
                    #![trigger columns@[j]]
                    0 <= j < i ==> columns@[j]@ == tpch_columns(table@)[j].0,
            decreases schema.fields@.len() - i,
        {
            assert(is_column(*schema.fields@[i as int], tpch_columns(table@)[i as int]));
            columns.push(share(&schema.fields[i].name));
            i = i + 1;
        }
        let sort_column = if self.sort {
            assert(is_column(*schema.fields@[0], tpch_columns(table@)[0]));
            Some(share(&schema.fields[0].name))
        } else {
            None
        };
        TableConversion {
            table: table.to_owned(),
            input_path,
            schema,
            columns,
            sort_column,
            partitions: self.partitions,
        }
    }

    /// How to convert all tables.
    pub fn conversions(&self) -> (conversions: Vec<TableConversion>)
        ensures
            conversions@.len() == tpch_tables().len(),
            forall|i: int|
                #![trigger conversions@[i]]
                0 <= i < conversions@.len() ==> self.converts(tpch_tables()[i], conversions@[i]),
    {
        let names = tpch_table_names();
        let mut conversions: Vec<TableConversion> = Vec::new();
        let mut i: usize = 0;
        while i < names.len()
            invariant
                i <= names@.len(),
                crate::text::views(names@) == tpch_tables(),
                conversions@.len() == i,
                forall|j: int|
                    #![trigger conversions@[j]]
                    0 <= j < i ==> self.converts(tpch_tables()[j], conversions@[j]),
            decreases names@.len() - i,
        {
            assert(crate::text::views(names@)[i as int] == names@[i as int]@);
            conversions.push(self.conversion(names[i].as_str()));
            i = i + 1;
        }
        conversions
    }
}

}
