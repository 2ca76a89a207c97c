//! How much of a batch the headers of its messages have to hold.
//!
//! A batch is sent as a message for each of its dictionaries, and one for itself. The header of a
//! message lists the arrays and the buffers that the message is made of, and cannot be longer than
//! its format allows.
use vstd::prelude::*;

use datafusion::arrow::array::{ArrayData, RecordBatch};
use datafusion::arrow::datatypes::DataType as ArrowType;
use datafusion::arrow::ipc::writer::IpcWriteOptions;
use datafusion::arrow::ipc::CompressionType;

verus! {

/// A batch of columns of the arrow crates.
#[verifier::external_body]
#[derive(Debug)]
pub struct Columns {
    pub columns: RecordBatch,
}

/// An array of the arrow crates.
#[verifier::external_type_specification]
#[verifier::external_body]
pub struct ExArrayData(ArrayData);

/// The types of arrays that are written in a way of their own.
#[derive(Debug, Clone, Copy, PartialEq, Eq, Structural)]
pub enum ArrayKind {
    Null,
    Union,
    RunEndEncoded,
    Dictionary,
    BinaryView,
    Utf8View,
    /// Any other type.
    Other,
}

/// The arrays that a batch is made of.
pub uninterp spec fn columns_of(batch: Columns) -> Seq<ArrayData>;

/// The arrays that an array is made of: the values of a list or a dictionary, the columns of a
/// struct.
pub uninterp spec fn children_of(array: ArrayData) -> Seq<ArrayData>;

/// The number of buffers that an array has of its own, without the one that tells its nulls.
pub uninterp spec fn buffers_of(array: ArrayData) -> nat;

/// The type of an array.
pub uninterp spec fn kind_of(array: ArrayData) -> ArrayKind;

/// Whether messages are written in the fifth version of their format, and not in an earlier one.
pub uninterp spec fn writes_version_five(options: IpcWriteOptions) -> bool;

/// The number of arrays of a batch, by `RecordBatch::num_columns`.
#[verifier::external_body]
fn column_count(batch: &Columns) -> (count: usize)
    ensures
        count == columns_of(*batch).len(),
{
    batch.columns.num_columns()
}

/// An array of a batch, by `RecordBatch::column` and its `to_data`.
#[verifier::external_body]
fn column_data(batch: &Columns, index: usize) -> (column: ArrayData)
    requires
        index < columns_of(*batch).len(),
    ensures
        column == columns_of(*batch)[index as int],
{
    batch.columns.column(index).to_data()
}

/// The arrays in an array, by `ArrayData::child_data`.
#[verifier::external_body]
fn child_data(array: &ArrayData) -> (children: Vec<ArrayData>)
    ensures
        children@ == children_of(*array),
{
    array.child_data().to_vec()
}

/// The number of buffers of an array, by `ArrayData::buffers`.
#[verifier::external_body]
fn buffer_count(array: &ArrayData) -> (count: usize)
    ensures
        count == buffers_of(*array),
{
    array.buffers().len()
}

/// The type of an array, by `ArrayData::data_type`.
#[verifier::external_body]
fn array_kind(array: &ArrayData) -> (kind: ArrayKind)
    ensures
        kind == kind_of(*array),
{
    match array.data_type() {
        ArrowType::Null => ArrayKind::Null,
        ArrowType::Union(_, _) => ArrayKind::Union,
        ArrowType::RunEndEncoded(_, _) => ArrayKind::RunEndEncoded,
        ArrowType::Dictionary(_, _) => ArrayKind::Dictionary,
        ArrowType::BinaryView => ArrayKind::BinaryView,
        ArrowType::Utf8View => ArrayKind::Utf8View,
        _ => ArrayKind::Other,
    }
}

/// The version of the format, by `IpcWriteOptions::try_with_compression`, which accepts compression
/// from the fifth version on.
#[verifier::external_body]
fn is_version_five(options: &IpcWriteOptions) -> (yes: bool)
    ensures
        yes == writes_version_five(*options),
{
    options.clone().try_with_compression(Some(CompressionType::LZ4_FRAME)).is_ok()
}

/// How many entries of sixteen bytes a list in a header can have: a list takes two gigabytes at
/// most.
pub const LIST_ENTRIES: u64 = 0x07ff_ffff;

/// How many units of eight bytes all lists of a header can take: places in a header are counted in
/// four bytes.
pub const HEADER_UNITS: u64 = 0x1fff_ff80;

impl ArrayKind {
    /// Whether the header has an entry for the nulls of an array.
    pub open spec fn lists_nulls(self, version_five: bool) -> bool {
        match self {
            ArrayKind::Null => false,
            ArrayKind::Union | ArrayKind::RunEndEncoded => !version_five,
            _ => true,
        }
    }

    /// Whether the header tells how many buffers an array has.
    pub open spec fn counts_buffers(self) -> bool {
        self is BinaryView || self is Utf8View
    }

    /// The entries of an array among the buffers, besides those for its own ones, and among the
    /// numbers of buffers.
    fn entries(&self, version_five: bool) -> (entries: (u64, u64))
        ensures
            entries.0 == (if self.lists_nulls(version_five) {
                1int
            } else {
                0
            }),
            entries.1 == (if self.counts_buffers() {
                1int
            } else {
                0
            }),
    {
        match self {
            ArrayKind::Null => (0, 0),
            ArrayKind::Union | ArrayKind::RunEndEncoded => if version_five {
                (0, 0)
            } else {
                (1, 0)
            },
            ArrayKind::BinaryView | ArrayKind::Utf8View => (1, 1),
            ArrayKind::Dictionary | ArrayKind::Other => (1, 0),
        }
    }
}

/// How far the headers of the messages of a batch have been measured.
#[verifier::ext_equal]
pub struct HeaderWalk {
    /// The arrays of the current message that are still to be measured.
    pub pending: Seq<ArrayData>,
    /// The values of dictionaries whose messages are still to be measured.
    pub values: Seq<ArrayData>,
    /// Whether the next array is all of the message of a dictionary.
    pub at_values: bool,
    /// The entries for arrays, for buffers and for numbers of buffers of the current message.
    pub arrays: nat,
    pub buffers: nat,
    pub counts: nat,
    /// Whether all headers were short enough so far.
    pub fits: bool,
}

impl HeaderWalk {
    pub open spec fn start(columns: Seq<ArrayData>) -> HeaderWalk {
        HeaderWalk {
            pending: columns,
            values: Seq::empty(),
            at_values: false,
            arrays: 0,
            buffers: 0,
            counts: 0,
            fits: true,
        }
    }

    pub open spec fn is_finished(self) -> bool {
        self.pending.len() == 0 && self.values.len() == 0
    }

    /// Whether the lists of the current message are short enough.
    pub open spec fn lists_fit(self) -> bool {
        &&& self.arrays <= LIST_ENTRIES
        &&& self.buffers <= LIST_ENTRIES
        &&& 2 * self.arrays + 2 * self.buffers + self.counts <= HEADER_UNITS
    }

    /// With the last of the arrays measured: the arrays in it belong to the same message, except for
    /// the values of a dictionary, which have a message of their own. Where these are a dictionary
    /// again, its values are not sent.
    pub open spec fn after_array(self, version_five: bool) -> HeaderWalk {
        let array = self.pending.last();
        let kind = kind_of(array);
        let rest = self.pending.drop_last();
        HeaderWalk {
            pending: if kind is Dictionary {
                rest
            } else {
                rest + children_of(array)
            },
            values: if kind is Dictionary && !self.at_values {
                self.values + children_of(array)
            } else {
                self.values
            },
            at_values: false,
            arrays: self.arrays + 1,
            buffers: self.buffers + buffers_of(array) + if kind.lists_nulls(version_five) {
                1nat
            } else {
                0nat
            },
            counts: self.counts + if kind.counts_buffers() {
                1nat
            } else {
                0nat
            },
            fits: self.fits,
        }
    }

    /// One step further: another array of the current message, or else the next message.
    pub open spec fn step(self, version_five: bool) -> HeaderWalk {
        if self.pending.len() > 0 {
            let next = self.after_array(version_five);
            HeaderWalk { fits: self.fits && next.lists_fit(), ..next }
        } else if self.values.len() > 0 {
            HeaderWalk {
                values: self.values.drop_last(),
                at_values: true,
                fits: self.fits,
                ..HeaderWalk::start(seq![self.values.last()])
            }
        } else {
            self
        }
    }
}

/// How far the headers of a batch have been measured after a number of steps.
pub open spec fn header_walk(
    columns: Seq<ArrayData>,
    version_five: bool,
    steps: nat,
) -> HeaderWalk
    decreases steps,
{
    if steps == 0 {
        HeaderWalk::start(columns)
    } else {
        header_walk(columns, version_five, (steps - 1) as nat).step(version_five)
    }
}

/// Whether the header of each message of a batch can hold the arrays of that message. (The number of
/// steps is larger than that of the arrays of any batch.)
pub open spec fn fits_headers(batch: Columns, options: IpcWriteOptions) -> bool {
    let end = header_walk(columns_of(batch), writes_version_five(options), u64::MAX as nat);
    end.is_finished() && end.fits
}

/// Nothing changes once all is measured, and a header that is too long stays so.
pub proof fn lemma_header_walk_settles(
    columns: Seq<ArrayData>,
    version_five: bool,
    n: nat,
    m: nat,
)
    requires
        n <= m,
    ensures
        ({
            let before = header_walk(columns, version_five, n);
            let after = header_walk(columns, version_five, m);
            &&& before.is_finished() ==> after == before
            &&& !before.fits ==> !after.fits
        }),
    decreases m - n,
{
    if n < m {
        lemma_header_walk_settles(columns, version_five, n, (m - 1) as nat);
    }
}

impl Columns {
    /// Tells whether the header of each message of the batch can hold the arrays of that message.
    pub fn fits_message_headers(&self, options: &IpcWriteOptions) -> (fits: bool)
        ensures
            fits == fits_headers(*self, *options),
    {
        let ghost columns = columns_of(*self);
        let version_five = is_version_five(options);
        let mut left: usize = column_count(self);
        let mut pending: Vec<ArrayData> = Vec::new();
        let mut values: Vec<ArrayData> = Vec::new();
        let mut at_values = false;
        let mut arrays: u64 = 0;
        let mut buffers: u64 = 0;
        let mut counts: u64 = 0;
        let mut steps: u64 = 0;
        assert(columns.take(left as int) + pending@ =~= columns);
        while steps < u64::MAX
            invariant
                columns == columns_of(*self),
                version_five == writes_version_five(*options),
                left <= columns.len(),
                header_walk(columns, version_five, steps as nat) == (HeaderWalk {
                    pending: columns.take(left as int) + pending@,
                    values: values@,
                    at_values,
                    arrays: arrays as nat,
                    buffers: buffers as nat,
                    counts: counts as nat,
                    fits: true,
                }),
                arrays <= LIST_ENTRIES,
                buffers <= LIST_ENTRIES,
                2 * arrays + 2 * buffers + counts <= HEADER_UNITS,
            decreases u64::MAX - steps,
        {
            let ghost before = header_walk(columns, version_five, steps as nat);
            if left > 0 && pending.len() == 0 {
                left = left - 1;
                pending.push(column_data(self, left));
            }
            assert(columns.take(left as int) + pending@ =~= before.pending);
            match pending.pop() {
                Some(array) => {
                    assert(before.pending.last() == array);
                    assert(before.pending.drop_last() =~= columns.take(left as int) + pending@);
                    let kind = array_kind(&array);
                    let (nulls, counted) = kind.entries(version_five);
                    let count: usize = buffer_count(&array);
                    if count as u64 > LIST_ENTRIES || buffers + count as u64 + nulls
                        > LIST_ENTRIES || arrays + 1 > LIST_ENTRIES || 2 * (arrays + 1) + 2 * (
                    buffers + count as u64 + nulls) + counts + counted > HEADER_UNITS {
                        proof {
                            assert(!before.step(version_five).fits);
                            lemma_header_walk_settles(
                                columns,
                                version_five,
                                (steps + 1) as nat,
                                u64::MAX as nat,
                            );
                        }
                        return false;
                    }
                    arrays = arrays + 1;
                    buffers = buffers + count as u64 + nulls;
                    counts = counts + counted;
                    let mut children = child_data(&array);
                    let ghost rest = pending@;
                    match kind {
                        ArrayKind::Dictionary => if !at_values {
                            values.append(&mut children);
                        },
                        _ => {
                            pending.append(&mut children);
                            assert(columns.take(left as int) + pending@ =~= columns.take(
                                left as int,
                            ) + rest + children_of(array));
                        },
                    }
                    at_values = false;
                },
                None => match values.pop() {
                    Some(array) => {
                        pending.push(array);
                        assert(columns.take(left as int) + pending@ =~= seq![array]);
                        at_values = true;
                        arrays = 0;
                        buffers = 0;
                        counts = 0;
                    },
                    None => {
                        proof {
                            lemma_header_walk_settles(
                                columns,
                                version_five,
                                steps as nat,
                                u64::MAX as nat,
                            );
                        }
                        return true;
                    },
                },
            }
            steps = steps + 1;
            assert(header_walk(columns, version_five, steps as nat) =~= (HeaderWalk {
                pending: columns.take(left as int) + pending@,
                values: values@,
                at_values,
                arrays: arrays as nat,
                buffers: buffers as nat,
                counts: counts as nat,
                fits: true,
            }));
        }
        left == 0 && pending.len() == 0 && values.len() == 0
    }
}

}
