//! What the messages of a stream carry, and in which order.
use vstd::prelude::*;

use datafusion::arrow::array::ArrayData;
use datafusion::arrow::ipc::writer::IpcWriteOptions;

use crate::app_metadata::BatchMetadata;
use crate::data_type::Schema;
use crate::header_size::{ArrayKind, Columns};
use crate::memory_footprint::{FlightMessage, MemoryFootPrint};
use crate::multiplexed_flight::{EncodedView, EncoderState, FailureView, InputView, OutputView};

verus! {

/// Reads a number in groups of seven bits, the lowest first, of which all but the last have their
/// upper bit set; and tells how many bytes it takes.
pub open spec fn read_number(bytes: Seq<u8>) -> (nat, nat)
    decreases bytes.len(),
{
    if bytes.len() == 0 {
        (0, 0)
    } else if bytes[0] < 128 {
        (bytes[0] as nat, 1)
    } else {
        let (rest, length) = read_number(bytes.drop_first());
        ((bytes[0] - 128 + 128 * rest) as nat, length + 1)
    }
}

proof fn lemma_numbers_read_back(value: nat, rest: Seq<u8>)
    ensures
        read_number(crate::app_metadata::varint(value) + rest) == (
            value,
            crate::app_metadata::varint(value).len(),
        ),
        crate::app_metadata::varint(value).len() > 0,
    decreases value,
{
    let bytes = crate::app_metadata::varint(value);
    let all = bytes + rest;
    if value < 128 {
        assert(all[0] == value as u8);
    } else {
        lemma_numbers_read_back(value / 128, rest);
        let more = crate::app_metadata::varint(value / 128);
        assert(all[0] == (value % 128 + 128) as u8);
        assert(all.drop_first() =~= more + rest);
    }
}

/// Reads the fields of metadata: the number with tag one is a partition, and the one with tag two a
/// point in time. A field that is missing is zero, and of several with one tag the last counts.
pub open spec fn read_metadata(bytes: Seq<u8>, partition: nat, time: nat) -> (nat, nat)
    decreases bytes.len(),
{
    let (key, key_length) = read_number(bytes);
    let (value, value_length) = read_number(bytes.skip(key_length as int));
    let length = key_length + value_length;
    if bytes.len() == 0 || length == 0 || length > bytes.len() {
        (partition, time)
    } else if key == 8 {
        read_metadata(bytes.skip(length as int), value, time)
    } else if key == 16 {
        read_metadata(bytes.skip(length as int), partition, value)
    } else {
        read_metadata(bytes.skip(length as int), partition, time)
    }
}

proof fn lemma_field_reads_back(tag: u32, value: u64, rest: Seq<u8>, partition: nat, time: nat)
    requires
        tag == 1 || tag == 2,
    ensures
        read_metadata(
            crate::app_metadata::uint64_field(tag, value) + rest,
            partition,
            time,
        ) == if tag == 1 {
            read_metadata(rest, value as nat, time)
        } else {
            read_metadata(rest, partition, value as nat)
        },
{
    let key = crate::app_metadata::varint((tag * 8) as nat);
    let number = crate::app_metadata::varint(value as nat);
    let all = crate::app_metadata::uint64_field(tag, value) + rest;
    assert(all =~= key + (number + rest));
    lemma_numbers_read_back((tag * 8) as nat, number + rest);
    assert(all.skip(key.len() as int) =~= number + rest);
    lemma_numbers_read_back(value as nat, rest);
    let length = key.len() + number.len();
    assert(all.skip(length as int) =~= rest);
}

/// A receiver that reads the metadata of a batch finds the partition and the time that were written.
pub proof fn law_metadata_reads_back(metadata: BatchMetadata)
    ensures
        read_metadata(metadata.encoded(), 0, 0) == (
            metadata.partition as nat,
            metadata.created_timestamp_unix_nanos as nat,
        ),
{
    let (partition, time) = (metadata.partition, metadata.created_timestamp_unix_nanos);
    let nothing = Seq::<u8>::empty();
    assert(read_metadata(nothing, partition as nat, time as nat) == (
        partition as nat,
        time as nat,
    ));
    let second = crate::app_metadata::optional_field(2, time);
    assert(second + nothing =~= second);
    assert(crate::app_metadata::optional_field(1, partition) + second =~= metadata.encoded());
    if time != 0 {
        lemma_field_reads_back(2, time, nothing, partition as nat, 0);
    }
    if partition != 0 {
        lemma_field_reads_back(1, partition, second, 0, 0);
    } else {
        assert(nothing + second =~= second);
    }
}

/// What is encoded of a batch is put behind the messages that are waiting: first its dictionaries,
/// in their order and without metadata, and then the batch itself, with the metadata that reads
/// back as its partition and time. The bytes of the messages are those that were encoded, and the
/// stream goes on.
pub proof fn law_batches_follow_their_dictionaries(
    state: EncoderState,
    batch: Columns,
    metadata: BatchMetadata,
    dictionaries: Seq<EncodedView>,
    encoded: EncodedView,
)
    requires
        crate::header_size::fits_headers(batch, state.options),
        crate::multiplexed_flight::encoded_messages(batch, state.tracker, state.options) == Some(
            (dictionaries, encoded),
        ),
    ensures
        ({
            let input = InputView::Batch { batch, metadata };
            let after = state.after_input(input);
            let (old_length, count) = (state.queue.len(), dictionaries.len());
            let last = after.queue.last();
            &&& state.failure(input) is None
            &&& after.done == state.done
            &&& after.options == state.options
            &&& after.tracker == crate::multiplexed_flight::tracker_after(
                batch,
                state.tracker,
                state.options,
            )
            &&& after.queue.len() == old_length + count + 1
            &&& after.queue.take(old_length as int) == state.queue
            &&& forall|i: int|
                #![trigger dictionaries[i]]
                0 <= i < count ==> {
                    let message = after.queue[old_length + i];
                    &&& message.data_header == dictionaries[i].data_header
                    &&& message.data_body == dictionaries[i].data_body
                    &&& message.app_metadata.len() == 0
                }
            &&& last.data_header == encoded.data_header
            &&& last.data_body == encoded.data_body
            &&& read_metadata(last.app_metadata, 0, 0) == (
                metadata.partition as nat,
                metadata.created_timestamp_unix_nanos as nat,
            )
        }),
{
    law_metadata_reads_back(metadata);
    let after = state.after_input(InputView::Batch { batch, metadata });
    assert(after.queue.take(state.queue.len() as int) =~= state.queue);
}

/// An input that is over, or that failed, ends the stream once all messages that are waiting are
/// sent; a batch that is too large or cannot be encoded ends it at once. Each of the three failures
/// is told, and nothing else is a failure.
pub proof fn law_inputs_end_streams(state: EncoderState, batch: Columns, metadata: BatchMetadata)
    ensures
        state.failure(InputView::Exhausted) is None,
        state.failure(InputView::Failed) == Some(FailureView::Input),
        forall|input: InputView|
            #![trigger state.after_input(input)]
            !(input is Batch) ==> state.after_input(input).done && state.after_input(input).queue
                == state.queue,
        ({
            let input = InputView::Batch { batch, metadata };
            let after = state.after_input(input);
            let fits = crate::header_size::fits_headers(batch, state.options);
            let encoded = crate::multiplexed_flight::encoded_messages(
                batch,
                state.tracker,
                state.options,
            ) is Some;
            &&& !fits ==> state.failure(input) == Some(FailureView::TooLarge)
            &&& fits && !encoded ==> state.failure(input) == Some(FailureView::Encoding)
            &&& fits && encoded ==> state.failure(input) is None
            &&& state.failure(input) is Some ==> after.done && after.queue.len() == 0
        }),
{
}

/// Messages leave in the order in which they wait, one at a time; more input is asked for only where
/// none waits, and not once the input is over.
pub proof fn law_messages_leave_in_order(state: EncoderState)
    ensures
        match state.output() {
            OutputView::Message(message) => {
                &&& state.queue.len() > 0
                &&& state.queue == seq![message] + state.after_output().queue
                &&& state.after_output().done == state.done
            },
            OutputView::NeedsInput => state.queue.len() == 0 && !state.done
                && state.after_output() == state,
            OutputView::End => state.queue.len() == 0 && state.done && state.after_output()
                == state,
        },
{
    if state.queue.len() > 0 {
        assert(state.queue =~= seq![state.queue.first()] + state.queue.drop_first());
    }
}

/// A new stream has one message waiting, that of its schema: the header is that of the schema as it
/// was given, but for the order flags of columns that are no dictionaries, and nothing else comes
/// with it. Its dictionaries are numbered from zero on, and may be replaced.
pub proof fn law_streams_begin_with_the_given_schema(
    state: EncoderState,
    schema: Schema,
    prepared: Schema,
)
    requires
        crate::multiplexed_flight::starts_stream(state, schema, prepared),
        schema.dictionaries() <= i64::MAX,
    ensures
        !state.done,
        state.queue.len() == 1,
        state.queue[0].data_header == crate::schema_message::schema_header(
            schema@.without_idle_flags(),
            state.options,
        ),
        state.queue[0].data_body.len() == 0,
        state.queue[0].app_metadata.len() == 0,
        !crate::flight_schema::errs_on_replacement(state.tracker),
        crate::flight_schema::dict_ids_of(state.tracker).len() == schema.dictionaries(),
        forall|i: int|
            #![trigger crate::flight_schema::dict_ids_of(state.tracker)[i]]
            0 <= i < schema.dictionaries() ==> crate::flight_schema::dict_ids_of(state.tracker)[i]
                == i,
{
    crate::schema_laws::law_preparing_clears_idle_flags_only(&schema, &prepared);
}

/// The memory that a message takes is that of its three parts: none of them is left out, and a
/// message that is longer in any of them by some bytes takes as many bytes more. A failure takes
/// none.
pub proof fn law_every_part_takes_memory(message: FlightMessage, longer: FlightMessage, n: nat)
    requires
        message@.data_header.len() + message@.data_body.len() + message@.app_metadata.len() + n
            <= u128::MAX,
        longer@.data_header.len() + longer@.data_body.len() + longer@.app_metadata.len()
            == message@.data_header.len() + message@.data_body.len() + message@.app_metadata.len()
            + n,
    ensures
        longer.footprint() == message.footprint() + n,
        message@.data_header.len() == 0 && message@.data_body.len() == 0
            && message@.app_metadata.len() == 0 ==> message.footprint() == 0,
        message.footprint() >= message@.data_header.len(),
        message.footprint() >= message@.data_body.len(),
        message.footprint() >= message@.app_metadata.len(),
        crate::memory_footprint::reserved_for(Ok::<FlightMessage, bool>(message))
            == message.footprint(),
        crate::memory_footprint::reserved_for(Err::<FlightMessage, bool>(true)) == 0,
{
}

/// Whether an array is neither made of other arrays nor a dictionary.
pub open spec fn is_plain_array(array: ArrayData) -> bool {
    &&& crate::header_size::children_of(array).len() == 0
    &&& !(crate::header_size::kind_of(array) is Dictionary)
}

/// The entries that arrays have among the buffers of a message: one for each buffer, and one for the
/// nulls, which arrays of nothing but nulls do not have, and neither have unions and runs from the
/// fifth version of the format on.
pub open spec fn buffer_entries(arrays: Seq<ArrayData>, version_five: bool) -> nat
    decreases arrays.len(),
{
    if arrays.len() == 0 {
        0
    } else {
        let kind = crate::header_size::kind_of(arrays[0]);
        let nulls: nat = match kind {
            ArrayKind::Null => 0,
            ArrayKind::Union => if version_five {
                0
            } else {
                1
            },
            ArrayKind::RunEndEncoded => if version_five {
                0
            } else {
                1
            },
            _ => 1,
        };
        crate::header_size::buffers_of(arrays[0]) + nulls + buffer_entries(
            arrays.drop_first(),
            version_five,
        )
    }
}

/// The numbers of buffers that a message tells: one for each array of views.
pub open spec fn view_entries(arrays: Seq<ArrayData>) -> nat
    decreases arrays.len(),
{
    if arrays.len() == 0 {
        0
    } else {
        let kind = crate::header_size::kind_of(arrays[0]);
        view_entries(arrays.drop_first()) + if kind is BinaryView || kind is Utf8View {
            1nat
        } else {
            0nat
        }
    }
}

/// Whether the lists of a header with these arrays stay below two gigabytes each, at sixteen bytes
/// for an array and for a buffer, and below four gigabytes together.
pub open spec fn lists_are_short(arrays: Seq<ArrayData>, version_five: bool) -> bool {
    let (n, b, c) = (arrays.len(), buffer_entries(arrays, version_five), view_entries(arrays));
    &&& n <= 0x07ff_ffff
    &&& b <= 0x07ff_ffff
    &&& 16 * n + 16 * b + 8 * c <= 0xffff_fc00
}

proof fn lemma_plain_walk(columns: Seq<ArrayData>, version_five: bool, k: nat)
    requires
        k <= columns.len(),
        forall|i: int| #![trigger columns[i]] 0 <= i < columns.len() ==> is_plain_array(columns[i]),
    ensures
        ({
            let walk = crate::header_size::header_walk(columns, version_five, k);
            let done = columns.skip(columns.len() - k);
            &&& walk.pending == columns.take(columns.len() - k)
            &&& walk.values.len() == 0
            &&& !walk.at_values
            &&& walk.arrays == k
            &&& walk.buffers == buffer_entries(done, version_five)
            &&& walk.counts == view_entries(done)
            &&& walk.fits == lists_are_short(done, version_five)
        }),
    decreases k,
{
    let n = columns.len();
    let done = columns.skip(n - k);
    if k == 0 {
        assert(columns.take(n as int) =~= columns);
        assert(done =~= Seq::<ArrayData>::empty());
    } else {
        lemma_plain_walk(columns, version_five, (k - 1) as nat);
        let before = crate::header_size::header_walk(columns, version_five, (k - 1) as nat);
        let array = columns[n - k];
        assert(is_plain_array(array));
        assert(before.pending.last() == array);
        assert(before.pending.drop_last() =~= columns.take(n - k));
        assert(done.drop_first() =~= columns.skip(n - k + 1));
        assert(done[0] == array);
        assert(columns.take(n - k) + crate::header_size::children_of(array) =~= columns.take(n - k));
        assert(before.values + Seq::<ArrayData>::empty() =~= before.values);
    }
}

/// A batch of plain columns is sent exactly if the lists of its header are short enough: nothing
/// but the number of its columns and buffers can make it too large.
pub proof fn law_plain_batches_fit(batch: Columns, options: IpcWriteOptions)
    requires
        crate::header_size::columns_of(batch).len() <= u64::MAX,
        forall|i: int|
            #![trigger crate::header_size::columns_of(batch)[i]]
            0 <= i < crate::header_size::columns_of(batch).len() ==> is_plain_array(
                crate::header_size::columns_of(batch)[i],
            ),
    ensures
        crate::header_size::fits_headers(batch, options) <==> lists_are_short(
            crate::header_size::columns_of(batch),
            crate::header_size::writes_version_five(options),
        ),
{
    let columns = crate::header_size::columns_of(batch);
    let version_five = crate::header_size::writes_version_five(options);
    let n = columns.len();
    lemma_plain_walk(columns, version_five, n);
    assert(columns.skip(0) =~= columns);
    crate::header_size::lemma_header_walk_settles(columns, version_five, n, u64::MAX as nat);
}

/// Metadata tells the partition before the time, each behind its key, and leaves out what is zero.
pub proof fn law_metadata_leaves_out_zeros(metadata: BatchMetadata)
    ensures
        ({
            let bytes = metadata.encoded();
            let (partition, time) = (metadata.partition, metadata.created_timestamp_unix_nanos);
            &&& partition == 0 && time == 0 ==> bytes.len() == 0
            &&& partition > 0 ==> bytes.len() > 1 && bytes[0] == 8 && read_number(
                bytes.drop_first(),
            ).0 == partition
            &&& partition == 0 && time > 0 ==> bytes.len() > 1 && bytes[0] == 16 && read_number(
                bytes.drop_first(),
            ) == (time as nat, (bytes.len() - 1) as nat)
        }),
{
    let bytes = metadata.encoded();
    let (partition, time) = (metadata.partition, metadata.created_timestamp_unix_nanos);
    let second = crate::app_metadata::optional_field(2, time);
    let nothing = Seq::<u8>::empty();
    if partition > 0 {
        let number = crate::app_metadata::varint(partition as nat);
        lemma_numbers_read_back(partition as nat, second);
        assert(bytes =~= seq![8u8] + (number + second));
        assert(bytes.drop_first() =~= number + second);
    } else if time > 0 {
        let number = crate::app_metadata::varint(time as nat);
        lemma_numbers_read_back(time as nat, nothing);
        assert(bytes =~= seq![16u8] + (number + nothing));
        assert(bytes.drop_first() =~= number + nothing);
    }
}

/// The values of a dictionary are sent in a message of their own: a batch of one dictionary of plain
/// values fits exactly if the dictionary alone and its values alone do.
pub proof fn law_dictionaries_have_messages_of_their_own(
    batch: Columns,
    options: IpcWriteOptions,
    dictionary: ArrayData,
    values: ArrayData,
)
    requires
        crate::header_size::columns_of(batch) == seq![dictionary],
        crate::header_size::kind_of(dictionary) is Dictionary,
        crate::header_size::children_of(dictionary) == seq![values],
        is_plain_array(values),
    ensures
        crate::header_size::fits_headers(batch, options) <==> lists_are_short(
            seq![dictionary],
            crate::header_size::writes_version_five(options),
        ) && lists_are_short(seq![values], crate::header_size::writes_version_five(options)),
{
    let columns = crate::header_size::columns_of(batch);
    let version_five = crate::header_size::writes_version_five(options);
    lemma_one_array(dictionary, version_five);
    lemma_one_array(values, version_five);
    let start = crate::header_size::header_walk(columns, version_five, 0);
    let first = crate::header_size::header_walk(columns, version_five, 1);
    let second = crate::header_size::header_walk(columns, version_five, 2);
    let third = crate::header_size::header_walk(columns, version_five, 3);
    assert(start.pending.last() == dictionary);
    assert(first == start.step(version_five));
    assert(first.pending =~= Seq::<ArrayData>::empty());
    assert(first.values =~= seq![values]);
    assert(first.fits == lists_are_short(seq![dictionary], version_five));
    assert(second == first.step(version_five));
    assert(second.pending =~= seq![values]);
    assert(second.values =~= Seq::<ArrayData>::empty());
    assert(third == second.step(version_five));
    assert(second.pending.last() == values);
    assert(third.pending =~= Seq::<ArrayData>::empty());
    assert(third.values =~= Seq::<ArrayData>::empty());
    crate::header_size::lemma_header_walk_settles(columns, version_five, 3, u64::MAX as nat);
}

proof fn lemma_one_array(array: ArrayData, version_five: bool)
    ensures
        ({
            let kind = crate::header_size::kind_of(array);
            &&& buffer_entries(seq![array], version_five) == crate::header_size::buffers_of(array)
                + if kind.lists_nulls(version_five) {
                1nat
            } else {
                0nat
            }
            &&& view_entries(seq![array]) == if kind.counts_buffers() {
                1nat
            } else {
                0nat
            }
        }),
{
    let one = seq![array];
    assert(one.drop_first() =~= Seq::<ArrayData>::empty());
    assert(buffer_entries(one.drop_first(), version_five) == 0);
    assert(view_entries(one.drop_first()) == 0);
}

/// The columns of a struct are listed with it: a batch of one array that is made of a plain one and
/// is no dictionary fits exactly if the lists of both together are short enough.
pub proof fn law_parts_are_listed_with_their_array(
    batch: Columns,
    options: IpcWriteOptions,
    whole: ArrayData,
    part: ArrayData,
)
    requires
        crate::header_size::columns_of(batch) == seq![whole],
        !(crate::header_size::kind_of(whole) is Dictionary),
        crate::header_size::children_of(whole) == seq![part],
        is_plain_array(part),
    ensures
        crate::header_size::fits_headers(batch, options) <==> lists_are_short(
            seq![part, whole],
            crate::header_size::writes_version_five(options),
        ),
{
    let columns = crate::header_size::columns_of(batch);
    let version_five = crate::header_size::writes_version_five(options);
    lemma_one_array(whole, version_five);
    lemma_one_array(part, version_five);
    let both = seq![part, whole];
    assert(both.drop_first() =~= seq![whole]);
    assert(seq![part].drop_first() =~= Seq::<ArrayData>::empty());
    assert(both[0] == part && seq![part][0] == part);
    let start = crate::header_size::header_walk(columns, version_five, 0);
    let first = crate::header_size::header_walk(columns, version_five, 1);
    let second = crate::header_size::header_walk(columns, version_five, 2);
    assert(start.pending.last() == whole);
    assert(first == start.step(version_five));
    assert(first.pending =~= seq![part]);
    assert(first.values =~= Seq::<ArrayData>::empty());
    assert(second == first.step(version_five));
    assert(first.pending.last() == part);
    assert(second.pending =~= Seq::<ArrayData>::empty());
    assert(second.values =~= Seq::<ArrayData>::empty());
    crate::header_size::lemma_header_walk_settles(columns, version_five, 2, u64::MAX as nat);
}

}
