use std::sync::Arc;

use arrow_flight::decode::FlightRecordBatchStream;
use arrow_flight::{FlightData, SchemaAsIpc};
use datafusion::arrow::array::{
    ArrayRef, DictionaryArray, Int32Array, NullArray, RecordBatch, StringViewArray,
};
use datafusion::arrow::buffer::{Buffer, ScalarBuffer};
use datafusion::arrow::datatypes as arrow;
use datafusion::arrow::datatypes::Int32Type;
use datafusion::arrow::ipc::writer::IpcWriteOptions;
use datafusion::arrow::ipc::MetadataVersion;
use futures::TryStreamExt;

use datafusion_distributed::app_metadata::BatchMetadata;
use datafusion_distributed::data_type::{
    DataType, Field, IntervalUnit, Schema, TimeUnit, UnionMode,
};
use datafusion_distributed::flight_schema::{prepare_field_for_flight, prepare_stream_schema};
use datafusion_distributed::header_size::Columns;
use datafusion_distributed::memory_footprint::{
    reservation_size, FlightMessage, MemoryFootPrint,
};
use datafusion_distributed::multiplexed_flight::{
    EncodedMessage, EncoderFailure, EncoderInput, EncoderOutput,
    MultiplexedFlightDataEncoder,
};
use datafusion_distributed::schema_message::schema_message;

fn field(name: &str, data_type: DataType) -> Arc<Field> {
    Arc::new(Field {
        name: Arc::new(name.to_string()),
        data_type,
        nullable: true,
        dict_is_ordered: true,
        metadata: Arc::new(vec![("key".to_string(), name.to_string())]),
    })
}

fn dictionary() -> DataType {
    DataType::Dictionary(Arc::new(DataType::Int32), Arc::new(DataType::Utf8))
}

fn nested_dictionary() -> DataType {
    DataType::Dictionary(
        Arc::new(DataType::Int32),
        Arc::new(DataType::List(field("item", dictionary()))),
    )
}

#[test]
fn every_dictionary_gets_an_id() {
    let schema = Schema {
        fields: vec![
            field("plain", DataType::Timestamp(TimeUnit::Second, None)),
            field("one", dictionary()),
            field("two", nested_dictionary()),
            field("three", DataType::Struct(vec![
                field("a", DataType::LargeList(field("item", dictionary()))),
                field("b", DataType::Float64),
            ])),
            field("four", DataType::Union(
                vec![(3, field("x", dictionary())), (5, field("y", DataType::Int8))],
                UnionMode::Dense,
            )),
            field("five", DataType::RunEndEncoded(
                field("ends", dictionary()),
                field("values", dictionary()),
            )),
            field("six", DataType::MapType(field("entries", dictionary()), true)),
            field("seven", DataType::FixedSizeList(field("item", dictionary()), 4)),
            field("eight", DataType::ListView(field("item", dictionary()))),
            field("nine", DataType::LargeListView(field("item", dictionary()))),
        ],
        metadata: Arc::new(vec![("schema".to_string(), "kept".to_string())]),
    };
    let (prepared, mut tracker) = prepare_stream_schema(&schema);
    // The ends of runs are not searched, and the values of a dictionary are.
    assert_eq!(tracker.dict_id(), &[0, 1, 2, 3, 4, 5, 6, 7, 8, 9]);
    assert_eq!(prepared.metadata, schema.metadata);
    assert!(schema.is_sendable());
    assert!(prepared.is_sendable());
    assert_eq!(prepared.fields.len(), schema.fields.len());
    for (before, after) in schema.fields.iter().zip(&prepared.fields) {
        assert_eq!(before.name, after.name);
        assert_eq!(before.metadata, after.metadata);
        assert!(after.nullable);
    }
    assert!(!prepared.fields[0].dict_is_ordered);
    assert!(prepared.fields[1].dict_is_ordered);
    assert_eq!(prepared.fields[2].data_type, nested_dictionary());
    match &prepared.fields[4].data_type {
        DataType::Union(members, UnionMode::Dense) => {
            assert_eq!(members[0].0, 3);
            assert!(members[0].1.dict_is_ordered);
            assert_eq!(members[1].0, 5);
            assert!(!members[1].1.dict_is_ordered);
        }
        other => panic!("not a union: {other:?}"),
    }
    match &prepared.fields[5].data_type {
        DataType::RunEndEncoded(ends, values) => {
            assert!(ends.dict_is_ordered);
            assert!(values.dict_is_ordered);
        }
        other => panic!("not run-end encoded: {other:?}"),
    }
}

#[test]
fn ids_count_on_within_a_stream() {
    let schema = Schema {
        fields: vec![field("one", dictionary())],
        metadata: Arc::new(vec![]),
    };
    let (_, mut tracker) = prepare_stream_schema(&schema);
    let prepared = prepare_field_for_flight(&field("two", nested_dictionary()), &mut tracker);
    assert_eq!(tracker.dict_id(), &[0, 1, 2]);
    assert_eq!(prepared.data_type, nested_dictionary());
    assert_eq!(*prepared.name, "two");
}

fn flight_data(message: FlightMessage) -> FlightData {
    FlightData {
        data_header: message.data_header.into(),
        data_body: message.data_body.into(),
        app_metadata: message.app_metadata.into(),
        ..Default::default()
    }
}

fn column(name: &str, data_type: DataType) -> Arc<Field> {
    Arc::new(Field {
        name: Arc::new(name.to_string()),
        data_type,
        nullable: true,
        dict_is_ordered: false,
        metadata: Arc::new(vec![]),
    })
}

fn schema(fields: Vec<Arc<Field>>) -> Schema {
    Schema {
        fields,
        metadata: Arc::new(vec![]),
    }
}

/// The schema that a decoder reads from the message of a schema of one column of each type.
fn read_types(types: Vec<DataType>) -> Vec<arrow::DataType> {
    let fields = types
        .into_iter()
        .map(|data_type| column("c", data_type))
        .collect();
    let message = schema_message(&schema(fields), &IpcWriteOptions::default());
    assert!(message.data_body.is_empty());
    assert!(message.app_metadata.is_empty());
    let read = arrow::Schema::try_from(&flight_data(message)).unwrap();
    read.fields()
        .iter()
        .map(|field| field.data_type().clone())
        .collect()
}

#[test]
fn schema_messages_hold_every_simple_type() {
    let types = read_types(vec![
        DataType::Null,
        DataType::Boolean,
        DataType::Int8,
        DataType::Int16,
        DataType::Int32,
        DataType::Int64,
        DataType::UInt8,
        DataType::UInt16,
        DataType::UInt32,
        DataType::UInt64,
        DataType::Float16,
        DataType::Float32,
        DataType::Float64,
        DataType::Date32,
        DataType::Date64,
        DataType::Time32(TimeUnit::Second),
        DataType::Time32(TimeUnit::Millisecond),
        DataType::Time64(TimeUnit::Microsecond),
        DataType::Time64(TimeUnit::Nanosecond),
        DataType::Duration(TimeUnit::Second),
        DataType::Interval(IntervalUnit::YearMonth),
        DataType::Interval(IntervalUnit::DayTime),
        DataType::Interval(IntervalUnit::MonthDayNano),
        DataType::Timestamp(TimeUnit::Second, None),
        DataType::Timestamp(TimeUnit::Nanosecond, Some(Arc::new("Europe/Paris".to_string()))),
        DataType::Binary,
        DataType::FixedSizeBinary(7),
        DataType::LargeBinary,
        DataType::BinaryView,
        DataType::Utf8,
        DataType::LargeUtf8,
        DataType::Utf8View,
        DataType::Decimal32(9, 2),
        DataType::Decimal64(18, -3),
        DataType::Decimal128(38, 4),
        DataType::Decimal256(76, 5),
    ]);
    assert_eq!(
        types,
        vec![
            arrow::DataType::Null,
            arrow::DataType::Boolean,
            arrow::DataType::Int8,
            arrow::DataType::Int16,
            arrow::DataType::Int32,
            arrow::DataType::Int64,
            arrow::DataType::UInt8,
            arrow::DataType::UInt16,
            arrow::DataType::UInt32,
            arrow::DataType::UInt64,
            arrow::DataType::Float16,
            arrow::DataType::Float32,
            arrow::DataType::Float64,
            arrow::DataType::Date32,
            arrow::DataType::Date64,
            arrow::DataType::Time32(arrow::TimeUnit::Second),
            arrow::DataType::Time32(arrow::TimeUnit::Millisecond),
            arrow::DataType::Time64(arrow::TimeUnit::Microsecond),
            arrow::DataType::Time64(arrow::TimeUnit::Nanosecond),
            arrow::DataType::Duration(arrow::TimeUnit::Second),
            arrow::DataType::Interval(arrow::IntervalUnit::YearMonth),
            arrow::DataType::Interval(arrow::IntervalUnit::DayTime),
            arrow::DataType::Interval(arrow::IntervalUnit::MonthDayNano),
            arrow::DataType::Timestamp(arrow::TimeUnit::Second, None),
            arrow::DataType::Timestamp(arrow::TimeUnit::Nanosecond, Some("Europe/Paris".into())),
            arrow::DataType::Binary,
            arrow::DataType::FixedSizeBinary(7),
            arrow::DataType::LargeBinary,
            arrow::DataType::BinaryView,
            arrow::DataType::Utf8,
            arrow::DataType::LargeUtf8,
            arrow::DataType::Utf8View,
            arrow::DataType::Decimal32(9, 2),
            arrow::DataType::Decimal64(18, -3),
            arrow::DataType::Decimal128(38, 4),
            arrow::DataType::Decimal256(76, 5),
        ]
    );
}

#[test]
fn schema_messages_hold_nested_types() {
    let types = read_types(vec![
        DataType::List(column("item", DataType::Int8)),
        DataType::ListView(column("item", DataType::Int16)),
        DataType::FixedSizeList(column("item", DataType::Int32), 4),
        DataType::LargeList(column("item", DataType::Int64)),
        DataType::LargeListView(column("item", DataType::UInt8)),
        DataType::MapType(
            column(
                "entries",
                DataType::Struct(vec![
                    column("keys", DataType::Utf8),
                    column("values", DataType::Binary),
                ]),
            ),
            true,
        ),
        DataType::Union(
            vec![
                (3, column("x", DataType::Utf8)),
                (0, column("y", DataType::Int8)),
            ],
            UnionMode::Dense,
        ),
        DataType::Dictionary(Arc::new(DataType::UInt16), Arc::new(DataType::LargeUtf8)),
        DataType::RunEndEncoded(
            column("ends", DataType::Int32),
            column("values", DataType::Utf8),
        ),
    ]);
    let item = |data_type| Arc::new(arrow::Field::new("item", data_type, true));
    let named = |name: &str, data_type| Arc::new(arrow::Field::new(name, data_type, true));
    let entries = vec![
        named("keys", arrow::DataType::Utf8),
        named("values", arrow::DataType::Binary),
    ];
    assert_eq!(
        types,
        vec![
            arrow::DataType::List(item(arrow::DataType::Int8)),
            arrow::DataType::ListView(item(arrow::DataType::Int16)),
            arrow::DataType::FixedSizeList(item(arrow::DataType::Int32), 4),
            arrow::DataType::LargeList(item(arrow::DataType::Int64)),
            arrow::DataType::LargeListView(item(arrow::DataType::UInt8)),
            arrow::DataType::Map(
                named("entries", arrow::DataType::Struct(entries.into())),
                true
            ),
            arrow::DataType::Union(
                arrow::UnionFields::try_new(
                    [3, 0],
                    [
                        named("x", arrow::DataType::Utf8),
                        named("y", arrow::DataType::Int8),
                    ],
                )
                .unwrap(),
                arrow::UnionMode::Dense,
            ),
            arrow::DataType::Dictionary(
                Box::new(arrow::DataType::UInt16),
                Box::new(arrow::DataType::LargeUtf8),
            ),
            arrow::DataType::RunEndEncoded(
                named("ends", arrow::DataType::Int32),
                named("values", arrow::DataType::Utf8),
            ),
        ]
    );
}

#[test]
fn schema_messages_hold_names_and_metadata() {
    let mut fields = vec![field("one", dictionary()), column("two", DataType::Utf8)];
    fields.push(Arc::new(Field {
        name: Arc::new("three".to_string()),
        data_type: DataType::Int8,
        nullable: false,
        dict_is_ordered: false,
        metadata: Arc::new(vec![]),
    }));
    let schema = Schema {
        fields,
        metadata: Arc::new(vec![
            ("b".to_string(), "first".to_string()),
            ("a".to_string(), "other".to_string()),
            ("b".to_string(), "last".to_string()),
        ]),
    };
    let options = IpcWriteOptions::default();
    let message = schema_message(&schema, &options);
    let read = arrow::Schema::try_from(&flight_data(message)).unwrap();
    assert_eq!(read.metadata().len(), 2);
    assert_eq!(read.metadata()["a"], "other");
    assert_eq!(read.metadata()["b"], "last");
    assert_eq!(read.field(0).name(), "one");
    assert_eq!(read.field(0).metadata()["key"], "one");
    assert_eq!(read.field(0).dict_is_ordered(), Some(true));
    assert!(read.field(1).is_nullable());
    assert!(read.field(1).metadata().is_empty());
    assert_eq!(read.field(2).name(), "three");
    assert!(!read.field(2).is_nullable());
}

#[test]
fn unions_are_sent_if_their_members_can_be_told_apart() {
    let union = |ids: Vec<i8>| {
        let members = ids
            .into_iter()
            .map(|id| (id, column("m", DataType::Int8)))
            .collect();
        let union = DataType::Union(members, UnionMode::Sparse);
        schema(vec![column("u", DataType::List(column("item", union)))])
    };
    assert!(union(vec![]).is_sendable());
    assert!(union(vec![0, 127, 5]).is_sendable());
    assert!(!union(vec![0, 5, 0]).is_sendable());
    assert!(!union(vec![-1]).is_sendable());
}

#[test]
fn schemas_are_sent_if_they_fit_into_a_message() {
    let long = column(&"n".repeat(4_194_304), DataType::Int8);
    assert!(schema(vec![Arc::clone(&long); 127]).is_sendable());
    assert!(!schema(vec![long; 128]).is_sendable());
}

/// The schema message of a stream with as many dictionaries.
fn start(dictionaries: usize) -> FlightMessage {
    let fields = (0..dictionaries).map(|_| field("d", dictionary())).collect();
    schema_message(&schema(fields), &IpcWriteOptions::default())
}

fn encoder(dictionaries: usize) -> MultiplexedFlightDataEncoder {
    let fields = (0..dictionaries).map(|_| field("d", dictionary())).collect();
    MultiplexedFlightDataEncoder::new(&schema(fields), IpcWriteOptions::default())
}

fn batch(words: &[&str]) -> RecordBatch {
    let words: DictionaryArray<Int32Type> = words.iter().copied().collect();
    RecordBatch::try_from_iter(vec![("d", Arc::new(words) as ArrayRef)]).unwrap()
}

fn metadata(partition: u64, created_timestamp_unix_nanos: u64) -> BatchMetadata {
    BatchMetadata {
        partition,
        created_timestamp_unix_nanos,
    }
}

fn input(batch: &RecordBatch, partition: u64) -> EncoderInput {
    EncoderInput::Batch {
        batch: Columns {
            columns: batch.clone(),
        },
        metadata: metadata(partition, 1),
    }
}

#[test]
fn batch_metadata_is_read_back() {
    assert!(metadata(0, 0).encode_to_vec().is_empty());
    assert_eq!(metadata(1, 0).encode_to_vec(), vec![8, 1]);
    assert_eq!(metadata(0, 127).encode_to_vec(), vec![16, 127]);
    assert_eq!(metadata(300, 128).encode_to_vec(), vec![8, 172, 2, 16, 128, 1]);
    assert_eq!(
        metadata(u64::MAX, 0).encode_to_vec(),
        vec![8, 255, 255, 255, 255, 255, 255, 255, 255, 255, 1]
    );
    for partition in [0, 1, 127, 128, 300, u64::MAX] {
        // A reader of one number finds it in the first field, and skips the others.
        let encoded = metadata(partition, 1_700_000_000_000_000_000).encode_to_vec();
        assert_eq!(<u64 as prost::Message>::decode(encoded.as_slice()), Ok(partition));
    }
}

/// What is sent until the next input is needed.
fn waiting(encoder: &mut MultiplexedFlightDataEncoder) -> Vec<FlightMessage> {
    let mut messages = vec![];
    while let EncoderOutput::Message(message) = encoder.poll_next() {
        messages.push(message);
    }
    messages
}

#[test]
fn streams_start_with_the_schema_and_mark_batches_only() {
    let mut encoder = encoder(1);
    assert_eq!(waiting(&mut encoder), vec![start(1)]);
    assert_eq!(encoder.poll_next(), EncoderOutput::NeedsInput);

    let first = batch(&["a", "b", "a"]);
    assert!(encoder.on_input(input(&first, 9)).is_ok());
    let messages = waiting(&mut encoder);
    assert_eq!(messages.len(), 2);
    assert!(messages[0].app_metadata.is_empty());
    assert!(!messages[0].data_body.is_empty());
    assert_eq!(messages[1].app_metadata, vec![8, 9, 16, 1]);

    // The dictionary is known by now.
    assert!(encoder.on_input(input(&first, 7)).is_ok());
    let messages = waiting(&mut encoder);
    assert_eq!(messages.len(), 1);
    assert_eq!(messages[0].app_metadata, vec![8, 7, 16, 1]);

    assert!(encoder.on_input(input(&batch(&["c"]), 8)).is_ok());
    assert_eq!(waiting(&mut encoder).len(), 2);

    assert_eq!(encoder.poll_next(), EncoderOutput::NeedsInput);
    assert!(encoder.on_input(EncoderInput::Exhausted).is_ok());
    assert_eq!(encoder.poll_next(), EncoderOutput::End);
    assert_eq!(encoder.poll_next(), EncoderOutput::End);
    assert_eq!(encoder.dictionary_tracker.dict_id(), &[0]);
}

#[test]
fn streams_without_batches_consist_of_the_schema() {
    let mut empty = encoder(2);
    assert!(empty.on_input(EncoderInput::Exhausted).is_ok());
    assert_eq!(waiting(&mut empty), vec![start(2)]);
    assert_eq!(empty.poll_next(), EncoderOutput::End);
}

#[test]
fn schemas_are_prepared_before_they_are_sent() {
    // The order of a dictionary is kept, that of anything else is not told.
    let fields = vec![
        field("d", dictionary()),
        field("l", DataType::List(field("item", dictionary()))),
        field("i", DataType::Int8),
    ];
    let mut encoder = MultiplexedFlightDataEncoder::new(&schema(fields), IpcWriteOptions::default());
    assert_eq!(encoder.dictionary_tracker.dict_id(), &[0, 1]);
    let mut messages = waiting(&mut encoder);
    let message = messages.pop().unwrap();
    assert!(messages.is_empty());
    let named = |name: &str, data_type| {
        arrow::Field::new(name, data_type, true)
            .with_metadata([("key".to_string(), name.to_string())].into())
    };
    let words = arrow::DataType::Dictionary(
        Box::new(arrow::DataType::Int32),
        Box::new(arrow::DataType::Utf8),
    );
    let ordered = |name: &str| named(name, words.clone()).with_dict_is_ordered(true);
    let expected = arrow::Schema::new(vec![
        ordered("d"),
        named("l", arrow::DataType::List(Arc::new(ordered("item")))),
        named("i", arrow::DataType::Int8),
    ]);
    let options = IpcWriteOptions::default();
    let expected: FlightData = SchemaAsIpc::new(&expected, &options).into();
    assert_eq!(flight_data(message), expected);
}

#[test]
fn one_decoder_reads_the_batches_of_all_partitions() {
    let batches = vec![batch(&["a", "b"]), batch(&["c", "a", "c"]), batch(&["c"])];
    let words = Arc::new(Field {
        name: Arc::new("d".to_string()),
        data_type: dictionary(),
        nullable: false,
        dict_is_ordered: false,
        metadata: Arc::new(vec![]),
    });
    let mut encoder =
        MultiplexedFlightDataEncoder::new(&schema(vec![words]), IpcWriteOptions::default());
    let mut stream = waiting(&mut encoder);
    let mut marks = vec![];
    for (partition, batch) in batches.iter().enumerate() {
        assert!(encoder.on_input(input(batch, partition as u64)).is_ok());
        let messages = waiting(&mut encoder);
        marks.extend(messages.iter().map(|message| message.app_metadata.to_vec()));
        stream.extend(messages);
    }
    // Every batch brings other words than the one before it.
    assert_eq!(marks, vec![vec![], vec![16, 1], vec![], vec![8, 1, 16, 1], vec![], vec![8, 2, 16, 1]]);
    let messages = futures::stream::iter(stream.into_iter().map(|message| Ok(flight_data(message))));
    let decoder = FlightRecordBatchStream::new_from_flight_data(messages);
    let decoded: Vec<RecordBatch> = futures::executor::block_on(decoder.try_collect()).unwrap();
    assert_eq!(decoded, batches);
}

#[test]
fn batches_of_too_many_arrays_end_the_stream() {
    let buffers = vec![Buffer::from_vec(vec![0u8]); 1_000_000];
    let views = StringViewArray::try_new(ScalarBuffer::from(vec![]), buffers, None).unwrap();
    let views: ArrayRef = Arc::new(views);
    let columns = |count: usize| {
        let columns = (0..count).map(|i| (format!("c{i}"), Arc::clone(&views)));
        Columns {
            columns: RecordBatch::try_from_iter(columns).unwrap(),
        }
    };
    let options = IpcWriteOptions::default();
    assert!(columns(134).fits_message_headers(&options));
    assert!(!columns(135).fits_message_headers(&options));

    let mut large = encoder(0);
    let input = EncoderInput::Batch {
        batch: columns(135),
        metadata: metadata(1, 1),
    };
    assert!(matches!(large.on_input(input), Err(EncoderFailure::TooLarge)));
    assert_eq!(large.poll_next(), EncoderOutput::End);
    assert_eq!(large.poll_next(), EncoderOutput::End);
}

#[test]
fn ordinary_batches_fit_into_headers() {
    let numbers: ArrayRef = Arc::new(Int32Array::from(vec![1, 2]));
    let nulls: ArrayRef = Arc::new(NullArray::new(2));
    let values: DictionaryArray<Int32Type> = vec!["a", "b"].into_iter().collect();
    let nested: DictionaryArray<Int32Type> =
        DictionaryArray::try_new(Int32Array::from(vec![0, 1]), Arc::new(values)).unwrap();
    let mixed = RecordBatch::try_from_iter(vec![
        ("numbers", numbers),
        ("nulls", nulls),
        ("nested", Arc::new(nested) as ArrayRef),
    ])
    .unwrap();
    let empty = RecordBatch::new_empty(Arc::new(arrow::Schema::empty()));
    let older = IpcWriteOptions::try_new(8, false, MetadataVersion::V4).unwrap();
    for batch in [mixed, empty, batch(&["a"])] {
        let columns = Columns { columns: batch };
        assert!(columns.fits_message_headers(&IpcWriteOptions::default()));
        assert!(columns.fits_message_headers(&older));
    }
}

#[test]
fn failures_end_the_stream() {
    let mut failing = encoder(1);
    assert!(matches!(
        failing.on_input(EncoderInput::Failed),
        Err(EncoderFailure::Input)
    ));
    assert_eq!(waiting(&mut failing), vec![start(1)]);
    assert_eq!(failing.poll_next(), EncoderOutput::End);

    // Without an id for its dictionary a batch cannot be encoded.
    let mut failing = encoder(0);
    match failing.encode_batch(
        &Columns {
            columns: batch(&["a"]),
        },
        metadata(0, 1),
    ) {
        Err(EncoderFailure::Encoding(error)) => {
            assert!(error.to_string().contains("no dict id for field"))
        }
        other => panic!("the batch should be refused: {other:?}"),
    }
    assert_eq!(failing.poll_next(), EncoderOutput::End);
}

#[test]
fn encoded_messages_wait_behind_their_dictionaries() {
    let encoded = |header: u8| EncodedMessage {
        data_header: vec![header],
        data_body: vec![header + 10],
    };
    let message = |header: u8, app_metadata: Vec<u8>| FlightMessage {
        data_header: vec![header],
        data_body: vec![header + 10],
        app_metadata,
    };
    let mut encoder = encoder(0);
    let taken = encoder.take_encoded(Ok((vec![encoded(1), encoded(2)].into(), encoded(3))), vec![5]);
    assert!(taken.is_ok());
    assert_eq!(
        waiting(&mut encoder),
        vec![start(0), message(1, vec![]), message(2, vec![]), message(3, vec![5])]
    );
    assert_eq!(encoded(4).with_app_metadata(vec![6]), message(4, vec![6]));
}

#[test]
fn messages_take_the_memory_of_their_parts() {
    let message = FlightMessage {
        data_header: vec![0; 2],
        data_body: vec![0; 30],
        app_metadata: vec![0; 5],
    };
    assert_eq!(message.get_memory_size(), 37);
    assert_eq!(reservation_size(&Ok::<_, String>(message)), 37);
    let failed: Result<FlightMessage, String> = Err("broken".to_string());
    assert_eq!(reservation_size(&failed), 0);
}
