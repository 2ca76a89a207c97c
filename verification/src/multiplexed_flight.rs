//! Encodes the batches of several partitions into one stream of messages.
//!
//! All partitions share one schema message and one set of dictionaries. Only record batches are
//! marked with the partition they belong to; schema and dictionary messages are meant for the one
//! decoder on the receiving side.
use std::collections::VecDeque;
use vstd::prelude::*;

use datafusion::arrow::error::ArrowError;
use datafusion::arrow::ipc::writer::{
    DictionaryTracker, EncodedData, IpcDataGenerator, IpcWriteOptions,
};

use crate::app_metadata::BatchMetadata;
use crate::data_type::Schema;
use crate::flight_schema::prepare_stream_schema;
use crate::header_size::Columns;
use crate::memory_footprint::{FlightMessage, MessageView};
use crate::schema_message::schema_message;

verus! {

/// The error of the arrow crates.
#[verifier::external_type_specification]
#[verifier::external_body]
pub struct ExArrowError(ArrowError);

/// A message as it is encoded, before any metadata is attached.
#[derive(Debug, PartialEq, Eq)]
pub struct EncodedMessage {
    pub data_header: Vec<u8>,
    pub data_body: Vec<u8>,
}

/// What an [`EncodedMessage`] amounts to.
#[verifier::ext_equal]
pub struct EncodedView {
    pub data_header: Seq<u8>,
    pub data_body: Seq<u8>,
}

impl View for EncodedMessage {
    type V = EncodedView;

    open spec fn view(&self) -> EncodedView {
        EncodedView { data_header: self.data_header@, data_body: self.data_body@ }
    }
}

impl EncodedView {
    /// The message with metadata.
    pub open spec fn marked(self, app_metadata: Seq<u8>) -> MessageView {
        MessageView { data_header: self.data_header, data_body: self.data_body, app_metadata }
    }

    /// The message without metadata.
    pub open spec fn unmarked(self) -> MessageView {
        self.marked(Seq::empty())
    }
}

impl EncodedMessage {
    /// Attaches metadata to a message.
    pub fn with_app_metadata(self, app_metadata: Vec<u8>) -> (message: FlightMessage)
        ensures
            message@ == self@.marked(app_metadata@),
    {
        FlightMessage { data_header: self.data_header, data_body: self.data_body, app_metadata }
    }
}

/// The messages that `IpcDataGenerator::encode` makes of a batch: the dictionaries that the
/// tracker has not seen yet, and the batch itself; or nothing, where the batch cannot be encoded.
pub uninterp spec fn encoded_messages(
    batch: Columns,
    tracker: DictionaryTracker,
    options: IpcWriteOptions,
) -> Option<(Seq<EncodedView>, EncodedView)>;

/// The tracker that `IpcDataGenerator::encode` leaves behind, which has seen the dictionaries of
/// the batch.
pub uninterp spec fn tracker_after(
    batch: Columns,
    tracker: DictionaryTracker,
    options: IpcWriteOptions,
) -> DictionaryTracker;

/// Whether an error is one that `IpcDataGenerator::encode` reports of a batch. There is more than
/// one, since its text may list the metadata of columns, in any order.
pub uninterp spec fn reports(
    batch: Columns,
    tracker: DictionaryTracker,
    options: IpcWriteOptions,
    error: ArrowError,
) -> bool;

/// The views of encoded messages.
pub open spec fn encoded_views(encoded: Seq<EncodedMessage>) -> Seq<EncodedView> {
    encoded.map_values(|message: EncodedMessage| message@)
}

/// The outcome of an encoding, by its views.
pub open spec fn encoding_view(
    encoded: Result<(VecDeque<EncodedMessage>, EncodedMessage), ArrowError>,
) -> Option<(Seq<EncodedView>, EncodedView)> {
    match encoded {
        Ok((dictionaries, batch)) => Some((encoded_views(dictionaries@), batch@)),
        Err(_) => None,
    }
}

/// Encodes a batch, by `IpcDataGenerator::encode`. What it makes of the batch and of the tracker
/// depends on the batch, on the tracker and on the options alone, and so does whether it fails. The
/// ids that the tracker has recorded stay as they are, and so does what it takes for an error. It
/// panics where a list in the header of a message would take more than two gigabytes.
#[verifier::external_body]
fn encode_messages(
    batch: &Columns,
    tracker: &mut DictionaryTracker,
    options: &IpcWriteOptions,
) -> (encoded: Result<(VecDeque<EncodedMessage>, EncodedMessage), ArrowError>)
    requires
        crate::header_size::fits_headers(*batch, *options),
    ensures
        encoding_view(encoded) == encoded_messages(*batch, *old(tracker), *options),
        encoded matches Err(error) ==> reports(*batch, *old(tracker), *options, error),
        *final(tracker) == tracker_after(*batch, *old(tracker), *options),
        crate::flight_schema::dict_ids_of(*final(tracker)) == crate::flight_schema::dict_ids_of(
            *old(tracker),
        ),
        crate::flight_schema::errs_on_replacement(*final(tracker))
            == crate::flight_schema::errs_on_replacement(*old(tracker)),
{
    let message = |encoded: EncodedData| EncodedMessage {
        data_header: encoded.ipc_message,
        data_body: encoded.arrow_data,
    };
    let (dictionaries, encoded) = IpcDataGenerator::default().encode(
        &batch.columns,
        tracker,
        options,
        &mut Default::default(),
    )?;
    Ok((dictionaries.into_iter().map(message).collect(), message(encoded)))
}

/// What became of the input that an encoder asked for.
#[derive(Debug)]
pub enum EncoderInput {
    /// There are no more batches.
    Exhausted,
    /// The next batch could not be had.
    Failed,
    /// The next batch, and the metadata that tells its partition.
    Batch { batch: Columns, metadata: BatchMetadata },
}

/// What an [`EncoderInput`] amounts to.
pub enum InputView {
    Exhausted,
    Failed,
    Batch { batch: Columns, metadata: BatchMetadata },
}

impl View for EncoderInput {
    type V = InputView;

    open spec fn view(&self) -> InputView {
        match self {
            EncoderInput::Exhausted => InputView::Exhausted,
            EncoderInput::Failed => InputView::Failed,
            EncoderInput::Batch { batch, metadata } => InputView::Batch {
                batch: *batch,
                metadata: *metadata,
            },
        }
    }
}

/// Why an encoder ends early.
#[derive(Debug)]
pub enum EncoderFailure {
    /// The input failed.
    Input,
    /// A batch has more arrays than the header of a message can hold.
    TooLarge,
    /// A batch could not be encoded.
    Encoding(ArrowError),
}

/// What an [`EncoderFailure`] amounts to.
pub enum FailureView {
    Input,
    TooLarge,
    Encoding,
}

impl View for EncoderFailure {
    type V = FailureView;

    open spec fn view(&self) -> FailureView {
        match self {
            EncoderFailure::Input => FailureView::Input,
            EncoderFailure::TooLarge => FailureView::TooLarge,
            EncoderFailure::Encoding(_) => FailureView::Encoding,
        }
    }
}

/// What an encoder does next.
#[derive(Debug, PartialEq, Eq)]
pub enum EncoderOutput {
    /// Send a message.
    Message(FlightMessage),
    /// Ask for the next batch.
    NeedsInput,
    /// End the stream.
    End,
}

/// What an [`EncoderOutput`] amounts to.
pub enum OutputView {
    Message(MessageView),
    NeedsInput,
    End,
}

impl View for EncoderOutput {
    type V = OutputView;

    open spec fn view(&self) -> OutputView {
        match self {
            EncoderOutput::Message(message) => OutputView::Message(message@),
            EncoderOutput::NeedsInput => OutputView::NeedsInput,
            EncoderOutput::End => OutputView::End,
        }
    }
}

/// An encoder: how it writes messages, the dictionaries that it has sent, the messages that are
/// waiting to be sent, and whether its input is over.
#[derive(Debug)]
pub struct MultiplexedFlightDataEncoder {
    pub options: IpcWriteOptions,
    pub dictionary_tracker: DictionaryTracker,
    pub queue: VecDeque<FlightMessage>,
    pub done: bool,
}

/// The state of an encoder.
#[verifier::ext_equal]
pub struct EncoderState {
    pub options: IpcWriteOptions,
    pub tracker: DictionaryTracker,
    pub queue: Seq<MessageView>,
    pub done: bool,
}

/// The views of messages.
pub open spec fn messages(queue: Seq<FlightMessage>) -> Seq<MessageView> {
    queue.map_values(|message: FlightMessage| message@)
}

impl View for MultiplexedFlightDataEncoder {
    type V = EncoderState;

    open spec fn view(&self) -> EncoderState {
        EncoderState {
            options: self.options,
            tracker: self.dictionary_tracker,
            queue: messages(self.queue@),
            done: self.done,
        }
    }
}

/// Messages without metadata.
pub open spec fn unmarked(encoded: Seq<EncodedView>) -> Seq<MessageView> {
    encoded.map_values(|message: EncodedView| message.unmarked())
}

/// The messages of a batch in the order in which they are sent: it follows the dictionaries that
/// it needs, and only the batch is marked with metadata.
pub open spec fn batch_messages(
    dictionaries: Seq<EncodedView>,
    batch: EncodedView,
    app_metadata: Seq<u8>,
) -> Seq<MessageView> {
    unmarked(dictionaries).push(batch.marked(app_metadata))
}

impl EncoderState {
    /// What the encoder does next: messages that are waiting go first, and the stream ends once
    /// none are left and the input is over.
    pub open spec fn output(self) -> OutputView {
        if self.queue.len() > 0 {
            OutputView::Message(self.queue.first())
        } else if self.done {
            OutputView::End
        } else {
            OutputView::NeedsInput
        }
    }

    /// The state after that.
    pub open spec fn after_output(self) -> EncoderState {
        if self.queue.len() > 0 {
            EncoderState { queue: self.queue.drop_first(), ..self }
        } else {
            self
        }
    }

    /// The state after the input is over.
    pub open spec fn after_end(self) -> EncoderState {
        EncoderState { done: true, ..self }
    }

    /// The state after a batch that could not be encoded, which also drops what was waiting.
    pub open spec fn after_failure(self) -> EncoderState {
        EncoderState { queue: Seq::empty(), done: true, ..self }
    }

    /// The state after a batch of which `encoded` was made.
    pub open spec fn after_encoding(
        self,
        encoded: Option<(Seq<EncodedView>, EncodedView)>,
        app_metadata: Seq<u8>,
    ) -> EncoderState {
        match encoded {
            Some((dictionaries, batch)) => EncoderState {
                queue: self.queue + batch_messages(dictionaries, batch, app_metadata),
                ..self
            },
            None => self.after_failure(),
        }
    }

    /// The state after a batch that fits.
    pub open spec fn after_batch(self, batch: Columns, metadata: BatchMetadata) -> EncoderState {
        EncoderState {
            tracker: tracker_after(batch, self.tracker, self.options),
            ..self
        }.after_encoding(encoded_messages(batch, self.tracker, self.options), metadata.encoded())
    }

    /// The state after an input.
    pub open spec fn after_input(self, input: InputView) -> EncoderState {
        match input {
            InputView::Exhausted | InputView::Failed => self.after_end(),
            InputView::Batch { batch, metadata } => if crate::header_size::fits_headers(batch, self.options) {
                self.after_batch(batch, metadata)
            } else {
                self.after_failure()
            },
        }
    }

    /// The failure that an input ends the stream with.
    pub open spec fn failure(self, input: InputView) -> Option<FailureView> {
        match input {
            InputView::Exhausted => None,
            InputView::Failed => Some(FailureView::Input),
            InputView::Batch { batch, metadata: _ } => if !crate::header_size::fits_headers(batch, self.options) {
                Some(FailureView::TooLarge)
            } else if encoded_messages(batch, self.tracker, self.options) is None {
                Some(FailureView::Encoding)
            } else {
                None
            },
        }
    }
}

impl EncoderState {
    /// Whether a failure is the one of the given input: the error of an encoding is one that was
    /// reported of the batch.
    pub open spec fn fails_with(self, input: InputView, failure: EncoderFailure) -> bool {
        failure matches EncoderFailure::Encoding(error) ==> {
            &&& input matches InputView::Batch { batch, .. }
            &&& reports(batch, self.tracker, self.options, error)
        }
    }
}

/// Whether nothing that decides the ids of dictionaries, or what is taken for an error, differs
/// between two trackers.
pub open spec fn same_ids(tracker: DictionaryTracker, other: DictionaryTracker) -> bool {
    &&& crate::flight_schema::dict_ids_of(tracker) == crate::flight_schema::dict_ids_of(other)
    &&& crate::flight_schema::errs_on_replacement(tracker)
        == crate::flight_schema::errs_on_replacement(other)
}

/// Whether an encoder with the given state has been made for a stream of a schema, and has done
/// nothing yet: it starts with the message of the prepared schema, and its tracker has recorded an
/// id for each dictionary of the schema and nothing else, and lets dictionaries be replaced.
pub open spec fn starts_stream(state: EncoderState, schema: Schema, prepared: Schema) -> bool {
    &&& schema.is_prepared_as(&prepared)
    &&& state.queue == seq![
        crate::schema_message::schema_message_of(prepared@, state.options),
    ]
    &&& !state.done
    &&& crate::flight_schema::dict_ids_of(state.tracker) == Seq::new(
        schema.dictionaries(),
        |i: int| i as i64,
    )
    &&& !crate::flight_schema::errs_on_replacement(state.tracker)
}

impl MultiplexedFlightDataEncoder {
    /// An encoder for a stream of batches of a schema.
    pub fn new(schema: &Schema, options: IpcWriteOptions) -> (encoder: Self)
        requires
            schema.sendable(),
        ensures
            encoder@.options == options,
            exists|prepared: Schema|
                #![trigger schema.is_prepared_as(&prepared)]
                starts_stream(encoder@, *schema, prepared),
    {
        proof {
            crate::schema_message::lemma_schemas_outweigh_their_dictionaries(schema);
        }
        let (prepared, dictionary_tracker) = prepare_stream_schema(schema);
        proof {
            crate::schema_message::law_prepared_schemas_can_be_sent(schema, &prepared);
        }
        let message = schema_message(&prepared, &options);
        let mut queue: VecDeque<FlightMessage> = VecDeque::new();
        queue.push_back(message);
        assert(messages(queue@) =~= seq![message@]);
        let encoder = MultiplexedFlightDataEncoder {
            options,
            dictionary_tracker,
            queue,
            done: false,
        };
        assert(starts_stream(encoder@, *schema, prepared));
        encoder
    }

    /// Puts what was made of a batch into the queue, behind the dictionaries that it needs. Where
    /// the batch could not be encoded, the stream ends with that failure.
    pub fn take_encoded(
        &mut self,
        encoded: Result<(VecDeque<EncodedMessage>, EncodedMessage), ArrowError>,
        app_metadata: Vec<u8>,
    ) -> (taken: Result<(), EncoderFailure>)
        ensures
            final(self)@ == old(self)@.after_encoding(encoding_view(encoded), app_metadata@),
            match encoded {
                Ok(_) => taken is Ok,
                Err(error) => taken == Err::<(), EncoderFailure>(EncoderFailure::Encoding(error)),
            },
    {
        match encoded {
            Ok((dictionaries, batch)) => {
                let ghost sent = encoded_views(dictionaries@);
                let mut waiting = dictionaries;
                assert(messages(self.queue@) + unmarked(encoded_views(waiting@))
                    =~= old(self)@.queue + unmarked(sent));
                while waiting.len() > 0
                    invariant
                        self.options == old(self).options,
                        self.dictionary_tracker == old(self).dictionary_tracker,
                        self.done == old(self).done,
                        messages(self.queue@) + unmarked(encoded_views(waiting@)) == old(self)@.queue
                            + unmarked(sent),
                    decreases waiting@.len(),
                {
                    let ghost before = (self.queue@, waiting@);
                    if let Some(dictionary) = waiting.pop_front() {
                        self.queue.push_back(dictionary.with_app_metadata(Vec::new()));
                        assert(dictionary@.marked(Seq::empty()) == dictionary@.unmarked());
                        assert(messages(self.queue@) + unmarked(encoded_views(waiting@))
                            =~= messages(before.0) + unmarked(encoded_views(before.1)));
                    }
                }
                assert(messages(self.queue@) =~= old(self)@.queue + unmarked(sent));
                let ghost last = batch@.marked(app_metadata@);
                let ghost before = self.queue@;
                self.queue.push_back(batch.with_app_metadata(app_metadata));
                assert(messages(self.queue@) =~= messages(before).push(last));
                assert(messages(self.queue@) =~= old(self)@.queue + unmarked(sent).push(last));
                assert(self@ =~= old(self)@.after_encoding(encoding_view(encoded), app_metadata@));
                Ok(())
            },
            Err(error) => {
                self.done = true;
                self.queue.clear();
                assert(self@ =~= old(self)@.after_failure());
                Err(EncoderFailure::Encoding(error))
            },
        }
    }

    /// Encodes a batch into the queue, marked with its metadata.
    pub fn encode_batch(&mut self, batch: &Columns, metadata: BatchMetadata) -> (encoded: Result<
        (),
        EncoderFailure,
    >)
        requires
            crate::header_size::fits_headers(*batch, old(self)@.options),
        ensures
            final(self)@ == old(self)@.after_batch(*batch, metadata),
            same_ids(final(self)@.tracker, old(self)@.tracker),
            match encoded_messages(*batch, old(self)@.tracker, old(self)@.options) {
                Some(_) => encoded is Ok,
                None => encoded matches Err(EncoderFailure::Encoding(error)) && reports(
                    *batch,
                    old(self)@.tracker,
                    old(self)@.options,
                    error,
                ),
            },
    {
        let encoded = encode_messages(batch, &mut self.dictionary_tracker, &self.options);
        self.take_encoded(encoded, metadata.encode_to_vec())
    }

    /// Does what comes next.
    pub fn poll_next(&mut self) -> (output: EncoderOutput)
        ensures
            output@ == old(self)@.output(),
            final(self)@ == old(self)@.after_output(),
    {
        if let Some(message) = self.queue.pop_front() {
            assert(self@ =~= old(self)@.after_output());
            return EncoderOutput::Message(message);
        }
        if self.done {
            EncoderOutput::End
        } else {
            EncoderOutput::NeedsInput
        }
    }

    /// Takes in the input that was asked for. A failure has to be reported, and ends the stream.
    pub fn on_input(&mut self, input: EncoderInput) -> (taken: Result<(), EncoderFailure>)
        ensures
            final(self)@ == old(self)@.after_input(input@),
            match taken {
                Ok(_) => old(self)@.failure(input@) is None,
                Err(failure) => old(self)@.failure(input@) == Some(failure@) && old(self)@.fails_with(
                    input@,
                    failure,
                ),
            },
            same_ids(final(self)@.tracker, old(self)@.tracker),
    {
        match input {
            EncoderInput::Exhausted => {
                self.done = true;
                Ok(())
            },
            EncoderInput::Failed => {
                self.done = true;
                Err(EncoderFailure::Input)
            },
            EncoderInput::Batch { batch, metadata } => {
                if batch.fits_message_headers(&self.options) {
                    self.encode_batch(&batch, metadata)
                } else {
                    self.done = true;
                    self.queue.clear();
                    assert(self@ =~= old(self)@.after_failure());
                    Err(EncoderFailure::TooLarge)
                }
            },
        }
    }
}

/// A stream whose input ended or failed when it was asked for ends, and stays at its end.
pub proof fn law_streams_end_after_their_input(state: EncoderState, input: InputView)
    requires
        state.output() == OutputView::NeedsInput,
        input is Exhausted || state.failure(input) is Some,
    ensures
        state.after_input(input).output() == OutputView::End,
        state.after_input(input).after_output() == state.after_input(input),
{
}

/// What a stream yields: messages, and the failure that it ends with.
pub enum StreamItem {
    Message(MessageView),
    Failure(FailureView),
}

/// Messages as items of a stream.
pub open spec fn message_items(messages: Seq<MessageView>) -> Seq<StreamItem> {
    messages.map_values(|message: MessageView| StreamItem::Message(message))
}

impl EncoderState {
    /// What an encoder yields as it is asked for one item after the other, if it gets the given
    /// inputs as it asks for them.
    pub open spec fn yields(self, inputs: Seq<InputView>) -> Seq<StreamItem>
        decreases inputs.len(), self.queue.len(),
    {
        match self.output() {
            OutputView::Message(message) => seq![StreamItem::Message(message)]
                + self.after_output().yields(inputs),
            OutputView::End => Seq::empty(),
            OutputView::NeedsInput => if inputs.len() == 0 {
                Seq::empty()
            } else {
                let rest = self.after_input(inputs.first()).yields(inputs.drop_first());
                match self.failure(inputs.first()) {
                    Some(failure) => seq![StreamItem::Failure(failure)] + rest,
                    None => rest,
                }
            },
        }
    }
}

/// The items of a stream after its schema: for each batch, the dictionaries that were not sent
/// before and the marked batch, where every batch is encoded with what the tracker has seen of the
/// batches before it. The first failure is the last item, and the end of the input ends the stream.
pub open spec fn stream_of(
    tracker: DictionaryTracker,
    options: IpcWriteOptions,
    inputs: Seq<InputView>,
) -> Seq<StreamItem>
    decreases inputs.len(),
{
    if inputs.len() == 0 {
        Seq::empty()
    } else {
        match inputs.first() {
            InputView::Exhausted => Seq::empty(),
            InputView::Failed => seq![StreamItem::Failure(FailureView::Input)],
            InputView::Batch { batch, metadata } => if !crate::header_size::fits_headers(batch, options) {
                seq![StreamItem::Failure(FailureView::TooLarge)]
            } else {
                match encoded_messages(batch, tracker, options) {
                    None => seq![StreamItem::Failure(FailureView::Encoding)],
                    Some((dictionaries, encoded)) => message_items(
                        batch_messages(dictionaries, encoded, metadata.encoded()),
                    ) + stream_of(
                        tracker_after(batch, tracker, options),
                        options,
                        inputs.drop_first(),
                    ),
                }
            },
        }
    }
}

/// What is waiting is sent first, and then the stream of the inputs.
pub proof fn law_streams_are_encoded_in_order(state: EncoderState, inputs: Seq<InputView>)
    requires
        !state.done,
    ensures
        state.yields(inputs) == message_items(state.queue) + stream_of(
            state.tracker,
            state.options,
            inputs,
        ),
    decreases inputs.len(), state.queue.len(),
{
    let tail = stream_of(state.tracker, state.options, inputs);
    if state.queue.len() > 0 {
        let after = state.after_output();
        law_streams_are_encoded_in_order(after, inputs);
        assert(message_items(state.queue) =~= seq![StreamItem::Message(state.queue.first())]
            + message_items(after.queue));
        assert(state.yields(inputs) =~= message_items(state.queue) + tail);
    } else if inputs.len() > 0 {
        let after = state.after_input(inputs.first());
        if after.done {
            reveal_with_fuel(EncoderState::yields, 2);
            assert(after.queue =~= Seq::<MessageView>::empty());
            assert(after.output() == OutputView::End);
        } else {
            law_streams_are_encoded_in_order(after, inputs.drop_first());
            if let InputView::Batch { batch, metadata } = inputs.first() {
                let encoded = encoded_messages(batch, state.tracker, state.options);
                if let Some((dictionaries, message)) = encoded {
                    let app_metadata = metadata.encoded();
                    assert(after.queue =~= batch_messages(dictionaries, message, app_metadata));
                }
            }
        }
        assert(state.yields(inputs) =~= message_items(state.queue) + tail);
    } else {
        assert(state.yields(inputs) =~= message_items(state.queue) + tail);
    }
}

/// Every stream starts with the message of its prepared schema, also one without batches, and that
/// message carries no metadata. The dictionaries and batches follow.
pub proof fn law_streams_start_with_their_schema(
    state: EncoderState,
    schema: Schema,
    prepared: Schema,
    inputs: Seq<InputView>,
)
    requires
        starts_stream(state, schema, prepared),
    ensures
        ({
            let message = crate::schema_message::schema_message_of(prepared@, state.options);
            &&& state.yields(inputs) == seq![StreamItem::Message(message)] + stream_of(
                state.tracker,
                state.options,
                inputs,
            )
            &&& message.app_metadata.len() == 0
        }),
{
    law_streams_are_encoded_in_order(state, inputs);
    let message = crate::schema_message::schema_message_of(prepared@, state.options);
    assert(message_items(state.queue) =~= seq![StreamItem::Message(message)]);
}

/// The metadata of the messages that carry any, in their order.
pub open spec fn marks(items: Seq<StreamItem>) -> Seq<Seq<u8>>
    decreases items.len(),
{
    if items.len() == 0 {
        Seq::empty()
    } else {
        let before = marks(items.drop_last());
        match items.last() {
            StreamItem::Message(message) => if message.app_metadata.len() > 0 {
                before.push(message.app_metadata)
            } else {
                before
            },
            StreamItem::Failure(_) => before,
        }
    }
}

/// The encoded metadata of the batches among the inputs, in their order.
pub open spec fn batch_marks(inputs: Seq<InputView>) -> Seq<Seq<u8>>
    decreases inputs.len(),
{
    if inputs.len() == 0 {
        Seq::empty()
    } else {
        match inputs.first() {
            InputView::Batch { batch: _, metadata } => seq![metadata.encoded()] + batch_marks(
                inputs.drop_first(),
            ),
            _ => batch_marks(inputs.drop_first()),
        }
    }
}

/// Whether all inputs are batches.
pub open spec fn are_batches(inputs: Seq<InputView>) -> bool {
    forall|i: int| #![trigger inputs[i]] 0 <= i < inputs.len() ==> inputs[i] is Batch
}

/// Whether the stream ends with a failure.
pub open spec fn ends_in_failure(items: Seq<StreamItem>) -> bool {
    items.len() > 0 && items.last() is Failure
}

proof fn lemma_marks_of_parts(items: Seq<StreamItem>, more: Seq<StreamItem>)
    ensures
        marks(items + more) == marks(items) + marks(more),
    decreases more.len(),
{
    if more.len() == 0 {
        assert(items + more =~= items);
        assert(marks(items) + marks(more) =~= marks(items));
    } else {
        lemma_marks_of_parts(items, more.drop_last());
        assert((items + more).drop_last() =~= items + more.drop_last());
        assert(marks(items + more) =~= marks(items) + marks(more));
    }
}

proof fn lemma_marks_of_dictionaries(dictionaries: Seq<EncodedView>)
    ensures
        marks(message_items(unmarked(dictionaries))).len() == 0,
    decreases dictionaries.len(),
{
    let items = message_items(unmarked(dictionaries));
    if dictionaries.len() > 0 {
        let before = dictionaries.drop_last();
        lemma_marks_of_dictionaries(before);
        assert(items.drop_last() =~= message_items(unmarked(before)));
    }
}

proof fn lemma_marks_of_batch(
    dictionaries: Seq<EncodedView>,
    batch: EncodedView,
    app_metadata: Seq<u8>,
)
    requires
        app_metadata.len() > 0,
    ensures
        marks(message_items(batch_messages(dictionaries, batch, app_metadata))) == seq![
            app_metadata,
        ],
{
    let items = message_items(batch_messages(dictionaries, batch, app_metadata));
    lemma_marks_of_dictionaries(dictionaries);
    assert(items.drop_last() =~= message_items(unmarked(dictionaries)));
    assert(items.last() == StreamItem::Message(batch.marked(app_metadata)));
    assert(marks(items) =~= seq![app_metadata]);
}

/// Metadata is attached to record batches only: the metadata in a stream is that of its batches,
/// each once and in their order, up to the failure or the end of the input.
pub proof fn law_only_batches_are_marked(
    tracker: DictionaryTracker,
    options: IpcWriteOptions,
    inputs: Seq<InputView>,
)
    requires
        forall|i: int|
            #![trigger inputs[i]]
            0 <= i < inputs.len() ==> (inputs[i] matches InputView::Batch { batch: _, metadata }
                ==> metadata.encoded().len() > 0),
    ensures
        marks(stream_of(tracker, options, inputs)).is_prefix_of(batch_marks(inputs)),
        !ends_in_failure(stream_of(tracker, options, inputs)) && are_batches(inputs) ==> marks(
            stream_of(tracker, options, inputs),
        ) == batch_marks(inputs),
    decreases inputs.len(),
{
    let items = stream_of(tracker, options, inputs);
    if inputs.len() > 0 {
        let first = inputs[0];
        let rest = inputs.drop_first();
        assert forall|i: int| #![trigger rest[i]] 0 <= i < rest.len() implies (
        rest[i] matches InputView::Batch { batch: _, metadata } ==> metadata.encoded().len() > 0) by {
            assert(rest[i] == inputs[i + 1]);
        }
        reveal_with_fuel(marks, 2);
        match first {
            InputView::Batch { batch, metadata } => {
                let app_metadata = metadata.encoded();
                let encoded = encoded_messages(batch, tracker, options);
                if !crate::header_size::fits_headers(batch, options) || encoded is None {
                    assert(items.drop_last() =~= Seq::<StreamItem>::empty());
                    assert(marks(items) =~= Seq::<Seq<u8>>::empty());
                } else if let Some((dictionaries, message)) = encoded {
                    let after = tracker_after(batch, tracker, options);
                    let head = message_items(batch_messages(dictionaries, message, app_metadata));
                    let tail = stream_of(after, options, rest);
                    law_only_batches_are_marked(after, options, rest);
                    lemma_marks_of_batch(dictionaries, message, app_metadata);
                    lemma_marks_of_parts(head, tail);
                    assert(items == head + tail);
                    if tail.len() > 0 {
                        assert(items.last() == tail.last());
                    }
                    assert forall|i: int|
                        #![trigger rest[i]]
                        0 <= i < rest.len() && are_batches(inputs) implies rest[i] is Batch by {
                        assert(rest[i] == inputs[i + 1]);
                    }
                }
            },
            _ => {
                assert(items.len() <= 1);
                assert(items.len() == 1 ==> items.drop_last() =~= Seq::<StreamItem>::empty());
                assert(marks(items) =~= Seq::<Seq<u8>>::empty());
                assert(!are_batches(inputs));
            },
        }
    }
}

/// A stream fails once at most, and nothing follows the failure.
pub proof fn law_failures_come_last(
    tracker: DictionaryTracker,
    options: IpcWriteOptions,
    inputs: Seq<InputView>,
)
    ensures
        ({
            let items = stream_of(tracker, options, inputs);
            forall|i: int|
                #![trigger items[i]]
                0 <= i < items.len() - 1 ==> items[i] is Message
        }),
    decreases inputs.len(),
{
    if inputs.len() > 0 {
        if let InputView::Batch { batch, metadata: _ } = inputs.first() {
            law_failures_come_last(
                tracker_after(batch, tracker, options),
                options,
                inputs.drop_first(),
            );
        }
    }
}

impl EncoderState {
    /// The state of an encoder once it has yielded all that it can with the given inputs.
    pub open spec fn settled(self, inputs: Seq<InputView>) -> EncoderState
        decreases inputs.len(), self.queue.len(),
    {
        match self.output() {
            OutputView::Message(_) => self.after_output().settled(inputs),
            OutputView::End => self,
            OutputView::NeedsInput => if inputs.len() == 0 {
                self
            } else {
                self.after_input(inputs.first()).settled(inputs.drop_first())
            },
        }
    }
}

/// Once a stream has ended it stays ended, however often it is asked. It ends where the input ends
/// or fails, or a batch cannot be encoded; with nothing but batches it waits for more.
pub proof fn law_streams_stay_ended(state: EncoderState, inputs: Seq<InputView>)
    requires
        !state.done,
    ensures
        ({
            let settled = state.settled(inputs);
            let failed = ends_in_failure(stream_of(state.tracker, state.options, inputs));
            &&& settled.after_output() == settled
            &&& settled.output() == (if are_batches(inputs) && !failed {
                OutputView::NeedsInput
            } else {
                OutputView::End
            })
        }),
    decreases inputs.len(), state.queue.len(),
{
    if state.queue.len() > 0 {
        law_streams_stay_ended(state.after_output(), inputs);
    } else if inputs.len() > 0 {
        let first = inputs.first();
        let rest = inputs.drop_first();
        let after = state.after_input(first);
        let items = stream_of(state.tracker, state.options, inputs);
        if after.done {
            reveal_with_fuel(EncoderState::settled, 2);
            assert(after.queue =~= Seq::<MessageView>::empty());
            assert(inputs[0] == first);
            assert(!are_batches(inputs) || ends_in_failure(items));
        } else {
            law_streams_stay_ended(after, rest);
            assert(inputs[0] == first);
            assert(are_batches(inputs) == are_batches(rest)) by {
                assert forall|i: int|
                    #![trigger inputs[i]]
                    0 <= i < inputs.len() && are_batches(rest) implies inputs[i] is Batch by {
                    if i > 0 {
                        assert(rest[i - 1] == inputs[i]);
                    }
                }
                assert forall|i: int|
                    #![trigger rest[i]]
                    0 <= i < rest.len() && are_batches(inputs) implies rest[i] is Batch by {
                    assert(rest[i] == inputs[i + 1]);
                }
            }
            let tail = stream_of(after.tracker, after.options, rest);
            assert(ends_in_failure(items) == ends_in_failure(tail)) by {
                if let InputView::Batch { batch, metadata } = first {
                    let encoded = encoded_messages(batch, state.tracker, state.options);
                    if let Some((dictionaries, message)) = encoded {
                        let head = message_items(
                            batch_messages(dictionaries, message, metadata.encoded()),
                        );
                        assert(items == head + tail);
                        if tail.len() > 0 {
                            assert(items.last() == tail.last());
                        } else {
                            assert(items.last() == head.last());
                        }
                    }
                }
            }
        }
    }
}

}
