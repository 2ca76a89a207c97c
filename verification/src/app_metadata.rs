//! Metadata that travels with the record batches between stages.
use vstd::prelude::*;

verus! {

/// Identifies one task of one stage of a query.
#[derive(Debug, PartialEq, Eq)]
pub struct StageKey {
    pub query_id: Vec<u8>,
    pub stage_id: u64,
    pub task_number: u64,
}

impl StageKey {
    pub fn new(query_id: Vec<u8>, stage_id: u64, task_number: u64) -> (key: Self)
        ensures
            key.query_id == query_id,
            key.stage_id == stage_id,
            key.task_number == task_number,
    {
        StageKey { query_id, stage_id, task_number }
    }
}

/// The metrics of one plan node, in their encoded form.
#[derive(Debug, PartialEq, Eq)]
pub struct MetricsSetProto {
    pub encoded: Vec<u8>,
}

/// A collection of metrics for a set of tasks. Each entry should have a distinct [`StageKey`].
#[derive(Debug, PartialEq, Eq)]
pub struct MetricsCollection {
    pub tasks: Vec<TaskMetrics>,
}

/// The metrics of a single task.
#[derive(Debug, PartialEq, Eq)]
pub struct TaskMetrics {
    /// Identifies the task. It is always present, and optional only in the encoded form.
    pub stage_key: Option<StageKey>,
    /// The metrics of the plan nodes, in pre-order.
    pub metrics: Vec<MetricsSetProto>,
}

/// All metadata that accompanies a message.
#[derive(Debug, PartialEq, Eq)]
pub struct FlightAppMetadata {
    /// The partition that the message belongs to.
    pub partition: u64,
    pub content: Option<AppMetadata>,
}

/// What a message carries besides its record batch.
#[derive(Debug, PartialEq, Eq)]
pub enum AppMetadata {
    MetricsCollection(MetricsCollection),
}

impl FlightAppMetadata {
    /// Metadata for a partition, without content.
    pub fn new(partition: u64) -> (metadata: Self)
        ensures
            metadata == (FlightAppMetadata { partition, content: None }),
    {
        FlightAppMetadata { partition, content: None }
    }

    /// Replaces the content.
    pub fn set_content(&mut self, content: AppMetadata)
        ensures
            *final(self) == (FlightAppMetadata {
                partition: old(self).partition,
                content: Some(content),
            }),
    {
        self.content = Some(content);
    }
}

/// A number in groups of seven bits, the lowest first; all bytes but the last have their upper bit
/// set.
pub open spec fn varint(value: nat) -> Seq<u8>
    decreases value,
{
    if value < 128 {
        seq![value as u8]
    } else {
        seq![(value % 128 + 128) as u8] + varint(value / 128)
    }
}

/// A field of a message that holds a number.
pub open spec fn uint64_field(tag: u32, value: u64) -> Seq<u8> {
    varint((tag * 8) as nat) + varint(value as nat)
}

/// Writes a field that holds a number, by `uint64::encode` of the prost crate: its key, which is
/// the tag in front of three zero bits, and the number. Tags have 29 bits and are not zero.
#[verifier::external_body]
fn write_uint64_field(tag: u32, value: u64, bytes: &mut Vec<u8>)
    requires
        1 <= tag <= 0x1fff_ffff,
    ensures
        final(bytes)@ == old(bytes)@ + uint64_field(tag, value),
{
    prost::encoding::uint64::encode(tag, &value, bytes)
}

/// A field that is left out where it holds zero, which is what a reader takes for it.
pub open spec fn optional_field(tag: u32, value: u64) -> Seq<u8> {
    if value == 0 {
        Seq::empty()
    } else {
        uint64_field(tag, value)
    }
}

/// The metadata of one encoded batch.
#[derive(Debug, Clone, Copy, PartialEq, Eq)]
pub struct BatchMetadata {
    /// The partition that the batch belongs to.
    pub partition: u64,
    /// When the batch was encoded, in nanoseconds since the epoch.
    pub created_timestamp_unix_nanos: u64,
}

impl BatchMetadata {
    /// The metadata in its encoded form.
    pub open spec fn encoded(self) -> Seq<u8> {
        optional_field(1, self.partition) + optional_field(2, self.created_timestamp_unix_nanos)
    }

    /// Encodes the metadata.
    pub fn encode_to_vec(&self) -> (bytes: Vec<u8>)
        ensures
            bytes@ == self.encoded(),
    {
        let mut bytes: Vec<u8> = Vec::new();
        if self.partition != 0 {
            write_uint64_field(1, self.partition, &mut bytes);
        }
        if self.created_timestamp_unix_nanos != 0 {
            write_uint64_field(2, self.created_timestamp_unix_nanos, &mut bytes);
        }
        assert(bytes@ =~= self.encoded());
        bytes
    }
}

/// Numbers can be read back, and so can what follows them.
proof fn lemma_varints_are_read_back(x: nat, y: nat, s: Seq<u8>, t: Seq<u8>)
    requires
        varint(x) + s == varint(y) + t,
    ensures
        x == y,
        s == t,
    decreases x,
{
    let a = varint(x) + s;
    let b = varint(y) + t;
    assert(a[0] == varint(x)[0]);
    assert(b[0] == varint(y)[0]);
    if x < 128 {
        assert(y < 128);
        assert(s =~= a.skip(1));
        assert(t =~= b.skip(1));
    } else {
        assert(y >= 128);
        assert(varint(x / 128) + s =~= a.skip(1));
        assert(varint(y / 128) + t =~= b.skip(1));
        lemma_varints_are_read_back(x / 128, y / 128, s, t);
    }
}

/// Metadata can be read back: different partitions, or times, are encoded differently.
pub proof fn law_batch_metadata_is_read_back(a: BatchMetadata, b: BatchMetadata)
    requires
        a.encoded() == b.encoded(),
    ensures
        a == b,
{
    let a_time = optional_field(2, a.created_timestamp_unix_nanos);
    let b_time = optional_field(2, b.created_timestamp_unix_nanos);
    lemma_field_keys(1, a.partition, a_time);
    lemma_field_keys(1, b.partition, b_time);
    lemma_field_keys(2, a.created_timestamp_unix_nanos, Seq::empty());
    lemma_field_keys(2, b.created_timestamp_unix_nanos, Seq::empty());
    assert(a_time + Seq::<u8>::empty() =~= a_time);
    assert(b_time + Seq::<u8>::empty() =~= b_time);
    if a.partition != 0 && b.partition != 0 {
        lemma_fields_are_read_back(1, a.partition, b.partition, a_time, b_time);
    } else {
        assert(a.partition == 0 ==> a.encoded() =~= a_time);
        assert(b.partition == 0 ==> b.encoded() =~= b_time);
        assert(a.partition == b.partition);
    }
    if a.created_timestamp_unix_nanos != 0 && b.created_timestamp_unix_nanos != 0 {
        lemma_fields_are_read_back(
            2,
            a.created_timestamp_unix_nanos,
            b.created_timestamp_unix_nanos,
            Seq::empty(),
            Seq::empty(),
        );
    }
}

/// A field starts with its key.
proof fn lemma_field_keys(tag: u32, value: u64, rest: Seq<u8>)
    requires
        1 <= tag < 16,
    ensures
        value != 0 ==> (optional_field(tag, value) + rest).len() > 0 && (optional_field(tag, value)
            + rest)[0] == tag * 8,
{
    assert(varint((tag * 8) as nat) =~= seq![(tag * 8) as u8]);
}

proof fn lemma_fields_are_read_back(tag: u32, x: u64, y: u64, s: Seq<u8>, t: Seq<u8>)
    requires
        uint64_field(tag, x) + s == uint64_field(tag, y) + t,
    ensures
        x == y,
        s == t,
{
    let key = varint((tag * 8) as nat);
    assert(uint64_field(tag, x) + s =~= key + (varint(x as nat) + s));
    assert(uint64_field(tag, y) + t =~= key + (varint(y as nat) + t));
    lemma_varints_are_read_back(
        (tag * 8) as nat,
        (tag * 8) as nat,
        varint(x as nat) + s,
        varint(y as nat) + t,
    );
    lemma_varints_are_read_back(x as nat, y as nat, s, t);
}

}
