//! How much memory the messages that are waiting in a queue take.
use vstd::prelude::*;

verus! {

/// A message between stages, in its encoded form.
#[derive(Debug, PartialEq, Eq)]
pub struct FlightMessage {
    pub data_header: Vec<u8>,
    pub data_body: Vec<u8>,
    pub app_metadata: Vec<u8>,
}

/// What a [`FlightMessage`] amounts to.
#[verifier::ext_equal]
pub struct MessageView {
    pub data_header: Seq<u8>,
    pub data_body: Seq<u8>,
    pub app_metadata: Seq<u8>,
}

impl View for FlightMessage {
    type V = MessageView;

    open spec fn view(&self) -> MessageView {
        MessageView {
            data_header: self.data_header@,
            data_body: self.data_body@,
            app_metadata: self.app_metadata@,
        }
    }
}

/// Things that memory is reserved for.
pub trait MemoryFootPrint {
    /// The number of bytes.
    spec fn footprint(&self) -> u128;

    /// The number of bytes, which can be counted.
    fn get_memory_size(&self) -> (size: usize)
        requires
            self.footprint() <= usize::MAX,
        ensures
            size == self.footprint(),
    ;
}

impl MemoryFootPrint for FlightMessage {
    open spec fn footprint(&self) -> u128 {
        (self.data_header@.len() + self.data_body@.len() + self.app_metadata@.len()) as u128
    }

    fn get_memory_size(&self) -> (size: usize) {
        let header: usize = self.data_header.len();
        let body: usize = self.data_body.len();
        let metadata: usize = self.app_metadata.len();
        header + body + metadata
    }
}

/// The memory that is reserved for a message while it waits: its size, and nothing for a failure.
pub open spec fn reserved_for<M: MemoryFootPrint, E>(message: Result<M, E>) -> u128 {
    match message {
        Ok(message) => message.footprint(),
        Err(_) => 0,
    }
}

/// Computes the memory to reserve for a message while it waits in a queue.
pub fn reservation_size<M: MemoryFootPrint, E>(message: &Result<M, E>) -> (size: usize)
    requires
        reserved_for(*message) <= usize::MAX,
    ensures
        size == reserved_for(*message),
{
    match message {
        Ok(message) => message.get_memory_size(),
        Err(_) => 0,
    }
}

}
