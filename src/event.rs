use vstd::prelude::*;

verus! {

/// Size in bytes of one `Event`: one `u64` followed by four `u32`, with no
/// padding between them.
pub const EVENT_SIZE: u64 = 24;

/// Classification tag written by the trace-point probe.
pub const EVENT_TYPE_TRACEPOINT: u32 = 2;

/// The fixed-layout record exchanged between producer and consumer; its
/// fields are laid out in this order on both sides of the transport.
#[derive(Debug, Clone, Copy, PartialEq, Eq)]
pub struct Event {
    /// Monotonic clock at emission, in nanoseconds.
    pub timestamp: u64,
    /// Process id of the triggering context.
    pub pid: u32,
    /// Logical CPU the event fired on.
    pub cpu_id: u32,
    /// Producer classification tag.
    pub event_type: u32,
    /// Opaque payload or sequence value.
    pub data: u32,
}

} // verus!
