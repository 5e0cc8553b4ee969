pub mod packet;
pub mod prefilter;
pub mod closing;
pub mod responder;
pub mod producer;

pub use packet::{Packet, BIT_MASKS};
pub use prefilter::{Prefilter, InboxEvent, Workload, CPU_PARALLEL, GPU_PARALLEL};
pub use producer::{PacketKind, Scenario};
