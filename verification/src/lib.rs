//! A verified core for hierarchical trace telemetry.
//!
//! The library models the instrumentation layer of a multi-stage workflow:
//! a tracer with an explicit init/shutdown lifecycle, spans nested through a
//! LIFO active-span context, bounded-cost recording of structured payloads,
//! and a bounded batch buffer drained at shutdown. The network transport
//! itself lives outside the library; its configuration is validated here.

pub mod buffer;
pub mod config;
pub mod laws;
pub mod payload;
pub mod span;
pub mod stage;
pub mod tracer;

pub use span::AttrValue;
pub use span::SpanData;
pub use span::SpanStatus;
