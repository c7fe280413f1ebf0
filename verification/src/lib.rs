//! Capture the log events emitted inside one tracing span, for tests.
//!
//! A test registers interest in a span through a [`RecordedLogs`] handle;
//! while the span (or anything nested inside it) runs, every emitted event
//! is routed to the innermost enclosing span that has a live handle and
//! appended to that handle's buffer. The test then drains the buffer and
//! asserts on the captured level, message and fields.

pub mod alist;
pub mod handle;
pub mod laws;
pub mod level;
pub mod record;
pub mod registry;
pub mod router;

pub use handle::CaptureError;
pub use handle::RecordedLogs;
pub use level::Level;
pub use record::EventLog;
pub use registry::CaptureRegistry;
pub use router::TracingSpanCaptureLayer;
