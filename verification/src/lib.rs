//! A structured-logging layer: tracing events become self-describing
//! serialized records (line-delimited JSON), together with a matching
//! streaming consumer and a pretty printer.
//!
//! The record model, the wire codec and the span-context engine are verified;
//! the codec comes with a proved round-trip guarantee.

pub mod consumer;
pub mod dec;
pub mod format;
pub mod event;
pub mod fdec;
pub mod jparse;
pub mod json;
pub mod jstr;
pub mod laws;
pub mod level;
pub mod pprint;
pub mod prefix;
pub mod span;
pub mod strio;
pub mod subscriber;
pub mod time;
pub mod value;
pub mod writer;

pub use event::{Event, EventKind, eq_event};
pub use format::{Json, SerdeFormat};
pub use level::Level;
pub use span::Span;
pub use subscriber::{SerdeLayer, SerdeLayerBuilder, SpanEvents};
pub use value::FieldValue;
pub use writer::WriteEvent;
