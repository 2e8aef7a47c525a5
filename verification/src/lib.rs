//! A span exporter for a virtual-machine-to-host byte-stream transport.
//!
//! The library owns the logic of the exporter: the record model, the wire
//! encoding and its decoder, the batch export session that fixes which bytes
//! reach the transport and in what order, and the builder that resolves the
//! destination. The transport itself (the socket, its lock, the write calls)
//! lives with the embedding program, which drives a [`exporter::BatchSession`]
//! and performs one write per step.

pub mod codec;
pub mod errors;
pub mod exporter;
pub mod record;

pub use errors::Error;
pub use errors::VSockExporterError;
pub use exporter::BatchSession;
pub use exporter::Builder;
pub use exporter::ExportStep;
pub use exporter::Exporter;
pub use record::Attribute;
pub use record::SpanRecord;
