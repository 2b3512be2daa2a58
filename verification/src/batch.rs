//! Batched record transfer: one response carries a whole query.

pub mod buffer;
pub mod decoder;
pub mod encoder;
pub mod frame_laws;
pub mod labels;
pub mod stream_laws;
pub mod wire;

pub use decoder::{StreamDecoder, StreamItem, StreamRecord};
pub use encoder::{RecordFrame, RecordMeta, StreamEncoder};
pub use labels::Labels;

use vstd::prelude::*;

verus! {

/// Response header listing the optional protocol features a server implements, as a
/// comma-separated list. Absent on servers that predate it.
pub const API_FEATURES_HEADER: &'static str = "x-reduct-api-features";

/// Name advertised in [`API_FEATURES_HEADER`] by a server that serves `POST /io/{bucket}/stream`.
pub const READ_STREAM_FEATURE: &'static str = "read-stream";

/// Content type of a stream response.
pub const STREAM_CONTENT_TYPE: &'static str = "application/x-reduct-stream-v3";

} // verus!
