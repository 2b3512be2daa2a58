//! What the interfaces of the store decide.

pub mod routing;
pub mod stream;
pub mod stream_history;
pub mod stream_laws;
