//! The core of the Pigeon mobile client: everything that is not user interface.

pub mod api;
pub mod client;
pub mod codec;
pub mod e2ee;
pub mod error;
pub mod event;
pub mod image;
pub mod inbound;
pub mod invite;
pub mod json;
pub mod keys;
pub mod log;
pub mod media;
pub mod order;
pub mod reply;
pub mod rooms;
pub mod send;
pub mod session;
pub mod store;
pub mod sync;
pub mod table;
pub mod text;

pub use crate::error::CoreError;
pub use crate::log::{core_version, emit, emit_test_log, LogLevel, LogSink};
