//! Core of a readiness-driven HTTP/1.1 server: the per-connection buffer, the
//! wire codec, route selection and the poller's connection table.

pub mod error;
pub mod stream_data;
pub mod text;
pub mod request;
pub mod response;
pub mod codec;
pub mod router;
pub mod reactor;
