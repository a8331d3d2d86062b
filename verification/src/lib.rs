//! Client-side logic of the confish SDK: webhook signature checking,
//! timestamp formatting, request paths, error classification, retry and
//! backoff policies, and the batching rules of the log shipper.

pub mod actions;
pub mod calendar;
pub mod client;
pub mod error;
pub mod feeds;
pub mod http;
pub mod logs;
pub mod paths;
pub mod text;
pub mod time;
pub mod tracing_layer;
pub mod types;
pub mod webhook;
