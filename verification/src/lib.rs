//! Client-side core of a key/value store that keeps its data as
//! content-addressed chunks: the ordered map behind a write transaction, the
//! write transaction itself, and the request handling of the dispatcher that
//! serves the embedding page.

pub mod dag;
pub mod kv;
pub mod utf8;
pub mod prolly;
pub mod db;
pub mod connections;
pub mod dispatch;
pub mod wasm;
