//! Batch collaborative-document store: validation of batch requests, the
//! versioned binary envelope around a document's encoded state, the wire-shape
//! compatibility adapter, the atomic batch-create / per-item batch-get store,
//! and the per-request metrics counter model.

pub mod aggregator;
pub mod codec;
pub mod entity;
pub mod kvlist;
pub mod metrics;
pub mod store;
pub mod validator;
pub mod wire;
