//! Serves a proxy configuration that is merged from a local manifest and
//! remotely hosted subscription documents.
//!
//! - [`document`]: the document that is merged, read from and written as
//!   YAML.
//! - [`merge`]: the merge of a local document with remote ones, and what
//!   holds of it.
//! - [`models`]: the local manifest and the registered subscriptions.
//! - [`endpoint`]: who may read, and the steps in which a request is served.
//! - [`string_map`]: a map from strings that keeps its keys in order.
//! - [`values`]: copying and joining of YAML values.
//! - [`yaml`]: what is taken from `serde_yaml` unproved.

pub mod document;
pub mod endpoint;
pub mod merge;
pub mod models;
pub mod string_map;
pub mod values;
pub mod yaml;
