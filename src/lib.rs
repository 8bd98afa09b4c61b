//! A dataset catalog: datasets, their partitions and the managers who own them, kept in step
//! with a blob store by interpreting the store's change notifications.

pub mod error;
pub mod text;
pub mod dict;
pub mod credentials;
pub mod path;
pub mod range_query;
pub mod catalog;
pub mod notification;
pub mod ingest;
pub mod api;
pub mod bucket;
pub mod laws;
