//! Incremental ingestion of bridge-inbound token transfers: the watermark
//! that says where a run resumes, the filter that keeps mint transfers, the
//! token registry, the forward sweep that matches transfers to price samples,
//! the scaling of raw amounts, and the chunking of writes.

pub mod amount;
pub mod cursor;
pub mod events;
pub mod persist;
pub mod pipeline;
pub mod pricing;
pub mod registry;
pub mod text;
