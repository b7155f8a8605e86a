//! Verified data-access core for a tagged-content store.
//!
//! Users create posts, posts carry free-text tags, and callers retrieve
//! posts through a paginated, search-filtered listing.  The store itself is
//! modelled explicitly: every table is plain data with stated invariants,
//! and every operation carries a contract that pins down its effect,
//! including idempotent tag deduplication, idempotent post-tag linking,
//! atomic rollback of the composed create operation, and exact pagination
//! metadata.

pub mod assoc;
pub mod models;
pub mod pagination;
pub mod posts;
pub mod responses;
pub mod search;
pub mod service;
pub mod store;
pub mod tags;
