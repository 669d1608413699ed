//! Diagnostics.

pub mod paging_audit;
