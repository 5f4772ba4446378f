//! Fingerprint-based eviction engine for a compiler's build-output cache.
//!
//! The engine reads per-unit bookkeeping records, groups every unit with the
//! output files that belong to it, selects groups for removal under one of
//! three retention policies (age, toolchain, size budget), and accounts for
//! the bytes that a removal frees.
//!
//! - `record`: reading a unit's toolchain out of its bookkeeping record, and
//!   ordering units by identifier.
//! - `grouper`: joining units with the output files that carry their identifier.
//! - `policy`: the age, toolchain and size-budget selectors, with their laws.
//! - `executor`: the per-group deletion protocol and the byte accounting.
//! - `discovery`: decisions of the walk that finds cache roots.
//! - `input`: validation of the operator's budget and retention period.
//! - `model`: the shared data types and sums over them.
pub mod model;
pub mod policy;
pub mod grouper;
pub mod record;
pub mod executor;
pub mod discovery;
pub mod input;
