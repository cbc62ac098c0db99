//! A content-addressed, append-only ledger of commits and entries.
//!
//! Values are canonicalized (object keys sorted byte-wise), written as
//! compact JSON and hashed with SHA-256; entries and commits are named by
//! those digests. Every operation is a pure function from the old ledger to
//! a new one or a structured error.
//!
//! - [`value`]: JSON-like values and their model.
//! - [`order`], [`keyed`]: key order and keyed lists read like maps.
//! - [`canonical`], [`text`], [`digest`]: canonical form, JSON text, hashes.
//! - [`record`]: entries, commits, the ledger container, identities.
//! - [`checks`], [`ops`]: shape checks and the operations that grow a ledger.
//! - [`chain`], [`audit`]: chain resolution, replay, and the full audit.
//! - [`laws`]: properties that relate the operations.
//! - [`guard`]: input checks of the encryption layer and of block mining.

pub mod value;
pub mod number;
pub mod order;
pub mod keyed;
pub mod canonical;
pub mod text;
pub mod digest;
pub mod record;
pub mod checks;
pub mod ops;
pub mod chain;
pub mod audit;
pub mod laws;
pub mod guard;
