//! Audits a filesystem subtree for entries whose last-access time is older
//! than a configurable cutoff.
//!
//! The crate holds the decision core of the audit: the eligibility filter,
//! the access-time classifier, the result aggregator, the audit engine that
//! folds discovered entries into qualifying records and statistics, and the
//! report serializer. Discovery of entries (the concurrent directory walk),
//! metadata reads and file output are performed by the surrounding program,
//! which hands the core plain values and receives plain values back.

pub mod aggregate;
pub mod classify;
pub(crate) mod clock;
pub mod config;
pub mod emit;
pub mod engine;
pub mod laws;
pub mod policy;
pub(crate) mod strbuf;
pub mod timefmt;

pub use policy::is_eligible;
