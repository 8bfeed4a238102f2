//! A verified core for a grammar-build pipeline: catalog filtering, a
//! per-job stage machine (fetch, discover, compile, merge), and a shared
//! registry document whose read-modify-write merge is specified exactly
//! and proved order-independent over distinct names.
//!
//! External tools (the fetch tool, the compiler) and all file or network
//! I/O live outside this crate; the functions here take their results as
//! plain values and decide everything else. Only the JSON parsing and
//! printing of `serde_json` is taken on trust, behind the contracts in
//! `json`.

pub mod catalog;
pub mod codec;
pub mod coordinator;
pub mod executor;
pub mod json;
pub mod registry;
