//! Signatures for persisted GraphQL queries: descriptor extraction from
//! generated request files, keyed digests over the query text, and the
//! ordered name-to-digest map that is written out at the end of a run.

pub mod aggregate;
pub mod config;
pub mod error;
pub mod json;
pub mod locator;
pub mod order;
pub mod params;
pub mod signer;
pub mod structural;
pub mod syntax;
pub mod text;
pub mod textual;
pub mod work;
