//! Bichon: a verified core for a self-hosted email archiving service.
//!
//! The crate models the two document indexes (envelope metadata and raw-EML
//! locators), the metadata store, the search/filter/aggregation engine, the
//! authorization and rate-limit rules, the IMAP sync batching policy, and the
//! MBOX/EML ingestion path. Calls into outside crates (RFC822 parsing, base64,
//! AEAD encryption) stand behind trusted wrappers; everything else is proved.

pub mod auth;
pub mod crypto;
pub mod error;
pub mod extract;
pub mod text;
pub mod users;
pub mod eml_index;
pub mod envelope;
pub mod index;
pub mod ingest;
pub mod laws;
pub mod mbox_mock;
pub mod message;
pub mod payload;
pub mod stats;
pub mod store;
pub mod sync;
pub mod tags;
pub mod write_buffer;
pub mod query;
pub mod settings;

use vstd::prelude::*;

verus! {

} // verus!
