//! A secure card vault: stores, retrieves and deletes sensitive payment-card
//! payloads for many merchants under one tenant, with envelope encryption and
//! content-addressed deduplication.
//!
//! Every merchant owns a data-encryption key (DEK); DEKs are kept encrypted
//! under a process-wide master key. Payloads are fingerprinted (SHA-512) for
//! deduplication and stored encrypted under the owning merchant's DEK,
//! addressed by an opaque card reference that resolves only in the exact
//! (tenant, merchant, customer) scope it was created in.

pub mod crypto;
pub mod model;
pub mod vault;
pub mod laws;
pub mod storage;
