//! Synchronizes a purchased digital media collection from a remote storefront
//! to local disk: discovers purchased items by paginating a collection API,
//! resolves per-item download metadata, and remembers what has already been
//! processed in an append-only ledger so repeat runs are incremental.
//!
//! The verified library holds the synchronization logic: the retry policy of
//! the rate-limited request layer, the pagination protocol, the parsing of the
//! embedded page-data blobs, the completion ledger, the shared work queue, and
//! the filename handling of the download pipeline. Network and file I/O stand
//! outside the library and hand it plain values.

pub mod api;
pub mod blob;
pub mod cache;
pub mod cookies;
pub mod run;
pub mod util;
