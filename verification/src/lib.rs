//! Reconciles locally installed game add-ons against a remote catalog:
//! parses local manifest metadata, normalizes the catalog into a
//! path-keyed index, matches installs to catalog entries, decides which
//! installs are outdated, and verifies downloaded archives by checksum.

pub mod text;
pub mod title;
pub mod manifest;
pub mod catalog;
pub mod reconcile;
pub mod download;
pub mod discovery;
