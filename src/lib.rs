//! A library of audio files kept in order: stable identities stored in each
//! file's tags, an index from identity to last known location, reconciliation
//! of that index against a scan, and a deterministic layout for sorting.

pub mod cli;
pub mod identity;
pub mod index;
pub mod path;
pub mod reconcile;
pub mod scan;
pub mod song;
pub mod sort;
