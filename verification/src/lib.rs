//! Verified core of a conservative uploader for research artifacts: manifest
//! validation, artifact collection decisions, archive member naming, checksum
//! and metadata construction, and the small text and path helpers they share.

pub mod archive;
pub mod cli;
pub mod collect;
pub mod gitinfo;
pub mod manifest;
pub mod metadata;
pub mod oss;
pub mod paths;
pub mod records;
pub mod sorting;
pub mod subprocess_utils;
pub mod text;
