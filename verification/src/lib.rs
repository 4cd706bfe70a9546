//! Image indexing for a desktop viewer: which files under the configured
//! folders are images, how a depth-bounded walk over them proceeds, and how
//! the records found are ordered and paged.
//!
//! The library never touches the file system. Its callers observe paths and
//! directories and hand the observations in as plain values; every decision
//! taken on them is made, and proved, here.
pub mod config;
pub mod image;
pub mod listing;
pub mod order;
pub mod scan;
