//! Semantic-version bookkeeping over repository tags: find the highest
//! `major.minor.patch` triple among a collection of tag names and compute the
//! version that follows it for a requested bump level.

pub mod decimal;
pub mod pattern;
pub mod resolve;
pub mod next;

pub use crate::next::{bump, try_bump, Level};
pub use crate::resolve::{semver, try_semver, TagReading};
