//! Verified core of a shim around the `jabba` Java version manager.

pub mod text;
pub mod select;
pub mod shim;
pub mod noshim;
pub mod download;
pub mod sha256;
