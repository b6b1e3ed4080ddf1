//! An overlay filesystem: an upper layer of created and changed entries over a
//! read-only base directory, with whiteouts that hide deleted base entries.
pub mod base;
pub mod changes;
pub mod cli;
pub mod clock;
pub mod db;
pub mod laws;
pub mod nfs;
pub mod overlay;
pub mod sandbox;
pub mod text;
