//! Loader for the bank archive format of a 1990s 2D adventure engine:
//! a catalog of entries (`memlib`), raw or compressed bank entries
//! (`bank`), and the LZ-style decompressor that inflates the latter.

pub mod bank;
pub mod memlib;
pub mod resources;
