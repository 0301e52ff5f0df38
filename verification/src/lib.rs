//! Module paths, import expressions and the source rewriter of a package tool
//! for Scala projects, with the write cache its stages share.

#![verifier::loop_isolation(false)]

pub mod text;
pub mod modpath;
pub mod strset;
pub mod import;
pub mod manifest;
pub mod rewrite;
pub mod target;
pub mod preprocess;
pub mod cache;
pub mod config;
pub mod resolve;
pub mod init;
