//! Build-time asset bundling core: walks a modelled directory tree with
//! regex include/ignore filters, turns each discovered file's relative path
//! into a unique Pascal-case identifier, and assembles the ordered list of
//! (identifier, relative path, absolute path) records that a code-emission
//! layer consumes.

pub mod assembly;
pub mod discovery;
pub mod errors;
pub mod naming;
pub mod patterns;
pub mod pipeline;
