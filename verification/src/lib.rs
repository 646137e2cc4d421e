//! Group the threads of a live process table by their current kernel stack.
//!
//! The library holds the whole scanning-and-aggregation pipeline: option
//! parsing, stat-line parsing, entry admission and classification, the
//! stack-keyed aggregation, and the rendering of the final report.  The thin
//! binary around it only reads procfs files and prints what the library
//! renders.

pub mod text;
pub mod stat;
pub mod options;
pub mod entry;
pub mod groups;
pub mod sort;
pub mod report;
pub mod paths;
