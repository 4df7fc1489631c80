//! Staging of configuration files for an external visual diff/merge tool.
//!
//! The library computes, as plain data, everything the staging transaction
//! decides: which files are copied or renamed into their staged names, the
//! argument list handed to the external tool, and which renames and removals
//! restore the expected layout afterwards.  A small model of a file system
//! lets the effect of a whole operation be stated and proved.

pub mod fsmodel;
pub mod laws;
pub mod paths;
pub mod plan;
pub mod staging;
