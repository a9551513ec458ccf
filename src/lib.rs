//! Decisions of a batch that brings one branch up to date in every git
//! repository directly under a folder: which entries to visit, whether a
//! repository has the branch, what to run there, and how a command's output
//! is reported. Running git and reading the folder is left to the caller.
use vstd::prelude::*;

pub mod listing;
pub mod plan;
pub mod report;

verus! {

} // verus!
