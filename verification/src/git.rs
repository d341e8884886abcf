//! Commit records as supplied by the repository collaborator.
//!
//! The repository itself (opening it, resolving branches, walking commit
//! history) is outside this library; callers hand over plain commit
//! records, newest first, already capped and with merge commits excluded.

use vstd::prelude::*;
use vstd::string::StrSliceExecFns;

use crate::text::{str_to_chars, trim_bounds, trim_spec};

verus! {

/// Information about a single commit.
#[derive(Clone)]
pub struct CommitInfo {
    pub hash: String,
    pub message: String,
    pub author: String,
    pub timestamp: i64,
}

impl CommitInfo {
    /// The commit message with surrounding whitespace removed.
    pub fn clean_message(&self) -> (r: &str)
        ensures
            r@ == trim_spec(self.message@),
    {
        let v = str_to_chars(self.message.as_str());
        let bounds = trim_bounds(&v);
        self.message.as_str().substring_char(bounds.0, bounds.1)
    }
}

} // verus!
