//! Reading what `git rev-parse HEAD` printed.

use vstd::prelude::*;

use crate::text::{trim, trim_str};

verus! {

/// The commit hash that `git rev-parse HEAD` printed: its output without the
/// surrounding whitespace, or nothing when that is empty.
pub fn hash_from_output(stdout: &str) -> (r: Option<String>)
    ensures
        match r {
            Some(h) => trim(stdout@).len() > 0 && h@ == trim(stdout@),
            None => trim(stdout@).len() == 0,
        },
{
    let hash = trim_str(stdout);
    if hash.unicode_len() == 0 {
        None
    } else {
        Some(hash.to_string())
    }
}

} // verus!
