//! What `cargo locate-project --message-format plain` reports.
use vstd::prelude::*;

use crate::text::{chars_of, string_of, trim, trim_chars};

verus! {

/// The manifest path in the output, if the output names one.
pub open spec fn manifest_in_output(stdout: Seq<char>) -> Option<Seq<char>> {
    if trim(stdout).len() == 0 {
        None
    } else {
        Some(trim(stdout))
    }
}

/// The manifest path printed by `cargo locate-project`: the output without
/// surrounding whitespace, or nothing when that is empty.
pub fn manifest_path(stdout: &str) -> (r: Option<String>)
    ensures
        crate::config::opt_view(r) == manifest_in_output(stdout@),
{
    let v = chars_of(stdout);
    let t = trim_chars(&v);
    if t.len() == 0 {
        None
    } else {
        Some(string_of(&t))
    }
}

} // verus!
