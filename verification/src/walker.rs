//! The tree walker's decisions.  The walk itself — stat'ing entries,
//! listing directories, reporting failures — is I/O and stays in the
//! driver; it consults these functions for every choice it makes and
//! hands each surviving entry to the aggregator as a `VisitRecord`.

use vstd::prelude::*;
use vstd::string::*;

verus! {

/// Decides descent: only into a directory, and never through a
/// symlink, so a symlink's target is never visited by way of the link
/// and the walk cannot cycle.
pub fn should_descend(is_dir: bool, is_symlink: bool) -> (r: bool)
    ensures
        r == (is_dir && !is_symlink),
{
    is_dir && !is_symlink
}

/// The root paths a run traverses: the ones given, or the current
/// directory when none were.
pub fn default_roots(roots: Vec<String>) -> (r: Vec<String>)
    ensures
        roots@.len() > 0 ==> r@ == roots@,
        roots@.len() == 0 ==> r@.len() == 1 && r@[0]@ == "."@,
{
    if roots.len() == 0 {
        let mut v: Vec<String> = Vec::new();
        v.push(String::from_str("."));
        v
    } else {
        roots
    }
}

} // verus!
