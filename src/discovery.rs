//! Rules of file discovery that do not touch the file system.

use vstd::prelude::*;
use crate::text::{contains_str, occurs_in};

verus! {

/// Directory names whose files are never scanned.
pub open spec fn ignored_dir_name() -> Seq<char> {
    "site-packages"@
}

/// Whether a found path lies under an ignored directory.
pub fn is_ignored_path(path: &str) -> (r: bool)
    ensures
        r == occurs_in(ignored_dir_name(), path@),
{
    contains_str(path, "site-packages")
}

} // verus!
