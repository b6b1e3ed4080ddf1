//! The sandbox profile that keeps a command from writing to the base
//! directory directly, so that its writes go through the overlay.
use vstd::prelude::*;
use crate::text::{chars_of, concat, string_of};

verus! {

/// The profile's text before the protected path: allow everything, then deny
/// writes below the path.
pub open spec fn profile_head() -> Seq<char> {
    "(version 1)\n(allow default)\n\n;; DENY writes to the project directory\n;; These must go through the NFS overlay mount point\n(deny file-write* (subpath \""@
}

/// The profile's text after the protected path.
pub open spec fn profile_tail() -> Seq<char> {
    "\"))\n"@
}

/// The sandbox profile (in Apple's sandbox profile language) that allows
/// everything but writes inside `base_path`.
pub fn generate_profile(base_path: &str) -> (r: String)
    ensures
        r@ == profile_head() + base_path@ + profile_tail(),
{
    let head = chars_of(
        "(version 1)\n(allow default)\n\n;; DENY writes to the project directory\n;; These must go through the NFS overlay mount point\n(deny file-write* (subpath \"",
    );
    let base = chars_of(base_path);
    let tail = chars_of("\"))\n");
    string_of(&concat(&concat(&head, &base), &tail))
}

} // verus!
