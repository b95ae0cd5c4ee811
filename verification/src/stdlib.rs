//! Typing-related import detection for Python import sorting.
//!
//! Stdlib vs third-party classification is delegated to ruff; this module
//! only identifies type-annotation imports (`typing`, `typing_extensions`,
//! `collections.abc`) so they can be pinned to the bottom of their block.
//! Ordering within that group is the natural length-first segment sort.

use vstd::prelude::*;

use crate::text::{chars_eq, to_chars};

verus! {

/// The module paths whose imports are type-annotation-related.
pub open spec fn typing_related(path: Seq<char>) -> bool {
    path == "typing"@ || path == "typing_extensions"@ || path == "collections.abc"@
}

/// Check whether an import path is a type-annotation-related module
/// that should be pinned to the bottom of its import block.
pub fn is_typing_related(path: &str) -> (b: bool)
    ensures
        b == typing_related(path@),
{
    let p = to_chars(path);
    chars_eq(&p, &to_chars("typing")) || chars_eq(&p, &to_chars("typing_extensions")) || chars_eq(
        &p,
        &to_chars("collections.abc"),
    )
}

} // verus!
