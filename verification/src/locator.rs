//! The file locator's filter: which files of the tree are generated request
//! descriptors.

use crate::text::{chars_of, ends_with, matches_at};
use vstd::prelude::*;

verus! {

/// What the name of a generated request file ends with.
pub open spec fn graphql_suffix() -> Seq<char> {
    ".graphql.ts"@
}

/// Whether a file of this name is a generated request file: its name ends
/// with `.graphql.ts`.
pub fn is_graphql(file_name: &str) -> (b: bool)
    ensures
        b == ends_with(file_name@, graphql_suffix()),
{
    let name = chars_of(file_name);
    let suffix = chars_of(".graphql.ts");
    if suffix.len() > name.len() {
        return false;
    }
    let at = name.len() - suffix.len();
    assert(name@.subrange(at as int, name.len() as int).subrange(0, suffix.len() as int)
        =~= name@.subrange(at as int, at + suffix.len()));
    matches_at(&name, at, name.len(), &suffix)
}

} // verus!
