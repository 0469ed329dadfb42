//! File facts the launcher relies on.

use vstd::prelude::*;

verus! {

/// Whether a file with these facts can be run: a regular file with an
/// execute bit set for its owner, group or others.
pub fn is_executable(is_file: bool, mode: u32) -> (executable: bool)
    ensures
        executable == (is_file && mode & 0o111 != 0),
{
    is_file && mode & 0o111 != 0
}

} // verus!
