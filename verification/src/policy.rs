//! Entry filter policy: decides whether an entry is eligible for
//! classification at all, before any metadata is consulted.

use vstd::prelude::*;

verus! {

/// An entry is eligible when it is a directory, or when the audit is not
/// restricted to directories. Directories are always eligible; files are
/// eligible only when the directories-only switch is off.
pub open spec fn eligible(entry_is_directory: bool, directories_only: bool) -> bool {
    entry_is_directory || !directories_only
}

/// Pure eligibility decision, applied to every discovered entry before the
/// access classifier runs.
pub fn is_eligible(entry_is_directory: bool, directories_only: bool) -> (r: bool)
    ensures
        r == eligible(entry_is_directory, directories_only),
{
    entry_is_directory || !directories_only
}

} // verus!
