//! Where the faculty's timetable pages are found.

use vstd::prelude::*;
use vstd::string::StringExecFns;

verus! {

/// The address of a group's page, up to the group's identifier.
pub const ALLOCATIONS: &'static str =
    "https://urnik.fri.uni-lj.si/timetable/fri-2024_2025-letni/allocations?group=";

/// The address of the page that lists the classes of `group`: `ALLOCATIONS`
/// followed by the identifier as it is.
pub fn allocations_url(group: &str) -> (url: String)
    ensures
        url@ == ALLOCATIONS@ + group@,
{
    let mut url = ALLOCATIONS.to_string();
    url.append(group);
    url
}

} // verus!
