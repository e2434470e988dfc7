//! The menu that lists the targets of a build.
use vstd::prelude::*;

verus! {

/// The entry the target menu opens on: the one selected before, or the last one
/// when fewer entries are left; no menu at all when there is no target.
pub fn default_index(selected_index: usize, count: usize) -> (index: Option<usize>)
    ensures
        count == 0 <==> index is None,
        index matches Some(i) ==> i < count && i == (if selected_index < count { selected_index } else { (count - 1) as usize }),
{
    if count == 0 {
        None
    } else if selected_index < count {
        Some(selected_index)
    } else {
        Some(count - 1)
    }
}

} // verus!
