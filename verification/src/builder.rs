//! The texts of the build window.
use vstd::prelude::*;

use crate::text::{push_str, string_from_chars};

verus! {

/// The window title: the tool's name and the working directory, as written by
/// the caller (normalised for display).
pub fn title(working_directory: &str) -> (title: String)
    ensures
        title@ == "Patmat "@ + working_directory@,
{
    let mut chars: Vec<char> = Vec::new();
    push_str("Patmat ", &mut chars);
    push_str(working_directory, &mut chars);
    string_from_chars(&chars)
}

} // verus!
