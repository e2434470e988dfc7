//! The path operations of `std::path` that the library relies on, on paths held as text.
use vstd::prelude::*;

verus! {

/// The path that `std::path::Path::strip_prefix` leaves of `path` once `base` is
/// taken off its front, when `base` is a prefix of it.
pub uninterp spec fn spec_strip_prefix(path: Seq<char>, base: Seq<char>) -> Option<Seq<char>>;

/// Trusted: calls `std::path::Path::strip_prefix` and shows the result with
/// `Path::display`. The claim is only that the result is a function of the two
/// paths, named `spec_strip_prefix`; `None` stands for the error that
/// `strip_prefix` returns when `base` is not a prefix of `path`.
#[verifier::external_body]
pub fn strip_prefix(path: &str, base: &str) -> (stripped: Option<String>)
    ensures
        match stripped {
            Some(rest) => spec_strip_prefix(path@, base@) == Some(rest@),
            None => spec_strip_prefix(path@, base@) is None,
        },
{
    std::path::Path::new(path).strip_prefix(base).ok().map(|rest| rest.display().to_string())
}

/// The path that `std::path::Path::join` makes of `base` and `part`.
pub uninterp spec fn spec_join(base: Seq<char>, part: Seq<char>) -> Seq<char>;

/// Trusted: calls `std::path::Path::join` and shows the result with
/// `Path::display`. The claim is only that the result is a function of the two
/// paths on the platform the crate is built for, named `spec_join`; nothing is
/// claimed of the separator it puts between them.
#[verifier::external_body]
pub fn join(base: &str, part: &str) -> (joined: String)
    ensures
        joined@ == spec_join(base@, part@),
{
    std::path::Path::new(base).join(part).display().to_string()
}

/// The directory that `std::path::Path::parent` gives for `path`, if any.
pub uninterp spec fn spec_parent(path: Seq<char>) -> Option<Seq<char>>;

/// Trusted: calls `std::path::Path::parent` and shows the result with
/// `Path::display`. The claim is that the result is a function of the path,
/// named `spec_parent`, and, as the documentation says, that the empty path and
/// the root have no parent.
#[verifier::external_body]
pub fn parent(path: &str) -> (dir: Option<String>)
    ensures
        path@.len() == 0 || path@ == seq!['/'] ==> dir is None,
        match dir {
            Some(d) => spec_parent(path@) == Some(d@),
            None => spec_parent(path@) is None,
        },
{
    std::path::Path::new(path).parent().map(|dir| dir.display().to_string())
}

} // verus!
