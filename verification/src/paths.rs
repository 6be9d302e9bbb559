use vstd::prelude::*;

verus! {

/// What `Path::parent` gives for a path: the path without its last
/// component, or `None` for a path that ends in a root or is empty.
pub uninterp spec fn path_parent(p: Seq<char>) -> Option<Seq<char>>;

/// What `Path::join` gives for a base path and a path to add to it.
pub uninterp spec fn path_joined(base: Seq<char>, rest: Seq<char>) -> Seq<char>;

/// The parent directory of a path.
///
/// Trusted: calls `std::path::Path::parent` on the path and reads the result
/// back as text; the path comes from UTF-8 text, so nothing is lost in that
/// conversion. The result is a function of the path alone (`path_parent`).
#[verifier::external_body]
pub(crate) fn parent_of(p: &str) -> (r: Option<String>)
    ensures
        match r {
            Some(q) => path_parent(p@) == Some(q@),
            None => path_parent(p@) is None,
        },
{
    std::path::Path::new(p).parent().map(|q| q.to_string_lossy().into_owned())
}

/// `rest` joined onto `base`.
///
/// Trusted: calls `std::path::Path::join` and reads the result back as text;
/// both inputs are UTF-8, so nothing is lost in that conversion. The result is
/// a function of the two paths alone (`path_joined`).
#[verifier::external_body]
pub(crate) fn join_path(base: &str, rest: &str) -> (r: String)
    ensures
        r@ == path_joined(base@, rest@),
{
    std::path::Path::new(base).join(rest).to_string_lossy().into_owned()
}

} // verus!
