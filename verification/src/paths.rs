use vstd::prelude::*;

verus! {

/// The path that `std::path::Path::join` makes of `dir` and `name`: `name`
/// under `dir`, with the separator of the compile target between them, or
/// `name` alone where it is absolute.  The rules are those of the target's
/// platform, so the name is fixed per target.
pub uninterp spec fn joined_path(dir: Seq<char>, name: Seq<char>) -> Seq<char>;

/// `std::path::Path::join`, turned back into a string: the result is
/// [`joined_path`] of the two arguments.  Both arguments are UTF-8, so the
/// joined path is too and the conversion loses nothing.
#[verifier::external_body]
pub(crate) fn join_path(dir: &str, name: &str) -> (r: String)
    ensures
        r@ == joined_path(dir@, name@),
{
    std::path::Path::new(dir).join(name).to_string_lossy().into_owned()
}

/// What a probe of the file system found at a path.
#[derive(Clone, Copy, Debug, PartialEq, Eq, Structural)]
pub enum EntryKind {
    /// Nothing, or nothing that could be read.
    Missing,
    File,
    Directory,
    /// Something that is neither a file nor a directory.
    Other,
}

} // verus!
