use vstd::prelude::*;

verus! {

broadcast use vstd::string::group_string_axioms;

/// The extension of the last component of a path, as `Path::extension`
/// finds it.
pub uninterp spec fn path_extension(path: Seq<char>) -> Option<Seq<char>>;

/// The last component of a path without its extension, as
/// `Path::file_stem` finds it.
pub uninterp spec fn path_stem(path: Seq<char>) -> Option<Seq<char>>;

/// A path with its last component replaced, as `Path::with_file_name`
/// makes it.
pub uninterp spec fn path_with_file_name(path: Seq<char>, name: Seq<char>) -> Seq<char>;

/// A path with its extension replaced, as `Path::with_extension` makes it.
pub uninterp spec fn path_with_extension(path: Seq<char>, ext: Seq<char>) -> Seq<char>;

/// The extension of `path`, from `std::path::Path::extension`.
///
/// Trusted: which part of a path is its extension follows the standard
/// library's rules for path components, which are only named here.
#[verifier::external_body]
pub(crate) fn extension(path: &str) -> (r: Option<String>)
    ensures
        match r {
            Some(e) => path_extension(path@) == Some(e@),
            None => path_extension(path@) is None,
        },
{
    std::path::Path::new(path).extension().map(|e| e.to_string_lossy().into_owned())
}

/// The file name of `path` without its extension, from
/// `std::path::Path::file_stem`.
///
/// Trusted: which part of a path is its stem follows the standard library's
/// rules for path components, which are only named here.
#[verifier::external_body]
pub(crate) fn file_stem(path: &str) -> (r: Option<String>)
    ensures
        match r {
            Some(e) => path_stem(path@) == Some(e@),
            None => path_stem(path@) is None,
        },
{
    std::path::Path::new(path).file_stem().map(|e| e.to_string_lossy().into_owned())
}

/// `path` with its file name replaced by `name`, from
/// `std::path::Path::with_file_name`.
///
/// Trusted: the result follows the standard library's rules for path
/// components, which are only named here.
#[verifier::external_body]
pub(crate) fn with_file_name(path: &str, name: &str) -> (r: String)
    ensures
        r@ == path_with_file_name(path@, name@),
{
    std::path::Path::new(path).with_file_name(name).to_string_lossy().into_owned()
}

/// `path` with its extension replaced by `ext`, from
/// `std::path::Path::with_extension`, which panics on an extension that
/// holds a path separator; such extensions are left out.
///
/// Trusted: the result follows the standard library's rules for path
/// components, which are only named here.
#[verifier::external_body]
pub(crate) fn with_extension(path: &str, ext: &str) -> (r: String)
    requires
        !ext@.contains('/'),
        !ext@.contains('\\'),
    ensures
        r@ == path_with_extension(path@, ext@),
{
    std::path::Path::new(path).with_extension(ext).to_string_lossy().into_owned()
}

} // verus!
