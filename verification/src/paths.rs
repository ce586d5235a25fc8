//! Turning a reference into the absolute path of the file it names.

use crate::text::text_of;
use path_absolutize::Absolutize;
use std::path::Path;
use vstd::prelude::*;

verus! {

/// Whether `path` is absolute, by the platform's path rules.
pub uninterp spec fn path_is_absolute(path: Seq<char>) -> bool;

/// The directory that holds `path`, by the platform's path rules; `None`
/// where the path ends in a root or is empty.
pub uninterp spec fn path_parent(path: Seq<char>) -> Option<Seq<char>>;

/// `path` adjoined to `base`, by the platform's path rules.
pub uninterp spec fn path_joined(base: Seq<char>, path: Seq<char>) -> Seq<char>;

/// The absolute `path` with its `.` and `..` components resolved, without a
/// look at the file system; `None` where that fails.
pub uninterp spec fn path_normalized(path: Seq<char>) -> Option<Seq<char>>;

/// `std::path::Path::is_absolute`. Trusted: the answer is a function of the
/// path's text.
#[verifier::external_body]
fn is_absolute(path: &str) -> (absolute: bool)
    ensures
        absolute == path_is_absolute(path@),
{
    Path::new(path).is_absolute()
}

/// `std::path::Path::parent`. Trusted: the parent is a function of the path's
/// text.
#[verifier::external_body]
fn parent(path: &str) -> (dir: Option<String>)
    ensures
        text_of(dir) == path_parent(path@),
{
    Path::new(path).parent().map(|dir| dir.to_string_lossy().into_owned())
}

/// `std::path::Path::join`. Trusted: the joined path is a function of the two
/// texts.
#[verifier::external_body]
fn join(base: &str, path: &str) -> (joined: String)
    ensures
        joined@ == path_joined(base@, path@),
{
    Path::new(base).join(path).to_string_lossy().into_owned()
}

/// `path_absolutize::Absolutize::absolutize_from` on an absolute path, which
/// never consults the working directory it is handed. Trusted: the outcome is
/// a function of the path's text.
#[verifier::external_body]
fn normalize(path: &str) -> (normal: Option<String>)
    requires
        path_is_absolute(path@),
    ensures
        text_of(normal) == path_normalized(path@),
{
    Path::new(path).absolutize_from(Path::new("/")).ok().map(
        |normal| normal.to_string_lossy().into_owned(),
    )
}

/// The absolute path that `path` names when relative paths start at `base`:
/// `path` itself where it is absolute, else `base` with `path` adjoined; in
/// both cases normalized. `None` where the result would still be relative.
pub open spec fn anchored(path: Seq<char>, base: Seq<char>) -> Option<Seq<char>> {
    let candidate = if path_is_absolute(path) {
        path
    } else {
        path_joined(base, path)
    };
    if path_is_absolute(candidate) {
        path_normalized(candidate)
    } else {
        None
    }
}

/// The directory that relative references in `containing_file` start at: its
/// parent, or the file's own path where it has none.
pub open spec fn reference_base(containing_file: Seq<char>) -> Seq<char> {
    match path_parent(containing_file) {
        Some(dir) => dir,
        None => containing_file,
    }
}

/// The path that a reference written in `containing_file` resolves to.
pub open spec fn resolved(reference: Seq<char>, containing_file: Seq<char>) -> Option<Seq<char>> {
    anchored(reference, reference_base(containing_file))
}

/// Makes `path` absolute and normal, taking relative paths to start at `base`.
pub fn anchor(path: &str, base: &str) -> (absolute: Option<String>)
    ensures
        text_of(absolute) == anchored(path@, base@),
{
    if is_absolute(path) {
        normalize(path)
    } else {
        let candidate = join(base, path);
        if is_absolute(candidate.as_str()) {
            normalize(candidate.as_str())
        } else {
            None
        }
    }
}

/// Resolves a reference, after alias substitution, written in
/// `containing_file`: an absolute reference is normalized; a relative one is
/// joined to the directory of the containing file, or to the file's own path
/// where it has no parent, and normalized. The file system is not consulted.
pub fn resolve(reference: &str, containing_file: &str) -> (path: Option<String>)
    ensures
        text_of(path) == resolved(reference@, containing_file@),
{
    match parent(containing_file) {
        Some(dir) => anchor(reference, dir.as_str()),
        None => anchor(reference, containing_file),
    }
}

} // verus!
