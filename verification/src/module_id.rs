//! Module identities: normalized UTF-8 module paths relative to the repository root.
use crate::path::{path_bytes, EscModulePath, EscRepoPath};
use crate::text::str_eq;
use relative_path::{PathExt, RelativePathBuf};
use std::path::PathBuf;
use vstd::prelude::*;

verus! {

#[verifier::external_type_specification]
#[verifier::external_body]
pub struct ExRelativePathBuf(RelativePathBuf);

/// The text of a relative path buffer (`RelativePathBuf::as_str`).
pub uninterp spec fn relative_path_text(p: RelativePathBuf) -> Seq<char>;

/// The text of `path.relative_to(root)` for paths with the given bytes, when it succeeds.
pub uninterp spec fn spec_relative_to(path: Seq<u8>, root: Seq<u8>) -> Option<Seq<char>>;

/// The text of `RelativePath::normalize` applied to a relative path with the given text.
pub uninterp spec fn spec_normalize(text: Seq<char>) -> Seq<char>;

/// `PathExt::relative_to`: the logical path from `root` to `path`, or `None`
/// where the relative path crate reports an error (such as non-UTF-8 components
/// or mismatched absolute prefixes).
#[verifier::external_body]
fn relative_to(path: &PathBuf, root: &PathBuf) -> (r: Option<RelativePathBuf>)
    ensures
        r is Some <==> spec_relative_to(path_bytes(*path), path_bytes(*root)) is Some,
        r matches Some(rel) ==> relative_path_text(rel) == spec_relative_to(
            path_bytes(*path),
            path_bytes(*root),
        )->0,
{
    path.relative_to(root).ok()
}

/// `RelativePath::normalize`: resolves `.` and `..` components logically.
#[verifier::external_body]
fn normalize(p: &RelativePathBuf) -> (r: RelativePathBuf)
    ensures
        relative_path_text(r) == spec_normalize(relative_path_text(*p)),
{
    p.normalize()
}

/// `RelativePath::as_str`.
#[verifier::external_body]
fn relative_as_str(p: &RelativePathBuf) -> (r: &str)
    ensures
        r@ == relative_path_text(*p),
{
    p.as_str()
}

/// `RelativePathBuf::clone`: the clone has the same text.
#[verifier::external_body]
fn relative_clone(p: &RelativePathBuf) -> (r: RelativePathBuf)
    ensures
        relative_path_text(r) == relative_path_text(*p),
{
    p.clone()
}

/// Why a module path has no identity within a repository.
#[derive(Debug)]
pub enum EscModuleIdError {
    /// The module path cannot be expressed relative to the repository root.
    NotRelative,
}

/// A normalized, UTF-8 module path relative to the project's repository root.
/// Identities are ordered by their relative paths.
#[derive(Debug, Hash, PartialOrd, Ord)]
pub struct EscModuleId(RelativePathBuf);

impl View for EscModuleId {
    type V = Seq<char>;

    closed spec fn view(&self) -> Seq<char> {
        relative_path_text(self.0)
    }
}

impl EscModuleId {
    /// The identity of `path`: its normalized path relative to `repo_path`.
    pub fn from_path(path: &EscModulePath, repo_path: &EscRepoPath) -> (r: Result<
        Self,
        EscModuleIdError,
    >)
        ensures
            r is Ok <==> spec_relative_to(path@, repo_path@) is Some,
            r matches Ok(id) ==> id@ == spec_normalize(spec_relative_to(path@, repo_path@)->0),
    {
        match relative_to(path.as_path(), repo_path.as_path()) {
            Some(relative) => Ok(EscModuleId(normalize(&relative))),
            None => Err(EscModuleIdError::NotRelative),
        }
    }

    pub fn as_relative_path(&self) -> (r: &RelativePathBuf)
        ensures
            relative_path_text(*r) == self@,
    {
        &self.0
    }

    pub fn as_str(&self) -> (r: &str)
        ensures
            r@ == self@,
    {
        relative_as_str(&self.0)
    }

    /// A copy with the same path.
    pub fn duplicate(&self) -> (r: Self)
        ensures
            r@ == self@,
    {
        EscModuleId(relative_clone(&self.0))
    }

    /// Whether two identities name the same module.
    pub fn same(&self, other: &Self) -> (r: bool)
        ensures
            r == (self@ == other@),
    {
        str_eq(self.as_str(), other.as_str())
    }
}

impl Clone for EscModuleId {
    fn clone(&self) -> (r: Self)
        ensures
            r@ == self@,
    {
        self.duplicate()
    }
}

impl PartialEq for EscModuleId {
    fn eq(&self, other: &Self) -> (r: bool) {
        self.same(other)
    }
}

impl vstd::std_specs::cmp::PartialEqSpecImpl for EscModuleId {
    open spec fn obeys_eq_spec() -> bool {
        true
    }

    open spec fn eq_spec(&self, other: &Self) -> bool {
        self@ == other@
    }
}

impl Eq for EscModuleId {

}

} // verus!
