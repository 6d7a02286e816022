//! Canonical filesystem paths and the path operations the analysis relies on.
//! Paths are modelled by their platform byte encoding.
use std::path::PathBuf;
use vstd::prelude::*;

verus! {

#[verifier::external_type_specification]
#[verifier::external_body]
pub struct ExPathBuf(PathBuf);

/// The platform byte encoding of a path buffer (its `OsStr` bytes).
pub uninterp spec fn path_bytes(p: PathBuf) -> Seq<u8>;

/// The bytes of `Path::parent` of the path with the given bytes, if it has one.
pub uninterp spec fn spec_path_parent(p: Seq<u8>) -> Option<Seq<u8>>;

/// The bytes of `Path::join(base, name)`.
pub uninterp spec fn spec_path_join(base: Seq<u8>, name: Seq<char>) -> Seq<u8>;

/// `PathBuf::clone`: the clone holds the same bytes.
#[verifier::external_body]
pub(crate) fn path_clone(p: &PathBuf) -> (r: PathBuf)
    ensures
        path_bytes(r) == path_bytes(*p),
{
    p.clone()
}

/// `Path::parent`, owned: the path without its final component, or `None`
/// when the path ends in a root or prefix or is empty.
#[verifier::external_body]
pub(crate) fn path_parent(p: &PathBuf) -> (r: Option<PathBuf>)
    ensures
        r is Some <==> spec_path_parent(path_bytes(*p)) is Some,
        r matches Some(q) ==> path_bytes(q) == spec_path_parent(path_bytes(*p))->0,
{
    p.parent().map(|q| q.to_path_buf())
}

/// `Path::join` with a relative name: the base followed by the name.
#[verifier::external_body]
pub(crate) fn path_join(base: &PathBuf, name: &str) -> (r: PathBuf)
    ensures
        path_bytes(r) == spec_path_join(path_bytes(*base), name@),
{
    base.join(name)
}

/// An absolute filesystem path, canonicalized with symlinks resolved.
#[derive(Debug)]
pub struct EscPath(PathBuf);

impl View for EscPath {
    type V = Seq<u8>;

    closed spec fn view(&self) -> Seq<u8> {
        path_bytes(self.0)
    }
}

impl EscPath {
    /// Wraps a path that the caller has already canonicalized.
    pub fn from_canonical(canonical: PathBuf) -> (r: Self)
        ensures
            r@ == path_bytes(canonical),
    {
        EscPath(canonical)
    }

    pub fn as_path(&self) -> (r: &PathBuf)
        ensures
            path_bytes(*r) == self@,
    {
        &self.0
    }

    /// A parent of a canonical path is already canonical.
    pub fn parent(&self) -> (r: Option<Self>)
        ensures
            r is Some <==> spec_path_parent(self@) is Some,
            r matches Some(q) ==> q@ == spec_path_parent(self@)->0,
    {
        match path_parent(&self.0) {
            Some(parent) => Some(EscPath(parent)),
            None => None,
        }
    }

    pub fn duplicate(&self) -> (r: Self)
        ensures
            r@ == self@,
    {
        EscPath(path_clone(&self.0))
    }
}

/// Why a path cannot serve as a repository root.
#[derive(Debug)]
pub enum EscRepoPathError {
    NotADirectory(EscPath),
}

/// An absolute, canonical repository directory with symlinks resolved.
#[derive(Debug)]
pub struct EscRepoPath(EscPath);

impl View for EscRepoPath {
    type V = Seq<u8>;

    closed spec fn view(&self) -> Seq<u8> {
        self.0@
    }
}

impl EscRepoPath {
    /// Accepts a canonical path as a repository root exactly when it names a
    /// directory (`is_directory`, as observed on the filesystem).
    pub fn try_new(path: EscPath, is_directory: bool) -> (r: Result<Self, EscRepoPathError>)
        ensures
            r is Ok <==> is_directory,
            r matches Ok(repo) ==> repo@ == path@,
            r matches Err(EscRepoPathError::NotADirectory(p)) ==> p@ == path@,
    {
        if is_directory {
            Ok(EscRepoPath(path))
        } else {
            Err(EscRepoPathError::NotADirectory(path))
        }
    }

    pub fn as_path(&self) -> (r: &PathBuf)
        ensures
            path_bytes(*r) == self@,
    {
        self.0.as_path()
    }

    pub fn as_esc_path(&self) -> (r: &EscPath)
        ensures
            r@ == self@,
    {
        &self.0
    }
}

/// A canonical path of a source module.
#[derive(Debug)]
pub struct EscModulePath(PathBuf);

impl View for EscModulePath {
    type V = Seq<u8>;

    closed spec fn view(&self) -> Seq<u8> {
        path_bytes(self.0)
    }
}

impl EscModulePath {
    /// Wraps a module path that the caller has already canonicalized.
    pub fn from_canonical(canonical: PathBuf) -> (r: Self)
        ensures
            r@ == path_bytes(canonical),
    {
        EscModulePath(canonical)
    }

    pub fn as_path(&self) -> (r: &PathBuf)
        ensures
            path_bytes(*r) == self@,
    {
        &self.0
    }

    pub fn duplicate(&self) -> (r: Self)
        ensures
            r@ == self@,
    {
        EscModulePath(path_clone(&self.0))
    }
}

} // verus!
