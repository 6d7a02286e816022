//! The ErrorScript configuration file and the file selection it describes.
use crate::path::{path_bytes, path_join, spec_path_join};
use crate::text::{chars_of, string_of};
use std::path::PathBuf;
use vstd::prelude::*;

verus! {

/// The name of the ErrorScript configuration file.
pub const CONFIG_FILE: &'static str = "errconfig.toml";

/// Contents of `errconfig.toml`.
#[derive(Debug)]
pub struct EscConfigManifest {
    /// Globs relative to this config, replacing tsconfig file selection when set.
    /// Leading `!` patterns exclude matches (including imported dependencies),
    /// regardless of order. Empty or negative-only lists select no entry files.
    pub files: Option<Vec<PathBuf>>,
}

/// A resolved configuration: its manifest, file name and directory.
#[derive(Debug)]
pub struct EscConfig {
    pub manifest: EscConfigManifest,
    pub file_name: PathBuf,
    pub dir: PathBuf,
}

impl EscConfig {
    pub fn dir(&self) -> (r: &PathBuf)
        ensures
            path_bytes(*r) == path_bytes(self.dir),
    {
        &self.dir
    }

    /// The configuration file inside the directory `path`.
    pub fn join_to(path: &PathBuf) -> (r: PathBuf)
        ensures
            path_bytes(r) == spec_path_join(path_bytes(*path), CONFIG_FILE@),
    {
        path_join(path, CONFIG_FILE)
    }
}

/// What one entry of the manifest's `files` does.
#[derive(Debug)]
pub enum PatternRole {
    /// It selects the files it matches.
    Selects,
    /// With its leading `!` taken off, it excludes the files it matches.
    Excludes(String),
    /// A bare `!`, which is refused.
    Invalid,
}

/// Whether a pattern text starts with `!`.
pub open spec fn negated(t: Seq<char>) -> bool {
    t.len() > 0 && t[0] == '!'
}

/// The role of a file pattern, given its text where it is valid UTF-8: one
/// that starts with `!` excludes what the rest matches, a bare `!` is
/// refused, and any other pattern selects.
pub fn pattern_role(text: Option<&str>) -> (r: PatternRole)
    ensures
        !(r is Selects) <==> (text matches Some(t) && negated(t@)),
        r is Invalid <==> (text matches Some(t) && t@ == seq!['!']),
        r matches PatternRole::Excludes(rest) ==> (text matches Some(t) && rest@ == t@.drop_first()),
{
    match text {
        None => PatternRole::Selects,
        Some(t) => {
            let chars = chars_of(t);
            if chars.len() == 0 || chars[0] != '!' {
                return PatternRole::Selects;
            }
            if chars.len() == 1 {
                assert(t@ =~= seq!['!']);
                return PatternRole::Invalid;
            }
            let mut rest: Vec<char> = Vec::new();
            let mut i: usize = 1;
            while i < chars.len()
                invariant
                    1 <= i <= chars@.len(),
                    rest@ == chars@.subrange(1, i as int),
                decreases chars@.len() - i,
            {
                rest.push(chars[i]);
                i = i + 1;
                assert(rest@ =~= chars@.subrange(1, i as int));
            }
            assert(rest@ =~= t@.drop_first());
            assert(t@ != seq!['!']) by {
                assert(t@.len() != 1);
            }
            PatternRole::Excludes(string_of(&rest))
        },
    }
}

/// Whether a path given on the command line names the configuration file
/// itself: an existing file with the `toml` extension that is not
/// `tsconfig.json`. `extension` and `file_name` are the path's, where they
/// are valid UTF-8; an existing file always has a name.
pub fn names_config_file(is_file: bool, extension: Option<&str>, file_name: Option<&str>) -> (r: bool)
    ensures
        r == (is_file && (extension matches Some(e) && e@ == "toml"@) && !(file_name matches Some(n) && n@ == "tsconfig.json"@)),
{
    let toml = match extension {
        Some(e) => crate::text::str_eq(e, "toml"),
        None => false,
    };
    let other = match file_name {
        Some(n) => crate::text::str_eq(n, "tsconfig.json"),
        None => false,
    };
    is_file && toml && !other
}

} // verus!
