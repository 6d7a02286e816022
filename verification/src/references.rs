//! Module references: imports, re-exports, requires, dynamic imports, import
//! types, module augmentations and triple-slash reference pragmas, with the
//! files each one makes the project depend on.
use crate::path::EscModulePath;
use crate::text::{chars_have_at, chars_of, has_at, string_of};
use vstd::prelude::*;

verus! {

/// How a module refers to another.
#[derive(Clone, Copy, Debug, PartialEq, Eq)]
pub enum EscModuleReferenceKind {
    Import,
    Export,
    Require,
    ImportEquals,
    DynamicImport,
    ImportType,
    Augmentation,
    Path,
    Types,
}

/// A source range, by byte offsets.
#[derive(Clone, Copy, Debug, PartialEq, Eq)]
pub struct EscSpan {
    pub start: u32,
    pub end: u32,
}

/// What a reference asks for and where.
#[derive(Debug)]
pub struct EscModuleReferenceInfo {
    pub specifier: String,
    /// Location of the module specifier (the comment for reference pragmas).
    pub span: EscSpan,
    pub kind: EscModuleReferenceKind,
    /// Explicit type syntax, or a reference inside a declaration/ambient body.
    pub type_only: bool,
}

/// A reference together with how it resolved.
#[derive(Debug)]
pub enum EscModuleReference {
    /// OS/runtime-provided modules, such as fs and node:fs; no source to load.
    Internal { info: EscModuleReferenceInfo, name: String },
    External {
        info: EscModuleReferenceInfo,
        /// Runtime/source file, or the declaration when no runtime file exists.
        module: EscModulePath,
        /// Separate type-facing file, if resolution found one.
        types: Option<EscModulePath>,
    },
    /// Preserve the request and its location even when it cannot be resolved.
    Unresolved { info: EscModuleReferenceInfo },
}

/// The files a reference makes its module depend on: a type-only reference
/// needs only the type-facing file (or the module when there is none), other
/// resolved references need the module and then the type-facing file.
pub open spec fn reference_dependencies(r: EscModuleReference) -> Seq<Seq<u8>> {
    match r {
        EscModuleReference::External { info, module, types } => {
            if info.type_only {
                match types {
                    Some(t) => seq![t@],
                    None => seq![module@],
                }
            } else {
                match types {
                    Some(t) => seq![module@, t@],
                    None => seq![module@],
                }
            }
        },
        _ => seq![],
    }
}

/// The dependencies of a sequence of references, in order.
pub open spec fn dependencies_of(refs: Seq<EscModuleReference>) -> Seq<Seq<u8>>
    decreases refs.len(),
{
    if refs.len() == 0 {
        seq![]
    } else {
        dependencies_of(refs.drop_last()) + reference_dependencies(refs.last())
    }
}

/// The views of a sequence of module paths.
pub open spec fn path_views(s: Seq<EscModulePath>) -> Seq<Seq<u8>> {
    s.map_values(|p: EscModulePath| p@)
}

impl EscModuleReference {
    pub fn info(&self) -> (r: &EscModuleReferenceInfo)
        ensures
            r == match self {
                EscModuleReference::Internal { info, .. } => info,
                EscModuleReference::External { info, .. } => info,
                EscModuleReference::Unresolved { info } => info,
            },
    {
        match self {
            EscModuleReference::Internal { info, .. } => info,
            EscModuleReference::External { info, .. } => info,
            EscModuleReference::Unresolved { info } => info,
        }
    }

    /// Appends the files this reference depends on.
    pub fn push_dependencies(&self, out: &mut Vec<EscModulePath>)
        ensures
            path_views(final(out)@) == path_views(old(out)@) + reference_dependencies(*self),
    {
        let ghost before = out@;
        match self {
            EscModuleReference::External { info, module, types } => {
                if info.type_only {
                    match types {
                        Some(t) => out.push(t.duplicate()),
                        None => out.push(module.duplicate()),
                    }
                } else {
                    out.push(module.duplicate());
                    match types {
                        Some(t) => out.push(t.duplicate()),
                        None => {},
                    }
                }
            },
            _ => {},
        }
        assert(path_views(out@) =~= path_views(before) + reference_dependencies(*self));
    }

    /// The files this reference depends on.
    pub fn dependencies(&self) -> (r: Vec<EscModulePath>)
        ensures
            path_views(r@) == reference_dependencies(*self),
    {
        let mut out: Vec<EscModulePath> = Vec::new();
        self.push_dependencies(&mut out);
        assert(path_views(Seq::<EscModulePath>::empty()) =~= Seq::<Seq<u8>>::empty());
        assert(Seq::<Seq<u8>>::empty() + reference_dependencies(*self) =~= reference_dependencies(
            *self,
        ));
        out
    }
}

/// Appends the dependencies of each reference in order.
fn push_all_dependencies(refs: &Vec<EscModuleReference>, out: &mut Vec<EscModulePath>)
    ensures
        path_views(final(out)@) == path_views(old(out)@) + dependencies_of(refs@),
{
    let ghost start = path_views(out@);
    let mut k: usize = 0;
    assert(refs@.take(0) =~= Seq::<EscModuleReference>::empty());
    assert(start + dependencies_of(Seq::<EscModuleReference>::empty()) =~= start);
    while k < refs.len()
        invariant
            0 <= k <= refs@.len(),
            path_views(out@) == start + dependencies_of(refs@.take(k as int)),
        decreases refs@.len() - k,
    {
        refs[k].push_dependencies(out);
        proof {
            let next = refs@.take(k + 1);
            assert(next.drop_last() =~= refs@.take(k as int));
            assert(next.last() == refs@[k as int]);
            assert(start + dependencies_of(refs@.take(k as int)) + reference_dependencies(
                refs@[k as int],
            ) =~= start + dependencies_of(next));
        }
        k = k + 1;
    }
    assert(refs@.take(refs@.len() as int) =~= refs@);
}

/// All references of a module, by the list that holds them.
#[derive(Debug)]
pub struct EscModuleReferences {
    /// Static imports/re-exports, then dynamic calls and import types, each in source order.
    pub imports: Vec<EscModuleReference>,
    pub module_augmentations: Vec<EscModuleReference>,
    pub referenced_files: Vec<EscModuleReference>,
    pub type_reference_directives: Vec<EscModuleReference>,
}

impl EscModuleReferences {
    pub fn new() -> (r: Self)
        ensures
            r.imports@.len() == 0,
            r.module_augmentations@.len() == 0,
            r.referenced_files@.len() == 0,
            r.type_reference_directives@.len() == 0,
    {
        EscModuleReferences {
            imports: Vec::new(),
            module_augmentations: Vec::new(),
            referenced_files: Vec::new(),
            type_reference_directives: Vec::new(),
        }
    }

    /// The files the module depends on: those of referenced files, then type
    /// reference directives, then imports, then module augmentations.
    pub fn dependencies(&self) -> (r: Vec<EscModulePath>)
        ensures
            path_views(r@) == dependencies_of(self.referenced_files@) + dependencies_of(
                self.type_reference_directives@,
            ) + dependencies_of(self.imports@) + dependencies_of(self.module_augmentations@),
    {
        let mut out: Vec<EscModulePath> = Vec::new();
        assert(path_views(out@) =~= Seq::<Seq<u8>>::empty());
        push_all_dependencies(&self.referenced_files, &mut out);
        push_all_dependencies(&self.type_reference_directives, &mut out);
        push_all_dependencies(&self.imports, &mut out);
        push_all_dependencies(&self.module_augmentations, &mut out);
        assert(Seq::<Seq<u8>>::empty() + dependencies_of(self.referenced_files@) =~= dependencies_of(
            self.referenced_files@,
        ));
        out
    }
}

/// Whether a module name is relative: `.` or `..`, alone or followed by a separator.
pub open spec fn spec_is_relative_module_name(name: Seq<char>) -> bool {
    let rest = if has_at(name, 0, ".."@) {
        ".."@.len() as int
    } else if has_at(name, 0, "."@) {
        "."@.len() as int
    } else {
        -1
    };
    rest >= 0 && (rest == name.len() || name[rest] == '/' || name[rest] == '\\')
}

/// Whether a module name is relative: `.` or `..`, alone or followed by a separator.
pub fn is_external_module_name_relative(name: &str) -> (r: bool)
    ensures
        r == spec_is_relative_module_name(name@),
{
    let chars = chars_of(name);
    let rest = if chars_have_at(&chars, 0, "..") {
        chars_of("..").len()
    } else if chars_have_at(&chars, 0, ".") {
        chars_of(".").len()
    } else {
        return false;
    };
    rest == chars.len() || chars[rest] == '/' || chars[rest] == '\\'
}

/// Whether `c` has the Unicode `White_Space` property, as `char::is_whitespace` tests.
pub open spec fn is_white_space(c: char) -> bool {
    let u = c as u32;
    (9 <= u <= 13) || u == 32 || u == 0x85 || u == 0xa0 || u == 0x1680 || (0x2000 <= u <= 0x200a)
        || u == 0x2028 || u == 0x2029 || u == 0x202f || u == 0x205f || u == 0x3000
}

fn white_space(c: char) -> (r: bool)
    ensures
        r == is_white_space(c),
{
    let u = c as u32;
    (9 <= u && u <= 13) || u == 32 || u == 0x85 || u == 0xa0 || u == 0x1680 || (0x2000 <= u && u
        <= 0x200a) || u == 0x2028 || u == 0x2029 || u == 0x202f || u == 0x205f || u == 0x3000
}

/// The position of the first character at or after `i` that is not white space.
pub open spec fn skip_white_space(s: Seq<char>, i: int) -> int
    decreases s.len() - i,
{
    if 0 <= i < s.len() && is_white_space(s[i]) {
        skip_white_space(s, i + 1)
    } else {
        i
    }
}

/// The position of the first `c` at or after `i`.
pub open spec fn find_char(s: Seq<char>, c: char, i: int) -> Option<int>
    decreases s.len() - i,
{
    if i < 0 || i >= s.len() {
        None
    } else if s[i] == c {
        Some(i)
    } else {
        find_char(s, c, i + 1)
    }
}

/// The quoted value of a pragma attribute, where `at` follows the attribute name.
pub open spec fn pragma_value(content: Seq<char>, name: Seq<char>, at: int) -> Option<
    (Seq<char>, Seq<char>),
> {
    let eq = skip_white_space(content, at);
    if !has_at(content, eq, "="@) {
        None
    } else {
        let open = skip_white_space(content, eq + "="@.len());
        if open < content.len() && (content[open] == '"' || content[open] == '\'') {
            match find_char(content, content[open], open + 1) {
                Some(close) => Some((name, content.subrange(open + 1, close))),
                None => None,
            }
        } else {
            None
        }
    }
}

/// The attribute name and value of a `/ <reference path|types|lib = "..." />`
/// line-comment body (the leading `//` already stripped): the attribute must
/// directly follow `<reference`, and the value ends at the next matching quote.
pub open spec fn spec_reference_pragma(content: Seq<char>) -> Option<(Seq<char>, Seq<char>)> {
    if !has_at(content, 0, "/"@) {
        None
    } else {
        let tag = skip_white_space(content, "/"@.len() as int);
        if !has_at(content, tag, "<reference"@) {
            None
        } else {
            let attr = skip_white_space(content, tag + "<reference"@.len());
            if has_at(content, attr, "path"@) {
                pragma_value(content, "path"@, attr + "path"@.len())
            } else if has_at(content, attr, "types"@) {
                pragma_value(content, "types"@, attr + "types"@.len())
            } else if has_at(content, attr, "lib"@) {
                pragma_value(content, "lib"@, attr + "lib"@.len())
            } else {
                None
            }
        }
    }
}

fn skip_ws(s: &Vec<char>, i: usize) -> (r: usize)
    requires
        i <= s@.len(),
    ensures
        r as int == skip_white_space(s@, i as int),
        i <= r <= s@.len(),
{
    let mut j = i;
    while j < s.len() && white_space(s[j])
        invariant
            i <= j <= s@.len(),
            skip_white_space(s@, i as int) == skip_white_space(s@, j as int),
        decreases s@.len() - j,
    {
        j = j + 1;
    }
    j
}

fn find_char_at(s: &Vec<char>, c: char, i: usize) -> (r: Option<usize>)
    requires
        i <= s@.len(),
    ensures
        match r {
            Some(k) => find_char(s@, c, i as int) == Some(k as int) && i <= k < s@.len(),
            None => find_char(s@, c, i as int) is None,
        },
{
    let mut j = i;
    while j < s.len()
        invariant
            i <= j <= s@.len(),
            find_char(s@, c, i as int) == find_char(s@, c, j as int),
        decreases s@.len() - j,
    {
        if s[j] == c {
            return Some(j);
        }
        j = j + 1;
    }
    None
}

fn parse_value(content: &Vec<char>, name: &'static str, at: usize) -> (r: Option<(&'static str, String)>)
    requires
        at <= content@.len(),
    ensures
        match r {
            Some((n, v)) => pragma_value(content@, name@, at as int) == Some((n@, v@)),
            None => pragma_value(content@, name@, at as int) is None,
        },
{
    let eq = skip_ws(content, at);
    if !chars_have_at(content, eq, "=") {
        return None;
    }
    let step = chars_of("=").len();
    assert(eq + step <= content.len());
    let open = skip_ws(content, eq + step);
    if open < content.len() && (content[open] == '"' || content[open] == '\'') {
        match find_char_at(content, content[open], open + 1) {
            Some(close) => {
                let mut value: Vec<char> = Vec::new();
                let mut k = open + 1;
                while k < close
                    invariant
                        open + 1 <= k <= close,
                        close < content@.len(),
                        value@ == content@.subrange(open + 1, k as int),
                    decreases close - k,
                {
                    value.push(content[k]);
                    k = k + 1;
                    assert(value@ =~= content@.subrange(open + 1, k as int));
                }
                Some((name, string_of(&value)))
            },
            None => None,
        }
    } else {
        None
    }
}

/// Parses a `/ <reference path|types|lib = "..." />` line-comment body.
pub fn parse_reference_pragma(content: &str) -> (r: Option<(&'static str, String)>)
    ensures
        match r {
            Some((n, v)) => spec_reference_pragma(content@) == Some((n@, v@)),
            None => spec_reference_pragma(content@) is None,
        },
{
    let content = chars_of(content);
    if !chars_have_at(&content, 0, "/") {
        return None;
    }
    let tag = skip_ws(&content, chars_of("/").len());
    if !chars_have_at(&content, tag, "<reference") {
        return None;
    }
    let attr = skip_ws(&content, tag + chars_of("<reference").len());
    if chars_have_at(&content, attr, "path") {
        parse_value(&content, "path", attr + chars_of("path").len())
    } else if chars_have_at(&content, attr, "types") {
        parse_value(&content, "types", attr + chars_of("types").len())
    } else if chars_have_at(&content, attr, "lib") {
        parse_value(&content, "lib", attr + chars_of("lib").len())
    } else {
        None
    }
}

} // verus!
