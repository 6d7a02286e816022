//! The decisions of a file search by glob patterns: where a pattern's walk
//! starts, which components it still has to match, and what one directory
//! listing contributes for the pattern states that reach it: the entries that
//! match a last component, and the subdirectories visited next in which
//! state. A `**` component matches any number of directories, none included.
use crate::text::{chars_of, str_eq, string_of};
use std::collections::VecDeque;
use vstd::prelude::*;

verus! {

broadcast use vstd::seq_lib::group_seq_properties;

#[verifier::external_type_specification]
#[verifier::external_body]
pub struct ExGlobPattern(glob::Pattern);

#[verifier::external_type_specification]
#[verifier::external_body]
pub struct ExGlobPatternError(glob::PatternError);

/// Whether `glob` matches the name against the pattern text.
pub uninterp spec fn glob_matches(pattern: Seq<char>, name: Seq<char>) -> bool;

/// Whether `glob::Pattern::new` accepts the pattern text.
pub uninterp spec fn glob_accepts(text: Seq<char>) -> bool;

/// Compiles a pattern with `glob::Pattern::new`, which succeeds exactly on
/// the texts it accepts; which texts those are is named, not spelled out.
#[verifier::external_body]
fn compile_glob(text: &str) -> (r: Result<glob::Pattern, glob::PatternError>)
    ensures
        r is Ok <==> glob_accepts(text@),
{
    glob::Pattern::new(text)
}

/// A file pattern that `glob` refused.
#[derive(Debug)]
pub struct InvalidPattern {
    pub pattern: String,
}

/// One compiled component of a file pattern.
#[derive(Debug)]
pub struct PatternPart {
    text: String,
    compiled: glob::Pattern,
}

/// A part is viewed as its text: the compiled pattern is made from the
/// text alone.
impl View for PatternPart {
    type V = Seq<char>;

    closed spec fn view(&self) -> Seq<char> {
        self.text@
    }
}

/// Calls `glob::Pattern::matches_path` on the compiled part, with the path
/// made of `name`. A part is compiled from its text alone, by
/// `PatternPart::new`, so the contract names the answer by that text and
/// the name.
#[verifier::external_body]
fn part_matches(part: &PatternPart, name: &str) -> (r: bool)
    ensures
        r == glob_matches(part@, name@),
{
    part.compiled.matches_path(std::path::Path::new(name))
}

impl PatternPart {
    /// Compiles the pattern text.
    pub fn new(text: &str) -> (r: Result<PatternPart, InvalidPattern>)
        ensures
            r is Ok <==> glob_accepts(text@),
            r matches Ok(p) ==> p@ == text@,
            r matches Err(e) ==> e.pattern@ == text@,
    {
        let own = string_of(&chars_of(text));
        match compile_glob(text) {
            Ok(compiled) => Ok(PatternPart { text: own, compiled }),
            Err(_) => Err(InvalidPattern { pattern: own }),
        }
    }

    /// The pattern text.
    pub fn as_str(&self) -> (r: &str)
        ensures
            r@ == self@,
    {
        self.text.as_str()
    }
}

/// Whether a component holds a glob metacharacter.
pub open spec fn is_wild(s: Seq<char>) -> bool {
    s.contains('*') || s.contains('?') || s.contains('[')
}

/// Where the fixed directory prefix of a pattern's components ends, looking
/// from component `i`: at the first component with a metacharacter, and
/// never after the last but one.
pub open spec fn prefix_end(components: Seq<Seq<char>>, i: int) -> int
    decreases components.len() - i,
{
    if 0 <= i && i + 1 < components.len() && !is_wild(components[i]) {
        prefix_end(components, i + 1)
    } else {
        i
    }
}

/// The views of a sequence of strings.
pub open spec fn texts(s: Seq<String>) -> Seq<Seq<char>> {
    s.map_values(|t: String| t@)
}

/// Whether `c` is in `s`.
fn has_char(s: &str, c: char) -> (r: bool)
    ensures
        r == s@.contains(c),
{
    let chars = chars_of(s);
    let mut i: usize = 0;
    while i < chars.len()
        invariant
            chars@ == s@,
            0 <= i <= chars@.len(),
            forall|j: int| 0 <= j < i ==> chars@[j] != c,
        decreases chars@.len() - i,
    {
        if chars[i] == c {
            assert(s@[i as int] == c);
            return true;
        }
        i = i + 1;
    }
    false
}

/// Checks a whole file pattern and finds where its walk starts. `None`
/// when the pattern ends with a separator: it selects directories, never
/// source files. Otherwise the number of leading components that form the
/// fixed directory the walk starts from.
pub fn pattern_root(text: &str, components: &Vec<String>) -> (r: Result<Option<usize>, InvalidPattern>)
    ensures
        r is Err <==> !glob_accepts(text@),
        r matches Err(e) ==> e.pattern@ == text@,
        r matches Ok(Some(n)) ==> n == prefix_end(texts(components@), 0) && !(text@.len() > 0 && text@.last() == '/'),
        r matches Ok(None) ==> text@.len() > 0 && text@.last() == '/',
{
    match PatternPart::new(text) {
        Err(e) => {
            return Err(e);
        },
        Ok(_) => {},
    }
    let chars = chars_of(text);
    if chars.len() > 0 && chars[chars.len() - 1] == '/' {
        return Ok(None);
    }
    let ghost c = texts(components@);
    let mut index: usize = 0;
    while components.len() > 0 && index < components.len() - 1 && !(has_char(components[index].as_str(), '*') || has_char(components[index].as_str(), '?')
        || has_char(components[index].as_str(), '['))
        invariant
            c == texts(components@),
            0 <= index < components@.len() || (index == 0 && components@.len() == 0),
            prefix_end(c, 0) == prefix_end(c, index as int),
        decreases components@.len() - index,
    {
        assert(c[index as int] == components@[index as int]@);
        index = index + 1;
    }
    proof {
        if index + 1 < components@.len() {
            assert(c[index as int] == components@[index as int]@);
        }
    }
    Ok(Some(index))
}

/// The component texts from `start` on, without `.` components.
pub open spec fn remaining_texts(components: Seq<Seq<char>>, start: int) -> Seq<Seq<char>> {
    components.skip(start).filter(|t: Seq<char>| t != "."@)
}

/// The components that the walk still has to match, from component
/// `start` on, without `.` components, each compiled.
pub fn pattern_parts(components: &Vec<String>, start: usize) -> (r: Result<Vec<PatternPart>, InvalidPattern>)
    requires
        start <= components@.len(),
    ensures
        r is Ok <==> (forall|k: int| 0 <= k < remaining_texts(texts(components@), start as int).len()
            ==> glob_accepts(#[trigger] remaining_texts(texts(components@), start as int)[k])),
        r matches Ok(parts) ==> parts@.map_values(|p: PatternPart| p@) == texts(components@).skip(start as int).filter(|t: Seq<char>| t != "."@),
        r matches Err(e) ==> texts(components@).skip(start as int).contains(e.pattern@) && e.pattern@ != "."@ && !glob_accepts(e.pattern@),
{
    let ghost rest = texts(components@).skip(start as int);
    let mut parts: Vec<PatternPart> = Vec::new();
    let mut i: usize = start;
    let ghost first = i;
    while i < components.len()
        invariant
            first <= i <= components@.len(),
            first == start,
            rest == texts(components@).skip(first as int),
            parts@.map_values(|p: PatternPart| p@) == rest.take(i - first).filter(|t: Seq<char>| t != "."@),
            forall|k: int| 0 <= k < parts@.len() ==> glob_accepts(#[trigger] parts@[k]@),
        decreases components@.len() - i,
    {
        let text = components[i].as_str();
        proof {
            reveal(Seq::filter);
            assert(rest.take(i + 1 - first).drop_last() =~= rest.take(i - first));
            assert(rest.take(i + 1 - first).last() == components@[i as int]@);
        }
        if !str_eq(text, ".") {
            match PatternPart::new(text) {
                Ok(part) => {
                    let ghost p0 = parts@;
                    parts.push(part);
                    assert(parts@.map_values(|p: PatternPart| p@) =~= p0.map_values(|p: PatternPart| p@).push(components@[i as int]@));
                },
                Err(e) => {
                    assert(rest[i - first] == components@[i as int]@);
                    assert(rest.contains(e.pattern@));
                    proof {
                        rest.lemma_filter_contains(|t: Seq<char>| t != "."@, i - first);
                        let f = rest.filter(|t: Seq<char>| t != "."@);
                        let k = choose|k: int| 0 <= k < f.len() && f[k] == e.pattern@;
                        assert(f[k] == e.pattern@);
                        assert(remaining_texts(texts(components@), start as int) == f);
                    }
                    return Err(e);
                },
            }
        }
        i = i + 1;
    }
    assert(rest.take(i - first) =~= rest);
    proof {
        let f = remaining_texts(texts(components@), start as int);
        assert forall|k: int| 0 <= k < f.len() implies glob_accepts(#[trigger] f[k]) by {
            assert(parts@.map_values(|p: PatternPart| p@)[k] == parts@[k]@);
        }
    }
    Ok(parts)
}

/// A pattern's progress: which pattern, and the index of the component it
/// matches next.
#[derive(Clone, Copy, Debug, PartialEq, Eq, Structural)]
pub struct WalkState {
    pub pattern: usize,
    pub offset: usize,
}

/// An entry of a directory listing: its name, when that is valid UTF-8, and
/// whether it is a directory.
#[derive(Debug)]
pub struct WalkEntry {
    pub name: Option<String>,
    pub directory: bool,
}

/// The texts of a pattern's components.
pub open spec fn part_texts(parts: Seq<PatternPart>) -> Seq<Seq<char>> {
    parts.map_values(|p: PatternPart| p@)
}

/// The texts of the components of each pattern.
pub open spec fn pattern_texts(patterns: Seq<Vec<PatternPart>>) -> Seq<Seq<Seq<char>>> {
    patterns.map_values(|p: Vec<PatternPart>| part_texts(p@))
}

/// The offsets that a state at `o` tries: `o`, and after each `**` the
/// next one too, since `**` may match no directory at all; only offsets of
/// components.
pub open spec fn tried_offsets(parts: Seq<Seq<char>>, o: int) -> Seq<int>
    decreases parts.len() - o,
{
    if 0 <= o < parts.len() {
        if parts[o] == "**"@ {
            seq![o] + tried_offsets(parts, o + 1)
        } else {
            seq![o]
        }
    } else {
        Seq::empty()
    }
}

/// Whether the component at `offset` lets the entry through: `**` lets
/// every entry through, any other component those whose name it matches.
pub open spec fn passes(parts: Seq<Seq<char>>, offset: int, e: WalkEntry) -> bool {
    parts[offset] == "**"@ || (e.name matches Some(n) && glob_matches(parts[offset], n@))
}

/// The state in which a subdirectory entry reached at `offset` is visited
/// next, if any: `**` stays at its offset, any other component moves on.
pub open spec fn entry_next(parts: Seq<Seq<char>>, pattern: usize, offset: int, index: int, e: WalkEntry) -> Seq<(usize, WalkState)> {
    if passes(parts, offset, e) && e.directory {
        let next = if parts[offset] == "**"@ {
            offset
        } else {
            offset + 1
        };
        if next < parts.len() {
            seq![(index as usize, WalkState { pattern, offset: next as usize })]
        } else {
            Seq::empty()
        }
    } else {
        Seq::empty()
    }
}

/// Whether a file entry reached at `offset` matches the last component.
pub open spec fn entry_matches(parts: Seq<Seq<char>>, offset: int, e: WalkEntry) -> bool {
    passes(parts, offset, e) && !e.directory && parts[offset] != "**"@ && offset + 1 == parts.len()
}

/// The next states of the entries reached at `offset`, in listing order.
pub open spec fn offset_next(parts: Seq<Seq<char>>, pattern: usize, offset: int, entries: Seq<WalkEntry>) -> Seq<(usize, WalkState)>
    decreases entries.len(),
{
    if entries.len() == 0 {
        Seq::empty()
    } else {
        offset_next(parts, pattern, offset, entries.drop_last()) + entry_next(parts, pattern, offset, entries.len() - 1, entries.last())
    }
}

/// The next states of the entries reached at each of the offsets, in order.
pub open spec fn offsets_next(parts: Seq<Seq<char>>, pattern: usize, offsets: Seq<int>, entries: Seq<WalkEntry>) -> Seq<(usize, WalkState)>
    decreases offsets.len(),
{
    if offsets.len() == 0 {
        Seq::empty()
    } else {
        offsets_next(parts, pattern, offsets.drop_last(), entries) + offset_next(parts, pattern, offsets.last(), entries)
    }
}

/// The next states of the entries for each of the states, in order.
pub open spec fn scan_next(patterns: Seq<Seq<Seq<char>>>, states: Seq<WalkState>, entries: Seq<WalkEntry>) -> Seq<(usize, WalkState)>
    decreases states.len(),
{
    if states.len() == 0 {
        Seq::empty()
    } else {
        let s = states.last();
        scan_next(patterns, states.drop_last(), entries) + offsets_next(
            patterns[s.pattern as int],
            s.pattern,
            tried_offsets(patterns[s.pattern as int], s.offset as int),
            entries,
        )
    }
}

/// Whether entry `i` matches the last component for one of the states.
pub open spec fn scan_matches(patterns: Seq<Seq<Seq<char>>>, states: Seq<WalkState>, entries: Seq<WalkEntry>, i: int) -> bool {
    exists|k: int, o: int|
        0 <= k < states.len() && #[trigger] tried_offsets(patterns[states[k].pattern as int], states[k].offset as int).contains(o)
            && entry_matches(patterns[states[k].pattern as int], o, #[trigger] entries[i])
}

/// The offsets that a state at `start` tries.
fn tried(parts: &Vec<PatternPart>, start: usize) -> (r: Vec<usize>)
    ensures
        r@.map_values(|o: usize| o as int) == tried_offsets(part_texts(parts@), start as int),
{
    let ghost p = part_texts(parts@);
    let mut r: Vec<usize> = Vec::new();
    let mut o = start;
    let mut going = true;
    while going && o < parts.len()
        invariant
            p == part_texts(parts@),
            start <= o,
            r@.map_values(|o: usize| o as int) + (if going {
                tried_offsets(p, o as int)
            } else {
                Seq::empty()
            }) == tried_offsets(p, start as int),
        decreases parts@.len() - o + (if going { 1int } else { 0int }),
    {
        let ghost r0 = r@;
        r.push(o);
        assert(r@.map_values(|o: usize| o as int) =~= r0.map_values(|o: usize| o as int).push(o as int));
        if str_eq(parts[o].as_str(), "**") {
            assert(tried_offsets(p, o as int) =~= seq![o as int] + tried_offsets(p, o + 1));
            o = o + 1;
        } else {
            assert(tried_offsets(p, o as int) =~= seq![o as int]);
            going = false;
        }
    }
    if going {
        assert(tried_offsets(p, o as int) =~= Seq::<int>::empty());
    }
    assert(r@.map_values(|o: usize| o as int) =~= tried_offsets(p, start as int));
    r
}

/// Walks the entries from component `offset` of a pattern on, adding the
/// next states of subdirectories and marking the files that match.
fn scan_offset(
    parts: &Vec<PatternPart>,
    pattern: usize,
    offset: usize,
    entries: &Vec<WalkEntry>,
    next: &mut Vec<(usize, WalkState)>,
    matched: &mut Vec<bool>,
)
    requires
        offset < parts@.len(),
        old(matched)@.len() == entries@.len(),
    ensures
        final(next)@ == old(next)@ + offset_next(part_texts(parts@), pattern, offset as int, entries@),
        final(matched)@.len() == entries@.len(),
        forall|i: int| 0 <= i < entries@.len() ==> #[trigger] final(matched)@[i] == (old(matched)@[i] || entry_matches(part_texts(parts@), offset as int, entries@[i])),
{
    let ghost p = part_texts(parts@);
    let ghost n0 = next@;
    let ghost m0 = matched@;
    let n = parts.len();
    let part = &parts[offset];
    let star = str_eq(part.as_str(), "**");
    assert(p[offset as int] == part@);
    let mut i: usize = 0;
    while i < entries.len()
        invariant
            p == part_texts(parts@),
            offset < parts@.len(),
            n == parts@.len(),
            *part == parts@[offset as int],
            star == (p[offset as int] == "**"@),
            0 <= i <= entries@.len(),
            matched@.len() == entries@.len(),
            m0.len() == entries@.len(),
            next@ == n0 + offset_next(p, pattern, offset as int, entries@.take(i as int)),
            forall|j: int| 0 <= j < entries@.len() ==> #[trigger] matched@[j] == (m0[j] || (j < i && entry_matches(p, offset as int, entries@[j]))),
        decreases entries@.len() - i,
    {
        let entry = &entries[i];
        proof {
            assert(entries@.take(i + 1).drop_last() =~= entries@.take(i as int));
            assert(entries@.take(i + 1).last() == entries@[i as int]);
        }
        let pass = star || match &entry.name {
            Some(name) => part_matches(part, name.as_str()),
            None => false,
        };
        assert(pass == passes(p, offset as int, *entry));
        let ghost before = next@;
        if pass {
            if entry.directory {
                let target = if star {
                    offset
                } else {
                    offset + 1
                };
                if target < n {
                    next.push((i, WalkState { pattern, offset: target }));
                }
            } else if !star && offset + 1 == n {
                matched.set(i, true);
            }
        }
        assert(next@ =~= before + entry_next(p, pattern, offset as int, i as int, entries@[i as int]));
        i = i + 1;
    }
    assert(entries@.take(i as int) =~= entries@);
}

/// Walks the entries for one state, at each offset it tries.
fn scan_state(
    patterns: &Vec<Vec<PatternPart>>,
    state: WalkState,
    entries: &Vec<WalkEntry>,
    next: &mut Vec<(usize, WalkState)>,
    matched: &mut Vec<bool>,
)
    requires
        state.pattern < patterns@.len(),
        old(matched)@.len() == entries@.len(),
    ensures
        ({
            let p = pattern_texts(patterns@)[state.pattern as int];
            let offsets = tried_offsets(p, state.offset as int);
            &&& final(next)@ == old(next)@ + offsets_next(p, state.pattern, offsets, entries@)
            &&& final(matched)@.len() == entries@.len()
            &&& forall|i: int| 0 <= i < entries@.len() ==> #[trigger] final(matched)@[i] == (old(matched)@[i] || exists|o: int| offsets.contains(o) && entry_matches(p, o, entries@[i]))
        }),
{
    let parts = &patterns[state.pattern];
    let ghost p = part_texts(parts@);
    assert(pattern_texts(patterns@)[state.pattern as int] == p);
    let offsets = tried(parts, state.offset);
    let ghost os = offsets@.map_values(|o: usize| o as int);
    let ghost n0 = next@;
    let ghost m0 = matched@;
    let mut k: usize = 0;
    while k < offsets.len()
        invariant
            p == part_texts(parts@),
            os == offsets@.map_values(|o: usize| o as int),
            os == tried_offsets(p, state.offset as int),
            0 <= k <= offsets@.len(),
            matched@.len() == entries@.len(),
            m0.len() == entries@.len(),
            next@ == n0 + offsets_next(p, state.pattern, os.take(k as int), entries@),
            forall|i: int| 0 <= i < entries@.len() ==> #[trigger] matched@[i] == (m0[i] || exists|o: int| os.take(k as int).contains(o) && entry_matches(p, o, entries@[i])),
        decreases offsets@.len() - k,
    {
        proof {
            assert(os.take(k + 1).drop_last() =~= os.take(k as int));
            assert(os.take(k + 1).last() == offsets@[k as int] as int);
            lemma_tried_in_range(p, state.offset as int, k as int);
        }
        let ghost before = matched@;
        scan_offset(parts, state.pattern, offsets[k], entries, next, matched);
        proof {
            assert forall|i: int| 0 <= i < entries@.len() implies #[trigger] matched@[i] == (m0[i] || exists|o: int| os.take(k + 1).contains(o) && entry_matches(p, o, entries@[i])) by {
                let o1 = offsets@[k as int] as int;
                assert(os.take(k + 1)[k as int] == o1);
                assert(before[i] == (m0[i] || exists|o: int| os.take(k as int).contains(o) && entry_matches(p, o, entries@[i])));
                assert(matched@[i] == (before[i] || entry_matches(p, o1, entries@[i])));
                if entry_matches(p, o1, entries@[i]) {
                    assert(os.take(k + 1).contains(o1));
                }
                if exists|o: int| os.take(k + 1).contains(o) && entry_matches(p, o, entries@[i]) {
                    let o = choose|o: int| os.take(k + 1).contains(o) && entry_matches(p, o, entries@[i]);
                    let j = choose|j: int| 0 <= j < k + 1 && #[trigger] os.take(k + 1)[j] == o;
                    if j < k {
                        assert(os.take(k as int)[j] == o);
                        assert(os.take(k as int).contains(o));
                        assert(before[i]);
                    } else {
                        assert(o == o1);
                    }
                }
                if exists|o: int| os.take(k as int).contains(o) && entry_matches(p, o, entries@[i]) {
                    let o = choose|o: int| os.take(k as int).contains(o) && entry_matches(p, o, entries@[i]);
                    let j = choose|j: int| 0 <= j < k && #[trigger] os.take(k as int)[j] == o;
                    assert(os.take(k + 1)[j] == o);
                    assert(os.take(k + 1).contains(o));
                }
            }
        }
        k = k + 1;
    }
    assert(os.take(k as int) =~= os);
}

proof fn lemma_tried_in_range(p: Seq<Seq<char>>, o: int, k: int)
    requires
        0 <= k < tried_offsets(p, o).len(),
    ensures
        0 <= tried_offsets(p, o)[k] < p.len(),
    decreases p.len() - o,
{
    if 0 <= o < p.len() && p[o] == "**"@ && k > 0 {
        lemma_tried_in_range(p, o + 1, k - 1);
    }
}

/// What one directory listing contributes for the pattern states that
/// reach it: the next state of each subdirectory entry that a state moves
/// into, as (entry index, state), and for each entry whether it is a file
/// that matches a pattern's last component.
pub fn scan(patterns: &Vec<Vec<PatternPart>>, states: &Vec<WalkState>, entries: &Vec<WalkEntry>) -> (r: (Vec<(usize, WalkState)>, Vec<bool>))
    requires
        forall|k: int| 0 <= k < states@.len() ==> (#[trigger] states@[k]).pattern < patterns@.len(),
    ensures
        r.0@ == scan_next(pattern_texts(patterns@), states@, entries@),
        r.1@.len() == entries@.len(),
        forall|i: int| 0 <= i < entries@.len() ==> #[trigger] r.1@[i] == scan_matches(pattern_texts(patterns@), states@, entries@, i),
{
    let ghost pv = pattern_texts(patterns@);
    let mut next: Vec<(usize, WalkState)> = Vec::new();
    let mut matched: Vec<bool> = Vec::new();
    let mut i: usize = 0;
    while i < entries.len()
        invariant
            0 <= i <= entries@.len(),
            matched@.len() == i,
            forall|j: int| 0 <= j < i ==> !(#[trigger] matched@[j]),
        decreases entries@.len() - i,
    {
        matched.push(false);
        i = i + 1;
    }
    let mut k: usize = 0;
    while k < states.len()
        invariant
            pv == pattern_texts(patterns@),
            forall|k: int| 0 <= k < states@.len() ==> (#[trigger] states@[k]).pattern < patterns@.len(),
            0 <= k <= states@.len(),
            matched@.len() == entries@.len(),
            next@ == scan_next(pv, states@.take(k as int), entries@),
            forall|i: int| 0 <= i < entries@.len() ==> #[trigger] matched@[i] == scan_matches(pv, states@.take(k as int), entries@, i),
        decreases states@.len() - k,
    {
        let state = states[k];
        let ghost before = matched@;
        proof {
            assert(states@.take(k + 1).drop_last() =~= states@.take(k as int));
            assert(states@.take(k + 1).last() == state);
        }
        scan_state(patterns, state, entries, &mut next, &mut matched);
        proof {
            let t0 = states@.take(k as int);
            let t1 = states@.take(k + 1);
            assert forall|i: int| 0 <= i < entries@.len() implies #[trigger] matched@[i] == scan_matches(pv, t1, entries@, i) by {
                let offsets = tried_offsets(pv[state.pattern as int], state.offset as int);
                if scan_matches(pv, t1, entries@, i) {
                    let (kk, o) = choose|kk: int, o: int|
                        0 <= kk < t1.len() && #[trigger] tried_offsets(pv[t1[kk].pattern as int], t1[kk].offset as int).contains(o)
                            && entry_matches(pv[t1[kk].pattern as int], o, #[trigger] entries@[i]);
                    if kk < k {
                        assert(t0[kk] == t1[kk]);
                        assert(scan_matches(pv, t0, entries@, i));
                    } else {
                        assert(t1[kk] == state);
                    }
                }
                if scan_matches(pv, t0, entries@, i) {
                    let (kk, o) = choose|kk: int, o: int|
                        0 <= kk < t0.len() && #[trigger] tried_offsets(pv[t0[kk].pattern as int], t0[kk].offset as int).contains(o)
                            && entry_matches(pv[t0[kk].pattern as int], o, #[trigger] entries@[i]);
                    assert(t0[kk] == t1[kk]);
                    assert(tried_offsets(pv[t1[kk].pattern as int], t1[kk].offset as int).contains(o));
                }
                if exists|o: int| offsets.contains(o) && entry_matches(pv[state.pattern as int], o, entries@[i]) {
                    let o = choose|o: int| offsets.contains(o) && entry_matches(pv[state.pattern as int], o, entries@[i]);
                    assert(t1[k as int] == state);
                    assert(tried_offsets(pv[t1[k as int].pattern as int], t1[k as int].offset as int).contains(o));
                }
            }
        }
        k = k + 1;
    }
    assert(states@.take(k as int) =~= states@);
    (next, matched)
}

/// The walk's bookkeeping for one directory: the states that reached it,
/// those not yet handed to a scan, and whether a scan of it is running.
#[derive(Debug)]
pub struct DirectoryWork {
    seen: Vec<WalkState>,
    pending: Vec<WalkState>,
    running: bool,
}

/// The directories of a walk, by index, and those ready to be scanned, in
/// order.
#[derive(Debug)]
pub struct Frontier {
    dirs: Vec<DirectoryWork>,
    ready: VecDeque<usize>,
}

/// The mathematical value of a walk's bookkeeping.
#[verifier::ext_equal]
pub struct FrontierView {
    pub seen: Seq<Set<WalkState>>,
    pub pending: Seq<Seq<WalkState>>,
    pub running: Seq<bool>,
    pub ready: Seq<usize>,
}

impl View for Frontier {
    type V = FrontierView;

    closed spec fn view(&self) -> FrontierView {
        FrontierView {
            seen: self.dirs@.map_values(|d: DirectoryWork| d.seen@.to_set()),
            pending: self.dirs@.map_values(|d: DirectoryWork| d.pending@),
            running: self.dirs@.map_values(|d: DirectoryWork| d.running),
            ready: self.ready@,
        }
    }
}

/// The walk's invariant: a directory's pending states are distinct states
/// that reached it, and a directory is queued as ready, once, exactly when
/// it has pending states and no scan of it is running.
pub open spec fn frontier_wf(v: FrontierView) -> bool {
    &&& v.pending.len() == v.seen.len()
    &&& v.running.len() == v.seen.len()
    &&& forall|d: int| 0 <= d < v.seen.len() ==> (#[trigger] v.pending[d]).no_duplicates() && v.pending[d].to_set().subset_of(v.seen[d])
    &&& v.ready.no_duplicates()
    &&& forall|k: int| 0 <= k < v.ready.len() ==> (#[trigger] v.ready[k]) < v.seen.len()
    &&& forall|d: usize| (d as int) < v.seen.len() ==> (#[trigger] v.ready.contains(d) <==> (v.pending[d as int].len() > 0 && !v.running[d as int]))
}

/// The bookkeeping after `state` reaches directory `d`: a state that reached
/// it before changes nothing; a new one becomes pending, and the directory
/// is queued if it was neither pending nor running.
pub open spec fn enqueue_view(v: FrontierView, d: int, state: WalkState) -> FrontierView {
    if v.seen[d].contains(state) {
        v
    } else {
        FrontierView {
            seen: v.seen.update(d, v.seen[d].insert(state)),
            pending: v.pending.update(d, v.pending[d].push(state)),
            ready: if v.pending[d].len() == 0 && !v.running[d] {
                v.ready.push(d as usize)
            } else {
                v.ready
            },
            ..v
        }
    }
}

/// A state that reached a directory before, reaching it again, changes
/// nothing: each (directory, state) pair is scanned at most once, even where
/// links lead back to a directory.
pub proof fn law_enqueue_seen_is_noop(v: FrontierView, d: usize, state: WalkState)
    requires
        frontier_wf(v),
        (d as int) < v.seen.len(),
        v.seen[d as int].contains(state),
    ensures
        enqueue_view(v, d as int, state) == v,
{
}

/// Queuing keeps the walk's invariant.
pub proof fn law_enqueue_keeps_wf(v: FrontierView, du: usize, state: WalkState)
    requires
        frontier_wf(v),
        (du as int) < v.seen.len(),
    ensures
        frontier_wf(enqueue_view(v, du as int, state)),
{
    let d = du as int;
    if !v.seen[d].contains(state) {
        let w = enqueue_view(v, d, state);
        assert(v.pending[d].push(state).no_duplicates()) by {
            let p = v.pending[d].push(state);
            assert forall|i: int, j: int| 0 <= i < p.len() && 0 <= j < p.len() && i != j implies p[i] != p[j] by {
                if i == v.pending[d].len() {
                    assert(v.pending[d].to_set().contains(p[j]));
                } else if j == v.pending[d].len() {
                    assert(v.pending[d].to_set().contains(p[i]));
                }
            }
        }
        assert(v.pending[d].push(state).to_set().subset_of(v.seen[d].insert(state))) by {
            assert forall|x: WalkState| v.pending[d].push(state).to_set().contains(x) implies v.seen[d].insert(state).contains(x) by {
                let i = choose|i: int| 0 <= i < v.pending[d].push(state).len() && v.pending[d].push(state)[i] == x;
                if i < v.pending[d].len() {
                    assert(v.pending[d].to_set().contains(x));
                }
            }
        }
        if v.pending[d].len() == 0 && !v.running[d] {
            assert(!v.ready.contains(d as usize));
            assert(w.ready.no_duplicates()) by {
                assert forall|i: int, j: int| 0 <= i < w.ready.len() && 0 <= j < w.ready.len() && i != j implies w.ready[i] != w.ready[j] by {
                    if i == v.ready.len() {
                        assert(v.ready.contains(w.ready[j]));
                    } else if j == v.ready.len() {
                        assert(v.ready.contains(w.ready[i]));
                    }
                }
            }
        }
        assert forall|e: usize| (e as int) < w.seen.len() implies (#[trigger] w.ready.contains(e) <==> (w.pending[e as int].len() > 0 && !w.running[e as int])) by {
            assert(v.ready.contains(e) <==> (v.pending[e as int].len() > 0 && !v.running[e as int]));
            if e as int != d {
                if w.ready.contains(e) {
                    let k = choose|k: int| 0 <= k < w.ready.len() && w.ready[k] == e;
                    if k < v.ready.len() {
                        assert(v.ready[k] == e);
                    }
                }
                if v.ready.contains(e) {
                    let k = choose|k: int| 0 <= k < v.ready.len() && v.ready[k] == e;
                    if v.pending[d].len() == 0 && !v.running[d] {
                        assert(w.ready[k] == e);
                    }
                }
            } else {
                if v.pending[d].len() == 0 && !v.running[d] {
                    assert(w.ready[v.ready.len() as int] == e);
                }
            }
        }
        assert forall|k: int| 0 <= k < w.ready.len() implies (#[trigger] w.ready[k]) < w.seen.len() by {
            if k < v.ready.len() {
                assert(w.ready[k] == v.ready[k]);
            }
        }
    }
}

impl Frontier {
    /// A walk without directories.
    pub fn new() -> (r: Self)
        ensures
            frontier_wf(r@),
            r@.seen.len() == 0,
            r@.ready.len() == 0,
    {
        let r = Frontier { dirs: Vec::new(), ready: VecDeque::new() };
        assert(r@.ready =~= Seq::<usize>::empty());
        r
    }

    /// Adds a directory that no state has reached yet; returns its index.
    pub fn add_directory(&mut self) -> (d: usize)
        requires
            frontier_wf(old(self)@),
        ensures
            frontier_wf(final(self)@),
            d == old(self)@.seen.len(),
            final(self)@ == (FrontierView {
                seen: old(self)@.seen.push(Set::empty()),
                pending: old(self)@.pending.push(Seq::empty()),
                running: old(self)@.running.push(false),
                ready: old(self)@.ready,
            }),
    {
        let ghost v = self@;
        let d = self.dirs.len();
        self.dirs.push(DirectoryWork { seen: Vec::new(), pending: Vec::new(), running: false });
        proof {
            let w = self@;
            assert(Seq::<WalkState>::empty().to_set() =~= Set::<WalkState>::empty());
            assert(w.seen =~= v.seen.push(Set::empty()));
            assert(w.pending =~= v.pending.push(Seq::empty()));
            assert(w.running =~= v.running.push(false));
            assert forall|e: usize| (e as int) < w.seen.len() implies (#[trigger] w.ready.contains(e) <==> (w.pending[e as int].len() > 0 && !w.running[e as int])) by {
                if e as int == d {
                    if w.ready.contains(e) {
                        let k = choose|k: int| 0 <= k < w.ready.len() && w.ready[k] == e;
                    }
                }
            }
        }
        d
    }

    /// The state `state` reaches directory `d`.
    pub fn enqueue(&mut self, d: usize, state: WalkState)
        requires
            frontier_wf(old(self)@),
            d < old(self)@.seen.len(),
        ensures
            final(self)@ == enqueue_view(old(self)@, d as int, state),
            frontier_wf(final(self)@),
    {
        let ghost v = self@;
        proof {
            law_enqueue_keeps_wf(v, d, state);
        }
        let dir = &self.dirs[d];
        let mut k: usize = 0;
        while k < dir.seen.len()
            invariant
                v == self@,
                frontier_wf(v),
                d < self.dirs@.len(),
                *dir == self.dirs@[d as int],
                0 <= k <= dir.seen@.len(),
                forall|j: int| 0 <= j < k ==> dir.seen@[j] != state,
            decreases dir.seen@.len() - k,
        {
            if dir.seen[k] == state {
                assert(dir.seen@.to_set().contains(state));
                assert(v.seen[d as int] == dir.seen@.to_set());
                assert(self@ =~= enqueue_view(v, d as int, state));
                return;
            }
            k = k + 1;
        }
        assert(!dir.seen@.to_set().contains(state));
        let queue = dir.pending.len() == 0 && !dir.running;
        let mut work = DirectoryWork { seen: Vec::new(), pending: Vec::new(), running: false };
        std::mem::swap(&mut work, &mut self.dirs[d]);
        let ghost w0 = work;
        work.seen.push(state);
        work.pending.push(state);
        std::mem::swap(&mut work, &mut self.dirs[d]);
        if queue {
            self.ready.push_back(d);
        }
        proof {
            let w = self@;
            let e = enqueue_view(v, d as int, state);
            assert(w0.seen@.push(state).to_set() =~= w0.seen@.to_set().insert(state));
            assert(w.seen =~= e.seen);
            assert(w.pending =~= e.pending);
            assert(w.running =~= e.running);
            assert(w.ready =~= e.ready);
        }
    }

    /// Takes the next ready directory, if any, and the states it is to be
    /// scanned for; its scan is then running.
    pub fn pop_ready(&mut self) -> (r: Option<(usize, Vec<WalkState>)>)
        requires
            frontier_wf(old(self)@),
        ensures
            frontier_wf(final(self)@),
            old(self)@.ready.len() == 0 ==> r is None && final(self)@ == old(self)@,
            old(self)@.ready.len() > 0 ==> ({
                let d = old(self)@.ready[0];
                &&& r matches Some((e, states)) && e == d && states@ == old(self)@.pending[d as int]
                &&& final(self)@ == (FrontierView {
                    pending: old(self)@.pending.update(d as int, Seq::empty()),
                    running: old(self)@.running.update(d as int, true),
                    ready: old(self)@.ready.drop_first(),
                    ..old(self)@
                })
            }),
    {
        let ghost v = self@;
        let d = match self.ready.pop_front() {
            None => {
                assert(self@ =~= v);
                return None;
            },
            Some(d) => d,
        };
        assert(d == v.ready[0]);
        let mut work = DirectoryWork { seen: Vec::new(), pending: Vec::new(), running: false };
        std::mem::swap(&mut work, &mut self.dirs[d]);
        let ghost w0 = work;
        let mut states: Vec<WalkState> = Vec::new();
        std::mem::swap(&mut states, &mut work.pending);
        work.running = true;
        std::mem::swap(&mut work, &mut self.dirs[d]);
        proof {
            let w = self@;
            assert(w.seen =~= v.seen);
            assert(w.pending =~= v.pending.update(d as int, Seq::empty()));
            assert(w.running =~= v.running.update(d as int, true));
            assert(w.ready =~= v.ready.drop_first());
            assert forall|e: usize| (e as int) < w.seen.len() implies (#[trigger] w.ready.contains(e) <==> (w.pending[e as int].len() > 0 && !w.running[e as int])) by {
                if w.ready.contains(e) {
                    let k = choose|k: int| 0 <= k < w.ready.len() && w.ready[k] == e;
                    assert(v.ready[k + 1] == e);
                    assert(v.ready.contains(e));
                    if e == d {
                        assert(v.ready[0] == v.ready[k + 1]);
                    }
                }
                if e != d && v.ready.contains(e) {
                    let k = choose|k: int| 0 <= k < v.ready.len() && v.ready[k] == e;
                    assert(k != 0);
                    assert(w.ready[k - 1] == e);
                }
            }
            assert forall|k: int| 0 <= k < w.ready.len() implies (#[trigger] w.ready[k]) < w.seen.len() by {
                assert(w.ready[k] == v.ready[k + 1]);
            }
            assert(forall|e: int| 0 <= e < w.seen.len() ==> (#[trigger] w.pending[e]).no_duplicates() && w.pending[e].to_set().subset_of(w.seen[e])) by {
                assert forall|e: int| 0 <= e < w.seen.len() implies (#[trigger] w.pending[e]).no_duplicates() && w.pending[e].to_set().subset_of(w.seen[e]) by {
                    if e == d {
                        assert(w.pending[e].to_set() =~= Set::<WalkState>::empty());
                    }
                }
            }
        }
        Some((d, states))
    }

    /// The scan of directory `d` is done; it is queued again if states
    /// reached it meanwhile.
    pub fn finish(&mut self, d: usize)
        requires
            frontier_wf(old(self)@),
            d < old(self)@.seen.len(),
            old(self)@.running[d as int],
        ensures
            frontier_wf(final(self)@),
            final(self)@ == (FrontierView {
                running: old(self)@.running.update(d as int, false),
                ready: if old(self)@.pending[d as int].len() > 0 {
                    old(self)@.ready.push(d)
                } else {
                    old(self)@.ready
                },
                ..old(self)@
            }),
    {
        let ghost v = self@;
        let mut work = DirectoryWork { seen: Vec::new(), pending: Vec::new(), running: false };
        std::mem::swap(&mut work, &mut self.dirs[d]);
        work.running = false;
        let queue = work.pending.len() > 0;
        std::mem::swap(&mut work, &mut self.dirs[d]);
        if queue {
            self.ready.push_back(d);
        }
        proof {
            let w = self@;
            assert(w.seen =~= v.seen);
            assert(w.pending =~= v.pending);
            assert(w.running =~= v.running.update(d as int, false));
            assert(!v.ready.contains(d));
            assert forall|e: usize| (e as int) < w.seen.len() implies (#[trigger] w.ready.contains(e) <==> (w.pending[e as int].len() > 0 && !w.running[e as int])) by {
                if w.ready.contains(e) && e != d {
                    let k = choose|k: int| 0 <= k < w.ready.len() && w.ready[k] == e;
                    if k < v.ready.len() {
                        assert(v.ready[k] == e);
                    }
                }
                if e != d && v.ready.contains(e) {
                    let k = choose|k: int| 0 <= k < v.ready.len() && v.ready[k] == e;
                    assert(w.ready[k] == e);
                }
                if e == d && queue {
                    assert(w.ready[v.ready.len() as int] == e);
                }
            }
            if queue {
                assert(w.ready.no_duplicates()) by {
                    assert forall|i: int, j: int| 0 <= i < w.ready.len() && 0 <= j < w.ready.len() && i != j implies w.ready[i] != w.ready[j] by {
                        if i == v.ready.len() {
                            assert(v.ready.contains(w.ready[j]));
                        } else if j == v.ready.len() {
                            assert(v.ready.contains(w.ready[i]));
                        }
                    }
                }
            }
            assert forall|k: int| 0 <= k < w.ready.len() implies (#[trigger] w.ready[k]) < w.seen.len() by {
                if k < v.ready.len() {
                    assert(w.ready[k] == v.ready[k]);
                }
            }
        }
    }
}

} // verus!
