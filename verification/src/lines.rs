//! Conversion between byte offsets in a UTF-8 text and editor positions: a
//! zero-based line and a column counted in UTF-16 code units, as the
//! language server protocol counts them.
use crate::text::chars_of;
use vstd::prelude::*;

verus! {

broadcast use vstd::seq_lib::group_seq_properties;

/// How many bytes `c` takes in UTF-8.
pub open spec fn utf8_width(c: char) -> nat {
    if (c as u32) < 0x80 {
        1
    } else if (c as u32) < 0x800 {
        2
    } else if (c as u32) < 0x10000 {
        3
    } else {
        4
    }
}

/// How many code units `c` takes in UTF-16.
pub open spec fn utf16_width(c: char) -> nat {
    if (c as u32) < 0x10000 {
        1
    } else {
        2
    }
}

/// How many bytes a sequence of characters takes in UTF-8.
pub open spec fn utf8_len(s: Seq<char>) -> nat
    decreases s.len(),
{
    if s.len() == 0 {
        0
    } else {
        utf8_len(s.drop_last()) + utf8_width(s.last())
    }
}

/// How many code units a sequence of characters takes in UTF-16.
pub open spec fn utf16_len(s: Seq<char>) -> nat
    decreases s.len(),
{
    if s.len() == 0 {
        0
    } else {
        utf16_len(s.drop_last()) + utf16_width(s.last())
    }
}

/// How many line breaks a sequence of characters holds.
pub open spec fn newlines(s: Seq<char>) -> nat
    decreases s.len(),
{
    if s.len() == 0 {
        0
    } else {
        newlines(s.drop_last()) + (if s.last() == '\n' {
            1nat
        } else {
            0nat
        })
    }
}

/// The position just after the last line break, or zero.
pub open spec fn last_line_start(s: Seq<char>) -> int
    decreases s.len(),
{
    if s.len() == 0 {
        0
    } else if s.last() == '\n' {
        s.len() as int
    } else {
        last_line_start(s.drop_last())
    }
}

/// The character positions at which lines start: zero, and just after each
/// line break.
pub open spec fn line_starts(s: Seq<char>) -> Seq<int>
    decreases s.len(),
{
    if s.len() == 0 {
        seq![0]
    } else if s.last() == '\n' {
        line_starts(s.drop_last()).push(s.len() as int)
    } else {
        line_starts(s.drop_last())
    }
}

/// The most characters of `s` whose UTF-8 bytes fit in `o` bytes.
pub open spec fn floor_chars(s: Seq<char>, o: int) -> nat
    decreases s.len(),
{
    if s.len() == 0 || utf8_len(s) <= o {
        s.len()
    } else {
        floor_chars(s.drop_last(), o)
    }
}

/// An editor position.
#[derive(Debug, Clone, Copy, PartialEq, Eq)]
pub struct EscPosition {
    pub line: u32,
    pub character: u32,
}

/// The position of the character boundary at or before byte `offset` of
/// `s` (the end of `s` for larger offsets): the line breaks before it, and
/// the UTF-16 length of its line up to it.
pub open spec fn position_view(s: Seq<char>, offset: int) -> (int, int) {
    let k = floor_chars(s, if offset < utf8_len(s) { offset } else { utf8_len(s) as int }) as int;
    let before = s.take(k);
    (newlines(before) as int, utf16_len(s.subrange(last_line_start(before), k)) as int)
}

/// Whether character position `j` is the place on line `line` (starting at
/// character position `start`) that is `character` UTF-16 units in.
pub open spec fn column_at(s: Seq<char>, start: int, j: int, character: int) -> bool {
    &&& start <= j <= s.len()
    &&& !s.subrange(start, j).contains('\n')
    &&& utf16_len(s.subrange(start, j)) == character
}

/// The byte offset of `character` UTF-16 units into line `line` of `s`, if
/// the line exists and that place lies on it, between two characters.
pub open spec fn offset_view(s: Seq<char>, line: int, character: int) -> Option<int> {
    if 0 <= line < line_starts(s).len() && exists|j: int| column_at(s, line_starts(s)[line], j, character) {
        Some(utf8_len(s.take(choose|j: int| column_at(s, line_starts(s)[line], j, character))) as int)
    } else {
        None
    }
}

/// Where the lines of a text start, by byte and by character.
#[derive(Debug)]
pub struct LineIndex {
    starts: Vec<usize>,
    first_chars: Vec<usize>,
}

fn width8(c: char) -> (r: usize)
    ensures
        r == utf8_width(c),
{
    let v = c as u32;
    if v < 0x80 {
        1
    } else if v < 0x800 {
        2
    } else if v < 0x10000 {
        3
    } else {
        4
    }
}

fn width16(c: char) -> (r: u32)
    ensures
        r == utf16_width(c),
{
    let v = c as u32;
    if v < 0x10000 {
        1
    } else {
        2
    }
}

proof fn lemma_take_step(s: Seq<char>, i: int)
    requires
        0 <= i < s.len(),
    ensures
        s.take(i + 1).drop_last() == s.take(i),
        s.take(i + 1).last() == s[i],
{
    assert(s.take(i + 1).drop_last() =~= s.take(i));
}

impl LineIndex {
    /// Whether this index was built for `text`.
    pub closed spec fn indexes(&self, text: Seq<char>) -> bool {
        &&& self.first_chars@.len() == line_starts(text).len()
        &&& self.starts@.len() == line_starts(text).len()
        &&& forall|j: int| 0 <= j < line_starts(text).len() ==> self.first_chars@[j] == line_starts(text)[j] && self.starts@[j] == utf8_len(text.take(line_starts(text)[j]))
    }

    /// The line starts of `text`.
    pub fn new(text: &str) -> (r: Self)
        requires
            utf8_len(text@) <= usize::MAX,
        ensures
            r.indexes(text@),
    {
        let chars = chars_of(text);
        let mut starts: Vec<usize> = Vec::new();
        let mut first_chars: Vec<usize> = Vec::new();
        starts.push(0);
        first_chars.push(0);
        let mut bytes: usize = 0;
        let mut i: usize = 0;
        proof {
            assert(text@.take(0) =~= Seq::<char>::empty());
        }
        while i < chars.len()
            invariant
                chars@ == text@,
                utf8_len(text@) <= usize::MAX,
                0 <= i <= chars@.len(),
                bytes == utf8_len(text@.take(i as int)),
                first_chars@.len() == line_starts(text@.take(i as int)).len(),
                starts@.len() == first_chars@.len(),
                forall|j: int| 0 <= j < first_chars@.len() ==> first_chars@[j] == line_starts(text@.take(i as int))[j] && starts@[j] == utf8_len(text@.take(line_starts(text@.take(i as int))[j])),
                forall|j: int| 0 <= j < first_chars@.len() ==> first_chars@[j] <= i,
            decreases chars@.len() - i,
        {
            let c = chars[i];
            proof {
                lemma_take_step(text@, i as int);
                lemma_utf8_len_prefix(text@, i + 1);
            }
            bytes = bytes + width8(c);
            if c == '\n' {
                starts.push(bytes);
                first_chars.push(i + 1);
            }
            proof {
                let t = text@.take(i + 1);
                assert(t.drop_last() == text@.take(i as int));
                assert forall|j: int| 0 <= j < first_chars@.len() implies first_chars@[j] == line_starts(t)[j] && starts@[j] == utf8_len(text@.take(line_starts(t)[j])) by {
                    if j < line_starts(text@.take(i as int)).len() {
                        assert(line_starts(t)[j] == line_starts(text@.take(i as int))[j]);
                    } else {
                        assert(line_starts(t)[j] == i + 1);
                        assert(text@.take(i + 1) == t);
                    }
                }
            }
            i = i + 1;
        }
        proof {
            assert(text@.take(chars@.len() as int) =~= text@);
        }
        LineIndex { starts, first_chars }
    }
}

proof fn lemma_utf8_len_prefix(s: Seq<char>, k: int)
    requires
        0 <= k <= s.len(),
    ensures
        utf8_len(s.take(k)) <= utf8_len(s),
    decreases s.len() - k,
{
    if k < s.len() {
        lemma_utf8_len_prefix(s, k + 1);
        lemma_take_step(s, k);
    } else {
        assert(s.take(k) =~= s);
    }
}

proof fn lemma_utf8_monotone(s: Seq<char>, j: int, k: int)
    requires
        0 <= j <= k <= s.len(),
    ensures
        utf8_len(s.take(j)) <= utf8_len(s.take(k)),
        j < k ==> utf8_len(s.take(j)) < utf8_len(s.take(k)),
    decreases k - j,
{
    if j < k {
        lemma_utf8_monotone(s, j, k - 1);
        lemma_take_step(s, k - 1);
    }
}

proof fn lemma_floor_chars(s: Seq<char>, o: int, i: int)
    requires
        0 <= i <= s.len(),
        utf8_len(s.take(i)) <= o,
        i == s.len() || utf8_len(s.take(i + 1)) > o,
    ensures
        floor_chars(s, o) == i,
    decreases s.len(),
{
    if s.len() > 0 {
        if utf8_len(s) <= o {
            if i < s.len() {
                lemma_utf8_monotone(s, i + 1, s.len() as int);
                assert(s.take(s.len() as int) =~= s);
            }
        } else {
            assert(s.take(s.len() as int) =~= s);
            assert(i < s.len());
            let t = s.drop_last();
            assert(t.take(i) =~= s.take(i));
            if i < t.len() {
                assert(t.take(i + 1) =~= s.take(i + 1));
            }
            lemma_floor_chars(t, o, i);
        }
    }
}

proof fn lemma_utf16_increasing(s: Seq<char>, a: int, j1: int, j2: int)
    requires
        0 <= a <= j1 < j2 <= s.len(),
    ensures
        utf16_len(s.subrange(a, j1)) < utf16_len(s.subrange(a, j2)),
    decreases j2 - j1,
{
    assert(s.subrange(a, j2).drop_last() =~= s.subrange(a, j2 - 1));
    if j1 < j2 - 1 {
        lemma_utf16_increasing(s, a, j1, j2 - 1);
    }
}

proof fn lemma_no_newline_step(s: Seq<char>, a: int, j: int)
    requires
        0 <= a <= j < s.len(),
    ensures
        s.subrange(a, j + 1).contains('\n') <==> (s.subrange(a, j).contains('\n') || s[j] == '\n'),
        s.subrange(a, j + 1).drop_last() == s.subrange(a, j),
        s.subrange(a, j + 1).last() == s[j],
{
    let t = s.subrange(a, j + 1);
    assert(t.drop_last() =~= s.subrange(a, j));
    if t.contains('\n') {
        let x = choose|x: int| 0 <= x < t.len() && t[x] == '\n';
        if x < t.len() - 1 {
            assert(s.subrange(a, j)[x] == '\n');
        }
    }
    if s.subrange(a, j).contains('\n') {
        let x = choose|x: int| 0 <= x < s.subrange(a, j).len() && s.subrange(a, j)[x] == '\n';
        assert(t[x] == '\n');
    }
    if s[j] == '\n' {
        assert(t[j - a] == '\n');
    }
}

impl LineIndex {
    /// The position of byte `offset` of `text`, moved back to a character
    /// boundary and kept within the text.
    pub fn position(&self, text: &str, offset: u32) -> (r: EscPosition)
        requires
            self.indexes(text@),
            utf8_len(text@) <= u32::MAX,
        ensures
            (r.line as int, r.character as int) == position_view(text@, offset as int),
    {
        let chars = chars_of(text);
        let ghost s = text@;
        let mut i: usize = 0;
        let mut bytes: u32 = 0;
        let mut line: u32 = 0;
        let mut column: u32 = 0;
        proof {
            assert(s.take(0) =~= Seq::<char>::empty());
            assert(s.subrange(0, 0) =~= Seq::<char>::empty());
        }
        while i < chars.len()
            invariant
                chars@ == s,
                utf8_len(s) <= u32::MAX,
                0 <= i <= s.len(),
                bytes == utf8_len(s.take(i as int)),
                bytes <= offset,
                line == newlines(s.take(i as int)),
                column == utf16_len(s.subrange(last_line_start(s.take(i as int)), i as int)),
                line <= bytes,
                column <= bytes,
                0 <= last_line_start(s.take(i as int)) <= i,
            ensures
                0 <= i <= s.len(),
                bytes == utf8_len(s.take(i as int)),
                bytes <= offset,
                line == newlines(s.take(i as int)),
                column == utf16_len(s.subrange(last_line_start(s.take(i as int)), i as int)),
                i == s.len() || (offset as int) < utf8_len(s.take(i + 1)),
            decreases s.len() - i,
        {
            let c = chars[i];
            let w = width8(c);
            proof {
                lemma_take_step(s, i as int);
                lemma_utf8_len_prefix(s, i + 1);
            }
            if (offset as usize) < (bytes as usize) + w {
                break;
            }
            proof {
                let t = s.take(i + 1);
                assert(t.drop_last() == s.take(i as int));
                assert(t.last() == c);
                if c != '\n' {
                    let a = last_line_start(s.take(i as int));
                    assert(last_line_start(t) == a);
                    lemma_no_newline_step(s, a, i as int);
                } else {
                    assert(last_line_start(t) == i + 1);
                    assert(s.subrange(i + 1, i + 1) =~= Seq::<char>::empty());
                }
            }
            bytes = bytes + (w as u32);
            if c == '\n' {
                line = line + 1;
                column = 0;
            } else {
                column = column + width16(c);
            }
            i = i + 1;
        }
        proof {
            let total = utf8_len(s);
            lemma_utf8_len_prefix(s, i as int);
            let end = if (offset as int) < total { offset as int } else { total as int };
            if i < s.len() {
                lemma_take_step(s, i as int);
                lemma_utf8_len_prefix(s, i + 1);
            } else {
                assert(s.take(i as int) =~= s);
            }
            lemma_floor_chars(s, end, i as int);
        }
        EscPosition { line, character: column }
    }
}

proof fn lemma_column_unique(s: Seq<char>, start: int, j1: int, j2: int, character: int)
    requires
        0 <= start,
        column_at(s, start, j1, character),
        column_at(s, start, j2, character),
    ensures
        j1 == j2,
{
    if j1 < j2 {
        lemma_utf16_increasing(s, start, j1, j2);
    } else if j2 < j1 {
        lemma_utf16_increasing(s, start, j2, j1);
    }
}

/// A range between two editor positions.
#[derive(Debug, Clone, Copy, PartialEq, Eq)]
pub struct EscRange {
    pub start: EscPosition,
    pub end: EscPosition,
}

impl LineIndex {
    /// The byte offset of an editor position in `text`: `None` for a line
    /// past the end, a column past the end of its line, or a column inside
    /// a character.
    pub fn offset(&self, text: &str, position: EscPosition) -> (r: Option<u32>)
        requires
            self.indexes(text@),
            utf8_len(text@) <= u32::MAX,
        ensures
            r is Some <==> offset_view(text@, position.line as int, position.character as int) is Some,
            r matches Some(o) ==> offset_view(text@, position.line as int, position.character as int) == Some(o as int),
    {
        let ghost s = text@;
        let ghost ch = position.character as int;
        let line = position.line as usize;
        if line >= self.starts.len() {
            return None;
        }
        let chars = chars_of(text);
        let start = self.first_chars[line];
        let ghost ls = line_starts(s)[line as int];
        assert(start == ls);
        proof {
            lemma_line_starts_bound(s, line as int);
            lemma_utf8_len_prefix(s, ls);
        }
        let mut bytes: u32 = self.starts[line] as u32;
        let mut units: u64 = 0;
        let mut j: usize = start;
        proof {
            assert(s.subrange(ls, ls) =~= Seq::<char>::empty());
        }
        while j < chars.len()
            invariant
                chars@ == s,
                s == text@,
                utf8_len(s) <= u32::MAX,
                0 <= ls <= j <= s.len(),
                start == ls,
                0 <= line < line_starts(s).len(),
                line as int == position.line as int,
                ls == line_starts(s)[line as int],
                bytes == utf8_len(s.take(j as int)),
                units == utf16_len(s.subrange(ls, j as int)),
                units <= position.character as u64,
                ch == position.character as int,
                !s.subrange(ls, j as int).contains('\n'),
                forall|jj: int| ls <= jj < j ==> utf16_len(s.subrange(ls, jj)) < ch,
            decreases s.len() - j,
        {
            if units == position.character as u64 {
                proof {
                    assert(column_at(s, ls, j as int, ch));
                    let k = choose|k: int| column_at(s, ls, k, ch);
                    lemma_column_unique(s, ls, j as int, k, ch);
                    assert(line as int == position.line as int);
                    assert(offset_view(s, position.line as int, ch) == Some(utf8_len(s.take(j as int)) as int));
                }
                return Some(bytes);
            }
            let c = chars[j];
            proof {
                lemma_no_newline_step(s, ls, j as int);
                lemma_take_step(s, j as int);
                lemma_utf8_len_prefix(s, j + 1);
            }
            if c == '\n' {
                proof {
                    assert forall|k: int| !column_at(s, ls, k, ch) by {
                        if ls <= k <= j {
                            if k < j {
                                assert(utf16_len(s.subrange(ls, k)) < ch);
                            }
                        } else if j < k <= s.len() {
                            assert(s.subrange(ls, k)[j - ls] == '\n');
                        }
                    }
                    assert(line as int == position.line as int);
                }
                return None;
            }
            let next: u64 = units + (width16(c) as u64);
            if next > position.character as u64 {
                proof {
                    assert forall|k: int| !column_at(s, ls, k, ch) by {
                        if ls <= k <= j {
                            if k < j {
                                assert(utf16_len(s.subrange(ls, k)) < ch);
                            }
                        } else if j < k <= s.len() {
                            if k > j + 1 {
                                lemma_utf16_increasing(s, ls, j + 1, k);
                            }
                        }
                    }
                    assert(line as int == position.line as int);
                }
                return None;
            }
            units = next;
            bytes = bytes + (width8(c) as u32);
            j = j + 1;
        }
        if units == position.character as u64 {
            proof {
                assert(column_at(s, ls, j as int, ch));
                let k = choose|k: int| column_at(s, ls, k, ch);
                lemma_column_unique(s, ls, j as int, k, ch);
                assert(line as int == position.line as int);
                assert(offset_view(s, position.line as int, ch) == Some(utf8_len(s.take(j as int)) as int));
            }
            Some(bytes)
        } else {
            proof {
                assert forall|k: int| !column_at(s, ls, k, ch) by {
                    if ls <= k < j {
                        assert(utf16_len(s.subrange(ls, k)) < ch);
                    }
                }
                assert(line as int == position.line as int);
            }
            None
        }
    }

    /// The range between the positions of two byte offsets.
    pub fn range(&self, text: &str, start: u32, end: u32) -> (r: EscRange)
        requires
            self.indexes(text@),
            utf8_len(text@) <= u32::MAX,
        ensures
            (r.start.line as int, r.start.character as int) == position_view(text@, start as int),
            (r.end.line as int, r.end.character as int) == position_view(text@, end as int),
    {
        EscRange { start: self.position(text, start), end: self.position(text, end) }
    }
}

proof fn lemma_line_starts_bound(s: Seq<char>, line: int)
    requires
        0 <= line < line_starts(s).len(),
    ensures
        0 <= line_starts(s)[line] <= s.len(),
    decreases s.len(),
{
    if s.len() > 0 {
        let t = s.drop_last();
        if line < line_starts(t).len() {
            lemma_line_starts_bound(t, line);
        }
    }
}

proof fn lemma_line_starts_shape(t: Seq<char>)
    ensures
        line_starts(t).len() == newlines(t) + 1,
        line_starts(t).last() == last_line_start(t),
        line_starts(t)[0] == 0,
    decreases t.len(),
{
    if t.len() > 0 {
        lemma_line_starts_shape(t.drop_last());
    }
}

proof fn lemma_line_starts_prefix(s: Seq<char>, k: int)
    requires
        0 <= k <= s.len(),
    ensures
        line_starts(s.take(k)).len() <= line_starts(s).len(),
        forall|i: int| 0 <= i < line_starts(s.take(k)).len() ==> line_starts(s.take(k))[i] == line_starts(s)[i],
    decreases s.len() - k,
{
    if k < s.len() {
        lemma_line_starts_prefix(s, k + 1);
        lemma_take_step(s, k);
    } else {
        assert(s.take(k) =~= s);
    }
}

proof fn lemma_no_newline_after_last(s: Seq<char>, k: int)
    requires
        0 <= k <= s.len(),
    ensures
        0 <= last_line_start(s.take(k)) <= k,
        !s.subrange(last_line_start(s.take(k)), k).contains('\n'),
    decreases k,
{
    if k == 0 {
        assert(s.subrange(0, 0) =~= Seq::<char>::empty());
    } else {
        lemma_no_newline_after_last(s, k - 1);
        lemma_take_step(s, k - 1);
        if s[k - 1] == '\n' {
            assert(s.subrange(k, k) =~= Seq::<char>::empty());
        } else {
            lemma_no_newline_step(s, last_line_start(s.take(k - 1)), k - 1);
        }
    }
}

/// Moving from a character boundary to its editor position and back gives
/// the same byte offset.
pub proof fn law_offset_of_position(s: Seq<char>, k: int)
    requires
        0 <= k <= s.len(),
    ensures
        offset_view(s, position_view(s, utf8_len(s.take(k)) as int).0, position_view(s, utf8_len(s.take(k)) as int).1) == Some(utf8_len(s.take(k)) as int),
{
    let o = utf8_len(s.take(k)) as int;
    lemma_utf8_len_prefix(s, k);
    if k < s.len() {
        lemma_utf8_monotone(s, k, k + 1);
    }
    lemma_floor_chars(s, o, k);
    let t = s.take(k);
    let (line, col) = position_view(s, o);
    assert(line == newlines(t));
    lemma_line_starts_shape(t);
    lemma_line_starts_prefix(s, k);
    let ls = last_line_start(t);
    assert(line_starts(s)[line] == ls);
    lemma_no_newline_after_last(s, k);
    assert(column_at(s, ls, k, col));
    let j = choose|j: int| column_at(s, line_starts(s)[line], j, col);
    lemma_column_unique(s, ls, k, j, col);
}

} // verus!
