use errorscript::lines::{EscPosition, LineIndex};

#[test]
fn positions_count_utf16_units_from_the_line_start() {
    let text = "ab\ncé😀d\n";
    let lines = LineIndex::new(text);
    assert_eq!(lines.position(text, 0), EscPosition { line: 0, character: 0 });
    assert_eq!(lines.position(text, 3), EscPosition { line: 1, character: 0 });
    // 'é' takes two bytes; an offset inside it moves back to its start.
    assert_eq!(lines.position(text, 5), EscPosition { line: 1, character: 1 });
    assert_eq!(lines.position(text, 6), EscPosition { line: 1, character: 2 });
    // The emoji takes four bytes and two UTF-16 units.
    assert_eq!(lines.position(text, 10), EscPosition { line: 1, character: 4 });
    assert_eq!(lines.position(text, 12), EscPosition { line: 2, character: 0 });
    assert_eq!(lines.position(text, 1000), EscPosition { line: 2, character: 0 });
}

#[test]
fn offsets_invert_positions() {
    let text = "ab\ncé😀d\n";
    let lines = LineIndex::new(text);
    for offset in [0u32, 1, 2, 3, 4, 6, 10, 11, 12] {
        let position = lines.position(text, offset);
        assert_eq!(lines.offset(text, position), Some(offset));
    }
    assert_eq!(lines.offset(text, EscPosition { line: 1, character: 3 }), None);
    assert_eq!(lines.offset(text, EscPosition { line: 0, character: 3 }), None);
    assert_eq!(lines.offset(text, EscPosition { line: 3, character: 0 }), None);
    let range = lines.range(text, 3, 10);
    assert_eq!(range.start, EscPosition { line: 1, character: 0 });
    assert_eq!(range.end, EscPosition { line: 1, character: 4 });
}
