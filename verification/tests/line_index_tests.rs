use crate_helper::line_index::LineIndex;
use crate_helper::position::Position;

#[test]
fn offsets_and_positions() {
    let text = "ab\ncé\n\nxyz";
    let idx = LineIndex::new(text);
    assert_eq!(idx.offset_to_position(0, text), Position { line: 0, character: 0 });
    assert_eq!(idx.offset_to_position(3, text), Position { line: 1, character: 0 });
    assert_eq!(idx.offset_to_position(6, text), Position { line: 1, character: 2 });
    assert_eq!(idx.offset_to_position(7, text), Position { line: 2, character: 0 });
    assert_eq!(idx.offset_to_position(100, text), Position { line: 3, character: 3 });
    assert_eq!(idx.position_to_offset(&Position { line: 1, character: 2 }, text), 6);
    assert_eq!(idx.position_to_offset(&Position { line: 1, character: 9 }, text), 7);
    assert_eq!(idx.position_to_offset(&Position { line: 9, character: 0 }, text), text.len());
    assert_eq!(idx.position_to_offset(&Position { line: 3, character: 1 }, text), 9);
}

#[test]
fn offsets_round_trip() {
    let text = "[dependencies]\nserde = \"1\"\n";
    let idx = LineIndex::new(text);
    for off in 0..=text.len() {
        let p = idx.offset_to_position(off, text);
        assert_eq!(idx.position_to_offset(&p, text), off);
    }
}

#[test]
fn lines_start_after_each_line_break() {
    let text = "a\nbé\n\nxyz\n";
    let idx = LineIndex::new(text);
    let breaks: Vec<usize> = text.bytes().enumerate().filter(|(_, b)| *b == b'\n').map(|(i, _)| i).collect();
    assert_eq!(idx.position_to_offset(&Position { line: 0, character: 0 }, text), 0);
    for (k, nl) in breaks.iter().enumerate() {
        let line = (k + 1) as u32;
        assert_eq!(idx.position_to_offset(&Position { line, character: 0 }, text), nl + 1);
    }
    let past = (breaks.len() + 1) as u32;
    assert_eq!(idx.position_to_offset(&Position { line: past, character: 0 }, text), text.len());
}

#[test]
fn positions_round_trip() {
    let text = "ab\ncé\r\n\nxyz";
    let idx = LineIndex::new(text);
    let widths = [2u32, 3, 0, 3];
    for (line, w) in widths.iter().enumerate() {
        for character in 0..=*w {
            let p = Position { line: line as u32, character };
            let off = idx.position_to_offset(&p, text);
            assert!(text.is_char_boundary(off));
            assert_eq!(idx.offset_to_position(off, text), p);
        }
    }
    for p in [Position { line: 1, character: 40 }, Position { line: 9, character: 3 }] {
        let off = idx.position_to_offset(&p, text);
        assert!(off <= text.len() && text.is_char_boundary(off));
    }
    assert_eq!(idx.offset_to_position(500, text), idx.offset_to_position(text.len(), text));
}
