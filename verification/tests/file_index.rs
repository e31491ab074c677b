use math_parser::globals::{Globals, SourceIndex};
use math_parser::tokenizer::cursor::Range;
use math_parser::tokenizer::indexing::FileIndex;

#[test]
fn charpos_of_char_starts() {
    let text = "aé€x\n€b";
    let index = FileIndex::new(text);
    for (i, (b, _)) in text.char_indices().enumerate() {
        assert_eq!(index.bytepos_to_charpos(b), i);
    }
    assert_eq!(index.bytepos_to_charpos(text.len()), text.chars().count());
    assert_eq!(index.multi_byte_chars.len(), 3);
    assert_eq!(index.lines, vec![8]);
}

#[test]
fn line_and_column_of_char_starts() {
    let text = "ab\nc€d\n\nxyz";
    let index = FileIndex::new(text);
    assert_eq!(index.get_line_and_column(0), (0, 0));
    assert_eq!(index.get_line_and_column(1), (0, 1));
    assert_eq!(index.get_line_and_column(3), (1, 0));
    // the character after the euro sign, which takes three bytes
    assert_eq!(index.get_line_and_column(7), (1, 2));
    assert_eq!(index.get_line_and_column(9), (2, 0));
    assert_eq!(index.get_line_and_column(11), (3, 1));
}

#[test]
fn globals_text_of_a_range() {
    let mut globals = Globals::new();
    let i = globals.set_source("s".to_string(), "π = 3; x".to_string());
    assert_eq!(i, SourceIndex(0));
    let r = Range { source_index: i, start: 0, end: 2 };
    assert_eq!(globals.get_text(&r), "π");
    let r = Range { source_index: i, start: 5, end: 6 };
    assert_eq!(globals.get_text(&r), "3");
    let j = globals.set_source("t".to_string(), "abc".to_string());
    assert_eq!(j, SourceIndex(1));
    let k = globals.set_source("s".to_string(), "new".to_string());
    assert_eq!(k, SourceIndex(0));
    assert_eq!(globals.get_source_by_name("s").unwrap().get_text(), "new");
    assert!(globals.get_source_by_name("u").is_none());
    let r = Range { source_index: k, start: 1, end: 3 };
    assert_eq!(globals.get_lines_and_columns(&r), (0, 1, 0, 3));
}
