use scasim::listing::{chars_of, list_entries, space, ListError};

#[test]
fn white_space() {
    for c in ['\t', '\n', '\u{b}', '\u{c}', '\r', ' ', '\u{85}', '\u{a0}', '\u{1680}', '\u{2000}',
        '\u{200a}', '\u{2028}', '\u{2029}', '\u{202f}', '\u{205f}', '\u{3000}']
    {
        assert!(space(c));
    }
    for c in ['a', '0', '/', '\u{8}', '\u{e}', '\u{200b}', '\u{feff}', '\u{1f}', '\u{2060}'] {
        assert!(!space(c));
    }
    for code in 0u32..0x11000 {
        if let Some(c) = char::from_u32(code) {
            assert_eq!(space(c), c.is_whitespace());
        }
    }
}

#[test]
fn the_characters_of_a_text() {
    assert_eq!(chars_of("a\u{e9}\u{1f600}z"), vec!['a', '\u{e9}', '\u{1f600}', 'z']);
    assert_eq!(chars_of(""), Vec::<char>::new());
}

#[test]
fn one_entry_per_line() {
    let text = "a/meta.json\nb/meta.json.gz\n/abs/c.json";
    assert_eq!(list_entries(text, false).unwrap(), vec!["a/meta.json", "b/meta.json.gz", "/abs/c.json"]);
    assert_eq!(list_entries(text, true).unwrap(), vec!["a/meta.json", "b/meta.json.gz", "/abs/c.json"]);
    assert_eq!(list_entries("one\n", true).unwrap(), vec!["one"]);
    assert_eq!(list_entries("one", true).unwrap(), vec!["one"]);
}

#[test]
fn white_space_around_an_entry_is_dropped() {
    let text = "  a b \t\r\n\u{a0}caf\u{e9}\u{3000}\n";
    assert_eq!(list_entries(text, true).unwrap(), vec!["a b", "caf\u{e9}"]);
}

#[test]
fn blank_lines_are_passed_over() {
    let text = "\n\na\n   \n\t\r\nb\n\n";
    assert_eq!(list_entries(text, false).unwrap(), vec!["a", "b"]);
}

#[test]
fn blank_lines_are_refused_where_asked() {
    assert_eq!(list_entries("a\n\nb\n", true).err(), Some(ListError::BlankLine));
    assert_eq!(list_entries("a\n  \n", true).err(), Some(ListError::BlankLine));
    assert_eq!(list_entries("\n", true).err(), Some(ListError::BlankLine));
    assert_eq!(list_entries("a\n\n", true).err(), Some(ListError::BlankLine));
    assert_eq!(list_entries(" ", true).err(), Some(ListError::BlankLine));
}

#[test]
fn a_list_without_entries_is_refused() {
    assert_eq!(list_entries("", false).err(), Some(ListError::Empty));
    assert_eq!(list_entries("", true).err(), Some(ListError::Empty));
    assert_eq!(list_entries("\n \n\t\n", false).err(), Some(ListError::Empty));
}

#[test]
fn entries_agree_with_lines_and_trim() {
    let texts = ["a\nb", "a\r\nb\r\n", " x \n\n y", "\u{2003}p\u{2003}\nq\r", "\r\n", "a\n\n\n", "\n\na"];
    for text in texts {
        let expected: Vec<String> =
            text.lines().map(|l| l.trim()).filter(|l| !l.is_empty()).map(|l| l.to_string()).collect();
        match list_entries(text, false) {
            Ok(entries) => assert_eq!(entries, expected),
            Err(e) => {
                assert_eq!(e, ListError::Empty);
                assert!(expected.is_empty());
            }
        }
        let blank = text.lines().any(|l| l.trim().is_empty());
        assert_eq!(list_entries(text, true) == Err(ListError::BlankLine), blank);
    }
}
