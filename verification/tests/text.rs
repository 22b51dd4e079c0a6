use fishnet::text::{
    chars_of, in_margin, join_with_spaces, same_text, spell, split_at_each, starts_with, trimmed,
    trimmed_end, trimmed_start, Margin,
};

#[test]
fn split_keeps_empty_pieces() {
    assert_eq!(split_at_each("", ' '), vec![""]);
    assert_eq!(split_at_each("a", ' '), vec!["a"]);
    assert_eq!(split_at_each(" a  b ", ' '), vec!["", "a", "", "b", ""]);
    assert_eq!(split_at_each("eins\nzwei\n", '\n'), vec!["eins", "zwei", ""]);
}

#[test]
fn split_agrees_with_std() {
    for text in ["", " ", "info depth 3", "a  b", "é ü ", "   "] {
        let expected: Vec<String> = text.split(' ').map(|s| s.to_string()).collect();
        assert_eq!(split_at_each(text, ' '), expected);
    }
}

#[test]
fn split_pieces_can_be_joined() {
    for text in ["", "go depth 20", " a  b ", "x"] {
        assert_eq!(join_with_spaces(&split_at_each(text, ' ')), text);
    }
    assert_eq!(join_with_spaces(&Vec::new()), "");
    assert_eq!(
        split_at_each(&join_with_spaces(&vec!["go".to_string(), "depth".to_string()]), ' '),
        vec!["go", "depth"]
    );
}

#[test]
fn spelling_gives_characters_back() {
    let chars = chars_of("grün");
    assert_eq!(chars, vec!['g', 'r', 'ü', 'n']);
    assert_eq!(spell(&chars, 1, 3), "rü");
    assert_eq!(spell(&chars, 2, 2), "");
}

#[test]
fn comparing_texts() {
    assert!(same_text("readyok", "readyok"));
    assert!(!same_text("readyok", "readyo"));
    assert!(!same_text("readyok", "readyoK"));
    assert!(starts_with("Stockfish 17", "Stockfish "));
    assert!(starts_with("Stockfish ", "Stockfish "));
    assert!(!starts_with("Stockfish", "Stockfish "));
    assert!(starts_with("anything", ""));
}

#[test]
fn white_space_agrees_with_std() {
    for n in 0..=0x10_ffff_u32 {
        if let Some(c) = char::from_u32(n) {
            assert_eq!(in_margin(Margin::Space, c), c.is_whitespace());
        }
    }
}

#[test]
fn trimming_agrees_with_std() {
    for text in ["", "  ", " a b ", "\u{3000}x\u{a0}", "readyok\r\n", "\tq"] {
        assert_eq!(trimmed(text, Margin::Space), text.trim());
        assert_eq!(trimmed_start(text, Margin::Space), text.trim_start());
        assert_eq!(trimmed_end(text, Margin::Space), text.trim_end());
    }
    for text in ["\"'x'\"", "''", "a'b", "'a", "b\""] {
        assert_eq!(
            trimmed(text, Margin::Quotes),
            text.trim_matches(|c| c == '"' || c == '\'')
        );
    }
}
