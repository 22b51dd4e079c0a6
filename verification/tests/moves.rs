use fishnet::moves::{move_texts, parse_move, UciMove};

fn normal(from: u8, to: u8, promotion: Option<char>) -> Option<UciMove> {
    Some(UciMove::Normal { from, to, promotion })
}

#[test]
fn moves_are_read() {
    assert_eq!(parse_move("e2e4"), normal(12, 28, None));
    assert_eq!(parse_move("a1h8"), normal(0, 63, None));
    assert_eq!(parse_move("h2h1q"), normal(15, 7, Some('q')));
    assert_eq!(parse_move("h2h1N"), normal(15, 7, Some('n')));
    assert_eq!(parse_move("Q@f7"), Some(UciMove::Put { role: 'q', to: 53 }));
    assert_eq!(parse_move("p@a1"), Some(UciMove::Put { role: 'p', to: 0 }));
    assert_eq!(parse_move("0000"), Some(UciMove::Null));
}

#[test]
fn other_words_are_no_moves() {
    for word in [
        "", "e2", "e2e", "e2e9", "i2e4", "e2e4x", "e2e4qq", "Q@", "X@f7", "Q@f9", "(none)", "000",
        "00000", "E2E4", "e2é", "é2e", "e2eé4", "e0e1",
    ] {
        assert_eq!(parse_move(word), None, "{word}");
    }
}

#[test]
fn moves_are_written() {
    let moves = vec![
        UciMove::Normal { from: 12, to: 28, promotion: None },
        UciMove::Normal { from: 15, to: 7, promotion: Some('q') },
        UciMove::Put { role: 'n', to: 53 },
        UciMove::Null,
    ];
    assert_eq!(move_texts(&moves), vec!["e2e4", "h2h1q", "N@f7", "0000"]);
    assert_eq!(move_texts(&Vec::new()), Vec::<String>::new());
}

#[test]
fn written_moves_are_read_back() {
    let mut moves = vec![UciMove::Null];
    for to in 0..64 {
        for role in ['p', 'n', 'b', 'r', 'q', 'k'] {
            moves.push(UciMove::Put { role, to });
            moves.push(UciMove::Normal { from: 63 - to, to, promotion: Some(role) });
        }
        for from in 0..64 {
            moves.push(UciMove::Normal { from, to, promotion: None });
        }
    }
    let texts = move_texts(&moves);
    for (text, m) in texts.iter().zip(&moves) {
        assert_eq!(parse_move(text), Some(*m));
    }
}

#[test]
fn moves_off_the_board_are_not_valid() {
    assert!(UciMove::Null.is_valid());
    assert!(UciMove::Normal { from: 63, to: 0, promotion: Some('k') }.is_valid());
    assert!(UciMove::Put { role: 'p', to: 63 }.is_valid());
    assert!(!UciMove::Normal { from: 64, to: 0, promotion: None }.is_valid());
    assert!(!UciMove::Normal { from: 0, to: 64, promotion: None }.is_valid());
    assert!(!UciMove::Normal { from: 0, to: 1, promotion: Some('Q') }.is_valid());
    assert!(!UciMove::Put { role: 'x', to: 0 }.is_valid());
    assert!(!UciMove::Put { role: 'q', to: 64 }.is_valid());
}
