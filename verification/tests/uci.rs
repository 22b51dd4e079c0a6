use fishnet::moves::{parse_move, UciMove};
use fishnet::uci::{Info, ProtocolError, Score, UciLine};

fn blank() -> Info {
    Info {
        multipv: 1,
        depth: None,
        nodes: None,
        time_ms: None,
        nps: None,
        score: None,
        lowerbound: false,
        upperbound: false,
        pv: None,
    }
}

fn info(line: &str) -> Info {
    match UciLine::from_str(line) {
        Ok(UciLine::Info(info)) => info,
        other => panic!("{other:?}"),
    }
}

fn error(line: &str) -> ProtocolError {
    UciLine::from_str(line).unwrap_err()
}

fn moves(words: &[&str]) -> Vec<UciMove> {
    words.iter().map(|w| parse_move(w).unwrap()).collect()
}

#[test]
fn best_move_lines() {
    assert_eq!(
        UciLine::from_str("bestmove e2e4 ponder e7e5"),
        Ok(UciLine::Bestmove(parse_move("e2e4")))
    );
    assert_eq!(UciLine::from_str("bestmove 0000"), Ok(UciLine::Bestmove(Some(UciMove::Null))));
    assert_eq!(UciLine::from_str("bestmove (none)"), Ok(UciLine::Bestmove(None)));
    assert_eq!(UciLine::from_str("bestmove"), Ok(UciLine::Bestmove(None)));
    assert_eq!(UciLine::from_str("bestmove  e2e4"), Ok(UciLine::Bestmove(None)));
}

#[test]
fn full_report() {
    assert_eq!(
        info(
            "info depth 22 seldepth 31 multipv 2 score cp -35 upperbound nodes 1234567 nps 987654 \
             hashfull 412 tbhits 0 time 1250 pv e7e5 g1f3 b8c6"
        ),
        Info {
            multipv: 2,
            depth: Some(22),
            nodes: Some(1_234_567),
            time_ms: Some(1250),
            nps: Some(987_654),
            score: Some(Score::Cp(-35)),
            lowerbound: false,
            upperbound: true,
            pv: Some(moves(&["e7e5", "g1f3", "b8c6"])),
        }
    );
}

#[test]
fn report_without_anything() {
    assert_eq!(info("info"), blank());
    assert_eq!(info("info "), blank());
    assert_eq!(info("info currmove e2e4 currmovenumber 1"), blank());
}

#[test]
fn mate_scores_and_bounds() {
    assert_eq!(
        info("info score mate -3 lowerbound"),
        Info { score: Some(Score::Mate(-3)), lowerbound: true, ..blank() }
    );
    assert_eq!(info("info score cp +15"), Info { score: Some(Score::Cp(15)), ..blank() });
}

#[test]
fn the_last_word_counts() {
    assert_eq!(
        info("info depth 1 depth 2 score cp 1 score mate 2 nps 5 nps x"),
        Info { depth: Some(2), score: Some(Score::Mate(2)), ..blank() }
    );
}

#[test]
fn string_ends_a_report() {
    assert_eq!(
        info("info depth 4 string depth none pv nonsense"),
        Info { depth: Some(4), ..blank() }
    );
}

#[test]
fn pv_takes_the_rest() {
    assert_eq!(info("info pv"), Info { pv: Some(vec![]), ..blank() });
    assert_eq!(error("info pv e2e4 depth 3"), ProtocolError::InvalidPv);
    assert_eq!(error("info pv e2e4 "), ProtocolError::InvalidPv);
}

#[test]
fn nodes_per_second_are_optional() {
    assert_eq!(info("info nps"), blank());
    assert_eq!(info("info nps fast depth 3"), Info { depth: Some(3), ..blank() });
    assert_eq!(info("info nps 4294967296"), blank());
    assert_eq!(info("info nps 4294967295"), Info { nps: Some(u32::MAX), ..blank() });
}

#[test]
fn bad_reports() {
    assert_eq!(error("info multipv"), ProtocolError::ExpectedMultipv);
    assert_eq!(error("info multipv 0"), ProtocolError::ExpectedMultipv);
    assert_eq!(error("info multipv 256"), ProtocolError::ExpectedMultipv);
    assert_eq!(error("info depth"), ProtocolError::ExpectedDepth);
    assert_eq!(error("info depth -1"), ProtocolError::ExpectedDepth);
    assert_eq!(error("info nodes many"), ProtocolError::ExpectedNodes);
    assert_eq!(error("info time 1.5"), ProtocolError::ExpectedTime);
    assert_eq!(error("info score"), ProtocolError::ExpectedCpOrMate);
    assert_eq!(error("info score 3"), ProtocolError::ExpectedCpOrMate);
    assert_eq!(error("info score cp"), ProtocolError::ExpectedScore);
    assert_eq!(error("info score mate soon"), ProtocolError::ExpectedScore);
    assert_eq!(error("info score cp 9223372036854775808"), ProtocolError::ExpectedScore);
    assert_eq!(error("info pv e2e5x"), ProtocolError::InvalidPv);
}

#[test]
fn unexpected_lines() {
    for line in ["", "readyok", " info depth 3", "Info depth 3", "bestmove\te2e4", "option name x"] {
        assert_eq!(error(line), ProtocolError::UnexpectedOutput, "{line}");
    }
}

#[test]
fn errors_in_words() {
    let messages = [
        (ProtocolError::ExpectedMultipv, "expected multipv"),
        (ProtocolError::ExpectedDepth, "expected depth"),
        (ProtocolError::ExpectedNodes, "expected nodes"),
        (ProtocolError::ExpectedTime, "expected time"),
        (ProtocolError::ExpectedCpOrMate, "expected cp or mate"),
        (ProtocolError::ExpectedScore, "expected score"),
        (ProtocolError::InvalidPv, "invalid pv"),
        (ProtocolError::UnexpectedOutput, "unexpected engine output: hm"),
        (ProtocolError::MissingScore, "missing score"),
    ];
    for (error, message) in messages {
        assert_eq!(error.message("hm"), message);
    }
}

#[test]
fn reports_in_the_order_of_the_protocol_are_understood() {
    assert_eq!(
        info("info depth 7 multipv 3 score mate 5 lowerbound upperbound nodes 8 nps 9 time 10 pv 0000"),
        Info {
            multipv: 3,
            depth: Some(7),
            nodes: Some(8),
            time_ms: Some(10),
            nps: Some(9),
            score: Some(Score::Mate(5)),
            lowerbound: true,
            upperbound: true,
            pv: Some(vec![UciMove::Null]),
        }
    );
}
