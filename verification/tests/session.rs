use fishnet::commands::{chunk_commands, init_commands};
use fishnet::moves::{parse_move, UciMove};
use fishnet::search::Search;
use fishnet::session::{classify_init_line, EngineSession, InitLine, Step};
use fishnet::uci::{Info, ProtocolError, Score, UciLine};
use fishnet::work::{Chunk, EngineFlavor, Position, PositionResponse, Work};

fn analysis(depth: u8) -> Work {
    Work::Analysis { id: "batch".to_string(), nodes: None, depth: Some(depth) }
}

fn position(index: usize) -> Position {
    Position {
        work: analysis(10),
        position_index: index,
        url: Some(format!("https://example.org/{index}")),
        root_fen: format!("fen{index}"),
        moves: vec![],
    }
}

fn chunk(positions: usize) -> Chunk {
    Chunk {
        work: analysis(10),
        flavor: EngineFlavor::Official,
        nnue: true,
        variant: "chess".to_string(),
        multipv: 1,
        positions: (0..positions).map(position).collect(),
    }
}

fn search_lines(index: usize) -> Vec<String> {
    vec![format!("position fen fen{index} moves "), "go depth 10".to_string()]
}

fn info(line: &str) -> Info {
    match UciLine::from_str(line) {
        Ok(UciLine::Info(info)) => info,
        other => panic!("{other:?}"),
    }
}

fn answered(lines: &[&str]) -> Result<PositionResponse, ProtocolError> {
    let mut search = Search::new();
    for line in lines {
        search.hear(info(line));
    }
    search.finish(position(4), parse_move("e2e4"))
}

#[test]
fn lines_before_the_engine_is_ready() {
    assert_eq!(classify_init_line("readyok"), InitLine::Ready);
    assert_eq!(classify_init_line("readyok \r\n"), InitLine::Ready);
    assert_eq!(classify_init_line("Stockfish 17 by the Stockfish developers"), InitLine::Banner);
    assert_eq!(classify_init_line("Fairy-Stockfish 14"), InitLine::Banner);
    assert_eq!(classify_init_line(" readyok"), InitLine::Unexpected);
    assert_eq!(classify_init_line("Stockfish"), InitLine::Unexpected);
    assert_eq!(classify_init_line(""), InitLine::Unexpected);
}

#[test]
fn whole_conversation() {
    let mut session = EngineSession::new();
    let step = session.go_multiple_with(chunk(2), 3, 512);
    assert_eq!(step, Step::Write { lines: init_commands(3, 512) });
    assert_eq!(session.on_line("Stockfish 17"), Step::Read);
    assert_eq!(session.on_line("whatever"), Step::Read);
    let mut lines = chunk_commands(&chunk(2));
    lines.extend(search_lines(0));
    assert_eq!(session.on_line("readyok"), Step::Write { lines });
    assert_eq!(session.on_line("info depth 10 score cp 13 pv e2e4"), Step::Read);
    assert_eq!(session.on_line("bestmove e2e4"), Step::Write { lines: search_lines(1) });
    assert_eq!(session.on_line("info depth 9 score mate 2 nodes 77"), Step::Read);
    let (first, second) = match session.on_line("bestmove d2d4") {
        Step::Done { lines, mut responses } => {
            assert!(lines.is_empty());
            assert_eq!(responses.len(), 2);
            let second = responses.pop().unwrap();
            (responses.pop().unwrap(), second)
        }
        other => panic!("{other:?}"),
    };
    assert_eq!(first.position_index, 0);
    assert_eq!(first.url, Some("https://example.org/0".to_string()));
    assert_eq!(first.work, analysis(10));
    assert_eq!(first.best_move, parse_move("e2e4"));
    assert_eq!(first.scores.best(), Some(&Score::Cp(13)));
    assert_eq!(first.nodes, 0);
    assert_eq!(second.position_index, 1);
    assert_eq!(second.best_move, parse_move("d2d4"));
    assert_eq!(second.scores.best(), Some(&Score::Mate(2)));
    assert_eq!(second.scores.get(1, 10), None);
    assert_eq!(second.pvs.best(), None);
    assert_eq!(second.depth, 9);
    assert_eq!(second.nodes, 77);

    // The options are not sent again.
    let mut lines = chunk_commands(&chunk(1));
    lines.extend(search_lines(0));
    assert_eq!(session.go_multiple_with(chunk(1), 9, 9), Step::Write { lines });
}

#[test]
fn chunk_without_positions() {
    let mut session = EngineSession::new();
    session.go_multiple_with(chunk(0), 1, 16);
    let done = Step::Done { lines: chunk_commands(&chunk(0)), responses: vec![] };
    assert_eq!(session.on_line("readyok"), done);
    let again = Step::Done { lines: chunk_commands(&chunk(0)), responses: vec![] };
    assert_eq!(session.go_multiple_with(chunk(0), 1, 16), again);
}

#[test]
fn engine_with_the_machine_to_itself() {
    let mut session = EngineSession::new();
    match session.go_multiple(chunk(1)) {
        Step::Write { lines } => {
            let cores = num_cpus::get();
            let threads = fishnet::resources::engine_threads(cores);
            let hash_mb = fishnet::resources::engine_hash_mb(cores);
            assert_eq!(lines, init_commands(threads, hash_mb));
        }
        other => panic!("{other:?}"),
    }
}

#[test]
fn engine_that_misbehaves() {
    for (line, error) in [
        ("bestmove e2e4", ProtocolError::MissingScore),
        ("info depth x", ProtocolError::ExpectedDepth),
        ("hello", ProtocolError::UnexpectedOutput),
    ] {
        let mut session = EngineSession::new();
        session.go_multiple_with(chunk(1), 1, 16);
        session.on_line("readyok");
        assert_eq!(session.on_line(line), Step::Failed { error });
    }
}

#[test]
fn bounds_on_the_first_line_do_not_count() {
    assert_eq!(
        answered(&["info depth 5 score cp 20 lowerbound", "info score cp 3"]),
        Err(ProtocolError::MissingScore)
    );
    let response = answered(&[
        "info depth 4 score cp 7 pv e2e4",
        "info depth 5 score cp 20 lowerbound pv d2d4",
        "info depth 6 multipv 2 score cp 9 upperbound pv c2c4",
    ])
    .unwrap();
    assert_eq!(response.depth, 4);
    assert_eq!(response.scores.best(), Some(&Score::Cp(7)));
    assert_eq!(response.scores.get(1, 5), None);
    assert_eq!(response.scores.get(2, 6), Some(&Score::Cp(9)));
    assert_eq!(response.pvs.get(1, 4), Some(&vec![parse_move("e2e4").unwrap()]));
    assert_eq!(response.pvs.get(1, 5), None);
    assert_eq!(response.pvs.get(2, 6), Some(&vec![parse_move("c2c4").unwrap()]));
}

#[test]
fn score_for_the_second_line_alone_is_no_score() {
    assert_eq!(
        answered(&["info depth 6 multipv 2 score cp 9"]),
        Err(ProtocolError::MissingScore)
    );
}

#[test]
fn latest_numbers_count() {
    let response = answered(&[
        "info depth 1 score cp 1 nodes 10 time 20 nps 30",
        "info depth 2 multipv 2 nodes 11 time 21 nps 31",
        "info depth 3 upperbound nodes 12",
        "info string nps 99",
    ])
    .unwrap();
    assert_eq!(response.depth, 1);
    assert_eq!(response.nodes, 12);
    assert_eq!(response.time_ms, 21);
    assert_eq!(response.nps, Some(31));
    assert_eq!(response.position_index, 4);
    assert_eq!(response.best_move, parse_move("e2e4"));
}

#[test]
fn later_scores_replace_earlier_ones() {
    let response = answered(&["info depth 3 score cp 1", "info depth 3 score mate 4"]).unwrap();
    assert_eq!(response.scores.get(1, 3), Some(&Score::Mate(4)));
}

#[test]
fn chunks_without_a_limit_are_not_valid() {
    assert!(chunk(0).is_valid());
    assert!(chunk(2).is_valid());
    let unlimited = Work::Analysis { id: "batch".to_string(), nodes: None, depth: None };
    assert!(!unlimited.is_valid());
    let mut wrong_work = chunk(2);
    wrong_work.positions[1].work = unlimited;
    assert!(!wrong_work.is_valid());
    let mut wrong_move = chunk(2);
    wrong_move.positions[1].moves = vec![UciMove::Put { role: 'q', to: 64 }];
    assert!(!wrong_move.is_valid());
}

#[test]
fn every_position_is_searched_once() {
    let mut session = EngineSession::new();
    let mut said: Vec<String> = Vec::new();
    assert!(!session.awaits_ready());
    let mut step = session.go_multiple_with(chunk(2), 3, 64);
    assert!(session.awaits_ready());
    let mut heard = ["Stockfish 17", "readyok", "info depth 1 score cp 7", "bestmove e2e4",
        "info depth 1 score cp 8", "bestmove e2e4"].iter();
    loop {
        match step {
            Step::Read => (),
            Step::Write { lines } => said.extend(lines),
            Step::Done { lines, .. } => {
                said.extend(lines);
                break;
            }
            Step::Failed { error } => panic!("{error:?}"),
        }
        step = session.on_line(heard.next().expect("a line"));
    }
    assert!(!session.awaits_ready());
    let mut expected = init_commands(3, 64);
    expected.extend(chunk_commands(&chunk(2)));
    expected.extend(search_lines(0));
    expected.extend(search_lines(1));
    assert_eq!(said, expected);
}

#[test]
fn initialized_engine_begins_at_once() {
    let mut session = EngineSession::new();
    session.go_multiple_with(chunk(0), 3, 64);
    session.on_line("readyok");
    let mut lines = chunk_commands(&chunk(1));
    lines.extend(search_lines(0));
    assert_eq!(session.go_multiple(chunk(1)), Step::Write { lines });
}

#[test]
fn nothing_is_written_after_a_failure() {
    let mut session = EngineSession::new();
    let mut said: Vec<String> = Vec::new();
    let mut step = session.go_multiple_with(chunk(3), 3, 64);
    let mut heard =
        ["readyok", "info depth 1 score cp 7", "bestmove e2e4", "bestmove e2e4"].iter();
    let error = loop {
        match step {
            Step::Read => (),
            Step::Write { lines } => said.extend(lines),
            Step::Done { .. } => panic!("not done"),
            Step::Failed { error } => break error,
        }
        step = session.on_line(heard.next().expect("a line"));
    };
    assert_eq!(error, ProtocolError::MissingScore);
    let mut expected = init_commands(3, 64);
    expected.extend(chunk_commands(&chunk(3)));
    expected.extend(search_lines(0));
    expected.extend(search_lines(1));
    assert_eq!(said, expected);
}

#[test]
fn answer_has_a_best_score() {
    let response = answered(&["info depth 3 score cp 7", "info depth 5 score mate 2 pv e2e4"]);
    let response = response.expect("an answer");
    assert_eq!(response.scores.best(), Some(&Score::Mate(2)));
    assert_eq!(response.pvs.best(), Some(&vec![parse_move("e2e4").expect("a move")]));
    assert_eq!(response.scores.get(1, 3), Some(&Score::Cp(7)));
    assert_eq!(response.scores.get(1, 4), None);
}
