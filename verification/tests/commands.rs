use fishnet::commands::{
    chunk_commands, go_command, init_commands, position_command, search_commands, set_option,
};
use fishnet::moves::UciMove;
use fishnet::work::{Chunk, ChunkFailed, Clock, EngineFlavor, Position, SkillLevel, Work};

fn analysis(nodes: Option<u64>, depth: Option<u8>) -> Work {
    Work::Analysis { id: "batch".to_string(), nodes, depth }
}

fn play(clock: Option<Clock>) -> Work {
    Work::Move {
        id: "game".to_string(),
        level: SkillLevel { skill_level: -9, time_ms: 50, depth: 5 },
        clock,
    }
}

fn chunk(work: Work, flavor: EngineFlavor, nnue: bool) -> Chunk {
    Chunk { work, flavor, nnue, variant: "crazyhouse".to_string(), multipv: 5, positions: vec![] }
}

#[test]
fn options() {
    assert_eq!(set_option("MultiPV", "3"), "setoption name MultiPV value 3");
}

#[test]
fn commands_for_a_new_engine() {
    assert_eq!(
        init_commands(6, 8192),
        vec![
            "setoption name UCI_Chess960 value true",
            "setoption name Threads value 6",
            "setoption name Hash value 8192",
            "setoption name UCI_AnalyseMode value true",
            "setoption name Use NNUE value true",
            "setoption name Contempt value 0",
            "setoption name SlowMover value 100",
            "clear hash",
            "isready",
        ]
    );
}

#[test]
fn commands_for_a_chunk_of_standard_chess() {
    assert_eq!(
        chunk_commands(&chunk(analysis(None, Some(30)), EngineFlavor::Official, true)),
        vec![
            "ucinewgame",
            "setoption name MultiPV value 5",
            "setoption name Skill Level value 20",
        ]
    );
}

#[test]
fn commands_for_a_chunk_of_a_variant() {
    assert_eq!(
        chunk_commands(&chunk(play(None), EngineFlavor::MultiVariant, false)),
        vec![
            "ucinewgame",
            "setoption name Use NNUE value false",
            "setoption name UCI_AnalyseMode value false",
            "setoption name UCI_Variant value crazyhouse",
            "setoption name MultiPV value 5",
            "setoption name Skill Level value -9",
        ]
    );
    assert_eq!(
        chunk_commands(&chunk(analysis(Some(1), None), EngineFlavor::MultiVariant, true))[1..3],
        [
            "setoption name Use NNUE value true",
            "setoption name UCI_AnalyseMode value true",
        ]
    );
}

#[test]
fn commands_for_a_position() {
    let moves = vec![
        UciMove::Normal { from: 12, to: 28, promotion: None },
        UciMove::Put { role: 'q', to: 53 },
    ];
    assert_eq!(
        position_command("8/8/8/8/8/8/8/8 w - - 0 1", &moves),
        "position fen 8/8/8/8/8/8/8/8 w - - 0 1 moves e2e4 Q@f7"
    );
    assert_eq!(position_command("x", &vec![]), "position fen x moves ");
    let position = Position {
        work: analysis(Some(1_000_000), None),
        position_index: 0,
        url: None,
        root_fen: "x".to_string(),
        moves,
    };
    assert_eq!(
        search_commands(&position),
        vec!["position fen x moves e2e4 Q@f7", "go nodes 1000000"]
    );
}

#[test]
fn searching_for_a_move() {
    assert_eq!(go_command(&play(None)), "go movetime 50 depth 5");
    let clock = Clock { wtime_ms: 60_000, btime_ms: 59_990, inc_ms: 3000 };
    assert_eq!(
        go_command(&play(Some(clock))),
        "go movetime 50 depth 5 wtime 60000 btime 59990 winc 3000 binc 3000"
    );
}

#[test]
fn depth_limits_an_analysis_alone() {
    assert_eq!(go_command(&analysis(None, Some(30))), "go depth 30");
    assert_eq!(go_command(&analysis(Some(5), Some(30))), "go depth 30");
    assert_eq!(go_command(&analysis(Some(5), None)), "go nodes 5");
}

#[test]
fn commands_are_single_lines() {
    let lines = init_commands(1, 16)
        .into_iter()
        .chain(chunk_commands(&chunk(play(None), EngineFlavor::MultiVariant, false)))
        .chain([go_command(&play(None))]);
    for line in lines {
        assert!(!line.contains('\n'));
    }
}

#[test]
fn failed_chunks_name_their_batch() {
    assert_eq!(ChunkFailed::of(&play(None)).batch_id, "game");
    assert_eq!(analysis(None, None).id(), "batch");
}
