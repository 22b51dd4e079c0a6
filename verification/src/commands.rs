//! What is written to the engine.

use vstd::prelude::*;

use crate::decimal::{number_text, signed_text};
use crate::moves::{move_texts, UciMove};
use crate::text::join_with_spaces;
use crate::work::{Chunk, EngineFlavor, Position, Work};
#[allow(unused_imports)]
use crate::work::Clock;
#[allow(unused_imports)]
use crate::decimal::{digits, is_digit, law_digits_stand_for_number, signed_digits};
#[allow(unused_imports)]
use crate::text::{join, law_rows_are_joined_by_one_separator, texts};

verus! {

/// The command that gives an option of the engine a value.
pub open spec fn option_line(name: Seq<char>, value: Seq<char>) -> Seq<char> {
    "setoption name "@ + name + " value "@ + value
}

/// How a truth value is written.
pub open spec fn bool_text(b: bool) -> Seq<char> {
    if b {
        "true"@
    } else {
        "false"@
    }
}

/// The commands that an engine is given once, before any work.
pub open spec fn init_lines(threads: usize, hash_mb: usize) -> Seq<Seq<char>> {
    seq![
        option_line("UCI_Chess960"@, "true"@),
        option_line("Threads"@, digits(threads as nat)),
        option_line("Hash"@, digits(hash_mb as nat)),
        option_line("UCI_AnalyseMode"@, "true"@),
        option_line("Use NNUE"@, "true"@),
        option_line("Contempt"@, "0"@),
        option_line("SlowMover"@, "100"@),
        "clear hash"@,
        "isready"@,
    ]
}

/// The value of the option `Skill Level`: full strength for an analysis.
pub open spec fn skill_level(work: Work) -> int {
    match work {
        Work::Analysis { .. } => 20,
        Work::Move { level, .. } => level.skill_level as int,
    }
}

/// The commands that an engine is given before the positions of a chunk.
pub open spec fn chunk_lines(chunk: Chunk) -> Seq<Seq<char>> {
    seq!["ucinewgame"@] + (if chunk.flavor == EngineFlavor::MultiVariant {
        seq![
            option_line("Use NNUE"@, bool_text(chunk.nnue)),
            option_line("UCI_AnalyseMode"@, bool_text(chunk.work is Analysis)),
            option_line("UCI_Variant"@, chunk.variant@),
        ]
    } else {
        Seq::empty()
    }) + seq![
        option_line("MultiPV"@, digits(chunk.multipv as nat)),
        option_line("Skill Level"@, signed_digits(skill_level(chunk.work))),
    ]
}

/// The command that sets up a position.
pub open spec fn position_line(root_fen: Seq<char>, moves: Seq<UciMove>) -> Seq<char> {
    "position fen "@ + root_fen + " moves "@ + join(
        moves.map_values(|m: UciMove| m.notation()),
        ' ',
    )
}

/// The words of the command that starts a search. A move is limited by time and
/// depth and, if there is a clock, by what the clock shows. An analysis is
/// limited by its depth alone or, if it has none, by its nodes alone.
pub open spec fn go_words(work: Work) -> Seq<Seq<char>> {
    match work {
        Work::Move { level, clock, .. } => seq![
            "go"@,
            "movetime"@,
            digits(level.time_ms as nat),
            "depth"@,
            digits(level.depth as nat),
        ] + match clock {
            Some(clock) => seq![
                "wtime"@,
                digits(clock.wtime_ms as nat),
                "btime"@,
                digits(clock.btime_ms as nat),
                "winc"@,
                digits(clock.inc_ms as nat),
                "binc"@,
                digits(clock.inc_ms as nat),
            ],
            None => Seq::empty(),
        },
        Work::Analysis { nodes, depth, .. } => match depth {
            Some(depth) => seq!["go"@, "depth"@, digits(depth as nat)],
            None => seq!["go"@, "nodes"@, digits(nodes->0 as nat)],
        },
    }
}

/// The commands that set up a position and start a search of it.
pub open spec fn search_lines(position: Position) -> Seq<Seq<char>> {
    seq![
        position_line(position.root_fen@, position.moves@),
        join(go_words(position.work), ' '),
    ]
}

/// The command that gives an option of the engine a value.
pub fn set_option(name: &str, value: &str) -> (line: String)
    ensures
        line@ == option_line(name@, value@),
{
    let mut line = "setoption name ".to_owned();
    line.append(name);
    line.append(" value ");
    line.append(value);
    line
}

/// The commands that an engine is given once, before any work.
pub fn init_commands(threads: usize, hash_mb: usize) -> (lines: Vec<String>)
    ensures
        texts(lines@) == init_lines(threads, hash_mb),
{
    let mut lines: Vec<String> = Vec::new();
    lines.push(set_option("UCI_Chess960", "true"));
    lines.push(set_option("Threads", number_text(threads as u128).as_str()));
    lines.push(set_option("Hash", number_text(hash_mb as u128).as_str()));
    lines.push(set_option("UCI_AnalyseMode", "true"));
    lines.push(set_option("Use NNUE", "true"));
    lines.push(set_option("Contempt", "0"));
    lines.push(set_option("SlowMover", "100"));
    lines.push("clear hash".to_owned());
    lines.push("isready".to_owned());
    assert(texts(lines@) =~= init_lines(threads, hash_mb));
    lines
}

/// How a truth value is written.
fn bool_str(b: bool) -> (text: &'static str)
    ensures
        text@ == bool_text(b),
{
    if b {
        "true"
    } else {
        "false"
    }
}

/// The commands that an engine is given before the positions of a chunk.
pub fn chunk_commands(chunk: &Chunk) -> (lines: Vec<String>)
    ensures
        texts(lines@) == chunk_lines(*chunk),
{
    let mut lines: Vec<String> = Vec::new();
    lines.push("ucinewgame".to_owned());
    if chunk.flavor == EngineFlavor::MultiVariant {
        let analysis: bool = match &chunk.work {
            Work::Analysis { .. } => true,
            Work::Move { .. } => false,
        };
        lines.push(set_option("Use NNUE", bool_str(chunk.nnue)));
        lines.push(set_option("UCI_AnalyseMode", bool_str(analysis)));
        lines.push(set_option("UCI_Variant", chunk.variant.as_str()));
    }
    lines.push(set_option("MultiPV", number_text(chunk.multipv as u128).as_str()));
    let level: i64 = match &chunk.work {
        Work::Analysis { .. } => 20,
        Work::Move { level, .. } => level.skill_level as i64,
    };
    lines.push(set_option("Skill Level", signed_text(level).as_str()));
    assert(texts(lines@) =~= chunk_lines(*chunk));
    lines
}

/// The command that sets up a position.
pub fn position_command(root_fen: &str, moves: &Vec<UciMove>) -> (line: String)
    requires
        forall|i: int| 0 <= i < moves.len() ==> (#[trigger] moves[i]).wf(),
    ensures
        line@ == position_line(root_fen@, moves@),
{
    let mut line = "position fen ".to_owned();
    line.append(root_fen);
    line.append(" moves ");
    line.append(join_with_spaces(&move_texts(moves)).as_str());
    line
}

/// The command that starts a search.
pub fn go_command(work: &Work) -> (line: String)
    requires
        work.wf(),
    ensures
        line@ == join(go_words(*work), ' '),
{
    let mut words: Vec<String> = Vec::new();
    words.push("go".to_owned());
    match work {
        Work::Move { level, clock, .. } => {
            words.push("movetime".to_owned());
            words.push(number_text(level.time_ms));
            words.push("depth".to_owned());
            words.push(number_text(level.depth as u128));
            if let Some(clock) = clock {
                words.push("wtime".to_owned());
                words.push(number_text(clock.wtime_ms));
                words.push("btime".to_owned());
                words.push(number_text(clock.btime_ms));
                words.push("winc".to_owned());
                words.push(number_text(clock.inc_ms));
                words.push("binc".to_owned());
                words.push(number_text(clock.inc_ms));
            }
        },
        Work::Analysis { nodes, depth, .. } => match depth {
            Some(depth) => {
                words.push("depth".to_owned());
                words.push(number_text(*depth as u128));
            },
            None => {
                words.push("nodes".to_owned());
                words.push(number_text((*nodes).unwrap() as u128));
            },
        },
    }
    assert(texts(words@) =~= go_words(*work));
    join_with_spaces(&words)
}

/// The commands that set up a position and start a search of it.
pub fn search_commands(position: &Position) -> (lines: Vec<String>)
    requires
        position.wf(),
    ensures
        texts(lines@) == search_lines(*position),
{
    let mut lines: Vec<String> = Vec::new();
    lines.push(position_command(position.root_fen.as_str(), &position.moves));
    lines.push(go_command(&position.work));
    assert(texts(lines@) =~= search_lines(*position));
    lines
}

/// An analysis with a depth is limited by its depth alone: its nodes make no
/// difference.
pub proof fn law_depth_limits_alone(
    id: String,
    depth: u8,
    nodes: Option<u64>,
    other_nodes: Option<u64>,
)
    ensures
        go_words(Work::Analysis { id, nodes, depth: Some(depth) }) == seq![
            "go"@,
            "depth"@,
            digits(depth as nat),
        ],
        go_words(Work::Analysis { id, nodes, depth: Some(depth) }) == go_words(
            Work::Analysis { id, nodes: other_nodes, depth: Some(depth) },
        ),
{
}

/// The text does not go on to a second line.
pub open spec fn is_one_line(s: Seq<char>) -> bool {
    !s.contains('\n')
}

/// No text goes on to a second line.
pub open spec fn are_lines(list: Seq<Seq<char>>) -> bool {
    forall|i: int| 0 <= i < list.len() ==> is_one_line(#[trigger] list[i])
}

proof fn lemma_concat_is_one_line(a: Seq<char>, b: Seq<char>)
    requires
        is_one_line(a),
        is_one_line(b),
    ensures
        is_one_line(a + b),
{
    assert forall|i: int| 0 <= i < (a + b).len() implies (a + b)[i] != '\n' by {
        if i < a.len() {
            assert(a.contains(a[i]));
        } else {
            assert(b.contains(b[i - a.len()]));
        }
    }
}

proof fn lemma_digits_are_one_line(n: int)
    ensures
        n >= 0 ==> is_one_line(digits(n as nat)),
        is_one_line(signed_digits(n)),
{
    let m = if n < 0 {
        (-n) as nat
    } else {
        n as nat
    };
    law_digits_stand_for_number(m);
    assert forall|i: int| 0 <= i < digits(m).len() implies digits(m)[i] != '\n' by {
        assert(is_digit(digits(m)[i]));
    }
    lemma_concat_is_one_line(seq!['-'], digits(m));
}

proof fn lemma_join_is_one_line(pieces: Seq<Seq<char>>)
    requires
        are_lines(pieces),
    ensures
        is_one_line(join(pieces, ' ')),
    decreases pieces.len(),
{
    if pieces.len() > 1 {
        let before = pieces.drop_last();
        assert forall|i: int| 0 <= i < before.len() implies is_one_line(#[trigger] before[i]) by {
            assert(before[i] == pieces[i]);
        }
        lemma_join_is_one_line(before);
        lemma_concat_is_one_line(join(before, ' '), seq![' ']);
        assert(join(before, ' ').push(' ') =~= join(before, ' ') + seq![' ']);
        assert(is_one_line(pieces[pieces.len() - 1]));
        lemma_concat_is_one_line(join(before, ' ').push(' '), pieces.last());
    } else if pieces.len() == 1 {
        assert(is_one_line(pieces[0]));
    }
}

proof fn lemma_option_is_one_line(name: Seq<char>, value: Seq<char>)
    requires
        is_one_line(name),
        is_one_line(value),
    ensures
        is_one_line(option_line(name, value)),
{
    reveal_strlit("setoption name ");
    reveal_strlit(" value ");
    lemma_concat_is_one_line("setoption name "@, name);
    lemma_concat_is_one_line("setoption name "@ + name, " value "@);
    lemma_concat_is_one_line("setoption name "@ + name + " value "@, value);
}

/// Each of the commands that an engine is given once is one line.
pub proof fn law_init_commands_are_lines(threads: usize, hash_mb: usize)
    ensures
        are_lines(init_lines(threads, hash_mb)),
{
    reveal_strlit("UCI_Chess960");
    reveal_strlit("true");
    reveal_strlit("Threads");
    reveal_strlit("Hash");
    reveal_strlit("UCI_AnalyseMode");
    reveal_strlit("Use NNUE");
    reveal_strlit("Contempt");
    reveal_strlit("0");
    reveal_strlit("SlowMover");
    reveal_strlit("100");
    reveal_strlit("clear hash");
    reveal_strlit("isready");
    lemma_digits_are_one_line(threads as int);
    lemma_digits_are_one_line(hash_mb as int);
    lemma_option_is_one_line("UCI_Chess960"@, "true"@);
    lemma_option_is_one_line("Threads"@, digits(threads as nat));
    lemma_option_is_one_line("Hash"@, digits(hash_mb as nat));
    lemma_option_is_one_line("UCI_AnalyseMode"@, "true"@);
    lemma_option_is_one_line("Use NNUE"@, "true"@);
    lemma_option_is_one_line("Contempt"@, "0"@);
    lemma_option_is_one_line("SlowMover"@, "100"@);
}

/// Each of the commands for a chunk is one line, if the name of the variant is.
pub proof fn law_chunk_commands_are_lines(chunk: Chunk)
    requires
        is_one_line(chunk.variant@),
    ensures
        are_lines(chunk_lines(chunk)),
{
    reveal_strlit("ucinewgame");
    reveal_strlit("true");
    reveal_strlit("false");
    reveal_strlit("Use NNUE");
    reveal_strlit("UCI_AnalyseMode");
    reveal_strlit("UCI_Variant");
    reveal_strlit("MultiPV");
    reveal_strlit("Skill Level");
    lemma_digits_are_one_line(chunk.multipv as int);
    lemma_digits_are_one_line(skill_level(chunk.work));
    lemma_option_is_one_line("Use NNUE"@, bool_text(chunk.nnue));
    lemma_option_is_one_line("UCI_AnalyseMode"@, bool_text(chunk.work is Analysis));
    lemma_option_is_one_line("UCI_Variant"@, chunk.variant@);
    lemma_option_is_one_line("MultiPV"@, digits(chunk.multipv as nat));
    lemma_option_is_one_line("Skill Level"@, signed_digits(skill_level(chunk.work)));
}

/// Each of the commands for a position is one line, if the position that the
/// moves start from is.
pub proof fn law_search_commands_are_lines(position: Position)
    requires
        position.wf(),
        is_one_line(position.root_fen@),
    ensures
        are_lines(search_lines(position)),
{
    let moves = position.moves@.map_values(|m: UciMove| m.notation());
    assert forall|i: int| 0 <= i < moves.len() implies is_one_line(#[trigger] moves[i]) by {
        assert(position.moves[i].wf());
        let text = position.moves[i].notation();
        assert forall|k: int| 0 <= k < text.len() implies text[k] != '\n' by {}
    }
    lemma_join_is_one_line(moves);
    reveal_strlit("position fen ");
    reveal_strlit(" moves ");
    let fen = position.root_fen@;
    lemma_concat_is_one_line("position fen "@, fen);
    lemma_concat_is_one_line("position fen "@ + fen, " moves "@);
    lemma_concat_is_one_line("position fen "@ + fen + " moves "@, join(moves, ' '));
    lemma_go_words_are_lines(position.work);
    lemma_join_is_one_line(go_words(position.work));
}

proof fn lemma_go_words_are_lines(work: Work)
    ensures
        are_lines(go_words(work)),
{
    reveal_strlit("go");
    reveal_strlit("movetime");
    reveal_strlit("depth");
    reveal_strlit("nodes");
    reveal_strlit("wtime");
    reveal_strlit("btime");
    reveal_strlit("winc");
    reveal_strlit("binc");
    match work {
        Work::Move { level, clock, .. } => {
            lemma_digits_are_one_line(level.time_ms as int);
            lemma_digits_are_one_line(level.depth as int);
            if let Some(clock) = clock {
                lemma_digits_are_one_line(clock.wtime_ms as int);
                lemma_digits_are_one_line(clock.btime_ms as int);
                lemma_digits_are_one_line(clock.inc_ms as int);
            }
        },
        Work::Analysis { nodes, depth, .. } => {
            lemma_digits_are_one_line(depth->0 as int);
            lemma_digits_are_one_line(nodes->0 as int);
        },
    }
}

/// What an engine is told once: castling as in Chess960, its threads, its hash
/// table, to analyse, to evaluate with its network, no contempt, the usual pace,
/// to clear its hash table, and to say when it is ready.
pub proof fn law_options_of_an_engine(threads: usize, hash_mb: usize)
    ensures
        ({
            let lines = init_lines(threads, hash_mb);
            &&& lines.len() == 9
            &&& lines[0] == "setoption name UCI_Chess960 value true"@
            &&& lines[1] == "setoption name Threads value "@ + digits(threads as nat)
            &&& lines[2] == "setoption name Hash value "@ + digits(hash_mb as nat)
            &&& lines[3] == "setoption name UCI_AnalyseMode value true"@
            &&& lines[4] == "setoption name Use NNUE value true"@
            &&& lines[5] == "setoption name Contempt value 0"@
            &&& lines[6] == "setoption name SlowMover value 100"@
            &&& lines[7] == "clear hash"@
            &&& lines[8] == "isready"@
        }),
{
    reveal_strlit("setoption name ");
    reveal_strlit(" value ");
    reveal_strlit("UCI_Chess960");
    reveal_strlit("true");
    reveal_strlit("Threads");
    reveal_strlit("Hash");
    reveal_strlit("UCI_AnalyseMode");
    reveal_strlit("Use NNUE");
    reveal_strlit("Contempt");
    reveal_strlit("0");
    reveal_strlit("SlowMover");
    reveal_strlit("100");
    reveal_strlit("setoption name UCI_Chess960 value true");
    reveal_strlit("setoption name Threads value ");
    reveal_strlit("setoption name Hash value ");
    reveal_strlit("setoption name UCI_AnalyseMode value true");
    reveal_strlit("setoption name Use NNUE value true");
    reveal_strlit("setoption name Contempt value 0");
    reveal_strlit("setoption name SlowMover value 100");
    let lines = init_lines(threads, hash_mb);
    assert(lines[0] =~= "setoption name UCI_Chess960 value true"@);
    assert(lines[1] =~= "setoption name Threads value "@ + digits(threads as nat));
    assert(lines[2] =~= "setoption name Hash value "@ + digits(hash_mb as nat));
    assert(lines[3] =~= "setoption name UCI_AnalyseMode value true"@);
    assert(lines[4] =~= "setoption name Use NNUE value true"@);
    assert(lines[5] =~= "setoption name Contempt value 0"@);
    assert(lines[6] =~= "setoption name SlowMover value 100"@);
}

/// How an engine is set up for a chunk. It begins a new game first, and whichever
/// engine it is, the number of lines of play and the playing strength come last:
/// the skill level that a move asks for, and full strength for an analysis.
pub proof fn law_chunk_sets_strength_last(chunk: Chunk)
    ensures
        ({
            let lines = chunk_lines(chunk);
            let end = lines.len() as int;
            &&& lines[0] == "ucinewgame"@
            &&& lines[end - 2] == "setoption name MultiPV value "@ + digits(chunk.multipv as nat)
            &&& chunk.work is Analysis ==> lines[end - 1] == "setoption name Skill Level value 20"@
            &&& chunk.work matches Work::Move { level, .. } ==> lines[end - 1]
                == "setoption name Skill Level value "@ + signed_digits(level.skill_level as int)
        }),
{
    reveal_strlit("setoption name ");
    reveal_strlit(" value ");
    reveal_strlit("MultiPV");
    reveal_strlit("Skill Level");
    reveal_strlit("setoption name MultiPV value ");
    reveal_strlit("setoption name Skill Level value ");
    reveal_strlit("setoption name Skill Level value 20");
    let lines = chunk_lines(chunk);
    let end = lines.len() as int;
    assert(lines[end - 2] =~= "setoption name MultiPV value "@ + digits(chunk.multipv as nat));
    assert(lines[end - 1] =~= "setoption name Skill Level value "@ + signed_digits(
        skill_level(chunk.work),
    ));
    if chunk.work is Analysis {
        assert(digits(20) =~= seq!['2', '0']) by {
            assert(digits(2) == seq!['2']);
        }
        assert(lines[end - 1] =~= "setoption name Skill Level value 20"@);
    }
}

/// Only the engine for variants is told how to evaluate, whether to analyse and
/// which variant is played, and it is told so before the rest.
pub proof fn law_variant_engine_is_told_more(chunk: Chunk)
    ensures
        ({
            let lines = chunk_lines(chunk);
            &&& chunk.flavor == EngineFlavor::Official ==> lines.len() == 3
            &&& chunk.flavor == EngineFlavor::MultiVariant ==> {
                &&& lines.len() == 6
                &&& chunk.nnue ==> lines[1] == "setoption name Use NNUE value true"@
                &&& !chunk.nnue ==> lines[1] == "setoption name Use NNUE value false"@
                &&& chunk.work is Analysis ==> lines[2]
                    == "setoption name UCI_AnalyseMode value true"@
                &&& chunk.work is Move ==> lines[2]
                    == "setoption name UCI_AnalyseMode value false"@
                &&& lines[3] == "setoption name UCI_Variant value "@ + chunk.variant@
            }
        }),
{
    reveal_strlit("setoption name ");
    reveal_strlit(" value ");
    reveal_strlit("Use NNUE");
    reveal_strlit("UCI_AnalyseMode");
    reveal_strlit("UCI_Variant");
    reveal_strlit("true");
    reveal_strlit("false");
    reveal_strlit("setoption name Use NNUE value true");
    reveal_strlit("setoption name Use NNUE value false");
    reveal_strlit("setoption name UCI_AnalyseMode value true");
    reveal_strlit("setoption name UCI_AnalyseMode value false");
    reveal_strlit("setoption name UCI_Variant value ");
    let lines = chunk_lines(chunk);
    if chunk.flavor == EngineFlavor::MultiVariant {
        if chunk.nnue {
            assert(lines[1] =~= "setoption name Use NNUE value true"@);
        } else {
            assert(lines[1] =~= "setoption name Use NNUE value false"@);
        }
        if chunk.work is Analysis {
            assert(lines[2] =~= "setoption name UCI_AnalyseMode value true"@);
        } else {
            assert(lines[2] =~= "setoption name UCI_AnalyseMode value false"@);
        }
        assert(lines[3] =~= "setoption name UCI_Variant value "@ + chunk.variant@);
    }
}

/// A position is set up from where its moves start, and every further move adds
/// its notation to the line, behind one space.
pub proof fn law_moves_are_added_to_the_position(fen: Seq<char>, moves: Seq<UciMove>, m: UciMove)
    ensures
        position_line(fen, Seq::empty()) == "position fen "@ + fen + " moves "@,
        moves.len() == 0 ==> position_line(fen, moves.push(m)) == position_line(fen, moves)
            + m.notation(),
        moves.len() > 0 ==> position_line(fen, moves.push(m)) == position_line(fen, moves) + seq![
            ' ',
        ] + m.notation(),
{
    let words = moves.map_values(|m: UciMove| m.notation());
    let none = Seq::<UciMove>::empty();
    assert(none.map_values(|m: UciMove| m.notation()) =~= Seq::empty());
    assert(position_line(fen, none) =~= "position fen "@ + fen + " moves "@);
    let more = moves.push(m).map_values(|m: UciMove| m.notation());
    assert(more =~= words.push(m.notation()));
    assert(more.drop_last() =~= words);
    if moves.len() == 0 {
        assert(words =~= Seq::empty());
        assert(position_line(fen, moves.push(m)) =~= position_line(fen, moves) + m.notation());
    } else {
        assert(position_line(fen, moves.push(m)) =~= position_line(fen, moves) + seq![' ']
            + m.notation());
    }
}

/// What words add to a line that they stand at the end of: each has a space in
/// front.
spec fn tail_text(words: Seq<Seq<char>>) -> Seq<char> {
    if words.len() == 0 {
        Seq::empty()
    } else {
        seq![' '] + join(words, ' ')
    }
}

/// A word goes to the front, with a space behind it if there is more.
proof fn lemma_word_goes_first(word: Seq<char>, rest: Seq<Seq<char>>)
    ensures
        join(seq![word] + rest, ' ') == word + tail_text(rest),
{
    law_rows_are_joined_by_one_separator(seq![word], rest, ' ');
    if rest.len() == 0 {
        assert(seq![word] + rest =~= seq![word]);
        assert(word + tail_text(rest) =~= word);
    } else {
        assert(word + seq![' '] + join(rest, ' ') =~= word + tail_text(rest));
    }
}

/// A keyword and its number go to the front of a tail.
proof fn lemma_pair_goes_first(
    padded: Seq<char>,
    key: Seq<char>,
    number: Seq<char>,
    rest: Seq<Seq<char>>,
)
    requires
        padded == seq![' '] + key + seq![' '],
    ensures
        tail_text(seq![key, number] + rest) == padded + number + tail_text(rest),
{
    let tail = seq![number] + rest;
    assert(seq![key, number] + rest =~= seq![key] + tail);
    lemma_word_goes_first(key, tail);
    lemma_word_goes_first(number, rest);
    assert(seq![' '] + (key + (seq![' '] + (number + tail_text(rest)))) =~= padded + number
        + tail_text(rest));
}

/// The keywords of a search with a space on either side.
proof fn lemma_padded_keywords()
    ensures
        " depth "@ == seq![' '] + "depth"@ + seq![' '],
        " wtime "@ == seq![' '] + "wtime"@ + seq![' '],
        " btime "@ == seq![' '] + "btime"@ + seq![' '],
        " winc "@ == seq![' '] + "winc"@ + seq![' '],
        " binc "@ == seq![' '] + "binc"@ + seq![' '],
        "go depth "@ == "go"@ + (seq![' '] + "depth"@ + seq![' ']),
        "go nodes "@ == "go"@ + (seq![' '] + "nodes"@ + seq![' ']),
        "go movetime "@ == "go"@ + (seq![' '] + "movetime"@ + seq![' ']),
{
    reveal_strlit("go");
    reveal_strlit("movetime");
    reveal_strlit("depth");
    reveal_strlit("nodes");
    reveal_strlit("wtime");
    reveal_strlit("btime");
    reveal_strlit("winc");
    reveal_strlit("binc");
    reveal_strlit("go depth ");
    reveal_strlit("go nodes ");
    reveal_strlit("go movetime ");
    reveal_strlit(" depth ");
    reveal_strlit(" wtime ");
    reveal_strlit(" btime ");
    reveal_strlit(" winc ");
    reveal_strlit(" binc ");
    assert(" depth "@ =~= seq![' '] + "depth"@ + seq![' ']);
    assert(" wtime "@ =~= seq![' '] + "wtime"@ + seq![' ']);
    assert(" btime "@ =~= seq![' '] + "btime"@ + seq![' ']);
    assert(" winc "@ =~= seq![' '] + "winc"@ + seq![' ']);
    assert(" binc "@ =~= seq![' '] + "binc"@ + seq![' ']);
    assert("go depth "@ =~= "go"@ + (seq![' '] + "depth"@ + seq![' ']));
    assert("go nodes "@ =~= "go"@ + (seq![' '] + "nodes"@ + seq![' ']));
    assert("go movetime "@ =~= "go"@ + (seq![' '] + "movetime"@ + seq![' ']));
}

/// A tail that starts with a keyword and its number is put behind a line.
proof fn lemma_tail_is_put_behind(
    line: Seq<char>,
    padded: Seq<char>,
    number: Seq<char>,
    rest: Seq<char>,
)
    ensures
        line + (padded + number + rest) == line + padded + number + rest,
        line + Seq::<char>::empty() == line,
{
    assert(line + (padded + number + rest) =~= line + padded + number + rest);
    assert(line + Seq::<char>::empty() =~= line);
}

/// How a search is started: an analysis with a depth by that depth and nothing
/// else, an analysis without one by its nodes and nothing else, and a move by its
/// time and depth, and by both clocks and the increment for both sides if there
/// is a clock.
pub proof fn law_search_is_started_by_its_limits(work: Work)
    ensures
        work matches Work::Analysis { depth: Some(depth), .. } ==> join(go_words(work), ' ')
            == "go depth "@ + digits(depth as nat),
        work matches Work::Analysis { depth: None, nodes: Some(nodes), .. } ==> join(
            go_words(work),
            ' ',
        ) == "go nodes "@ + digits(nodes as nat),
        work matches Work::Move { level, clock: None, .. } ==> join(go_words(work), ' ')
            == "go movetime "@ + digits(level.time_ms as nat) + " depth "@ + digits(
            level.depth as nat,
        ),
        work matches Work::Move { level, clock: Some(clock), .. } ==> join(go_words(work), ' ')
            == "go movetime "@ + digits(level.time_ms as nat) + " depth "@ + digits(
            level.depth as nat,
        ) + " wtime "@ + digits(clock.wtime_ms as nat) + " btime "@ + digits(clock.btime_ms as nat)
            + " winc "@ + digits(clock.inc_ms as nat) + " binc "@ + digits(clock.inc_ms as nat),
{
    lemma_padded_keywords();
    let none = Seq::<Seq<char>>::empty();
    let nothing = tail_text(none);
    match work {
        Work::Analysis { nodes, depth, .. } => {
            let (key, number) = match depth {
                Some(depth) => ("depth"@, digits(depth as nat)),
                None => ("nodes"@, digits(nodes->0 as nat)),
            };
            let padded = seq![' '] + key + seq![' '];
            let pair = seq![key, number] + none;
            assert(go_words(work) =~= seq!["go"@] + pair);
            lemma_word_goes_first("go"@, pair);
            lemma_pair_goes_first(padded, key, number, none);
            lemma_tail_is_put_behind("go"@, padded, number, nothing);
            lemma_tail_is_put_behind("go"@ + padded + number, padded, number, nothing);
        },
        Work::Move { level, clock, .. } => {
            let time = digits(level.time_ms as nat);
            let depth = digits(level.depth as nat);
            let padded = seq![' '] + "movetime"@ + seq![' '];
            let clocks = match clock {
                None => none,
                Some(clock) => seq!["wtime"@, digits(clock.wtime_ms as nat)] + (seq![
                    "btime"@,
                    digits(clock.btime_ms as nat),
                ] + (seq!["winc"@, digits(clock.inc_ms as nat)] + (seq![
                    "binc"@,
                    digits(clock.inc_ms as nat),
                ] + none))),
            };
            let limits = seq!["depth"@, depth] + clocks;
            let pairs = seq!["movetime"@, time] + limits;
            let line = "go movetime "@ + time;
            assert(go_words(work) =~= seq!["go"@] + pairs);
            lemma_word_goes_first("go"@, pairs);
            lemma_pair_goes_first(padded, "movetime"@, time, limits);
            lemma_pair_goes_first(" depth "@, "depth"@, depth, clocks);
            lemma_tail_is_put_behind("go"@, padded, time, tail_text(limits));
            lemma_tail_is_put_behind(line, " depth "@, depth, tail_text(clocks));
            assert(join(go_words(work), ' ') == line + " depth "@ + depth + tail_text(clocks));
            let line = line + " depth "@ + depth;
            match clock {
                None => {
                    lemma_tail_is_put_behind(line, line, line, line);
                },
                Some(clock) => {
                    lemma_clocks_are_put_behind(line, clock);
                },
            }
        },
    }
}

/// The clocks and the increments are put behind a line.
proof fn lemma_clocks_are_put_behind(line: Seq<char>, clock: Clock)
    ensures
        line + tail_text(
            seq!["wtime"@, digits(clock.wtime_ms as nat)] + (seq![
                "btime"@,
                digits(clock.btime_ms as nat),
            ] + (seq!["winc"@, digits(clock.inc_ms as nat)] + (seq![
                "binc"@,
                digits(clock.inc_ms as nat),
            ] + Seq::empty()))),
        ) == line + " wtime "@ + digits(clock.wtime_ms as nat) + " btime "@ + digits(
            clock.btime_ms as nat,
        ) + " winc "@ + digits(clock.inc_ms as nat) + " binc "@ + digits(clock.inc_ms as nat),
{
    lemma_padded_keywords();
    let white = digits(clock.wtime_ms as nat);
    let black = digits(clock.btime_ms as nat);
    let inc = digits(clock.inc_ms as nat);
    let none = Seq::<Seq<char>>::empty();
    let d = seq!["binc"@, inc] + none;
    let c = seq!["winc"@, inc] + d;
    let b = seq!["btime"@, black] + c;
    lemma_pair_goes_first(" wtime "@, "wtime"@, white, b);
    lemma_pair_goes_first(" btime "@, "btime"@, black, c);
    lemma_pair_goes_first(" winc "@, "winc"@, inc, d);
    lemma_pair_goes_first(" binc "@, "binc"@, inc, none);
    let one = line + " wtime "@ + white;
    let two = one + " btime "@ + black;
    let three = two + " winc "@ + inc;
    let four = three + " binc "@ + inc;
    lemma_tail_is_put_behind(line, " wtime "@, white, tail_text(b));
    lemma_tail_is_put_behind(one, " btime "@, black, tail_text(c));
    lemma_tail_is_put_behind(two, " winc "@, inc, tail_text(d));
    lemma_tail_is_put_behind(three, " binc "@, inc, tail_text(none));
    lemma_tail_is_put_behind(four, four, four, four);
}

/// A search takes two lines: the one that sets up the position, from where its
/// moves start, and the one that starts the search with the limits of its work.
pub proof fn law_search_takes_two_lines(position: Position)
    ensures
        search_lines(position).len() == 2,
        search_lines(position)[0] == position_line(position.root_fen@, position.moves@),
        search_lines(position)[1] == join(go_words(position.work), ' '),
{
}

} // verus!
