//! What the engine writes: the lines of the Universal Chess Interface that
//! report the progress and the result of a search.

use vstd::prelude::*;

use crate::decimal::{parse_number, parse_signed};
use crate::moves::{parse_move, UciMove};
use crate::text::{same_text, split_at_each};
#[allow(unused_imports)]
use crate::decimal::{
    digits, is_digit, law_digits_stand_for_number, law_written_number_is_read_back,
    law_written_signed_number_is_read_back, read_number, read_signed, signed_digits,
};
#[allow(unused_imports)]
use crate::moves::{
    law_moves_that_are_read_are_valid, law_written_move_is_read_back, move_of, moves_of,
};
#[allow(unused_imports)]
use crate::text::{join, law_joined_pieces_are_cut_again, split, texts};

verus! {

/// How good a position is for the side to move.
#[derive(Clone, Copy, PartialEq, Eq, Debug)]
pub enum Score {
    /// In hundredths of a pawn.
    Cp(i64),
    /// In moves until mate.
    Mate(i64),
}

impl View for Score {
    type V = Score;

    open spec fn view(&self) -> Score {
        *self
    }
}

/// Why a line of the engine cannot be used.
#[derive(Clone, Copy, PartialEq, Eq, Debug)]
pub enum ProtocolError {
    /// `multipv` without a number from 1 to 255 behind it.
    ExpectedMultipv,
    /// `depth` without a number up to 255 behind it.
    ExpectedDepth,
    /// `nodes` without a 64-bit number behind it.
    ExpectedNodes,
    /// `time` without a 64-bit number behind it.
    ExpectedTime,
    /// `score` without `cp` or `mate` behind it.
    ExpectedCpOrMate,
    /// `score cp` or `score mate` without a signed 64-bit number behind it.
    ExpectedScore,
    /// `pv` with something behind it that is not a move.
    InvalidPv,
    /// A line that is neither a best move nor a report.
    UnexpectedOutput,
    /// A best move before any score for the first line of play.
    MissingScore,
}

impl ProtocolError {
    /// What is wrong, in words.
    pub open spec fn description(self, line: Seq<char>) -> Seq<char> {
        match self {
            ProtocolError::ExpectedMultipv => "expected multipv"@,
            ProtocolError::ExpectedDepth => "expected depth"@,
            ProtocolError::ExpectedNodes => "expected nodes"@,
            ProtocolError::ExpectedTime => "expected time"@,
            ProtocolError::ExpectedCpOrMate => "expected cp or mate"@,
            ProtocolError::ExpectedScore => "expected score"@,
            ProtocolError::InvalidPv => "invalid pv"@,
            ProtocolError::UnexpectedOutput => "unexpected engine output: "@ + line,
            ProtocolError::MissingScore => "missing score"@,
        }
    }

    /// Says what is wrong with `line`.
    pub fn message(self, line: &str) -> (message: String)
        ensures
            message@ == self.description(line@),
    {
        match self {
            ProtocolError::ExpectedMultipv => "expected multipv".to_owned(),
            ProtocolError::ExpectedDepth => "expected depth".to_owned(),
            ProtocolError::ExpectedNodes => "expected nodes".to_owned(),
            ProtocolError::ExpectedTime => "expected time".to_owned(),
            ProtocolError::ExpectedCpOrMate => "expected cp or mate".to_owned(),
            ProtocolError::ExpectedScore => "expected score".to_owned(),
            ProtocolError::InvalidPv => "invalid pv".to_owned(),
            ProtocolError::UnexpectedOutput => {
                let mut message = "unexpected engine output: ".to_owned();
                message.append(line);
                message
            },
            ProtocolError::MissingScore => "missing score".to_owned(),
        }
    }
}

/// A report on a search in progress.
#[derive(PartialEq, Eq, Debug)]
pub struct Info {
    /// The rank of the line of play that the report is about.
    pub multipv: u8,
    pub depth: Option<u8>,
    pub nodes: Option<u64>,
    /// The time searched, in milliseconds.
    pub time_ms: Option<u64>,
    pub nps: Option<u32>,
    pub score: Option<Score>,
    /// The score is only a lower bound.
    pub lowerbound: bool,
    /// The score is only an upper bound.
    pub upperbound: bool,
    /// The line of play.
    pub pv: Option<Vec<UciMove>>,
}

/// [`Info`] with its line of play as a sequence.
pub struct InfoView {
    pub multipv: u8,
    pub depth: Option<u8>,
    pub nodes: Option<u64>,
    pub time_ms: Option<u64>,
    pub nps: Option<u32>,
    pub score: Option<Score>,
    pub lowerbound: bool,
    pub upperbound: bool,
    pub pv: Option<Seq<UciMove>>,
}

impl View for Info {
    type V = InfoView;

    open spec fn view(&self) -> InfoView {
        InfoView {
            multipv: self.multipv,
            depth: self.depth,
            nodes: self.nodes,
            time_ms: self.time_ms,
            nps: self.nps,
            score: self.score,
            lowerbound: self.lowerbound,
            upperbound: self.upperbound,
            pv: match self.pv {
                Some(pv) => Some(pv@),
                None => None,
            },
        }
    }
}

impl InfoView {
    /// A report that says nothing yet.
    pub open spec fn blank() -> InfoView {
        InfoView {
            multipv: 1,
            depth: None,
            nodes: None,
            time_ms: None,
            nps: None,
            score: None,
            lowerbound: false,
            upperbound: false,
            pv: None,
        }
    }

    /// Lines of play are counted from one, and consist of valid moves.
    pub open spec fn wf(self) -> bool {
        &&& self.multipv >= 1
        &&& self.pv matches Some(pv) ==> forall|i: int| 0 <= i < pv.len() ==> (#[trigger] pv[i]).wf()
    }

    /// The score is neither a lower nor an upper bound.
    pub open spec fn exact(self) -> bool {
        !self.lowerbound && !self.upperbound
    }
}

/// A line of the engine during a search.
#[derive(PartialEq, Eq, Debug)]
pub enum UciLine {
    /// The search is over. There is no move if the engine gave none, or one
    /// that is not a move.
    Bestmove(Option<UciMove>),
    /// The search goes on.
    Info(Info),
}

/// [`UciLine`] with the view of its report.
pub enum UciLineView {
    Bestmove(Option<UciMove>),
    Info(InfoView),
}

impl View for UciLine {
    type V = UciLineView;

    open spec fn view(&self) -> UciLineView {
        match self {
            UciLine::Bestmove(m) => UciLineView::Bestmove(*m),
            UciLine::Info(info) => UciLineView::Info(info@),
        }
    }
}

impl UciLineView {
    /// Moves are valid and lines of play are counted from one.
    pub open spec fn wf(self) -> bool {
        match self {
            UciLineView::Bestmove(m) => m matches Some(m) ==> m.wf(),
            UciLineView::Info(info) => info.wf(),
        }
    }
}

/// The number in word `i`: nothing if there is no such word, or one that is not
/// a number of at most `max`.
pub open spec fn number_at(words: Seq<Seq<char>>, i: int, max: nat) -> Option<nat> {
    if i < words.len() {
        read_number(words[i], max)
    } else {
        None
    }
}

/// The score in words `i` and `i + 1`.
pub open spec fn score_at(words: Seq<Seq<char>>, i: int) -> Result<Score, ProtocolError> {
    if i < words.len() && (words[i] == "cp"@ || words[i] == "mate"@) {
        let n = if i + 1 < words.len() {
            read_signed(words[i + 1])
        } else {
            None
        };
        match n {
            Some(n) => Ok(
                if words[i] == "cp"@ {
                    Score::Cp(n as i64)
                } else {
                    Score::Mate(n as i64)
                },
            ),
            None => Err(ProtocolError::ExpectedScore),
        }
    } else {
        Err(ProtocolError::ExpectedCpOrMate)
    }
}

/// What the words from `i` on add to the report `info`. A keyword is followed
/// by its value, the last one of a kind counts, `pv` takes all the words behind
/// it, `string` ends the report, and other words are passed over.
pub open spec fn read_info(words: Seq<Seq<char>>, i: int, info: InfoView) -> Result<
    InfoView,
    ProtocolError,
>
    decreases words.len() - i,
{
    if i >= words.len() || words[i] == "string"@ {
        Ok(info)
    } else if words[i] == "multipv"@ {
        match number_at(words, i + 1, 255) {
            Some(n) if n > 0 => read_info(words, i + 2, InfoView { multipv: n as u8, ..info }),
            _ => Err(ProtocolError::ExpectedMultipv),
        }
    } else if words[i] == "depth"@ {
        match number_at(words, i + 1, 255) {
            Some(n) => read_info(words, i + 2, InfoView { depth: Some(n as u8), ..info }),
            None => Err(ProtocolError::ExpectedDepth),
        }
    } else if words[i] == "nodes"@ {
        match number_at(words, i + 1, u64::MAX as nat) {
            Some(n) => read_info(words, i + 2, InfoView { nodes: Some(n as u64), ..info }),
            None => Err(ProtocolError::ExpectedNodes),
        }
    } else if words[i] == "time"@ {
        match number_at(words, i + 1, u64::MAX as nat) {
            Some(n) => read_info(words, i + 2, InfoView { time_ms: Some(n as u64), ..info }),
            None => Err(ProtocolError::ExpectedTime),
        }
    } else if words[i] == "nps"@ {
        let nps = match number_at(words, i + 1, u32::MAX as nat) {
            Some(n) => Some(n as u32),
            None => None,
        };
        let next = if i + 1 < words.len() {
            i + 2
        } else {
            i + 1
        };
        read_info(words, next, InfoView { nps, ..info })
    } else if words[i] == "score"@ {
        match score_at(words, i + 1) {
            Ok(score) => read_info(words, i + 3, InfoView { score: Some(score), ..info }),
            Err(e) => Err(e),
        }
    } else if words[i] == "lowerbound"@ {
        read_info(words, i + 1, InfoView { lowerbound: true, ..info })
    } else if words[i] == "upperbound"@ {
        read_info(words, i + 1, InfoView { upperbound: true, ..info })
    } else if words[i] == "pv"@ {
        match moves_of(words.skip(i + 1)) {
            Some(pv) => Ok(InfoView { pv: Some(pv), ..info }),
            None => Err(ProtocolError::InvalidPv),
        }
    } else {
        read_info(words, i + 1, info)
    }
}

/// What the words of a line stand for.
pub open spec fn read_words(words: Seq<Seq<char>>) -> Result<UciLineView, ProtocolError> {
    if words[0] == "bestmove"@ {
        Ok(
            UciLineView::Bestmove(
                if words.len() > 1 {
                    move_of(words[1])
                } else {
                    None
                },
            ),
        )
    } else if words[0] == "info"@ {
        match read_info(words, 1, InfoView::blank()) {
            Ok(info) => Ok(UciLineView::Info(info)),
            Err(e) => Err(e),
        }
    } else {
        Err(ProtocolError::UnexpectedOutput)
    }
}

/// What a line of the engine stands for. Words are separated by single spaces.
pub open spec fn read_line(line: Seq<char>) -> Result<UciLineView, ProtocolError> {
    read_words(split(line, ' '))
}

/// Reads the number in word `i`.
fn parse_number_at(words: &Vec<String>, i: usize, max: u64) -> (n: Option<u64>)
    ensures
        match n {
            Some(n) => number_at(texts(words@), i as int, max as nat) == Some(n as nat) && n <= max,
            None => number_at(texts(words@), i as int, max as nat) is None,
        },
{
    if i < words.len() {
        parse_number(words[i].as_str(), max)
    } else {
        None
    }
}

/// Reads the score in words `i` and `i + 1`.
fn parse_score_at(words: &Vec<String>, i: usize) -> (score: Result<Score, ProtocolError>)
    ensures
        score == score_at(texts(words@), i as int),
{
    if i >= words.len() {
        return Err(ProtocolError::ExpectedCpOrMate);
    }
    let cp = same_text(words[i].as_str(), "cp");
    if !cp && !same_text(words[i].as_str(), "mate") {
        return Err(ProtocolError::ExpectedCpOrMate);
    }
    if i + 1 >= words.len() {
        return Err(ProtocolError::ExpectedScore);
    }
    match parse_signed(words[i + 1].as_str()) {
        Some(n) => Ok(
            if cp {
                Score::Cp(n)
            } else {
                Score::Mate(n)
            },
        ),
        None => Err(ProtocolError::ExpectedScore),
    }
}

/// Reads the words from `i` on as moves.
fn parse_moves_from(words: &Vec<String>, i: usize) -> (moves: Option<Vec<UciMove>>)
    requires
        i <= words.len(),
    ensures
        match moves {
            Some(moves) => moves_of(texts(words@).skip(i as int)) == Some(moves@),
            None => moves_of(texts(words@).skip(i as int)) is None,
        },
{
    let ghost rest = texts(words@).skip(i as int);
    let mut moves: Vec<UciMove> = Vec::new();
    let mut k: usize = i;
    assert(rest.take(0) == Seq::<Seq<char>>::empty());
    while k < words.len()
        invariant
            i <= k <= words.len(),
            rest == texts(words@).skip(i as int),
            moves_of(rest.take(k - i)) == Some(moves@),
        decreases words.len() - k,
    {
        proof {
            assert(rest.take(k - i + 1).drop_last() == rest.take(k - i));
            assert(rest.take(k - i + 1).last() == words@[k as int]@);
        }
        match parse_move(words[k].as_str()) {
            Some(m) => {
                moves.push(m);
            },
            None => {
                proof {
                    lemma_bad_move_spoils_all(rest, k - i + 1);
                }
                return None;
            },
        }
        k = k + 1;
    }
    assert(rest.take(words.len() - i) == rest);
    Some(moves)
}

/// If the first words are not all moves, then the words are not all moves.
proof fn lemma_bad_move_spoils_all(words: Seq<Seq<char>>, k: int)
    requires
        0 <= k <= words.len(),
        moves_of(words.take(k)) is None,
    ensures
        moves_of(words) is None,
    decreases words.len() - k,
{
    if k == words.len() {
        assert(words.take(k) == words);
    } else {
        assert(words.take(k + 1).drop_last() == words.take(k));
        lemma_bad_move_spoils_all(words, k + 1);
    }
}

/// Reads the words of a report.
fn parse_info(words: &Vec<String>) -> (info: Result<Info, ProtocolError>)
    requires
        words.len() > 0,
    ensures
        match info {
            Ok(info) => read_info(texts(words@), 1, InfoView::blank()) == Ok::<
                InfoView,
                ProtocolError,
            >(info@),
            Err(e) => read_info(texts(words@), 1, InfoView::blank()) == Err::<
                InfoView,
                ProtocolError,
            >(e),
        },
{
    let ghost all = texts(words@);
    let mut info = Info {
        multipv: 1,
        depth: None,
        nodes: None,
        time_ms: None,
        nps: None,
        score: None,
        lowerbound: false,
        upperbound: false,
        pv: None,
    };
    let mut i: usize = 1;
    while i < words.len()
        invariant
            i >= 1,
            words.len() > 0,
            all == texts(words@),
            read_info(all, 1, InfoView::blank()) == read_info(all, i as int, info@),
        decreases words.len() - i,
    {
        let word = words[i].as_str();
        assert(all[i as int] == word@);
        if same_text(word, "string") {
            return Ok(info);
        } else if same_text(word, "multipv") {
            match parse_number_at(words, i + 1, 255) {
                Some(n) if n > 0 => {
                    info.multipv = n as u8;
                },
                _ => return Err(ProtocolError::ExpectedMultipv),
            }
            i = i + 2;
        } else if same_text(word, "depth") {
            match parse_number_at(words, i + 1, 255) {
                Some(n) => {
                    info.depth = Some(n as u8);
                },
                None => return Err(ProtocolError::ExpectedDepth),
            }
            i = i + 2;
        } else if same_text(word, "nodes") {
            match parse_number_at(words, i + 1, u64::MAX) {
                Some(n) => {
                    info.nodes = Some(n);
                },
                None => return Err(ProtocolError::ExpectedNodes),
            }
            i = i + 2;
        } else if same_text(word, "time") {
            match parse_number_at(words, i + 1, u64::MAX) {
                Some(n) => {
                    info.time_ms = Some(n);
                },
                None => return Err(ProtocolError::ExpectedTime),
            }
            i = i + 2;
        } else if same_text(word, "nps") {
            info.nps = match parse_number_at(words, i + 1, u32::MAX as u64) {
                Some(n) => Some(n as u32),
                None => None,
            };
            i = if i + 1 < words.len() {
                i + 2
            } else {
                i + 1
            };
        } else if same_text(word, "score") {
            match parse_score_at(words, i + 1) {
                Ok(score) => {
                    info.score = Some(score);
                },
                Err(e) => return Err(e),
            }
            i = i + 3;
        } else if same_text(word, "lowerbound") {
            info.lowerbound = true;
            i = i + 1;
        } else if same_text(word, "upperbound") {
            info.upperbound = true;
            i = i + 1;
        } else if same_text(word, "pv") {
            match parse_moves_from(words, i + 1) {
                Some(pv) => {
                    info.pv = Some(pv);
                    return Ok(info);
                },
                None => return Err(ProtocolError::InvalidPv),
            }
        } else {
            i = i + 1;
        }
    }
    Ok(info)
}

impl UciLine {
    /// Reads a line of the engine.
    pub fn from_str(line: &str) -> (r: Result<UciLine, ProtocolError>)
        ensures
            match r {
                Ok(uci) => read_line(line@) == Ok::<UciLineView, ProtocolError>(uci@) && uci@.wf(),
                Err(e) => read_line(line@) == Err::<UciLineView, ProtocolError>(e),
            },
    {
        proof {
            law_what_is_read_is_valid(line@);
        }
        let words = split_at_each(line, ' ');
        assert(texts(words@)[0] == words@[0]@);
        let first = words[0].as_str();
        if same_text(first, "bestmove") {
            if words.len() > 1 {
                assert(texts(words@)[1] == words@[1]@);
                Ok(UciLine::Bestmove(parse_move(words[1].as_str())))
            } else {
                Ok(UciLine::Bestmove(None))
            }
        } else if same_text(first, "info") {
            match parse_info(&words) {
                Ok(info) => Ok(UciLine::Info(info)),
                Err(e) => Err(e),
            }
        } else {
            Err(ProtocolError::UnexpectedOutput)
        }
    }
}

/// Moves that have been read are valid.
proof fn lemma_moves_are_valid(words: Seq<Seq<char>>)
    ensures
        moves_of(words) matches Some(moves) ==> moves.len() == words.len() && forall|i: int|
            0 <= i < moves.len() ==> (#[trigger] moves[i]).wf() && Some(moves[i]) == move_of(words[i]),
    decreases words.len(),
{
    if words.len() > 0 {
        lemma_moves_are_valid(words.drop_last());
        law_moves_that_are_read_are_valid(words.last());
    }
}

/// Reading more words keeps a report valid.
proof fn lemma_read_info_is_valid(words: Seq<Seq<char>>, i: int, info: InfoView)
    requires
        info.wf(),
    ensures
        read_info(words, i, info) matches Ok(after) ==> after.wf(),
    decreases words.len() - i,
{
    if i < words.len() {
        lemma_moves_are_valid(words.skip(i + 1));
        let n = number_at(words, i + 1, 255);
        let large = number_at(words, i + 1, u64::MAX as nat);
        let word = words[i];
        if word == "string"@ {
        } else if word == "multipv"@ {
            if n is Some && n->0 > 0 {
                lemma_read_info_is_valid(words, i + 2, InfoView { multipv: n->0 as u8, ..info });
            }
        } else if word == "depth"@ {
            if n is Some {
                lemma_read_info_is_valid(words, i + 2, InfoView { depth: Some(n->0 as u8), ..info });
            }
        } else if word == "nodes"@ {
            if large is Some {
                lemma_read_info_is_valid(
                    words,
                    i + 2,
                    InfoView { nodes: Some(large->0 as u64), ..info },
                );
            }
        } else if word == "time"@ {
            if large is Some {
                lemma_read_info_is_valid(
                    words,
                    i + 2,
                    InfoView { time_ms: Some(large->0 as u64), ..info },
                );
            }
        } else if word == "nps"@ {
            let nps = match number_at(words, i + 1, u32::MAX as nat) {
                Some(n) => Some(n as u32),
                None => None,
            };
            if i + 1 < words.len() {
                lemma_read_info_is_valid(words, i + 2, InfoView { nps, ..info });
            } else {
                lemma_read_info_is_valid(words, i + 1, InfoView { nps, ..info });
            }
        } else if word == "score"@ {
            if let Ok(score) = score_at(words, i + 1) {
                lemma_read_info_is_valid(words, i + 3, InfoView { score: Some(score), ..info });
            }
        } else if word == "lowerbound"@ {
            lemma_read_info_is_valid(words, i + 1, InfoView { lowerbound: true, ..info });
        } else if word == "upperbound"@ {
            lemma_read_info_is_valid(words, i + 1, InfoView { upperbound: true, ..info });
        } else if word != "pv"@ {
            lemma_read_info_is_valid(words, i + 1, info);
        }
    }
}

/// What is read from a line is valid: its moves are, and lines of play are
/// counted from one.
pub proof fn law_what_is_read_is_valid(line: Seq<char>)
    ensures
        read_line(line) matches Ok(uci) ==> uci.wf(),
{
    let words = split(line, ' ');
    law_moves_that_are_read_are_valid(words[1]);
    lemma_read_info_is_valid(words, 1, InfoView::blank());
}

/// The words that report a number.
pub open spec fn number_words(key: Seq<char>, n: Option<nat>) -> Seq<Seq<char>> {
    match n {
        Some(n) => seq![key, digits(n)],
        None => Seq::empty(),
    }
}

/// The words that report a score.
pub open spec fn score_words(score: Option<Score>) -> Seq<Seq<char>> {
    match score {
        Some(Score::Cp(n)) => seq!["score"@, "cp"@, signed_digits(n as int)],
        Some(Score::Mate(n)) => seq!["score"@, "mate"@, signed_digits(n as int)],
        None => Seq::empty(),
    }
}

/// The word that reports that something holds.
pub open spec fn flag_words(key: Seq<char>, holds: bool) -> Seq<Seq<char>> {
    if holds {
        seq![key]
    } else {
        Seq::empty()
    }
}

/// The words that report a line of play.
pub open spec fn pv_words(pv: Option<Seq<UciMove>>) -> Seq<Seq<char>> {
    match pv {
        Some(pv) => seq!["pv"@] + pv.map_values(|m: UciMove| m.notation()),
        None => Seq::empty(),
    }
}

/// A number that may be missing.
pub open spec fn opt_nat8(n: Option<u8>) -> Option<nat> {
    match n {
        Some(n) => Some(n as nat),
        None => None,
    }
}

/// A number that may be missing.
pub open spec fn opt_nat32(n: Option<u32>) -> Option<nat> {
    match n {
        Some(n) => Some(n as nat),
        None => None,
    }
}

/// A number that may be missing.
pub open spec fn opt_nat64(n: Option<u64>) -> Option<nat> {
    match n {
        Some(n) => Some(n as nat),
        None => None,
    }
}

/// The words with which an engine reports `info`.
pub open spec fn report_words(info: InfoView) -> Seq<Seq<char>> {
    seq!["info"@] + (number_words("depth"@, opt_nat8(info.depth)) + (number_words(
        "multipv"@,
        Some(info.multipv as nat),
    ) + (score_words(info.score) + (flag_words("lowerbound"@, info.lowerbound) + (flag_words(
        "upperbound"@,
        info.upperbound,
    ) + (number_words("nodes"@, opt_nat64(info.nodes)) + (number_words(
        "nps"@,
        opt_nat32(info.nps),
    ) + (number_words("time"@, opt_nat64(info.time_ms)) + pv_words(info.pv)))))))))
}

/// No keyword is taken for another, and none holds a space.
proof fn lemma_keywords_differ()
    ensures
        "info"@ != "bestmove"@,
        "mate"@ != "cp"@,
        "multipv"@ != "string"@,
        "depth"@ != "string"@,
        "depth"@ != "multipv"@,
        "nodes"@ != "string"@,
        "nodes"@ != "multipv"@,
        "nodes"@ != "depth"@,
        "time"@ != "string"@,
        "time"@ != "multipv"@,
        "time"@ != "depth"@,
        "time"@ != "nodes"@,
        "nps"@ != "string"@,
        "nps"@ != "multipv"@,
        "nps"@ != "depth"@,
        "nps"@ != "nodes"@,
        "nps"@ != "time"@,
        "score"@ != "string"@,
        "score"@ != "multipv"@,
        "score"@ != "depth"@,
        "score"@ != "nodes"@,
        "score"@ != "time"@,
        "score"@ != "nps"@,
        "lowerbound"@ != "string"@,
        "lowerbound"@ != "multipv"@,
        "lowerbound"@ != "depth"@,
        "lowerbound"@ != "nodes"@,
        "lowerbound"@ != "time"@,
        "lowerbound"@ != "nps"@,
        "lowerbound"@ != "score"@,
        "upperbound"@ != "string"@,
        "upperbound"@ != "multipv"@,
        "upperbound"@ != "depth"@,
        "upperbound"@ != "nodes"@,
        "upperbound"@ != "time"@,
        "upperbound"@ != "nps"@,
        "upperbound"@ != "score"@,
        "upperbound"@ != "lowerbound"@,
        "pv"@ != "string"@,
        "pv"@ != "multipv"@,
        "pv"@ != "depth"@,
        "pv"@ != "nodes"@,
        "pv"@ != "time"@,
        "pv"@ != "nps"@,
        "pv"@ != "score"@,
        "pv"@ != "lowerbound"@,
        "pv"@ != "upperbound"@,
        !"multipv"@.contains(' '),
        !"depth"@.contains(' '),
        !"nodes"@.contains(' '),
        !"time"@.contains(' '),
        !"nps"@.contains(' '),
        !"score"@.contains(' '),
        !"lowerbound"@.contains(' '),
        !"upperbound"@.contains(' '),
        !"pv"@.contains(' '),
        !"info"@.contains(' '),
        !"cp"@.contains(' '),
        !"mate"@.contains(' '),
{
    reveal_strlit("info");
    reveal_strlit("bestmove");
    reveal_strlit("string");
    reveal_strlit("multipv");
    reveal_strlit("depth");
    reveal_strlit("nodes");
    reveal_strlit("time");
    reveal_strlit("nps");
    reveal_strlit("score");
    reveal_strlit("cp");
    reveal_strlit("mate");
    reveal_strlit("lowerbound");
    reveal_strlit("upperbound");
    reveal_strlit("pv");
    assert("string"@[0] == 's' && "score"@[0] == 's' && "score"@[1] == 'c' && "string"@[1] == 't');
    assert("multipv"@[0] == 'm' && "depth"@[0] == 'd' && "time"@[0] == 't' && "lowerbound"@[0]
        == 'l' && "upperbound"@[0] == 'u' && "pv"@[0] == 'p' && "mate"@[0] == 'm' && "cp"@[0]
        == 'c' && "info"@[0] == 'i' && "bestmove"@[0] == 'b');
    assert("nodes"@[1] == 'o' && "nps"@[1] == 'p' && "nodes"@[0] == 'n' && "nps"@[0] == 'n');
}

/// What the words from a place on add to a report does not depend on the words
/// before it.
#[verifier::rlimit(40)]
proof fn lemma_read_info_looks_ahead(words: Seq<Seq<char>>, k: int, i: int, info: InfoView)
    requires
        0 <= k,
        0 <= i,
        k + i <= words.len(),
    ensures
        read_info(words, k + i, info) == read_info(words.skip(k), i, info),
    decreases words.len() - (k + i),
{
    let rest = words.skip(k);
    if k + i < words.len() {
        assert(rest[i] == words[k + i]);
        assert(rest.skip(i + 1) == words.skip(k + i + 1));
        if k + i + 1 < words.len() {
            assert(rest[i + 1] == words[k + i + 1]);
            if k + i + 2 < words.len() {
                assert(rest[i + 2] == words[k + i + 2]);
            }
        }
        let n = number_at(words, k + i + 1, 255);
        let large = number_at(words, k + i + 1, u64::MAX as nat);
        let speed = number_at(words, k + i + 1, u32::MAX as nat);
        assert(number_at(rest, i + 1, 255) == n);
        assert(number_at(rest, i + 1, u64::MAX as nat) == large);
        assert(number_at(rest, i + 1, u32::MAX as nat) == speed);
        assert(score_at(rest, i + 1) == score_at(words, k + i + 1));
        let word = words[k + i];
        if word == "string"@ {
        } else if word == "multipv"@ {
            if n is Some {
                lemma_read_info_looks_ahead(
                    words,
                    k,
                    i + 2,
                    InfoView { multipv: n->0 as u8, ..info },
                );
            }
        } else if word == "depth"@ {
            if n is Some {
                lemma_read_info_looks_ahead(
                    words,
                    k,
                    i + 2,
                    InfoView { depth: Some(n->0 as u8), ..info },
                );
            }
        } else if word == "nodes"@ {
            if large is Some {
                lemma_read_info_looks_ahead(
                    words,
                    k,
                    i + 2,
                    InfoView { nodes: Some(large->0 as u64), ..info },
                );
            }
        } else if word == "time"@ {
            if large is Some {
                lemma_read_info_looks_ahead(
                    words,
                    k,
                    i + 2,
                    InfoView { time_ms: Some(large->0 as u64), ..info },
                );
            }
        } else if word == "nps"@ {
            let nps = match speed {
                Some(n) => Some(n as u32),
                None => None,
            };
            if k + i + 1 < words.len() {
                lemma_read_info_looks_ahead(words, k, i + 2, InfoView { nps, ..info });
            } else {
                lemma_read_info_looks_ahead(words, k, i + 1, InfoView { nps, ..info });
            }
        } else if word == "score"@ {
            if let Ok(score) = score_at(words, k + i + 1) {
                lemma_read_info_looks_ahead(
                    words,
                    k,
                    i + 3,
                    InfoView { score: Some(score), ..info },
                );
            }
        } else if word == "lowerbound"@ {
            lemma_read_info_looks_ahead(words, k, i + 1, InfoView { lowerbound: true, ..info });
        } else if word == "upperbound"@ {
            lemma_read_info_looks_ahead(words, k, i + 1, InfoView { upperbound: true, ..info });
        } else if word != "pv"@ {
            lemma_read_info_looks_ahead(words, k, i + 1, info);
        }
    }
}

/// What is read behind `front` is what `rest` says.
proof fn lemma_rest_is_read(front: Seq<Seq<char>>, rest: Seq<Seq<char>>, info: InfoView)
    ensures
        read_info(front + rest, front.len() as int, info) == read_info(rest, 0, info),
{
    assert((front + rest).skip(front.len() as int) == rest);
    lemma_read_info_looks_ahead(front + rest, front.len() as int, 0, info);
}

/// A number that is reported is read.
proof fn lemma_number_is_read(key: Seq<char>, n: nat, max: nat, rest: Seq<Seq<char>>)
    requires
        n <= max,
    ensures
        ({
            let words = number_words(key, Some(n)) + rest;
            &&& words[0] == key
            &&& words.len() >= 2
            &&& number_at(words, 1, max) == Some(n)
        }),
{
    law_written_number_is_read_back(n, max);
}

/// A score that is reported is read.
proof fn lemma_score_is_read(score: Score, rest: Seq<Seq<char>>)
    ensures
        ({
            let words = score_words(Some(score)) + rest;
            &&& words[0] == "score"@
            &&& words.len() >= 3
            &&& score_at(words, 1) == Ok::<Score, ProtocolError>(score)
        }),
{
    lemma_keywords_differ();
    let words = score_words(Some(score)) + rest;
    match score {
        Score::Cp(n) => {
            law_written_signed_number_is_read_back(n);
            assert(words[1] == "cp"@);
            assert(words[2] == signed_digits(n as int));
        },
        Score::Mate(n) => {
            law_written_signed_number_is_read_back(n);
            assert(words[1] == "mate"@);
            assert(words[2] == signed_digits(n as int));
        },
    }
}

/// Moves that are reported are read.
proof fn lemma_moves_are_read(pv: Seq<UciMove>)
    requires
        forall|i: int| 0 <= i < pv.len() ==> (#[trigger] pv[i]).wf(),
    ensures
        moves_of(pv.map_values(|m: UciMove| m.notation())) == Some(pv),
    decreases pv.len(),
{
    let words = pv.map_values(|m: UciMove| m.notation());
    if pv.len() > 0 {
        let before = pv.drop_last();
        assert forall|i: int| 0 <= i < before.len() implies (#[trigger] before[i]).wf() by {
            assert(before[i] == pv[i]);
        }
        lemma_moves_are_read(before);
        assert(words.drop_last() =~= before.map_values(|m: UciMove| m.notation()));
        assert(pv[pv.len() - 1].wf());
        law_written_move_is_read_back(pv.last());
        assert(before.push(pv.last()) =~= pv);
    } else {
        assert(words =~= Seq::empty());
        assert(pv =~= Seq::empty());
    }
}

/// What `words` add to the report `info`.
#[verifier::opaque]
spec fn reads(words: Seq<Seq<char>>, info: InfoView) -> Result<InfoView, ProtocolError> {
    read_info(words, 0, info)
}

proof fn lemma_depth_is_read(depth: Option<u8>, rest: Seq<Seq<char>>, info: InfoView)
    requires
        info.depth is None,
    ensures
        reads(number_words("depth"@, opt_nat8(depth)) + rest, info) == reads(
            rest,
            InfoView { depth, ..info },
        ),
{
    reveal(reads);
    let front = number_words("depth"@, opt_nat8(depth));
    if let Some(n) = depth {
        lemma_keywords_differ();
        lemma_number_is_read("depth"@, n as nat, 255, rest);
        lemma_rest_is_read(front, rest, InfoView { depth, ..info });
    } else {
        assert(front + rest =~= rest);
        assert(InfoView { depth, ..info } == info);
    }
}

proof fn lemma_multipv_is_read(multipv: u8, rest: Seq<Seq<char>>, info: InfoView)
    requires
        multipv >= 1,
    ensures
        reads(number_words("multipv"@, Some(multipv as nat)) + rest, info) == reads(
            rest,
            InfoView { multipv, ..info },
        ),
{
    reveal(reads);
    lemma_keywords_differ();
    lemma_number_is_read("multipv"@, multipv as nat, 255, rest);
    lemma_rest_is_read(
        number_words("multipv"@, Some(multipv as nat)),
        rest,
        InfoView { multipv, ..info },
    );
}

proof fn lemma_score_is_taken(score: Option<Score>, rest: Seq<Seq<char>>, info: InfoView)
    requires
        info.score is None,
    ensures
        reads(score_words(score) + rest, info) == reads(rest, InfoView { score, ..info }),
{
    reveal(reads);
    if let Some(found) = score {
        lemma_keywords_differ();
        lemma_score_is_read(found, rest);
        lemma_rest_is_read(score_words(score), rest, InfoView { score, ..info });
    } else {
        assert(score_words(score) + rest =~= rest);
        assert(InfoView { score, ..info } == info);
    }
}

proof fn lemma_bounds_are_read(
    lowerbound: bool,
    upperbound: bool,
    rest: Seq<Seq<char>>,
    info: InfoView,
)
    requires
        !info.lowerbound,
        !info.upperbound,
    ensures
        reads(
            flag_words("lowerbound"@, lowerbound) + (flag_words("upperbound"@, upperbound) + rest),
            info,
        ) == reads(rest, InfoView { lowerbound, upperbound, ..info }),
{
    reveal(reads);
    lemma_keywords_differ();
    let middle = flag_words("upperbound"@, upperbound) + rest;
    let words = flag_words("lowerbound"@, lowerbound) + middle;
    let half = InfoView { lowerbound, ..info };
    if lowerbound {
        lemma_rest_is_read(flag_words("lowerbound"@, true), middle, half);
        assert(words[0] == "lowerbound"@);
    } else {
        assert(words =~= middle);
        assert(half == info);
    }
    if upperbound {
        lemma_rest_is_read(
            flag_words("upperbound"@, true),
            rest,
            InfoView { upperbound, ..half },
        );
        assert(middle[0] == "upperbound"@);
    } else {
        assert(middle =~= rest);
        assert(InfoView { upperbound, ..half } == half);
    }
}

proof fn lemma_nodes_are_read(nodes: Option<u64>, rest: Seq<Seq<char>>, info: InfoView)
    requires
        info.nodes is None,
    ensures
        reads(number_words("nodes"@, opt_nat64(nodes)) + rest, info) == reads(
            rest,
            InfoView { nodes, ..info },
        ),
{
    reveal(reads);
    let front = number_words("nodes"@, opt_nat64(nodes));
    if let Some(n) = nodes {
        lemma_keywords_differ();
        lemma_number_is_read("nodes"@, n as nat, u64::MAX as nat, rest);
        lemma_rest_is_read(front, rest, InfoView { nodes, ..info });
    } else {
        assert(front + rest =~= rest);
        assert(InfoView { nodes, ..info } == info);
    }
}

proof fn lemma_nps_is_read(nps: Option<u32>, rest: Seq<Seq<char>>, info: InfoView)
    requires
        info.nps is None,
    ensures
        reads(number_words("nps"@, opt_nat32(nps)) + rest, info) == reads(
            rest,
            InfoView { nps, ..info },
        ),
{
    reveal(reads);
    let front = number_words("nps"@, opt_nat32(nps));
    if let Some(n) = nps {
        lemma_keywords_differ();
        lemma_number_is_read("nps"@, n as nat, u32::MAX as nat, rest);
        lemma_rest_is_read(front, rest, InfoView { nps, ..info });
    } else {
        assert(front + rest =~= rest);
        assert(InfoView { nps, ..info } == info);
    }
}

proof fn lemma_time_is_read(time_ms: Option<u64>, rest: Seq<Seq<char>>, info: InfoView)
    requires
        info.time_ms is None,
    ensures
        reads(number_words("time"@, opt_nat64(time_ms)) + rest, info) == reads(
            rest,
            InfoView { time_ms, ..info },
        ),
{
    reveal(reads);
    let front = number_words("time"@, opt_nat64(time_ms));
    if let Some(n) = time_ms {
        lemma_keywords_differ();
        lemma_number_is_read("time"@, n as nat, u64::MAX as nat, rest);
        lemma_rest_is_read(front, rest, InfoView { time_ms, ..info });
    } else {
        assert(front + rest =~= rest);
        assert(InfoView { time_ms, ..info } == info);
    }
}

proof fn lemma_pv_is_read(pv: Option<Seq<UciMove>>, info: InfoView)
    requires
        info.pv is None,
        pv matches Some(pv) ==> forall|i: int| 0 <= i < pv.len() ==> (#[trigger] pv[i]).wf(),
    ensures
        reads(pv_words(pv), info) == Ok::<InfoView, ProtocolError>(InfoView { pv, ..info }),
{
    reveal(reads);
    let words = pv_words(pv);
    if let Some(moves) = pv {
        lemma_keywords_differ();
        lemma_moves_are_read(moves);
        assert(words[0] == "pv"@);
        assert(words.skip(1) =~= moves.map_values(|m: UciMove| m.notation()));
    } else {
        assert(InfoView { pv, ..info } == info);
    }
}

/// Every report that can be made is understood: the words with which an engine
/// reports something are read as just that.
pub proof fn law_report_is_understood(info: InfoView)
    requires
        info.wf(),
    ensures
        read_words(report_words(info)) == Ok::<UciLineView, ProtocolError>(UciLineView::Info(info)),
{
    let w9 = pv_words(info.pv);
    let w8 = number_words("time"@, opt_nat64(info.time_ms)) + w9;
    let w7 = number_words("nps"@, opt_nat32(info.nps)) + w8;
    let w6 = number_words("nodes"@, opt_nat64(info.nodes)) + w7;
    let w4 = flag_words("lowerbound"@, info.lowerbound) + (flag_words(
        "upperbound"@,
        info.upperbound,
    ) + w6);
    let w3 = score_words(info.score) + w4;
    let w2 = number_words("multipv"@, Some(info.multipv as nat)) + w3;
    let w1 = number_words("depth"@, opt_nat8(info.depth)) + w2;
    let i0 = InfoView::blank();
    let i1 = InfoView { depth: info.depth, ..i0 };
    let i2 = InfoView { multipv: info.multipv, ..i1 };
    let i3 = InfoView { score: info.score, ..i2 };
    let i5 = InfoView { lowerbound: info.lowerbound, upperbound: info.upperbound, ..i3 };
    let i6 = InfoView { nodes: info.nodes, ..i5 };
    let i7 = InfoView { nps: info.nps, ..i6 };
    let i8 = InfoView { time_ms: info.time_ms, ..i7 };
    assert(report_words(info) == seq!["info"@] + w1);
    lemma_depth_is_read(info.depth, w2, i0);
    lemma_multipv_is_read(info.multipv, w3, i1);
    lemma_score_is_taken(info.score, w4, i2);
    lemma_bounds_are_read(info.lowerbound, info.upperbound, w6, i3);
    lemma_nodes_are_read(info.nodes, w7, i5);
    lemma_nps_is_read(info.nps, w8, i6);
    lemma_time_is_read(info.time_ms, w9, i7);
    lemma_pv_is_read(info.pv, i8);
    assert(reads(w1, i0) == Ok::<InfoView, ProtocolError>(info));
    assert(read_words(report_words(info)) == Ok::<UciLineView, ProtocolError>(
        UciLineView::Info(info),
    )) by {
        reveal(reads);
        lemma_keywords_differ();
        lemma_rest_is_read(seq!["info"@], w1, i0);
        assert(report_words(info)[0] == "info"@);
    }
}

/// No word holds a space.
spec fn without_spaces(words: Seq<Seq<char>>) -> bool {
    forall|i: int| 0 <= i < words.len() ==> !(#[trigger] words[i]).contains(' ')
}

proof fn lemma_concat_without_spaces(a: Seq<Seq<char>>, b: Seq<Seq<char>>)
    requires
        without_spaces(a),
        without_spaces(b),
    ensures
        without_spaces(a + b),
{
    assert forall|i: int| 0 <= i < (a + b).len() implies !(#[trigger] (a + b)[i]).contains(' ') by {
        if i < a.len() {
            assert((a + b)[i] == a[i]);
        } else {
            assert((a + b)[i] == b[i - a.len()]);
        }
    }
}

proof fn lemma_digits_without_spaces(n: nat)
    ensures
        !digits(n).contains(' '),
        !(seq!['-'] + digits(n)).contains(' '),
{
    law_digits_stand_for_number(n);
    assert forall|i: int| 0 <= i < digits(n).len() implies digits(n)[i] != ' ' by {
        assert(is_digit(digits(n)[i]));
    }
    let signed = seq!['-'] + digits(n);
    assert forall|i: int| 0 <= i < signed.len() implies signed[i] != ' ' by {
        if i > 0 {
            assert(signed[i] == digits(n)[i - 1]);
        }
    }
}

proof fn lemma_number_without_spaces(key: Seq<char>, n: Option<nat>)
    requires
        !key.contains(' '),
    ensures
        without_spaces(number_words(key, n)),
{
    if let Some(n) = n {
        lemma_digits_without_spaces(n);
    }
}

proof fn lemma_score_without_spaces(score: Option<Score>)
    ensures
        without_spaces(score_words(score)),
{
    lemma_keywords_differ();
    if let Some(found) = score {
        let n = match found {
            Score::Cp(n) => n as int,
            Score::Mate(n) => n as int,
        };
        if n < 0 {
            lemma_digits_without_spaces((-n) as nat);
        } else {
            lemma_digits_without_spaces(n as nat);
        }
    }
}

proof fn lemma_pv_without_spaces(pv: Option<Seq<UciMove>>)
    requires
        pv matches Some(pv) ==> forall|i: int| 0 <= i < pv.len() ==> (#[trigger] pv[i]).wf(),
    ensures
        without_spaces(pv_words(pv)),
{
    lemma_keywords_differ();
    if let Some(moves) = pv {
        let words = pv_words(pv);
        assert forall|i: int| 0 <= i < words.len() implies !(#[trigger] words[i]).contains(' ') by {
            if i == 0 {
                assert(words[0] == "pv"@);
            } else {
                assert(words[i] == moves[i - 1].notation());
                assert(moves[i - 1].wf());
                let text = moves[i - 1].notation();
                assert forall|k: int| 0 <= k < text.len() implies text[k] != ' ' by {}
            }
        }
    }
}

/// The line with which an engine reports something is read as just that.
pub proof fn law_report_line_is_understood(info: InfoView)
    requires
        info.wf(),
    ensures
        read_line(join(report_words(info), ' ')) == Ok::<UciLineView, ProtocolError>(
            UciLineView::Info(info),
        ),
{
    lemma_keywords_differ();
    let w9 = pv_words(info.pv);
    let w8 = number_words("time"@, opt_nat64(info.time_ms)) + w9;
    let w7 = number_words("nps"@, opt_nat32(info.nps)) + w8;
    let w6 = number_words("nodes"@, opt_nat64(info.nodes)) + w7;
    let w5 = flag_words("upperbound"@, info.upperbound) + w6;
    let w4 = flag_words("lowerbound"@, info.lowerbound) + w5;
    let w3 = score_words(info.score) + w4;
    let w2 = number_words("multipv"@, Some(info.multipv as nat)) + w3;
    let w1 = number_words("depth"@, opt_nat8(info.depth)) + w2;
    lemma_pv_without_spaces(info.pv);
    lemma_number_without_spaces("time"@, opt_nat64(info.time_ms));
    lemma_number_without_spaces("nps"@, opt_nat32(info.nps));
    lemma_number_without_spaces("nodes"@, opt_nat64(info.nodes));
    lemma_score_without_spaces(info.score);
    lemma_number_without_spaces("multipv"@, Some(info.multipv as nat));
    lemma_number_without_spaces("depth"@, opt_nat8(info.depth));
    lemma_concat_without_spaces(number_words("time"@, opt_nat64(info.time_ms)), w9);
    lemma_concat_without_spaces(number_words("nps"@, opt_nat32(info.nps)), w8);
    lemma_concat_without_spaces(number_words("nodes"@, opt_nat64(info.nodes)), w7);
    lemma_concat_without_spaces(flag_words("upperbound"@, info.upperbound), w6);
    lemma_concat_without_spaces(flag_words("lowerbound"@, info.lowerbound), w5);
    lemma_concat_without_spaces(score_words(info.score), w4);
    lemma_concat_without_spaces(number_words("multipv"@, Some(info.multipv as nat)), w3);
    lemma_concat_without_spaces(number_words("depth"@, opt_nat8(info.depth)), w2);
    lemma_concat_without_spaces(seq!["info"@], w1);
    law_joined_pieces_are_cut_again(report_words(info), ' ');
    law_report_is_understood(info);
}

/// A best move is understood, whatever the engine writes behind it.
pub proof fn law_best_move_is_understood(m: UciMove, rest: Seq<Seq<char>>)
    requires
        m.wf(),
    ensures
        read_words(seq!["bestmove"@, m.notation()] + rest) == Ok::<UciLineView, ProtocolError>(
            UciLineView::Bestmove(Some(m)),
        ),
{
    let words = seq!["bestmove"@, m.notation()] + rest;
    assert(words[0] == "bestmove"@ && words[1] == m.notation());
    law_written_move_is_read_back(m);
}

/// The line with which an engine gives its best move is read as that move,
/// whatever words stand behind it.
pub proof fn law_best_move_line_is_understood(m: UciMove, rest: Seq<Seq<char>>)
    requires
        m.wf(),
        forall|i: int| 0 <= i < rest.len() ==> !(#[trigger] rest[i]).contains(' '),
    ensures
        read_line(join(seq!["bestmove"@, m.notation()] + rest, ' ')) == Ok::<
            UciLineView,
            ProtocolError,
        >(UciLineView::Bestmove(Some(m))),
{
    reveal_strlit("bestmove");
    let front = seq!["bestmove"@, m.notation()];
    let text = m.notation();
    assert forall|k: int| 0 <= k < text.len() implies text[k] != ' ' by {}
    lemma_concat_without_spaces(front, rest);
    law_joined_pieces_are_cut_again(front + rest, ' ');
    law_best_move_is_understood(m, rest);
}

/// A part of a report: a keyword with its value, a keyword that stands alone, or
/// a word that is no keyword. A value is given as it is written and as what that
/// stands for.
pub enum Field {
    Multipv { text: Seq<char>, rank: u8 },
    Depth { text: Seq<char>, depth: u8 },
    Nodes { text: Seq<char>, nodes: u64 },
    Time { text: Seq<char>, ms: u64 },
    Nps { text: Seq<char> },
    Cp { text: Seq<char>, cp: i64 },
    Mate { text: Seq<char>, moves: i64 },
    Lowerbound,
    Upperbound,
    Other { word: Seq<char> },
}

impl Field {
    /// The words of the field.
    pub open spec fn words(self) -> Seq<Seq<char>> {
        match self {
            Field::Multipv { text, .. } => seq!["multipv"@, text],
            Field::Depth { text, .. } => seq!["depth"@, text],
            Field::Nodes { text, .. } => seq!["nodes"@, text],
            Field::Time { text, .. } => seq!["time"@, text],
            Field::Nps { text } => seq!["nps"@, text],
            Field::Cp { text, .. } => seq!["score"@, "cp"@, text],
            Field::Mate { text, .. } => seq!["score"@, "mate"@, text],
            Field::Lowerbound => seq!["lowerbound"@],
            Field::Upperbound => seq!["upperbound"@],
            Field::Other { word } => seq![word],
        }
    }

    /// A value is written as what it stands for, which is in its range, and a
    /// word that is no keyword is none. A speed may be written in any way.
    pub open spec fn is_valid(self) -> bool {
        match self {
            Field::Multipv { text, rank } => rank > 0 && read_number(text, 255) == Some(
                rank as nat,
            ),
            Field::Depth { text, depth } => read_number(text, 255) == Some(depth as nat),
            Field::Nodes { text, nodes } => read_number(text, 0xffff_ffff_ffff_ffff) == Some(
                nodes as nat,
            ),
            Field::Time { text, ms } => read_number(text, 0xffff_ffff_ffff_ffff) == Some(ms as nat),
            Field::Nps { .. } => true,
            Field::Cp { text, cp } => read_signed(text) == Some(cp as int),
            Field::Mate { text, moves } => read_signed(text) == Some(moves as int),
            Field::Lowerbound => true,
            Field::Upperbound => true,
            Field::Other { word } => !seq![
                "multipv"@,
                "depth"@,
                "nodes"@,
                "time"@,
                "nps"@,
                "score"@,
                "lowerbound"@,
                "upperbound"@,
                "pv"@,
                "string"@,
            ].contains(word),
        }
    }

    /// The report with this field.
    spec fn put(self, info: InfoView) -> InfoView {
        match self {
            Field::Multipv { rank, .. } => InfoView { multipv: rank, ..info },
            Field::Depth { depth, .. } => InfoView { depth: Some(depth), ..info },
            Field::Nodes { nodes, .. } => InfoView { nodes: Some(nodes), ..info },
            Field::Time { ms, .. } => InfoView { time_ms: Some(ms), ..info },
            Field::Nps { text } => InfoView {
                nps: match read_number(text, u32::MAX as nat) {
                    Some(n) => Some(n as u32),
                    None => None,
                },
                ..info
            },
            Field::Cp { cp, .. } => InfoView { score: Some(Score::Cp(cp)), ..info },
            Field::Mate { moves, .. } => InfoView { score: Some(Score::Mate(moves)), ..info },
            Field::Lowerbound => InfoView { lowerbound: true, ..info },
            Field::Upperbound => InfoView { upperbound: true, ..info },
            Field::Other { .. } => info,
        }
    }
}

/// The words of a row of fields.
pub open spec fn field_words(fields: Seq<Field>) -> Seq<Seq<char>>
    decreases fields.len(),
{
    if fields.len() == 0 {
        Seq::empty()
    } else {
        field_words(fields.drop_last()) + fields.last().words()
    }
}

/// Every field is valid.
pub open spec fn are_valid_fields(fields: Seq<Field>) -> bool {
    forall|i: int| 0 <= i < fields.len() ==> (#[trigger] fields[i]).is_valid()
}

/// The report with these fields.
spec fn put_all(fields: Seq<Field>, info: InfoView) -> InfoView
    decreases fields.len(),
{
    if fields.len() == 0 {
        info
    } else {
        fields.last().put(put_all(fields.drop_last(), info))
    }
}

/// A field is read, whatever stands behind it.
proof fn lemma_field_is_read(field: Field, tail: Seq<Seq<char>>, info: InfoView)
    requires
        field.is_valid(),
    ensures
        reads(field.words() + tail, info) == reads(tail, field.put(info)),
{
    reveal(reads);
    lemma_keywords_differ();
    let words = field.words() + tail;
    assert(words[0] == field.words()[0]);
    if field.words().len() > 1 {
        assert(words[1] == field.words()[1]);
    }
    if field.words().len() > 2 {
        assert(words[2] == field.words()[2]);
    }
    lemma_rest_is_read(field.words(), tail, field.put(info));
    if let Field::Other { word } = field {
        let keywords = seq![
            "multipv"@,
            "depth"@,
            "nodes"@,
            "time"@,
            "nps"@,
            "score"@,
            "lowerbound"@,
            "upperbound"@,
            "pv"@,
            "string"@,
        ];
        assert(keywords[0] == "multipv"@ && keywords[1] == "depth"@ && keywords[2] == "nodes"@
            && keywords[3] == "time"@ && keywords[4] == "nps"@ && keywords[5] == "score"@
            && keywords[6] == "lowerbound"@ && keywords[7] == "upperbound"@ && keywords[8] == "pv"@
            && keywords[9] == "string"@);
        assert forall|i: int| 0 <= i < keywords.len() implies word != keywords[i] by {
            assert(keywords.contains(keywords[i]));
        }
        assert(words[0] == word);
    }
}

/// A row of fields is read, whatever stands behind it.
proof fn lemma_fields_are_read(fields: Seq<Field>, tail: Seq<Seq<char>>, info: InfoView)
    requires
        are_valid_fields(fields),
    ensures
        reads(field_words(fields) + tail, info) == reads(tail, put_all(fields, info)),
    decreases fields.len(),
{
    if fields.len() > 0 {
        let before = fields.drop_last();
        let last = fields.last();
        assert forall|i: int| 0 <= i < before.len() implies (#[trigger] before[i]).is_valid() by {
            assert(before[i] == fields[i]);
        }
        assert(fields[fields.len() - 1].is_valid());
        assert(field_words(fields) + tail =~= field_words(before) + (last.words() + tail));
        lemma_fields_are_read(before, last.words() + tail, info);
        lemma_field_is_read(last, tail, put_all(before, info));
    } else {
        assert(field_words(fields) + tail =~= tail);
    }
}

/// A report is read by its fields and by what stands behind them.
proof fn lemma_report_is_read(fields: Seq<Field>, tail: Seq<Seq<char>>)
    requires
        are_valid_fields(fields),
    ensures
        read_words(seq!["info"@] + field_words(fields) + tail) == match reads(
            tail,
            put_all(fields, InfoView::blank()),
        ) {
            Ok(info) => Ok::<UciLineView, ProtocolError>(UciLineView::Info(info)),
            Err(e) => Err(e),
        },
{
    let rest = field_words(fields) + tail;
    let words = seq!["info"@] + rest;
    assert(seq!["info"@] + field_words(fields) + tail =~= words);
    lemma_keywords_differ();
    lemma_fields_are_read(fields, tail, InfoView::blank());
    assert(words[0] == "info"@);
    lemma_rest_is_read(seq!["info"@], rest, InfoView::blank());
    reveal(reads);
}

/// What a row of fields says.
proof fn lemma_report_of_fields(fields: Seq<Field>)
    requires
        are_valid_fields(fields),
    ensures
        read_words(seq!["info"@] + field_words(fields)) == Ok::<UciLineView, ProtocolError>(
            UciLineView::Info(put_all(fields, InfoView::blank())),
        ),
{
    let none = Seq::<Seq<char>>::empty();
    lemma_report_is_read(fields, none);
    assert(seq!["info"@] + field_words(fields) + none =~= seq!["info"@] + field_words(fields));
    reveal(reads);
}

/// What each field of a report says. A report without fields says nothing. One
/// more field at the end, wherever that is and whatever stands before it, sets
/// its own value, in the place of an earlier one if there was one, and no other;
/// a speed that is no 32-bit number makes the speed unknown; and a word that is
/// no keyword says nothing.
pub proof fn law_field_sets_its_own_value(fields: Seq<Field>, field: Field)
    requires
        are_valid_fields(fields),
        field.is_valid(),
    ensures
        read_words(seq!["info"@]) == Ok::<UciLineView, ProtocolError>(
            UciLineView::Info(
                InfoView {
                    multipv: 1,
                    depth: None,
                    nodes: None,
                    time_ms: None,
                    nps: None,
                    score: None,
                    lowerbound: false,
                    upperbound: false,
                    pv: None,
                },
            ),
        ),
        ({
            let before = read_words(seq!["info"@] + field_words(fields));
            let after = read_words(seq!["info"@] + field_words(fields.push(field)));
            &&& before matches Ok(UciLineView::Info(said))
            &&& after matches Ok(UciLineView::Info(says))
            &&& match field {
                Field::Multipv { rank, .. } => says == (InfoView { multipv: rank, ..said }),
                Field::Depth { depth, .. } => says == (InfoView { depth: Some(depth), ..said }),
                Field::Nodes { nodes, .. } => says == (InfoView { nodes: Some(nodes), ..said }),
                Field::Time { ms, .. } => says == (InfoView { time_ms: Some(ms), ..said }),
                Field::Nps { text } => match read_number(text, 0xffff_ffff) {
                    Some(n) => says == (InfoView { nps: Some(n as u32), ..said }),
                    None => says == (InfoView { nps: None, ..said }),
                },
                Field::Cp { cp, .. } => says == (InfoView { score: Some(Score::Cp(cp)), ..said }),
                Field::Mate { moves, .. } => says == (InfoView {
                    score: Some(Score::Mate(moves)),
                    ..said
                }),
                Field::Lowerbound => says == (InfoView { lowerbound: true, ..said }),
                Field::Upperbound => says == (InfoView { upperbound: true, ..said }),
                Field::Other { .. } => says == said,
            }
        }),
{
    let none = Seq::<Field>::empty();
    lemma_report_of_fields(none);
    assert(seq!["info"@] + field_words(none) =~= seq!["info"@]);
    lemma_report_of_fields(fields);
    let more = fields.push(field);
    assert forall|i: int| 0 <= i < more.len() implies (#[trigger] more[i]).is_valid() by {
        if i < fields.len() {
            assert(more[i] == fields[i]);
        }
    }
    lemma_report_of_fields(more);
    assert(more.drop_last() =~= fields);
}

/// What stands behind the fields of a report. `string` ends it, whatever follows.
/// `pv` takes all words that follow as the line of play, and leaves the rest as
/// it was. `nps` at the very end makes the speed unknown.
pub proof fn law_ends_of_a_report(fields: Seq<Field>, tail: Seq<Seq<char>>)
    requires
        are_valid_fields(fields),
    ensures
        read_words(seq!["info"@] + field_words(fields) + (seq!["string"@] + tail)) == read_words(
            seq!["info"@] + field_words(fields),
        ),
        ({
            let before = read_words(seq!["info"@] + field_words(fields));
            let after = read_words(seq!["info"@] + field_words(fields) + (seq!["pv"@] + tail));
            &&& before matches Ok(UciLineView::Info(said))
            &&& match moves_of(tail) {
                Some(moves) => after == Ok::<UciLineView, ProtocolError>(
                    UciLineView::Info(InfoView { pv: Some(moves), ..said }),
                ),
                None => after == Err::<UciLineView, ProtocolError>(ProtocolError::InvalidPv),
            }
            &&& said.pv is None
            &&& read_words(seq!["info"@] + field_words(fields) + seq!["nps"@]) == Ok::<
                UciLineView,
                ProtocolError,
            >(UciLineView::Info(InfoView { nps: None, ..said }))
        }),
{
    lemma_report_of_fields(fields);
    lemma_keywords_differ();
    lemma_no_field_is_a_line_of_play(fields);
    let info = put_all(fields, InfoView::blank());
    let string = seq!["string"@] + tail;
    let pv = seq!["pv"@] + tail;
    let nps = seq!["nps"@];
    lemma_report_is_read(fields, string);
    lemma_report_is_read(fields, pv);
    lemma_report_is_read(fields, nps);
    reveal(reads);
    assert(string[0] == "string"@);
    assert(pv[0] == "pv"@);
    assert(pv.skip(1) =~= tail);
    assert(nps[0] == "nps"@);
    assert(number_at(nps, 1, u32::MAX as nat) is None);
    assert(read_info(nps, 0, info) == read_info(nps, 1, InfoView { nps: None, ..info }));
    assert(read_info(nps, 1, InfoView { nps: None, ..info }) == Ok::<InfoView, ProtocolError>(
        InfoView { nps: None, ..info },
    ));
}

/// No field sets the line of play.
proof fn lemma_no_field_is_a_line_of_play(fields: Seq<Field>)
    ensures
        put_all(fields, InfoView::blank()).pv is None,
    decreases fields.len(),
{
    if fields.len() > 0 {
        lemma_no_field_is_a_line_of_play(fields.drop_last());
    }
}

/// What is wrong with a report: a keyword whose value is missing, is no number or
/// is out of its range, a score that is neither in hundredths of a pawn nor in
/// moves until mate, or one without a number. Each is an error of its own, after
/// any fields and whatever follows.
pub proof fn law_errors_of_a_report(
    fields: Seq<Field>,
    tail: Seq<Seq<char>>,
    line: Result<UciLineView, ProtocolError>,
)
    requires
        are_valid_fields(fields),
        tail.len() > 0,
        line == read_words(seq!["info"@] + field_words(fields) + tail),
    ensures
        tail[0] == "multipv"@ && (tail.len() == 1 || read_number(tail[1], 255) is None
            || read_number(tail[1], 255) == Some(0nat)) ==> line == Err::<
            UciLineView,
            ProtocolError,
        >(ProtocolError::ExpectedMultipv),
        tail[0] == "depth"@ && (tail.len() == 1 || read_number(tail[1], 255) is None) ==> line
            == Err::<UciLineView, ProtocolError>(ProtocolError::ExpectedDepth),
        tail[0] == "nodes"@ && (tail.len() == 1 || read_number(tail[1], 0xffff_ffff_ffff_ffff)
            is None) ==> line == Err::<UciLineView, ProtocolError>(ProtocolError::ExpectedNodes),
        tail[0] == "time"@ && (tail.len() == 1 || read_number(tail[1], 0xffff_ffff_ffff_ffff)
            is None) ==> line == Err::<UciLineView, ProtocolError>(ProtocolError::ExpectedTime),
        tail[0] == "score"@ && (tail.len() == 1 || (tail[1] != "cp"@ && tail[1] != "mate"@))
            ==> line == Err::<UciLineView, ProtocolError>(ProtocolError::ExpectedCpOrMate),
        tail[0] == "score"@ && tail.len() > 1 && (tail[1] == "cp"@ || tail[1] == "mate"@) && (
        tail.len() == 2 || read_signed(tail[2]) is None) ==> line == Err::<
            UciLineView,
            ProtocolError,
        >(ProtocolError::ExpectedScore),
{
    lemma_report_is_read(fields, tail);
    lemma_keywords_differ();
    reveal(reads);
}

/// What the first word of a line says: `info` is a report, `bestmove` is the best
/// move, which is missing if no move is written behind it, and any other line is
/// unexpected.
pub proof fn law_first_word_of_a_line(first: Seq<char>, rest: Seq<Seq<char>>)
    ensures
        ({
            let line = read_words(seq![first] + rest);
            &&& first != "info"@ && first != "bestmove"@ ==> line == Err::<
                UciLineView,
                ProtocolError,
            >(ProtocolError::UnexpectedOutput)
            &&& first == "bestmove"@ && rest.len() == 0 ==> line == Ok::<UciLineView, ProtocolError>(
                UciLineView::Bestmove(None),
            )
            &&& first == "bestmove"@ && rest.len() > 0 ==> line == Ok::<UciLineView, ProtocolError>(
                UciLineView::Bestmove(move_of(rest[0])),
            )
            &&& first == "info"@ ==> !(line matches Ok(UciLineView::Bestmove(_)))
        }),
{
    lemma_keywords_differ();
    let words = seq![first] + rest;
    assert(words[0] == first);
    if rest.len() > 0 {
        assert(words[1] == rest[0]);
    }
}

/// A line is its words between single spaces, and is read as they are.
pub proof fn law_line_is_read_by_its_words(words: Seq<Seq<char>>, line: &str, result: Result<
    UciLine,
    ProtocolError,
>)
    requires
        words.len() > 0,
        forall|i: int| 0 <= i < words.len() ==> !(#[trigger] words[i]).contains(' '),
        line@ == join(words, ' '),
        call_ensures(UciLine::from_str, (line,), result),
    ensures
        match result {
            Ok(uci) => read_words(words) == Ok::<UciLineView, ProtocolError>(uci@),
            Err(error) => read_words(words) == Err::<UciLineView, ProtocolError>(error),
        },
{
    law_joined_pieces_are_cut_again(words, ' ');
}

/// What is said of each error.
pub proof fn law_errors_in_words(error: ProtocolError, line: &str, message: String)
    requires
        call_ensures(ProtocolError::message, (error, line), message),
    ensures
        error is ExpectedMultipv ==> message@ == "expected multipv"@,
        error is ExpectedDepth ==> message@ == "expected depth"@,
        error is ExpectedNodes ==> message@ == "expected nodes"@,
        error is ExpectedTime ==> message@ == "expected time"@,
        error is ExpectedCpOrMate ==> message@ == "expected cp or mate"@,
        error is ExpectedScore ==> message@ == "expected score"@,
        error is InvalidPv ==> message@ == "invalid pv"@,
        error is UnexpectedOutput ==> message@ == "unexpected engine output: "@ + line@,
        error is MissingScore ==> message@ == "missing score"@,
{
}

/// A report is valid if its line of play has a rank from one on and consists of
/// valid moves.
pub proof fn law_valid_reports(info: InfoView)
    ensures
        info.pv is None ==> (info.wf() <==> info.multipv != 0),
        info.pv matches Some(pv) ==> (info.wf() <==> info.multipv != 0 && forall|i: int|
            0 <= i < pv.len() ==> (#[trigger] pv[i]).wf()),
{
}

} // verus!
