//! The conversation with one engine: what is written to it, and when the lines
//! that it writes add up to the answers for a chunk.

use vstd::prelude::*;

use crate::commands::{chunk_commands, init_commands, search_commands};
use crate::resources::machine_settings;
use crate::search::Search;
use crate::text::{same_text, starts_with, trimmed_end, Margin};
use crate::uci::{ProtocolError, UciLine};
use crate::work::{Chunk, Position, PositionResponse};
#[allow(unused_imports)]
use crate::commands::{chunk_lines, init_lines, search_lines};
#[allow(unused_imports)]
use crate::resources::{hash_of_cores, is_core_count, threads_of_cores};
#[allow(unused_imports)]
use crate::search::{
    after_all, are_valid_lines, law_scored_by_an_exact_report, SearchView,
};
#[allow(unused_imports)]
use crate::text::{all_in, law_trimming_takes_margins_only, texts, trim_end};
#[allow(unused_imports)]
use crate::moves::UciMove;
#[allow(unused_imports)]
use crate::uci::{law_what_is_read_is_valid, read_line, InfoView, Score, UciLineView};
#[allow(unused_imports)]
use crate::work::PositionResponseView;

verus! {

/// A line that the engine writes before it is ready.
#[derive(Clone, Copy, PartialEq, Eq, Debug, Structural)]
pub enum InitLine {
    /// The engine is ready.
    Ready,
    /// The engine says what it is.
    Banner,
    /// Something else, that deserves a warning.
    Unexpected,
}

/// What a line stands for before the engine is ready.
pub open spec fn init_line(line: Seq<char>) -> InitLine {
    if trim_end(line, Margin::Space) == "readyok"@ {
        InitLine::Ready
    } else if "Stockfish "@.is_prefix_of(line) || "Fairy-Stockfish "@.is_prefix_of(line) {
        InitLine::Banner
    } else {
        InitLine::Unexpected
    }
}

/// Tells what a line stands for before the engine is ready.
pub fn classify_init_line(line: &str) -> (kind: InitLine)
    ensures
        kind == init_line(line@),
{
    if same_text(trimmed_end(line, Margin::Space).as_str(), "readyok") {
        InitLine::Ready
    } else if starts_with(line, "Stockfish ") || starts_with(line, "Fairy-Stockfish ") {
        InitLine::Banner
    } else {
        InitLine::Unexpected
    }
}

/// A chunk that the engine is working on.
struct Job {
    /// Whether the engine has said that it is ready.
    ready: bool,
    /// The commands that go before the first position.
    setup: Vec<String>,
    /// The positions without an answer; the first one is being searched.
    positions: Vec<Position>,
    /// The answers for the positions before those.
    responses: Vec<PositionResponse>,
    /// What is known about the first position.
    search: Search,
}

/// A chunk that the engine is working on.
#[verifier::ext_equal]
pub struct JobView {
    pub ready: bool,
    pub setup: Seq<Seq<char>>,
    pub positions: Seq<Position>,
    pub responses: Seq<PositionResponseView>,
    pub search: SearchView,
}

/// The views of a list of answers.
pub open spec fn answers(responses: Seq<PositionResponse>) -> Seq<PositionResponseView> {
    responses.map_values(|r: PositionResponse| r@)
}

impl View for Job {
    type V = JobView;

    closed spec fn view(&self) -> JobView {
        JobView {
            ready: self.ready,
            setup: texts(self.setup@),
            positions: self.positions@,
            responses: answers(self.responses@),
            search: self.search@,
        }
    }
}

impl Job {
    spec fn wf(self) -> bool {
        &&& forall|i: int| 0 <= i < self.positions.len() ==> (#[trigger] self.positions[i]).wf()
        &&& self.ready ==> self.positions.len() > 0
    }
}

/// What is to be done next in the conversation.
#[derive(PartialEq, Eq, Debug)]
pub enum Step {
    /// Read the next line of the engine.
    Read,
    /// Write these lines, flush them, and read the next line of the engine.
    Write { lines: Vec<String> },
    /// Write these lines, which need not be flushed. The chunk is done.
    Done { lines: Vec<String>, responses: Vec<PositionResponse> },
    /// The engine cannot be used any longer.
    Failed { error: ProtocolError },
}

/// [`Step`] with the views of its parts.
#[verifier::ext_equal]
pub enum StepView {
    Read,
    Write { lines: Seq<Seq<char>> },
    Done { lines: Seq<Seq<char>>, responses: Seq<PositionResponseView> },
    Failed { error: ProtocolError },
}

impl View for Step {
    type V = StepView;

    open spec fn view(&self) -> StepView {
        match self {
            Step::Read => StepView::Read,
            Step::Write { lines } => StepView::Write { lines: texts(lines@) },
            Step::Done { lines, responses } => StepView::Done {
                lines: texts(lines@),
                responses: answers(responses@),
            },
            Step::Failed { error } => StepView::Failed { error: *error },
        }
    }
}

/// The conversation with one engine.
pub struct EngineSession {
    initialized: bool,
    job: Option<Job>,
}

/// The conversation with one engine.
#[verifier::ext_equal]
pub struct SessionView {
    /// The engine has been given its options.
    pub initialized: bool,
    /// The chunk that the engine is working on.
    pub job: Option<JobView>,
}

impl View for EngineSession {
    type V = SessionView;

    closed spec fn view(&self) -> SessionView {
        SessionView {
            initialized: self.initialized,
            job: match self.job {
                Some(job) => Some(job@),
                None => None,
            },
        }
    }
}

/// How a ready engine is set to work on `positions`: it is given the commands
/// of the chunk and the first position. Without positions there is nothing to
/// wait for.
pub open spec fn launch(setup: Seq<Seq<char>>, positions: Seq<Position>) -> (
    Option<JobView>,
    StepView,
) {
    if positions.len() == 0 {
        (None, StepView::Done { lines: setup, responses: Seq::empty() })
    } else {
        (
            Some(
                JobView {
                    ready: true,
                    setup: Seq::empty(),
                    positions,
                    responses: Seq::empty(),
                    search: SearchView::blank(),
                },
            ),
            StepView::Write { lines: setup + search_lines(positions[0]) },
        )
    }
}

/// How a chunk is begun. An engine that has not been given its options gets
/// them first, and has to say that it is ready.
pub open spec fn begin(
    initialized: bool,
    chunk: Chunk,
    threads: usize,
    hash_mb: usize,
) -> (Option<JobView>, StepView) {
    if initialized {
        launch(chunk_lines(chunk), chunk.positions@)
    } else {
        (
            Some(
                JobView {
                    ready: false,
                    setup: chunk_lines(chunk),
                    positions: chunk.positions@,
                    responses: Seq::empty(),
                    search: SearchView::blank(),
                },
            ),
            StepView::Write { lines: init_lines(threads, hash_mb) },
        )
    }
}

/// How a chunk is begun by an engine that has a machine with `cores` processors
/// to itself.
pub open spec fn begin_with_cores(initialized: bool, chunk: Chunk, cores: usize) -> (
    Option<JobView>,
    StepView,
) {
    begin(
        initialized,
        chunk,
        threads_of_cores(cores as int) as usize,
        hash_of_cores(cores as int) as usize,
    )
}

/// What follows when the search of the first position ends with `best_move`.
pub open spec fn conclude(
    job: JobView,
    best_move: Option<crate::moves::UciMove>,
) -> (Option<JobView>, StepView) {
    let responses = job.responses.push(job.search.response(job.positions[0], best_move));
    let rest = job.positions.skip(1);
    if !job.search.is_scored() {
        (None, StepView::Failed { error: ProtocolError::MissingScore })
    } else if rest.len() == 0 {
        (None, StepView::Done { lines: Seq::empty(), responses })
    } else {
        (
            Some(JobView { positions: rest, responses, search: SearchView::blank(), ..job }),
            StepView::Write { lines: search_lines(rest[0]) },
        )
    }
}

/// What follows when the engine writes `line`.
pub open spec fn feed(job: JobView, line: Seq<char>) -> (Option<JobView>, StepView) {
    if !job.ready {
        if init_line(line) == InitLine::Ready {
            launch(job.setup, job.positions)
        } else {
            (Some(job), StepView::Read)
        }
    } else {
        match read_line(line) {
            Ok(UciLineView::Info(info)) => (
                Some(JobView { search: job.search.after(info), ..job }),
                StepView::Read,
            ),
            Ok(UciLineView::Bestmove(best_move)) => conclude(job, best_move),
            Err(error) => (None, StepView::Failed { error }),
        }
    }
}

/// Sets a ready engine to work.
fn launch_job(mut setup: Vec<String>, positions: Vec<Position>) -> (r: (Option<Job>, Step))
    requires
        forall|i: int| 0 <= i < positions.len() ==> (#[trigger] positions[i]).wf(),
    ensures
        ({
            let (job, step) = launch(texts(setup@), positions@);
            &&& r.1@ == step
            &&& match r.0 {
                Some(j) => job == Some(j@) && j.wf(),
                None => job is None,
            }
        }),
{
    let ghost before = texts(setup@);
    if positions.len() == 0 {
        let responses: Vec<PositionResponse> = Vec::new();
        assert(answers(responses@) =~= Seq::empty());
        (None, Step::Done { lines: setup, responses })
    } else {
        let mut search_lines = search_commands(&positions[0]);
        let ghost more = texts(search_lines@);
        setup.append(&mut search_lines);
        assert(texts(setup@) =~= before + more);
        let job = Job {
            ready: true,
            setup: Vec::new(),
            positions,
            responses: Vec::new(),
            search: Search::new(),
        };
        assert(texts(job.setup@) =~= Seq::empty());
        assert(answers(job.responses@) =~= Seq::empty());
        (Some(job), Step::Write { lines: setup })
    }
}

/// Ends the search of the first position.
fn conclude_job(job: Job, best_move: Option<crate::moves::UciMove>) -> (r: (Option<Job>, Step))
    requires
        job.wf(),
        job.ready,
    ensures
        ({
            let (next, step) = conclude(job@, best_move);
            &&& r.1@ == step
            &&& match r.0 {
                Some(j) => next == Some(j@) && j.wf(),
                None => next is None,
            }
        }),
{
    let ghost before = job@;
    let Job { ready, setup, mut positions, mut responses, search } = job;
    let ghost all = positions@;
    let position = positions.remove(0);
    assert(positions@ =~= all.skip(1));
    match search.finish(position, best_move) {
        Err(error) => (None, Step::Failed { error }),
        Ok(response) => {
            let ghost old_answers = answers(responses@);
            responses.push(response);
            assert(answers(responses@) =~= old_answers.push(response@));
            if positions.len() == 0 {
                let lines: Vec<String> = Vec::new();
                assert(texts(lines@) =~= Seq::empty());
                (None, Step::Done { lines, responses })
            } else {
                let lines = search_commands(&positions[0]);
                (
                    Some(Job { ready, setup, positions, responses, search: Search::new() }),
                    Step::Write { lines },
                )
            }
        },
    }
}

impl EngineSession {
    /// The chunk that the engine is working on is valid.
    pub closed spec fn wf(self) -> bool {
        self.job matches Some(job) ==> job.wf()
    }

    /// An engine that has just been started.
    pub fn new() -> (session: EngineSession)
        ensures
            session.wf(),
            session@ == (SessionView { initialized: false, job: None }),
    {
        EngineSession { initialized: false, job: None }
    }

    /// Begins a chunk. An engine that has not been given its options yet gets
    /// this machine to itself.
    pub fn go_multiple(&mut self, chunk: Chunk) -> (step: Step)
        requires
            old(self).wf(),
            chunk.wf(),
        ensures
            final(self).wf(),
            final(self)@.initialized,
            old(self)@.initialized ==> (final(self)@.job, step@) == launch(
                chunk_lines(chunk),
                chunk.positions@,
            ),
            !old(self)@.initialized ==> exists|cores: usize| #[trigger]
                is_core_count(cores) && (final(self)@.job, step@) == begin_with_cores(
                    false,
                    chunk,
                    cores,
                ),
            exists|cores: usize|
                (final(self)@.job, step@) == #[trigger] begin_with_cores(
                    old(self)@.initialized,
                    chunk,
                    cores,
                ),
    {
        if self.initialized {
            let step = self.resume(chunk);
            assert((self@.job, step@) == begin_with_cores(old(self)@.initialized, chunk, 0));
            step
        } else {
            let (threads, hash_mb) = machine_settings();
            let ghost cores = choose|cores: usize| #[trigger]
                is_core_count(cores) && threads_of_cores(cores as int) == threads && hash_of_cores(
                    cores as int,
                ) == hash_mb;
            let step = self.initialize(chunk, threads, hash_mb);
            assert((self@.job, step@) == begin_with_cores(old(self)@.initialized, chunk, cores));
            step
        }
    }

    /// Begins a chunk. An engine that has not been given its options yet gets
    /// `threads` threads and a hash table of `hash_mb` megabytes.
    pub fn go_multiple_with(&mut self, chunk: Chunk, threads: usize, hash_mb: usize) -> (step: Step)
        requires
            old(self).wf(),
            chunk.wf(),
        ensures
            final(self).wf(),
            final(self)@.initialized,
            (final(self)@.job, step@) == begin(
                old(self)@.initialized,
                chunk,
                threads,
                hash_mb,
            ),
    {
        if self.initialized {
            self.resume(chunk)
        } else {
            self.initialize(chunk, threads, hash_mb)
        }
    }

    /// Begins a chunk with an engine that has been given its options.
    fn resume(&mut self, chunk: Chunk) -> (step: Step)
        requires
            old(self)@.initialized,
            chunk.wf(),
        ensures
            final(self).wf(),
            final(self)@.initialized,
            (final(self)@.job, step@) == launch(chunk_lines(chunk), chunk.positions@),
    {
        let setup = chunk_commands(&chunk);
        let (job, step) = launch_job(setup, chunk.positions);
        self.job = job;
        step
    }

    /// Gives the engine its options, before it begins a chunk.
    fn initialize(&mut self, chunk: Chunk, threads: usize, hash_mb: usize) -> (step: Step)
        requires
            chunk.wf(),
        ensures
            final(self).wf(),
            final(self)@.initialized,
            (final(self)@.job, step@) == begin(false, chunk, threads, hash_mb),
    {
        self.initialized = true;
        let job = Job {
            ready: false,
            setup: chunk_commands(&chunk),
            positions: chunk.positions,
            responses: Vec::new(),
            search: Search::new(),
        };
        assert(answers(job.responses@) =~= Seq::empty());
        self.job = Some(job);
        Step::Write { lines: init_commands(threads, hash_mb) }
    }

    /// Tells whether the engine has been given its options and has not said yet
    /// that it is ready.
    pub fn awaits_ready(&self) -> (awaits: bool)
        ensures
            awaits == (self@.job matches Some(job) && !job.ready),
    {
        match &self.job {
            Some(job) => !job.ready,
            None => false,
        }
    }

    /// Takes in a line of the engine.
    pub fn on_line(&mut self, line: &str) -> (step: Step)
        requires
            old(self).wf(),
            old(self)@.job is Some,
        ensures
            final(self).wf(),
            final(self)@.initialized == old(self)@.initialized,
            (final(self)@.job, step@) == feed(old(self)@.job->0, line@),
    {
        let mut job = self.job.take().unwrap();
        if !job.ready {
            if classify_init_line(line) == InitLine::Ready {
                let (next, step) = launch_job(job.setup, job.positions);
                self.job = next;
                step
            } else {
                self.job = Some(job);
                Step::Read
            }
        } else {
            match UciLine::from_str(line) {
                Ok(UciLine::Info(info)) => {
                    job.search.hear(info);
                    self.job = Some(job);
                    Step::Read
                },
                Ok(UciLine::Bestmove(best_move)) => {
                    let (next, step) = conclude_job(job, best_move);
                    self.job = next;
                    step
                },
                Err(error) => {
                    self.job = None;
                    Step::Failed { error }
                },
            }
        }
    }
}

/// An answer belongs to a position: it carries what the position was sent with,
/// has a score for the first line of play, and its moves are valid.
pub open spec fn is_answer(response: PositionResponseView, position: Position) -> bool {
    &&& response.work == position.work
    &&& response.position_index == position.position_index
    &&& response.url == position.url
    &&& exists|depth: int| #[trigger] response.scores.dom().contains((1, depth))
    &&& response.best_move matches Some(m) ==> m.wf()
    &&& are_valid_lines(response.pvs)
}

/// There is an answer for each position, in the same order.
pub open spec fn are_answers(
    responses: Seq<PositionResponseView>,
    positions: Seq<Position>,
) -> bool {
    &&& responses.len() == positions.len()
    &&& forall|i: int| 0 <= i < positions.len() ==> is_answer(#[trigger] responses[i], positions[i])
}

/// The job has answers for the first ones of `positions`, in the same order,
/// the others are still to be searched, and what is known of the first one of
/// those has valid moves.
pub open spec fn serves(job: JobView, positions: Seq<Position>) -> bool {
    let done = job.responses.len() as int;
    &&& done <= positions.len()
    &&& are_answers(job.responses, positions.take(done))
    &&& job.positions == positions.skip(done)
    &&& job.ready ==> job.positions.len() > 0
    &&& !job.ready ==> done == 0
    &&& are_valid_lines(job.search.pvs)
}

/// Where a conversation stands after the engine has written `lines`.
pub open spec fn converse(start: (Option<JobView>, StepView), lines: Seq<Seq<char>>) -> (
    Option<JobView>,
    StepView,
)
    decreases lines.len(),
{
    if lines.len() == 0 {
        start
    } else {
        let (job, step) = converse(start, lines.drop_last());
        match job {
            Some(job) => feed(job, lines.last()),
            None => (None, step),
        }
    }
}

/// A conversation that stands at `state` is on the way to answers for
/// `positions`, has arrived there, or has failed.
spec fn on_the_way(state: (Option<JobView>, StepView), positions: Seq<Position>) -> bool {
    match state {
        (Some(job), StepView::Read) => serves(job, positions),
        (Some(job), StepView::Write { .. }) => serves(job, positions),
        (None, StepView::Done { responses, .. }) => are_answers(responses, positions),
        (None, StepView::Failed { .. }) => true,
        _ => false,
    }
}

/// Setting a ready engine to work is a step on the way.
proof fn lemma_launch_is_on_the_way(setup: Seq<Seq<char>>, positions: Seq<Position>)
    ensures
        on_the_way(launch(setup, positions), positions),
{
    assert(positions.skip(0) == positions);
    assert(are_answers(Seq::empty(), positions.take(0)));
}

/// Beginning a chunk is a step on the way.
proof fn lemma_begin_is_on_the_way(
    initialized: bool,
    chunk: Chunk,
    threads: usize,
    hash_mb: usize,
)
    ensures
        on_the_way(begin(initialized, chunk, threads, hash_mb), chunk.positions@),
{
    let positions = chunk.positions@;
    lemma_launch_is_on_the_way(chunk_lines(chunk), positions);
    assert(positions.skip(0) == positions);
    assert(are_answers(Seq::empty(), positions.take(0)));
}

/// A line of the engine is a step on the way.
proof fn lemma_feed_is_on_the_way(job: JobView, positions: Seq<Position>, line: Seq<char>)
    requires
        serves(job, positions),
    ensures
        on_the_way(feed(job, line), positions),
{
    law_what_is_read_is_valid(line);
    if !job.ready {
        assert(positions.skip(0) == positions);
        lemma_launch_is_on_the_way(job.setup, positions);
    } else if let Ok(UciLineView::Bestmove(best_move)) = read_line(line) {
        let done = job.responses.len() as int;
        if job.search.is_scored() {
            let responses = job.responses.push(job.search.response(job.positions[0], best_move));
            assert(job.positions[0] == positions[done]);
            assert forall|i: int| 0 <= i < done + 1 implies is_answer(
                #[trigger] responses[i],
                positions.take(done + 1)[i],
            ) by {
                if i < done {
                    assert(is_answer(job.responses[i], positions.take(done)[i]));
                } else {
                    let depth = choose|depth: int| #[trigger]
                        job.search.scores.dom().contains((1, depth));
                    assert(responses[i].scores.dom().contains((1, depth)));
                }
            }
            assert(are_answers(responses, positions.take(done + 1)));
            assert(job.positions.skip(1) == positions.skip(done + 1));
            if done + 1 == positions.len() {
                assert(positions.take(done + 1) == positions);
            }
        }
    }
}

/// A conversation stays on the way, whatever the engine writes.
proof fn lemma_converse_is_on_the_way(
    start: (Option<JobView>, StepView),
    positions: Seq<Position>,
    lines: Seq<Seq<char>>,
)
    requires
        on_the_way(start, positions),
    ensures
        on_the_way(converse(start, lines), positions),
    decreases lines.len(),
{
    if lines.len() > 0 {
        lemma_converse_is_on_the_way(start, positions, lines.drop_last());
        if let Some(job) = converse(start, lines.drop_last()).0 {
            lemma_feed_is_on_the_way(job, positions, lines.last());
        }
    }
}

/// Whatever the engine writes, a chunk that is done has exactly one answer for
/// each of its positions, in their order, and each answer has a score and valid
/// moves.
pub proof fn law_chunk_is_answered_in_order(
    initialized: bool,
    chunk: Chunk,
    threads: usize,
    hash_mb: usize,
    lines: Seq<Seq<char>>,
)
    ensures
        converse(begin(initialized, chunk, threads, hash_mb), lines).1 matches StepView::Done {
            responses,
            ..
        } ==> are_answers(responses, chunk.positions@),
{
    lemma_begin_is_on_the_way(initialized, chunk, threads, hash_mb);
    lemma_converse_is_on_the_way(
        begin(initialized, chunk, threads, hash_mb),
        chunk.positions@,
        lines,
    );
}

/// The lines that are written at a step.
pub open spec fn step_lines(step: StepView) -> Seq<Seq<char>> {
    match step {
        StepView::Write { lines } => lines,
        StepView::Done { lines, .. } => lines,
        _ => Seq::empty(),
    }
}

/// All that has been written to the engine after it has written `lines`.
pub open spec fn written(start: (Option<JobView>, StepView), lines: Seq<Seq<char>>) -> Seq<
    Seq<char>,
>
    decreases lines.len(),
{
    if lines.len() == 0 {
        step_lines(start.1)
    } else {
        let before = written(start, lines.drop_last());
        match converse(start, lines.drop_last()).0 {
            Some(job) => before + step_lines(feed(job, lines.last()).1),
            None => before,
        }
    }
}

/// The commands for a row of positions.
pub open spec fn all_search_lines(positions: Seq<Position>) -> Seq<Seq<char>>
    decreases positions.len(),
{
    if positions.len() == 0 {
        Seq::empty()
    } else {
        all_search_lines(positions.drop_last()) + search_lines(positions.last())
    }
}

/// What an engine is told before the commands for a chunk.
pub open spec fn preamble(initialized: bool, threads: usize, hash_mb: usize) -> Seq<Seq<char>> {
    if initialized {
        Seq::empty()
    } else {
        init_lines(threads, hash_mb)
    }
}

/// The chunk as it stood when the engine was last working on it.
pub open spec fn last_job(start: (Option<JobView>, StepView), lines: Seq<Seq<char>>) -> Option<
    JobView,
>
    decreases lines.len(),
{
    match converse(start, lines).0 {
        Some(job) => Some(job),
        None => if lines.len() == 0 {
            None
        } else {
            last_job(start, lines.drop_last())
        },
    }
}

/// What has been written, `said`, where a conversation stands at `state` and
/// `last` is the chunk as it last stood: the options until the engine is ready;
/// from then on also the commands for the chunk and for the positions up to the
/// one that is being searched, or at which the engine failed; and in the end the
/// commands for all positions.
spec fn is_told(
    state: (Option<JobView>, StepView),
    last: Option<JobView>,
    said: Seq<Seq<char>>,
    options: Seq<Seq<char>>,
    setup: Seq<Seq<char>>,
    positions: Seq<Position>,
) -> bool {
    if state.1 is Done {
        said == options + setup + all_search_lines(positions)
    } else {
        &&& last matches Some(job)
        &&& serves(job, positions)
        &&& state.1 is Failed ==> job.ready
        &&& if job.ready {
            said == options + setup + all_search_lines(
                positions.take(job.responses.len() as int + 1),
            )
        } else {
            said == options && job.setup == setup
        }
    }
}

/// Setting a ready engine to work tells it about the chunk and the first
/// position.
proof fn lemma_launch_is_told(
    options: Seq<Seq<char>>,
    setup: Seq<Seq<char>>,
    positions: Seq<Position>,
)
    ensures
        is_told(
            launch(setup, positions),
            launch(setup, positions).0,
            options + step_lines(launch(setup, positions).1),
            options,
            setup,
            positions,
        ),
{
    lemma_launch_is_on_the_way(setup, positions);
    if positions.len() == 0 {
        assert(options + setup == options + setup + all_search_lines(positions));
    } else {
        let first = positions.take(1);
        assert(first.drop_last() == Seq::<Position>::empty());
        assert(all_search_lines(first.drop_last()) == Seq::<Seq<char>>::empty());
        assert(options + (setup + search_lines(positions[0])) == options + setup
            + all_search_lines(first));
    }
}

/// A line of the engine is followed by the commands for the next position, if
/// it ends the search of one, and by nothing if the engine fails.
proof fn lemma_feed_is_told(
    job: JobView,
    said: Seq<Seq<char>>,
    options: Seq<Seq<char>>,
    setup: Seq<Seq<char>>,
    positions: Seq<Position>,
    line: Seq<char>,
)
    requires
        is_told((Some(job), StepView::Read), Some(job), said, options, setup, positions),
    ensures
        ({
            let (next, step) = feed(job, line);
            let last = if next is Some {
                next
            } else {
                Some(job)
            };
            is_told((next, step), last, said + step_lines(step), options, setup, positions)
        }),
{
    lemma_feed_is_on_the_way(job, positions, line);
    let none = Seq::<Seq<char>>::empty();
    assert(said + none == said);
    if !job.ready {
        assert(positions.skip(0) == positions);
        lemma_launch_is_told(options, setup, positions);
    } else if let Ok(UciLineView::Bestmove(best_move)) = read_line(line) {
        let done = job.responses.len() as int;
        if job.search.is_scored() {
            if done + 1 == positions.len() {
                assert(positions.take(done + 1) == positions);
            } else {
                let longer = positions.take(done + 2);
                assert(longer.drop_last() == positions.take(done + 1));
                assert(longer.last() == job.positions.skip(1)[0]);
                assert(said + search_lines(longer.last()) == options + setup + all_search_lines(
                    longer,
                ));
            }
        }
    }
}

/// What has been written stays in step with the conversation.
proof fn lemma_converse_is_told(
    start: (Option<JobView>, StepView),
    options: Seq<Seq<char>>,
    setup: Seq<Seq<char>>,
    positions: Seq<Position>,
    lines: Seq<Seq<char>>,
)
    requires
        on_the_way(start, positions),
        is_told(start, start.0, step_lines(start.1), options, setup, positions),
    ensures
        is_told(
            converse(start, lines),
            last_job(start, lines),
            written(start, lines),
            options,
            setup,
            positions,
        ),
    decreases lines.len(),
{
    if lines.len() > 0 {
        let before = lines.drop_last();
        lemma_converse_is_told(start, options, setup, positions, before);
        lemma_converse_is_on_the_way(start, positions, before);
        if let Some(job) = converse(start, before).0 {
            assert(last_job(start, before) == Some(job));
            lemma_feed_is_told(
                job,
                written(start, before),
                options,
                setup,
                positions,
                lines.last(),
            );
        }
    }
}

/// An engine that is not ready has been told its options and nothing else, if it
/// did not have them. One that is ready, whether it is still at work or has
/// failed, has been told its options, the commands for the chunk, and the
/// commands for each position up to the one that it was searching last: the one
/// behind those that it has answered. One that is done has been told the commands
/// for every position. No position is left out, and none comes twice or out of
/// order. Only a ready engine fails.
pub proof fn law_every_position_is_searched_once(
    initialized: bool,
    chunk: Chunk,
    threads: usize,
    hash_mb: usize,
    lines: Seq<Seq<char>>,
)
    ensures
        ({
            let start = begin(initialized, chunk, threads, hash_mb);
            let options = preamble(initialized, threads, hash_mb);
            let (now, step) = converse(start, lines);
            let said = written(start, lines);
            &&& now matches Some(job) ==> last_job(start, lines) == Some(job)
            &&& if step is Done {
                said == options + chunk_lines(chunk) + all_search_lines(chunk.positions@)
            } else {
                &&& last_job(start, lines) matches Some(job)
                &&& are_answers(
                    job.responses,
                    chunk.positions@.take(job.responses.len() as int),
                )
                &&& step is Failed ==> job.ready
                &&& !job.ready ==> said == options
                &&& job.ready ==> job.responses.len() < chunk.positions.len() && said == options
                    + chunk_lines(chunk) + all_search_lines(
                    chunk.positions@.take(job.responses.len() as int + 1),
                )
            }
        }),
{
    let positions = chunk.positions@;
    let setup = chunk_lines(chunk);
    let start = begin(initialized, chunk, threads, hash_mb);
    let options = preamble(initialized, threads, hash_mb);
    lemma_begin_is_on_the_way(initialized, chunk, threads, hash_mb);
    if initialized {
        lemma_launch_is_told(options, setup, positions);
        assert(options + step_lines(start.1) == step_lines(start.1));
    }
    lemma_converse_is_told(start, options, setup, positions, lines);
}

/// An engine that has been given its options is not given them again: what it
/// is told for a chunk no longer depends on them.
pub proof fn law_options_are_given_once(
    chunk: Chunk,
    threads: usize,
    hash_mb: usize,
    other_threads: usize,
    other_hash_mb: usize,
)
    ensures
        begin(true, chunk, threads, hash_mb) == begin(true, chunk, other_threads, other_hash_mb),
{
}

/// The answer for a position is what the reports on it add up to: if the engine
/// writes `reports` and then `best_move`, they alone make the answer, whatever
/// it wrote about the positions before.
pub proof fn law_answer_is_sum_of_reports(
    job: JobView,
    lines: Seq<Seq<char>>,
    reports: Seq<InfoView>,
    last: Seq<char>,
    best_move: Option<crate::moves::UciMove>,
)
    requires
        job.ready,
        job.positions.len() > 0,
        job.search == SearchView::blank(),
        lines.len() == reports.len(),
        forall|i: int|
            0 <= i < lines.len() ==> read_line(#[trigger] lines[i]) == Ok::<
                UciLineView,
                ProtocolError,
            >(UciLineView::Info(reports[i])),
        read_line(last) == Ok::<UciLineView, ProtocolError>(UciLineView::Bestmove(best_move)),
    ensures
        converse((Some(job), StepView::Read), lines) == (
            Some(JobView { search: after_all(reports), ..job }),
            StepView::Read,
        ),
        converse((Some(job), StepView::Read), lines.push(last)) == conclude(
            JobView { search: after_all(reports), ..job },
            best_move,
        ),
    decreases lines.len(),
{
    if lines.len() > 0 {
        assert forall|i: int| 0 <= i < lines.len() - 1 implies read_line(
            #[trigger] lines.drop_last()[i],
        ) == Ok::<UciLineView, ProtocolError>(UciLineView::Info(reports.drop_last()[i])) by {
            assert(lines.drop_last()[i] == lines[i]);
        }
        law_answer_is_sum_of_reports(
            job,
            lines.drop_last(),
            reports.drop_last(),
            last,
            best_move,
        );
        assert(read_line(lines[lines.len() - 1]) == Ok::<UciLineView, ProtocolError>(
            UciLineView::Info(reports[lines.len() - 1]),
        ));
    }
    let state = JobView { search: after_all(reports), ..job };
    assert(lines.push(last).drop_last() == lines);
    assert(lines.push(last).last() == last);
    assert(converse((Some(job), StepView::Read), lines) == (Some(state), StepView::Read));
    assert(converse((Some(job), StepView::Read), lines.push(last)) == feed(state, last));
}

/// What an engine writes before it is ready: `readyok`, with nothing but white
/// space behind it, says that it is ready; its name, with a space behind it, says
/// what it is; and every other line is unexpected.
pub proof fn law_lines_before_ready(line: Seq<char>, rest: Seq<char>)
    ensures
        init_line(line) is Ready <==> exists|spaces: Seq<char>|
            line == "readyok"@ + spaces && #[trigger] all_in(spaces, Margin::Space),
        line == "Stockfish "@ + rest ==> init_line(line) is Banner,
        line == "Fairy-Stockfish "@ + rest ==> init_line(line) is Banner,
        init_line(line) is Banner ==> "Stockfish "@.is_prefix_of(line)
            || "Fairy-Stockfish "@.is_prefix_of(line),
{
    reveal_strlit("readyok");
    reveal_strlit("Stockfish ");
    reveal_strlit("Fairy-Stockfish ");
    let ready = "readyok"@;
    assert(ready[0] == 'r' && ready[ready.len() - 1] == 'k' && ready.len() == 7);
    if trim_end(line, Margin::Space) == ready {
        lemma_trimmed_end_is_put_back(line);
        let spaces = choose|spaces: Seq<char>|
            line == trim_end(line, Margin::Space) + spaces && #[trigger] all_in(
                spaces,
                Margin::Space,
            );
        assert(line == ready + spaces && all_in(spaces, Margin::Space));
        assert(line[0] == 'r');
    }
    if exists|spaces: Seq<char>|
        line == ready + spaces && #[trigger] all_in(spaces, Margin::Space) {
        let spaces = choose|spaces: Seq<char>|
            line == ready + spaces && #[trigger] all_in(spaces, Margin::Space);
        law_trimming_takes_margins_only(Seq::empty(), ready, spaces, Margin::Space);
    }
    if line == "Stockfish "@ + rest || line == "Fairy-Stockfish "@ + rest {
        assert(line[0] == 'S' || line[0] == 'F');
    }
}

/// What is trimmed off the end of a line is white space.
proof fn lemma_trimmed_end_is_put_back(line: Seq<char>)
    ensures
        exists|spaces: Seq<char>|
            line == trim_end(line, Margin::Space) + spaces && #[trigger] all_in(
                spaces,
                Margin::Space,
            ),
    decreases line.len(),
{
    if line.len() > 0 && Margin::Space.holds(line.last()) {
        lemma_trimmed_end_is_put_back(line.drop_last());
        let before = choose|spaces: Seq<char>|
            line.drop_last() == trim_end(line.drop_last(), Margin::Space) + spaces && #[trigger] all_in(
                spaces,
                Margin::Space,
            );
        let spaces = before.push(line.last());
        let rest = trim_end(line.drop_last(), Margin::Space);
        assert(trim_end(line, Margin::Space) == rest);
        assert(line =~= line.drop_last().push(line.last()));
        assert((rest + before).push(line.last()) =~= rest + spaces);
        assert forall|i: int| 0 <= i < spaces.len() implies Margin::Space.holds(
            #[trigger] spaces[i],
        ) by {
            if i < before.len() {
                assert(Margin::Space.holds(before[i]));
            }
        }
        assert(all_in(spaces, Margin::Space));
    } else {
        let none = Seq::<char>::empty();
        assert(line =~= trim_end(line, Margin::Space) + none);
        assert(all_in(none, Margin::Space));
    }
}

/// How a chunk begins. An engine without options is given them, and nothing else
/// until it is ready; whatever it writes before that changes nothing. From then
/// on, or at once if it had its options, it is given the commands for the chunk
/// together with those for the first position. A chunk without positions is done
/// with the commands for the chunk.
pub proof fn law_chunk_begins(chunk: Chunk, threads: usize, hash_mb: usize, line: Seq<char>)
    ensures
        ({
            let setup = chunk_lines(chunk);
            let (waiting, first) = begin(false, chunk, threads, hash_mb);
            let (ready, second) = feed(waiting->0, line);
            let begun = begin(true, chunk, threads, hash_mb);
            &&& waiting is Some
            &&& first == (StepView::Write { lines: init_lines(threads, hash_mb) })
            &&& !(init_line(line) is Ready) ==> ready == waiting && second is Read
            &&& init_line(line) is Ready ==> (ready, second) == begun
            &&& chunk.positions.len() == 0 ==> begun.0 is None && begun.1 == (StepView::Done {
                lines: setup,
                responses: Seq::empty(),
            })
            &&& chunk.positions.len() > 0 ==> {
                &&& begun.1 == (StepView::Write {
                    lines: setup + search_lines(chunk.positions[0]),
                })
                &&& begun.0 matches Some(job)
                &&& job.ready
                &&& job.positions == chunk.positions@
                &&& job.responses.len() == 0
                &&& is_blank(job.search)
            }
        }),
{
}

/// Nothing is known of a position.
pub open spec fn is_blank(search: SearchView) -> bool {
    &&& search.scores == Map::<(int, int), Score>::empty()
    &&& search.pvs == Map::<(int, int), Seq<UciMove>>::empty()
    &&& search.depth == 0
    &&& search.time_ms == 0
    &&& search.nodes == 0
    &&& search.nps is None
}

/// A line that cannot be read ends the conversation, with what is wrong with it.
pub proof fn law_unreadable_line_ends_the_conversation(
    job: JobView,
    line: Seq<char>,
    error: ProtocolError,
)
    requires
        job.ready,
        read_line(line) == Err::<UciLineView, ProtocolError>(error),
    ensures
        feed(job, line) == (None::<JobView>, StepView::Failed { error }),
{
}

/// `answer` is the one for `position`, after `reports` and `best_move`: it gives
/// back what the position was sent with, whatever kind of work that is, has that
/// best move, and tells what the reports add up to.
pub open spec fn answers_with(
    answer: PositionResponseView,
    position: Position,
    reports: Seq<InfoView>,
    best_move: Option<UciMove>,
) -> bool {
    &&& answer.best_move == best_move
    &&& answer.work == position.work
    &&& answer.position_index == position.position_index
    &&& answer.url == position.url
    &&& answer.scores == after_all(reports).scores
    &&& answer.pvs == after_all(reports).pvs
    &&& answer.depth == after_all(reports).depth
    &&& answer.time_ms == after_all(reports).time_ms
    &&& answer.nodes == after_all(reports).nodes
    &&& answer.nps == after_all(reports).nps
}

/// What an engine writes about one position: lines with reports, and then a line
/// with its best move.
pub struct Talk {
    pub lines: Seq<Seq<char>>,
    pub reports: Seq<InfoView>,
    pub last: Seq<char>,
    pub best_move: Option<UciMove>,
}

impl Talk {
    /// The lines are read as the reports and as the best move.
    pub open spec fn is_read(self) -> bool {
        &&& self.lines.len() == self.reports.len()
        &&& forall|i: int|
            0 <= i < self.lines.len() ==> read_line(#[trigger] self.lines[i]) == Ok::<
                UciLineView,
                ProtocolError,
            >(UciLineView::Info(self.reports[i]))
        &&& read_line(self.last) == Ok::<UciLineView, ProtocolError>(
            UciLineView::Bestmove(self.best_move),
        )
    }

    /// A report has an exact score for the first line of play, at some depth.
    pub open spec fn is_scored(self) -> bool {
        exists|i: int|
            0 <= i < self.reports.len() && (#[trigger] self.reports[i]).multipv == 1
                && !self.reports[i].lowerbound && !self.reports[i].upperbound
                && self.reports[i].depth is Some && self.reports[i].score is Some
    }
}

/// The search of a position ends with its answer. The best move of the answer is
/// exactly the one of the line that ended the search, for every kind of work, and
/// the rest is what the reports add up to. Without an exact score the engine has
/// failed. With one, the next position is searched, of which nothing is known
/// yet, or the chunk is done; the answers before stay as they are.
pub proof fn law_search_ends_with_its_answer(job: JobView, step: StepView, talk: Talk)
    requires
        job.ready,
        job.positions.len() > 0,
        is_blank(job.search),
        talk.is_read(),
    ensures
        ({
            let (next, end) = converse((Some(job), step), talk.lines.push(talk.last));
            let position = job.positions[0];
            let count = job.responses.len() as int;
            &&& !talk.is_scored() ==> next is None && end == (StepView::Failed {
                error: ProtocolError::MissingScore,
            })
            &&& talk.is_scored() && job.positions.len() == 1 ==> {
                &&& next is None
                &&& end matches StepView::Done { lines, responses }
                &&& lines.len() == 0
                &&& responses.len() == count + 1
                &&& responses.take(count) == job.responses
                &&& answers_with(responses[count], position, talk.reports, talk.best_move)
            }
            &&& talk.is_scored() && job.positions.len() > 1 ==> {
                &&& end == (StepView::Write { lines: search_lines(job.positions[1]) })
                &&& next matches Some(next)
                &&& next.ready
                &&& next.positions == job.positions.skip(1)
                &&& is_blank(next.search)
                &&& next.responses.len() == count + 1
                &&& next.responses.take(count) == job.responses
                &&& answers_with(next.responses[count], position, talk.reports, talk.best_move)
            }
        }),
{
    assert(job.search == SearchView::blank());
    law_answer_is_sum_of_reports(job, talk.lines, talk.reports, talk.last, talk.best_move);
    law_scored_by_an_exact_report(talk.reports);
    let all = talk.lines.push(talk.last);
    lemma_step_is_left_behind(job, step, StepView::Read, all);
    let responses = job.responses.push(
        after_all(talk.reports).response(job.positions[0], talk.best_move),
    );
    assert(responses.take(job.responses.len() as int) =~= job.responses);
}

/// Where a conversation goes does not depend on what was done last.
proof fn lemma_step_is_left_behind(
    job: JobView,
    step: StepView,
    other: StepView,
    lines: Seq<Seq<char>>,
)
    requires
        lines.len() > 0,
    ensures
        converse((Some(job), step), lines) == converse((Some(job), other), lines),
    decreases lines.len(),
{
    if lines.len() > 1 {
        lemma_step_is_left_behind(job, step, other, lines.drop_last());
    } else {
        assert(lines.drop_last() =~= Seq::empty());
        assert(converse((Some(job), step), lines.drop_last()) == (Some(job), step));
        assert(converse((Some(job), other), lines.drop_last()) == (Some(job), other));
    }
}

/// A conversation goes on where it stands.
proof fn lemma_conversation_goes_on(
    start: (Option<JobView>, StepView),
    lines: Seq<Seq<char>>,
    more: Seq<Seq<char>>,
)
    ensures
        converse(start, lines + more) == converse(converse(start, lines), more),
    decreases more.len(),
{
    if more.len() > 0 {
        assert((lines + more).drop_last() =~= lines + more.drop_last());
        lemma_conversation_goes_on(start, lines, more.drop_last());
    } else {
        assert(lines + more =~= lines);
    }
}

/// All lines that an engine writes about a row of positions.
pub open spec fn talk_lines(talks: Seq<Talk>) -> Seq<Seq<char>>
    decreases talks.len(),
{
    if talks.len() == 0 {
        Seq::empty()
    } else {
        talk_lines(talks.drop_last()) + talks.last().lines.push(talks.last().last)
    }
}

/// The first positions are answered, each with what the engine wrote about it.
spec fn are_answered(
    responses: Seq<PositionResponseView>,
    positions: Seq<Position>,
    talks: Seq<Talk>,
    count: int,
) -> bool {
    &&& responses.len() == count
    &&& forall|i: int|
        0 <= i < count ==> answers_with(
            #[trigger] responses[i],
            positions[i],
            talks[i].reports,
            talks[i].best_move,
        )
}

/// After the talk about the first `count` positions these are answered, and the
/// next one is being searched.
proof fn lemma_talks_are_answered(
    job: JobView,
    step: StepView,
    positions: Seq<Position>,
    talks: Seq<Talk>,
    count: int,
)
    requires
        job.ready,
        job.positions == positions,
        job.responses.len() == 0,
        is_blank(job.search),
        0 <= count <= positions.len() == talks.len(),
        positions.len() > 0,
        forall|i: int| 0 <= i < talks.len() ==> (#[trigger] talks[i]).is_read() && talks[i].is_scored(),
    ensures
        ({
            let (next, end) = converse((Some(job), step), talk_lines(talks.take(count)));
            &&& count < positions.len() ==> {
                &&& next matches Some(next)
                &&& next.ready
                &&& next.positions == positions.skip(count)
                &&& is_blank(next.search)
                &&& are_answered(next.responses, positions, talks, count)
            }
            &&& count == positions.len() ==> {
                &&& next is None
                &&& end matches StepView::Done { lines, responses }
                &&& lines.len() == 0
                &&& are_answered(responses, positions, talks, count)
            }
        }),
    decreases count,
{
    let start = (Some(job), step);
    if count == 0 {
        assert(talks.take(0) =~= Seq::empty());
        assert(positions.skip(0) =~= positions);
    } else {
        let before = count - 1;
        lemma_talks_are_answered(job, step, positions, talks, before);
        let talk = talks[before];
        assert(talk.is_read() && talk.is_scored());
        assert(talks.take(count).drop_last() =~= talks.take(before));
        assert(talks.take(count).last() == talk);
        let (now, last) = converse(start, talk_lines(talks.take(before)));
        let now = now->0;
        lemma_conversation_goes_on(
            start,
            talk_lines(talks.take(before)),
            talk.lines.push(talk.last),
        );
        law_search_ends_with_its_answer(now, last, talk);
        assert(now.positions[0] == positions[before]);
        assert(now.positions.skip(1) =~= positions.skip(count));
        let (next, end) = converse(start, talk_lines(talks.take(count)));
        let responses = if count < positions.len() {
            next->0.responses
        } else {
            end->Done_responses
        };
        assert forall|i: int| 0 <= i < count implies answers_with(
            #[trigger] responses[i],
            positions[i],
            talks[i].reports,
            talks[i].best_move,
        ) by {
            if i < before {
                assert(responses.take(before)[i] == responses[i]);
                assert(answers_with(
                    now.responses[i],
                    positions[i],
                    talks[i].reports,
                    talks[i].best_move,
                ));
            }
        }
    }
}

/// A chunk is answered with what the engine writes about its positions: if it
/// writes reports and a best move about each of them, one after the other, then
/// the chunk is done, and the answer for each position has the best move and what
/// the reports add up to of the talk about that position, and of no other.
pub proof fn law_each_position_gets_its_own_answer(
    chunk: Chunk,
    threads: usize,
    hash_mb: usize,
    talks: Seq<Talk>,
)
    requires
        chunk.positions.len() > 0,
        talks.len() == chunk.positions.len(),
        forall|i: int| 0 <= i < talks.len() ==> (#[trigger] talks[i]).is_read() && talks[i].is_scored(),
    ensures
        ({
            let (job, end) = converse(begin(true, chunk, threads, hash_mb), talk_lines(talks));
            &&& job is None
            &&& end matches StepView::Done { lines, responses }
            &&& lines.len() == 0
            &&& responses.len() == chunk.positions.len()
            &&& forall|i: int|
                0 <= i < responses.len() ==> answers_with(
                    #[trigger] responses[i],
                    chunk.positions[i],
                    talks[i].reports,
                    talks[i].best_move,
                )
        }),
{
    let (job, step) = begin(true, chunk, threads, hash_mb);
    lemma_talks_are_answered(
        job->0,
        step,
        chunk.positions@,
        talks,
        talks.len() as int,
    );
    assert(talks.take(talks.len() as int) =~= talks);
}

/// How a conversation is carried on: a chunk is begun with the options that are
/// given, if the engine has none yet, and each line that the engine writes leads
/// to what follows from it.
pub proof fn law_conversation_is_carried_on(
    chunk: Chunk,
    threads: usize,
    hash_mb: usize,
    line: &str,
)
    requires
        chunk.wf(),
    ensures
        forall|it: &mut EngineSession, step: Step| #[trigger]
            call_ensures(
                EngineSession::go_multiple_with,
                (it, chunk, threads, hash_mb),
                step,
            ) && it.wf() ==> final(it)@.initialized && (final(it)@.job, step@) == begin(
                it@.initialized,
                chunk,
                threads,
                hash_mb,
            ),
        forall|it: &mut EngineSession, step: Step| #[trigger]
            call_ensures(EngineSession::go_multiple, (it, chunk), step) && it.wf()
                && it@.initialized ==> final(it)@.initialized && (final(it)@.job, step@) == begin(
                true,
                chunk,
                threads,
                hash_mb,
            ),
        forall|it: &mut EngineSession, step: Step| #[trigger]
            call_ensures(EngineSession::go_multiple, (it, chunk), step) && it.wf()
                && !it@.initialized ==> final(it)@.initialized && exists|cores: usize| #[trigger]
                is_core_count(cores) && (final(it)@.job, step@) == begin(
                    false,
                    chunk,
                    threads_of_cores(cores as int) as usize,
                    hash_of_cores(cores as int) as usize,
                ),
        forall|it: &mut EngineSession, step: Step| #[trigger]
            call_ensures(EngineSession::on_line, (it, line), step) && it.wf() && it@.job is Some
                ==> final(it)@.initialized == it@.initialized && (final(it)@.job, step@) == feed(
                it@.job->0,
                line@,
            ),
{
}

/// A conversation starts with an engine that has not been given its options and
/// has nothing to do.
pub proof fn law_start_of_a_conversation(session: EngineSession)
    requires
        call_ensures(EngineSession::new, (), session),
    ensures
        !session@.initialized,
        session@.job is None,
        session.wf(),
{
}

/// An engine is waited for while it works on a chunk and is not ready for it.
pub proof fn law_engine_is_waited_for(session: EngineSession, awaits: bool)
    requires
        call_ensures(EngineSession::awaits_ready, (&session,), awaits),
    ensures
        session@.job is None ==> !awaits,
        session@.job matches Some(job) ==> awaits == !job.ready,
{
}

} // verus!
