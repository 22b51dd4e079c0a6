//! The work that a client is given and the answers that it gives.

use vstd::prelude::*;

use crate::matrix::Matrix;
use crate::moves::UciMove;
use crate::uci::Score;

verus! {

/// The two engines that come with the client.
#[derive(Clone, Copy, PartialEq, Eq, Debug, Structural)]
pub enum EngineFlavor {
    /// The engine for standard chess.
    Official,
    /// The engine for chess variants.
    MultiVariant,
}

/// How strong a move is to be played.
#[derive(Clone, Copy, PartialEq, Eq, Debug)]
pub struct SkillLevel {
    /// The value of the engine's option `Skill Level`.
    pub skill_level: i32,
    /// The time limit, in milliseconds.
    pub time_ms: u128,
    /// The depth limit.
    pub depth: u8,
}

/// The clock of a game, in milliseconds.
#[derive(Clone, Copy, PartialEq, Eq, Debug)]
pub struct Clock {
    pub wtime_ms: u128,
    pub btime_ms: u128,
    pub inc_ms: u128,
}

/// What is to be done with a position.
#[derive(PartialEq, Eq, Debug)]
pub enum Work {
    /// Find out what it is worth, to a depth or, without one, with a number of
    /// nodes.
    Analysis { id: String, nodes: Option<u64>, depth: Option<u8> },
    /// Find a move.
    Move { id: String, level: SkillLevel, clock: Option<Clock> },
}

impl Work {
    /// An analysis has a limit.
    pub open spec fn wf(self) -> bool {
        self matches Work::Analysis { nodes, depth, .. } ==> nodes is Some || depth is Some
    }

    /// Tells whether an analysis has a limit.
    pub fn is_valid(&self) -> (valid: bool)
        ensures
            valid == self.wf(),
    {
        match self {
            Work::Analysis { nodes, depth, .. } => nodes.is_some() || depth.is_some(),
            Work::Move { .. } => true,
        }
    }

    /// The batch that the work belongs to.
    pub open spec fn batch_id(self) -> Seq<char> {
        match self {
            Work::Analysis { id, .. } => id@,
            Work::Move { id, .. } => id@,
        }
    }

    /// The batch that the work belongs to.
    pub fn id(&self) -> (id: String)
        ensures
            id@ == self.batch_id(),
    {
        match self {
            Work::Analysis { id, .. } => id.clone(),
            Work::Move { id, .. } => id.clone(),
        }
    }
}

/// A position to be worked on.
#[derive(PartialEq, Eq, Debug)]
pub struct Position {
    pub work: Work,
    pub position_index: usize,
    pub url: Option<String>,
    /// The position that the moves start from.
    pub root_fen: String,
    pub moves: Vec<UciMove>,
}

impl Position {
    /// The work has a limit and the moves are valid.
    pub open spec fn wf(self) -> bool {
        &&& self.work.wf()
        &&& forall|i: int| 0 <= i < self.moves.len() ==> (#[trigger] self.moves[i]).wf()
    }

    /// Tells whether the work has a limit and the moves are valid.
    pub fn is_valid(&self) -> (valid: bool)
        ensures
            valid == self.wf(),
    {
        let mut i: usize = 0;
        while i < self.moves.len()
            invariant
                i <= self.moves.len(),
                forall|j: int| 0 <= j < i ==> (#[trigger] self.moves[j]).wf(),
            decreases self.moves.len() - i,
        {
            if !self.moves[i].is_valid() {
                return false;
            }
            i = i + 1;
        }
        self.work.is_valid()
    }
}

/// Positions that one engine works on, one after the other.
#[derive(PartialEq, Eq, Debug)]
pub struct Chunk {
    pub work: Work,
    pub flavor: EngineFlavor,
    /// Whether the engine evaluates positions with a neural network.
    pub nnue: bool,
    /// The engine's name of the chess variant.
    pub variant: String,
    /// The number of lines of play to look at.
    pub multipv: u8,
    pub positions: Vec<Position>,
}

impl Chunk {
    /// Every position is valid.
    pub open spec fn wf(self) -> bool {
        forall|i: int| 0 <= i < self.positions.len() ==> (#[trigger] self.positions[i]).wf()
    }

    /// Tells whether every position is valid.
    pub fn is_valid(&self) -> (valid: bool)
        ensures
            valid == self.wf(),
    {
        let mut i: usize = 0;
        while i < self.positions.len()
            invariant
                i <= self.positions.len(),
                forall|j: int| 0 <= j < i ==> (#[trigger] self.positions[j]).wf(),
            decreases self.positions.len() - i,
        {
            if !self.positions[i].is_valid() {
                return false;
            }
            i = i + 1;
        }
        true
    }
}

/// A chunk that no answer could be found for.
#[derive(PartialEq, Eq, Debug)]
pub struct ChunkFailed {
    pub batch_id: String,
}

impl ChunkFailed {
    /// The failure of a chunk with this work.
    pub fn of(work: &Work) -> (failed: ChunkFailed)
        ensures
            failed.batch_id@ == work.batch_id(),
    {
        ChunkFailed { batch_id: work.id() }
    }
}

/// What an engine has found out about a position.
#[derive(PartialEq, Eq, Debug)]
pub struct PositionResponse {
    pub work: Work,
    pub position_index: usize,
    pub url: Option<String>,
    pub best_move: Option<UciMove>,
    pub scores: Matrix<Score>,
    pub depth: u8,
    pub pvs: Matrix<Vec<UciMove>>,
    pub time_ms: u64,
    pub nodes: u64,
    pub nps: Option<u32>,
}

/// [`PositionResponse`] with the views of its matrices.
pub struct PositionResponseView {
    pub work: Work,
    pub position_index: usize,
    pub url: Option<String>,
    pub best_move: Option<UciMove>,
    pub scores: Map<(int, int), Score>,
    pub depth: u8,
    pub pvs: Map<(int, int), Seq<UciMove>>,
    pub time_ms: u64,
    pub nodes: u64,
    pub nps: Option<u32>,
}

impl View for PositionResponse {
    type V = PositionResponseView;

    open spec fn view(&self) -> PositionResponseView {
        PositionResponseView {
            work: self.work,
            position_index: self.position_index,
            url: self.url,
            best_move: self.best_move,
            scores: self.scores@,
            depth: self.depth,
            pvs: self.pvs@,
            time_ms: self.time_ms,
            nodes: self.nodes,
            nps: self.nps,
        }
    }
}

/// Work belongs to the batch that it names, and an analysis needs a depth or a
/// number of nodes, while a move needs nothing.
pub proof fn law_work_names_its_batch(
    id: String,
    nodes: Option<u64>,
    depth: Option<u8>,
    level: SkillLevel,
    clock: Option<Clock>,
)
    ensures
        (Work::Analysis { id, nodes, depth }).batch_id() == id@,
        (Work::Move { id, level, clock }).batch_id() == id@,
        (Work::Analysis { id, nodes, depth }).wf() <==> !(nodes is None && depth is None),
        (Work::Move { id, level, clock }).wf(),
{
}

/// A chunk is valid if and only if the work of each of its positions is and all
/// their moves are, however many there are.
pub proof fn law_valid_chunks(chunk: Chunk)
    ensures
        chunk.wf() <==> forall|i: int|
            0 <= i < chunk.positions.len() ==> (#[trigger] chunk.positions[i]).work.wf() && forall|
                j: int,
            |
                0 <= j < chunk.positions[i].moves.len() ==> (
                #[trigger] chunk.positions[i].moves[j]).wf(),
{
}

/// Whether a chunk, a position or its work is valid is told as it is, and a chunk
/// that fails does so under the batch of its work.
pub proof fn law_what_is_told_of_a_chunk(
    chunk: Chunk,
    chunk_is: bool,
    position: Position,
    position_is: bool,
    work: Work,
    work_is: bool,
    id: String,
    failed: ChunkFailed,
)
    requires
        call_ensures(Chunk::is_valid, (&chunk,), chunk_is),
        call_ensures(Position::is_valid, (&position,), position_is),
        call_ensures(Work::is_valid, (&work,), work_is),
        call_ensures(Work::id, (&work,), id),
        call_ensures(ChunkFailed::of, (&work,), failed),
    ensures
        chunk_is == chunk.wf(),
        position_is == position.wf(),
        work_is == work.wf(),
        id@ == work.batch_id(),
        failed.batch_id@ == work.batch_id(),
{
}

} // verus!
