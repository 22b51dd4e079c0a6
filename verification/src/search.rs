//! What the reports of the engine on one position add up to.

use vstd::prelude::*;

use crate::matrix::Matrix;
use crate::moves::UciMove;
use crate::uci::{Info, ProtocolError, Score};
use crate::work::{Position, PositionResponse};
#[allow(unused_imports)]
use crate::uci::InfoView;
#[allow(unused_imports)]
use crate::work::PositionResponseView;

verus! {

/// What is known about a position so far.
#[derive(PartialEq, Eq, Debug)]
pub struct Search {
    scores: Matrix<Score>,
    pvs: Matrix<Vec<UciMove>>,
    depth: u8,
    time_ms: u64,
    nodes: u64,
    nps: Option<u32>,
}

/// [`Search`] with the views of its matrices.
#[verifier::ext_equal]
pub struct SearchView {
    pub scores: Map<(int, int), Score>,
    pub pvs: Map<(int, int), Seq<UciMove>>,
    pub depth: u8,
    pub time_ms: u64,
    pub nodes: u64,
    pub nps: Option<u32>,
}

impl View for Search {
    type V = SearchView;

    closed spec fn view(&self) -> SearchView {
        SearchView {
            scores: self.scores@,
            pvs: self.pvs@,
            depth: self.depth,
            time_ms: self.time_ms,
            nodes: self.nodes,
            nps: self.nps,
        }
    }
}

/// Whether a report's score and line of play are kept: it has to say at which
/// depth it was found, and for the first line of play it has to be exact.
pub open spec fn is_kept(info: InfoView) -> bool {
    info.depth is Some && (info.exact() || info.multipv > 1)
}

/// Every line of play consists of valid moves.
pub open spec fn are_valid_lines(pvs: Map<(int, int), Seq<UciMove>>) -> bool {
    forall|at: (int, int), i: int|
        pvs.dom().contains(at) && 0 <= i < pvs[at].len() ==> (#[trigger] pvs[at][i]).wf()
}

impl SearchView {
    /// Nothing is known.
    pub open spec fn blank() -> SearchView {
        SearchView {
            scores: Map::empty(),
            pvs: Map::empty(),
            depth: 0,
            time_ms: 0,
            nodes: 0,
            nps: None,
        }
    }

    /// What is known after one more report.
    pub open spec fn after(self, info: InfoView) -> SearchView {
        let at = (info.multipv as int, info.depth->0 as int);
        SearchView {
            scores: if info.score is Some && is_kept(info) {
                self.scores.insert(at, info.score->0)
            } else {
                self.scores
            },
            pvs: if info.pv is Some && is_kept(info) {
                self.pvs.insert(at, info.pv->0)
            } else {
                self.pvs
            },
            depth: if info.depth is Some && info.multipv == 1 && info.exact() {
                info.depth->0
            } else {
                self.depth
            },
            time_ms: match info.time_ms {
                Some(time_ms) => time_ms,
                None => self.time_ms,
            },
            nodes: match info.nodes {
                Some(nodes) => nodes,
                None => self.nodes,
            },
            nps: match info.nps {
                Some(nps) => Some(nps),
                None => self.nps,
            },
        }
    }

    /// There is a score for the first line of play.
    pub open spec fn is_scored(self) -> bool {
        exists|depth: int| #[trigger] self.scores.dom().contains((1, depth))
    }

    /// The answer for `position`.
    pub open spec fn response(self, position: Position, best_move: Option<UciMove>)
        -> PositionResponseView {
        PositionResponseView {
            work: position.work,
            position_index: position.position_index,
            url: position.url,
            best_move,
            scores: self.scores,
            depth: self.depth,
            pvs: self.pvs,
            time_ms: self.time_ms,
            nodes: self.nodes,
            nps: self.nps,
        }
    }
}

impl Search {
    /// Nothing is known.
    pub fn new() -> (search: Search)
        ensures
            search@ == SearchView::blank(),
    {
        Search {
            scores: Matrix::new(),
            pvs: Matrix::new(),
            depth: 0,
            time_ms: 0,
            nodes: 0,
            nps: None,
        }
    }

    /// Takes in a report.
    pub fn hear(&mut self, info: Info)
        requires
            info@.wf(),
        ensures
            final(self)@ == old(self)@.after(info@),
    {
        let exact: bool = !info.lowerbound && !info.upperbound;
        if let Some(depth) = info.depth {
            if info.multipv == 1 && exact {
                self.depth = depth;
            }
        }
        if let Some(nodes) = info.nodes {
            self.nodes = nodes;
        }
        if let Some(time_ms) = info.time_ms {
            self.time_ms = time_ms;
        }
        if let Some(nps) = info.nps {
            self.nps = Some(nps);
        }
        if let Some(depth) = info.depth {
            if exact || info.multipv > 1 {
                if let Some(score) = info.score {
                    self.scores.set(info.multipv, depth, score);
                }
                if let Some(pv) = info.pv {
                    self.pvs.set(info.multipv, depth, pv);
                }
            }
        }
    }

    /// Turns what is known into the answer for `position`.
    pub fn finish(self, position: Position, best_move: Option<UciMove>) -> (r: Result<
        PositionResponse,
        ProtocolError,
    >)
        ensures
            match r {
                Ok(response) => self@.is_scored() && response@ == self@.response(
                    position,
                    best_move,
                ),
                Err(e) => !self@.is_scored() && e == ProtocolError::MissingScore,
            },
    {
        if self.scores.best().is_none() {
            return Err(ProtocolError::MissingScore);
        }
        assert(self@.is_scored());
        Ok(
            PositionResponse {
                work: position.work,
                position_index: position.position_index,
                url: position.url,
                best_move,
                scores: self.scores,
                depth: self.depth,
                pvs: self.pvs,
                time_ms: self.time_ms,
                nodes: self.nodes,
                nps: self.nps,
            },
        )
    }
}

/// What is known after a row of reports.
pub open spec fn after_all(reports: Seq<InfoView>) -> SearchView
    decreases reports.len(),
{
    if reports.len() == 0 {
        SearchView::blank()
    } else {
        after_all(reports.drop_last()).after(reports.last())
    }
}

/// A report on the first line of play at a depth, with an exact score.
pub open spec fn scores_first_line(info: InfoView, depth: int, score: Score) -> bool {
    info.multipv == 1 && info.exact() && info.depth is Some && info.depth->0 == depth
        && info.score == Some(score)
}

/// A score that is known for the first line of play is never a mere bound: it
/// was reported as exact, for that depth.
pub proof fn law_first_line_scores_are_exact(reports: Seq<InfoView>, depth: int)
    requires
        after_all(reports).scores.dom().contains((1, depth)),
    ensures
        exists|i: int|
            0 <= i < reports.len() && #[trigger] scores_first_line(
                reports[i],
                depth,
                after_all(reports).scores[(1, depth)],
            ),
    decreases reports.len(),
{
    if reports.len() > 0 {
        let before = after_all(reports.drop_last());
        let last = reports.last();
        let score = after_all(reports).scores[(1, depth)];
        if last.score is Some && is_kept(last) && last.multipv == 1 && last.depth->0 == depth {
            assert(scores_first_line(reports[reports.len() - 1], depth, score));
        } else {
            assert(before.scores.dom().contains((1, depth)));
            law_first_line_scores_are_exact(reports.drop_last(), depth);
            let i = choose|i: int|
                0 <= i < reports.len() - 1 && #[trigger] scores_first_line(
                    reports.drop_last()[i],
                    depth,
                    before.scores[(1, depth)],
                );
            assert(scores_first_line(reports[i], depth, score));
        }
    }
}

/// The depth of the answer is the one of the last exact report on the first
/// line of play, and zero if there was none.
pub proof fn law_depth_is_last_exact_one(reports: Seq<InfoView>, last: int)
    requires
        -1 <= last < reports.len(),
        last >= 0 ==> reports[last].multipv == 1 && reports[last].exact() && reports[last].depth
            is Some,
        forall|i: int|
            last < i < reports.len() ==> !((#[trigger] reports[i]).multipv == 1
                && reports[i].exact() && reports[i].depth is Some),
    ensures
        last >= 0 ==> Some(after_all(reports).depth) == reports[last].depth,
        last < 0 ==> after_all(reports).depth == 0,
    decreases reports.len(),
{
    if reports.len() > 0 && last < reports.len() - 1 {
        assert forall|i: int| last < i < reports.len() - 1 implies !((
        #[trigger] reports.drop_last()[i]).multipv == 1 && reports.drop_last()[i].exact()
            && reports.drop_last()[i].depth is Some) by {
            assert(reports[i] == reports.drop_last()[i]);
        }
        law_depth_is_last_exact_one(reports.drop_last(), last);
    }
}

/// A later report on the same line of play at the same depth replaces what an
/// earlier one said, and touches no other score.
pub proof fn law_later_report_replaces_earlier(known: SearchView, info: InfoView)
    requires
        info.score is Some,
        is_kept(info),
    ensures
        known.after(info).scores[(info.multipv as int, info.depth->0 as int)] == info.score->0,
        forall|at: (int, int)|
            at != (info.multipv as int, info.depth->0 as int) ==> (known.after(
                info,
            ).scores.dom().contains(at) == #[trigger] known.scores.dom().contains(at)) && (
            known.scores.dom().contains(at) ==> known.after(info).scores[at] == known.scores[at]),
{
}

/// A score is exact if it was reported neither as a lower nor as an upper bound.
pub proof fn law_exact_scores_are_no_bounds(info: InfoView)
    ensures
        info.exact() <==> !(info.lowerbound || info.upperbound),
{
}

/// The score that is known for a rank and a depth is the one of the last report
/// on them that has a score and is no mere bound or is not about the first line
/// of play, and without such a report there is none.
pub proof fn law_score_is_last_reported(
    reports: Seq<InfoView>,
    rank: u8,
    depth: u8,
    last: int,
)
    requires
        -1 <= last < reports.len(),
        last >= 0 ==> {
            &&& reports[last].multipv == rank
            &&& reports[last].depth == Some(depth)
            &&& rank > 1 || (!reports[last].lowerbound && !reports[last].upperbound)
            &&& reports[last].score is Some
        },
        forall|i: int|
            last < i < reports.len() ==> !{
                &&& (#[trigger] reports[i]).multipv == rank
                &&& reports[i].depth == Some(depth)
                &&& rank > 1 || (!reports[i].lowerbound && !reports[i].upperbound)
                &&& reports[i].score is Some
            },
    ensures
        last >= 0 ==> after_all(reports).scores.dom().contains((rank as int, depth as int)) && Some(
            after_all(reports).scores[(rank as int, depth as int)],
        ) == reports[last].score,
        last < 0 ==> !after_all(reports).scores.dom().contains((rank as int, depth as int)),
    decreases reports.len(),
{
    if reports.len() > 0 && last < reports.len() - 1 {
        let before = reports.drop_last();
        assert forall|i: int| last < i < before.len() implies !{
            &&& (#[trigger] before[i]).multipv == rank
            &&& before[i].depth == Some(depth)
            &&& rank > 1 || (!before[i].lowerbound && !before[i].upperbound)
            &&& before[i].score is Some
        } by {
            assert(before[i] == reports[i]);
        }
        law_score_is_last_reported(before, rank, depth, last);
        let newest = reports[reports.len() - 1];
        assert(!{
            &&& newest.multipv == rank
            &&& newest.depth == Some(depth)
            &&& rank > 1 || (!newest.lowerbound && !newest.upperbound)
            &&& newest.score is Some
        });
    }
}

/// The line of play that is known for a rank and a depth is, move for move, the
/// one of the last report on them that has one and is no mere bound or is not
/// about the first line of play, and without such a report there is none.
pub proof fn law_line_of_play_is_last_reported(
    reports: Seq<InfoView>,
    rank: u8,
    depth: u8,
    last: int,
)
    requires
        -1 <= last < reports.len(),
        last >= 0 ==> {
            &&& reports[last].multipv == rank
            &&& reports[last].depth == Some(depth)
            &&& rank > 1 || (!reports[last].lowerbound && !reports[last].upperbound)
            &&& reports[last].pv is Some
        },
        forall|i: int|
            last < i < reports.len() ==> !{
                &&& (#[trigger] reports[i]).multipv == rank
                &&& reports[i].depth == Some(depth)
                &&& rank > 1 || (!reports[i].lowerbound && !reports[i].upperbound)
                &&& reports[i].pv is Some
            },
    ensures
        last >= 0 ==> after_all(reports).pvs.dom().contains((rank as int, depth as int)) && Some(
            after_all(reports).pvs[(rank as int, depth as int)],
        ) == reports[last].pv,
        last < 0 ==> !after_all(reports).pvs.dom().contains((rank as int, depth as int)),
    decreases reports.len(),
{
    if reports.len() > 0 && last < reports.len() - 1 {
        let before = reports.drop_last();
        assert forall|i: int| last < i < before.len() implies !{
            &&& (#[trigger] before[i]).multipv == rank
            &&& before[i].depth == Some(depth)
            &&& rank > 1 || (!before[i].lowerbound && !before[i].upperbound)
            &&& before[i].pv is Some
        } by {
            assert(before[i] == reports[i]);
        }
        law_line_of_play_is_last_reported(before, rank, depth, last);
        let newest = reports[reports.len() - 1];
        assert(!{
            &&& newest.multipv == rank
            &&& newest.depth == Some(depth)
            &&& rank > 1 || (!newest.lowerbound && !newest.upperbound)
            &&& newest.pv is Some
        });
    }
}

/// The nodes of the answer are those of the last report that tells them, and zero
/// if none does.
pub proof fn law_nodes_are_latest(reports: Seq<InfoView>, last: int)
    requires
        -1 <= last < reports.len(),
        last >= 0 ==> reports[last].nodes is Some,
        forall|i: int| last < i < reports.len() ==> (#[trigger] reports[i]).nodes is None,
    ensures
        last >= 0 ==> Some(after_all(reports).nodes) == reports[last].nodes,
        last < 0 ==> after_all(reports).nodes == 0,
    decreases reports.len(),
{
    if reports.len() > 0 && last < reports.len() - 1 {
        assert forall|i: int| last < i < reports.len() - 1 implies (
        #[trigger] reports.drop_last()[i]).nodes is None by {
            assert(reports.drop_last()[i] == reports[i]);
        }
        law_nodes_are_latest(reports.drop_last(), last);
        assert(reports[reports.len() - 1].nodes is None);
    }
}

/// The time of the answer is that of the last report that tells it, and zero if
/// none does.
pub proof fn law_time_is_latest(reports: Seq<InfoView>, last: int)
    requires
        -1 <= last < reports.len(),
        last >= 0 ==> reports[last].time_ms is Some,
        forall|i: int| last < i < reports.len() ==> (#[trigger] reports[i]).time_ms is None,
    ensures
        last >= 0 ==> Some(after_all(reports).time_ms) == reports[last].time_ms,
        last < 0 ==> after_all(reports).time_ms == 0,
    decreases reports.len(),
{
    if reports.len() > 0 && last < reports.len() - 1 {
        assert forall|i: int| last < i < reports.len() - 1 implies (
        #[trigger] reports.drop_last()[i]).time_ms is None by {
            assert(reports.drop_last()[i] == reports[i]);
        }
        law_time_is_latest(reports.drop_last(), last);
        assert(reports[reports.len() - 1].time_ms is None);
    }
}

/// The speed of the answer is that of the last report that tells it, and missing
/// if none does.
pub proof fn law_speed_is_latest(reports: Seq<InfoView>, last: int)
    requires
        -1 <= last < reports.len(),
        last >= 0 ==> reports[last].nps is Some,
        forall|i: int| last < i < reports.len() ==> (#[trigger] reports[i]).nps is None,
    ensures
        last >= 0 ==> after_all(reports).nps == reports[last].nps,
        last < 0 ==> after_all(reports).nps == None::<u32>,
    decreases reports.len(),
{
    if reports.len() > 0 && last < reports.len() - 1 {
        assert forall|i: int| last < i < reports.len() - 1 implies (
        #[trigger] reports.drop_last()[i]).nps is None by {
            assert(reports.drop_last()[i] == reports[i]);
        }
        law_speed_is_latest(reports.drop_last(), last);
        assert(reports[reports.len() - 1].nps is None);
    }
}

/// There is a score for the first line of play if and only if one was reported,
/// for some depth and as exact.
pub proof fn law_scored_by_an_exact_report(reports: Seq<InfoView>)
    ensures
        after_all(reports).is_scored() <==> exists|i: int|
            0 <= i < reports.len() && (#[trigger] reports[i]).multipv == 1 && !reports[i].lowerbound
                && !reports[i].upperbound && reports[i].depth is Some && reports[i].score is Some,
    decreases reports.len(),
{
    if reports.len() > 0 {
        let before = reports.drop_last();
        let last = reports.last();
        law_scored_by_an_exact_report(before);
        let known = after_all(before);
        if after_all(reports).is_scored() {
            let depth = choose|depth: int| #[trigger]
                after_all(reports).scores.dom().contains((1, depth));
            law_first_line_scores_are_exact(reports, depth);
            let i = choose|i: int|
                0 <= i < reports.len() && #[trigger] scores_first_line(
                    reports[i],
                    depth,
                    after_all(reports).scores[(1, depth)],
                );
            assert(reports[i].score is Some);
        }
        if exists|i: int|
            0 <= i < reports.len() && (#[trigger] reports[i]).multipv == 1 && !reports[i].lowerbound
                && !reports[i].upperbound && reports[i].depth is Some && reports[i].score is Some {
            let i = choose|i: int|
                0 <= i < reports.len() && (#[trigger] reports[i]).multipv == 1
                    && !reports[i].lowerbound && !reports[i].upperbound && reports[i].depth is Some
                    && reports[i].score is Some;
            if i < before.len() {
                assert(before[i] == reports[i]);
                let depth = choose|depth: int| #[trigger] known.scores.dom().contains((1, depth));
                assert(after_all(reports).scores.dom().contains((1, depth)));
            } else {
                assert(after_all(reports).scores.dom().contains((1, last.depth->0 as int)));
            }
        }
    }
}

/// Whatever kind of work a position is sent with, its answer gives it back as it
/// was sent, has the best move that ended the search, and tells all that is known
/// of the position and nothing else. There is an answer if and only if the first
/// line of play has a score at some depth.
pub proof fn law_answer_tells_all_that_is_known(
    search: Search,
    position: Position,
    best_move: Option<UciMove>,
    result: Result<PositionResponse, ProtocolError>,
)
    requires
        call_ensures(Search::finish, (search, position, best_move), result),
    ensures
        match result {
            Ok(answer) => {
                &&& answer.best_move == best_move
                &&& answer.work == position.work
                &&& answer.position_index == position.position_index
                &&& answer.url == position.url
                &&& answer.scores@ == search@.scores
                &&& answer.pvs@ == search@.pvs
                &&& answer.depth == search@.depth
                &&& answer.time_ms == search@.time_ms
                &&& answer.nodes == search@.nodes
                &&& answer.nps == search@.nps
                &&& exists|depth: int| #[trigger] search@.scores.dom().contains((1, depth))
            },
            Err(error) => {
                &&& error == ProtocolError::MissingScore
                &&& forall|depth: int| !#[trigger] search@.scores.dom().contains((1, depth))
            },
        },
{
}

/// A search starts with nothing known, and takes in reports one after the other.
pub proof fn law_reports_are_taken_in(search: Search, info: Info)
    requires
        call_ensures(Search::new, (), search),
        info@.wf(),
    ensures
        search@ == after_all(Seq::empty()),
        search@.scores == Map::<(int, int), Score>::empty(),
        search@.pvs == Map::<(int, int), Seq<UciMove>>::empty(),
        forall|it: &mut Search, heard: Seq<InfoView>|
            (#[trigger] call_ensures(Search::hear, (it, info), ())) && it@ == #[trigger] after_all(
                heard,
            ) ==> final(it)@ == after_all(heard.push(info@)),
{
    assert forall|it: &mut Search, heard: Seq<InfoView>|
        (#[trigger] call_ensures(Search::hear, (it, info), ())) && it@ == #[trigger] after_all(
            heard,
        ) implies final(it)@ == after_all(heard.push(info@)) by {
        assert(heard.push(info@).drop_last() =~= heard);
    }
}

} // verus!
