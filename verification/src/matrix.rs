//! Values by rank of the line of play and by depth of the search.

use vstd::prelude::*;

verus! {

/// At most one value for each rank, from 1 on, and each depth, from 0 on.
#[derive(PartialEq, Eq, Debug)]
pub struct Matrix<T> {
    rows: Vec<Vec<Option<T>>>,
}

/// The values that stand in `rows`: a row for each rank, a column for each depth.
spec fn values_of<T: View>(rows: Seq<Vec<Option<T>>>) -> Map<(int, int), T::V> {
    Map::new(
        |at: (int, int)|
            1 <= at.0 <= rows.len() && 0 <= at.1 < rows[at.0 - 1].len() && rows[at.0 - 1][at.1]
                is Some,
        |at: (int, int)| rows[at.0 - 1][at.1]->0@,
    )
}

/// A row is empty or ends with a value.
spec fn rows_end_with_values<T>(rows: Seq<Vec<Option<T>>>) -> bool {
    forall|i: int|
        0 <= i < rows.len() && (#[trigger] rows[i]).len() > 0 ==> rows[i][rows[i].len() - 1] is Some
}

impl<T: View> View for Matrix<T> {
    type V = Map<(int, int), T::V>;

    closed spec fn view(&self) -> Map<(int, int), T::V> {
        values_of(self.rows@)
    }
}

/// The greatest depth that has a value for the first rank is `depth`.
pub open spec fn best_of<V>(values: Map<(int, int), V>, depth: int) -> bool {
    &&& values.dom().contains((1, depth))
    &&& forall|d: int| #[trigger] values.dom().contains((1, d)) ==> d <= depth
}

/// There is no value for the first rank.
pub open spec fn lacks_first_rank<V>(values: Map<(int, int), V>) -> bool {
    forall|depth: int| !#[trigger] values.dom().contains((1, depth))
}

impl<T> Matrix<T> {
    /// Every row ends with a value.
    #[verifier::type_invariant]
    spec fn wf(self) -> bool {
        rows_end_with_values(self.rows@)
    }
}

impl<T: View> Matrix<T> {
    /// A matrix without values.
    pub fn new() -> (matrix: Matrix<T>)
        ensures
            matrix@ == Map::<(int, int), T::V>::empty(),
    {
        let matrix = Matrix { rows: Vec::new() };
        assert(matrix@ =~= Map::<(int, int), T::V>::empty());
        matrix
    }

    /// Sets the value for a rank and a depth.
    pub fn set(&mut self, multipv: u8, depth: u8, value: T)
        requires
            multipv >= 1,
        ensures
            final(self)@ == old(self)@.insert((multipv as int, depth as int), value@),
    {
        proof {
            use_type_invariant(&*self);
        }
        let ghost before = values_of(self.rows@);
        let row: usize = multipv as usize - 1;
        let column: usize = depth as usize;
        let mut rows: Vec<Vec<Option<T>>> = Vec::new();
        std::mem::swap(&mut rows, &mut self.rows);
        while rows.len() <= row
            invariant
                rows_end_with_values(rows@),
                values_of(rows@) == before,
            decreases row + 1 - rows.len(),
        {
            let ghost last = rows@;
            rows.push(Vec::new());
            assert(values_of(rows@) =~= values_of(last));
        }
        let ghost wide = rows@;
        let mut cells: Vec<Option<T>> = Vec::new();
        std::mem::swap(&mut cells, &mut rows[row]);
        let ghost old_cells = cells@;
        while cells.len() <= column
            invariant
                cells.len() >= old_cells.len(),
                cells@.take(old_cells.len() as int) == old_cells,
                forall|j: int| old_cells.len() <= j < cells.len() ==> cells[j] is None,
                cells.len() <= column + 1 || cells.len() == old_cells.len(),
            decreases column + 1 - cells.len(),
        {
            cells.push(None);
        }
        let ghost padded = cells@;
        cells[column] = Some(value);
        std::mem::swap(&mut cells, &mut rows[row]);
        proof {
            assert(padded.take(old_cells.len() as int) == old_cells);
            assert forall|j: int| 0 <= j < old_cells.len() implies padded[j] == old_cells[j] by {
                assert(padded.take(old_cells.len() as int)[j] == padded[j]);
            }
            assert(wide[row as int]@ == old_cells);
            assert(rows[row as int]@ == padded.update(column as int, Some(value)));
            assert(forall|i: int| 0 <= i < wide.len() && i != row ==> rows[i] == wide[i]);
            assert(values_of(rows@) =~= before.insert((multipv as int, depth as int), value@));
        }
        self.rows = rows;
    }

    /// The value for a rank and a depth.
    pub fn get(&self, multipv: u8, depth: u8) -> (value: Option<&T>)
        ensures
            match value {
                Some(value) => self@.dom().contains((multipv as int, depth as int))
                    && self@[(multipv as int, depth as int)] == value@,
                None => !self@.dom().contains((multipv as int, depth as int)),
            },
    {
        if multipv == 0 || multipv as usize > self.rows.len() {
            return None;
        }
        let row: usize = multipv as usize - 1;
        if depth as usize >= self.rows[row].len() {
            return None;
        }
        self.rows[row][depth as usize].as_ref()
    }

    /// The value for the first rank that has the greatest depth.
    pub fn best(&self) -> (value: Option<&T>)
        ensures
            match value {
                Some(value) => exists|depth: int| #[trigger]
                    best_of(self@, depth) && self@[(1, depth)] == value@,
                None => forall|depth: int| !#[trigger] self@.dom().contains((1, depth)),
            },
            value is None ==> lacks_first_rank(self@),
    {
        proof {
            use_type_invariant(self);
        }
        if self.rows.len() == 0 || self.rows[0].len() == 0 {
            return None;
        }
        let last: usize = self.rows[0].len() - 1;
        assert(self.rows[0][last as int] is Some);
        assert(best_of(self@, last as int));
        self.rows[0][last].as_ref()
    }
}

/// The best depth is the greatest one: it has a value for the first rank, and no
/// value for that rank is deeper, so that there is only one.
pub proof fn law_best_is_deepest<V>(values: Map<(int, int), V>, depth: int, other: int)
    requires
        best_of(values, depth),
    ensures
        values.dom().contains((1, depth)),
        values.dom().contains((1, other)) ==> other <= depth,
        best_of(values, other) <==> other == depth,
{
}

/// A value that is set is the one that is there from then on, and no other value
/// is touched.
pub proof fn law_set_touches_one_value<T: View>(multipv: u8, depth: u8, value: T)
    requires
        multipv >= 1,
    ensures
        forall|it: &mut Matrix<T>| #[trigger]
            call_ensures(Matrix::<T>::set, (it, multipv, depth, value), ()) ==> ({
                let at = (multipv as int, depth as int);
                &&& final(it)@.dom().contains(at)
                &&& final(it)@[at] == value@
                &&& forall|other: (int, int)|
                    other != at ==> (#[trigger] final(it)@.dom().contains(other)
                        == it@.dom().contains(other)) && (it@.dom().contains(other)
                        ==> final(it)@[other] == it@[other])
            }),
{
}

/// The best value is the one of the first rank at the greatest depth, and there
/// is one if there is any of the first rank. A value is found where it was set.
pub proof fn law_values_are_found<T: View>(
    matrix: Matrix<T>,
    best: Option<&T>,
    multipv: u8,
    depth: u8,
    value: Option<&T>,
)
    requires
        call_ensures(Matrix::<T>::best, (&matrix,), best),
        call_ensures(Matrix::<T>::get, (&matrix, multipv, depth), value),
    ensures
        best is None <==> forall|d: int| !#[trigger] matrix@.dom().contains((1, d)),
        best is Some ==> exists|d: int| #[trigger]
            matrix@.dom().contains((1, d)) && matrix@[(1, d)] == best->0@ && forall|other: int|
                #[trigger] matrix@.dom().contains((1, other)) ==> other <= d,
        value is Some <==> matrix@.dom().contains((multipv as int, depth as int)),
        value is Some ==> matrix@[(multipv as int, depth as int)] == value->0@,
{
    if best is Some {
        let d = choose|d: int| #[trigger]
            best_of(matrix@, d) && matrix@[(1, d)] == best->0@;
        assert(matrix@.dom().contains((1, d)) && matrix@[(1, d)] == best->0@);
    }
}

} // verus!
