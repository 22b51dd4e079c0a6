use fishnet::matrix::Matrix;
use fishnet::uci::Score;

#[test]
fn empty_matrix() {
    let matrix: Matrix<Score> = Matrix::new();
    assert_eq!(matrix.best(), None);
    assert_eq!(matrix.get(1, 0), None);
    assert_eq!(matrix.get(0, 0), None);
}

#[test]
fn values_by_rank_and_depth() {
    let mut matrix = Matrix::new();
    matrix.set(2, 5, Score::Cp(10));
    assert_eq!(matrix.best(), None);
    matrix.set(1, 7, Score::Cp(30));
    matrix.set(1, 3, Score::Mate(1));
    assert_eq!(matrix.best(), Some(&Score::Cp(30)));
    assert_eq!(matrix.get(1, 3), Some(&Score::Mate(1)));
    assert_eq!(matrix.get(1, 4), None);
    assert_eq!(matrix.get(1, 8), None);
    assert_eq!(matrix.get(2, 5), Some(&Score::Cp(10)));
    assert_eq!(matrix.get(3, 5), None);
    matrix.set(1, 7, Score::Cp(31));
    assert_eq!(matrix.best(), Some(&Score::Cp(31)));
    matrix.set(255, 255, Score::Cp(0));
    assert_eq!(matrix.get(255, 255), Some(&Score::Cp(0)));
}
