use tableturfer::matrix::{Matrix, MatrixIter, MatrixRotation, MatrixSize};

#[test]
fn matrix_rotate_clockwise_0() {
    let result = Matrix::new(vec![vec![1, 2, 3], vec![4, 5, 6]]).rotate_clockwise(
        MatrixRotation::Deg0,
    );

    assert_eq!(result, Matrix::new(vec![vec![1, 2, 3], vec![4, 5, 6]]));
}

#[test]
fn matrix_rotate_clockwise_90() {
    let result = Matrix::new(vec![vec![1, 2, 3], vec![4, 5, 6]]).rotate_clockwise(
        MatrixRotation::Deg90,
    );

    assert_eq!(result, Matrix::new(vec![vec![4, 1], vec![5, 2], vec![6, 3]]));
}

#[test]
fn matrix_rotate_clockwise_180() {
    let result = Matrix::new(vec![vec![1, 2, 3], vec![4, 5, 6]]).rotate_clockwise(
        MatrixRotation::Deg180,
    );

    assert_eq!(result, Matrix::new(vec![vec![6, 5, 4], vec![3, 2, 1]]));
}

#[test]
fn matrix_rotate_clockwise_270() {
    let result = Matrix::new(vec![vec![1, 2, 3], vec![4, 5, 6]]).rotate_clockwise(
        MatrixRotation::Deg270,
    );

    assert_eq!(result, Matrix::new(vec![vec![3, 6], vec![2, 5], vec![1, 4]]));
}

#[test]
fn matrix_size() {
    let matrix = Matrix::new(vec![vec![1, 2, 3], vec![4, 5, 6]]);
    let size = matrix.size();

    assert_eq!(size, MatrixSize::new(2, 3));
}

#[test]
fn matrix_size_empty() {
    let matrix: Matrix<usize> = Matrix::new(Vec::new());
    let size = matrix.size();

    assert_eq!(size, MatrixSize::new(0, 0));
}

#[test]
fn matrix_filled_with() {
    let result = Matrix::filled_with(MatrixSize::new(3, 2), 9);

    assert_eq!(result, Matrix::new(vec![vec![9, 9], vec![9, 9], vec![9, 9]]));
}

#[test]
fn matrix_index() {
    let matrix = Matrix::new(vec![vec![6, 5, 4], vec![3, 2, 1]]);

    assert_eq!(matrix.get(0, 1), 3);
    assert_eq!(matrix.get(1, 0), 5);
    assert_eq!(matrix.get(2, 0), 4);
    assert_eq!(matrix.get(0, 0), 6);
    assert_eq!(matrix.get(2, 1), 1);
}

#[test]
fn matrix_replace() {
    let mut matrix = Matrix::new(vec![
        vec![16, 15, 14, 13],
        vec![12, 11, 10, 9],
        vec![8, 7, 6, 5],
        vec![4, 3, 2, 1],
    ]);

    matrix.replace(
        tableturfer::position::UNamedPosition::new(1, 0),
        Matrix::new(vec![vec![99, 98], vec![97, 96], vec![95, 94]]),
    );

    assert_eq!(
        matrix,
        Matrix::new(vec![
            vec![16, 99, 98, 13],
            vec![12, 97, 96, 9],
            vec![8, 95, 94, 5],
            vec![4, 3, 2, 1],
        ])
    );
}

#[test]
fn matrix_slice() {
    let matrix = Matrix::new(vec![
        vec![1, 2, 3, 4],
        vec![5, 6, 7, 8],
        vec![9, 10, 11, 12],
        vec![13, 14, 15, 16],
    ]);

    assert_eq!(
        matrix.slice((0, 1), (2, 3)),
        Matrix::new(vec![vec![5, 6], vec![9, 10]])
    );
}

#[test]
fn matrix_slice_inclusive() {
    let matrix = Matrix::new(vec![
        vec![1, 2, 3, 4],
        vec![5, 6, 7, 8],
        vec![9, 10, 11, 12],
        vec![13, 14, 15, 16],
    ]);

    assert_eq!(
        matrix.slice_inclusive((0, 1), (2, 3)),
        Matrix::new(vec![vec![5, 6, 7], vec![9, 10, 11], vec![13, 14, 15]])
    );
}

#[test]
fn matrix_index_mut() {
    let mut matrix = Matrix::new(vec![vec![6, 5, 4], vec![3, 2, 1]]);

    matrix.set(1, 1, 9);
    matrix.set(2, 0, 100);

    assert_eq!(matrix, Matrix::new(vec![vec![6, 5, 100], vec![3, 9, 1]]));
}

#[test]
fn matrix_iter() {
    let mut iter = MatrixIter::new(Matrix::new(vec![vec![1, 2, 3], vec![4, 5, 6]]));

    assert_eq!(iter.next(), Some((1, (0, 0))));
    assert_eq!(iter.next(), Some((2, (1, 0))));
    assert_eq!(iter.next(), Some((3, (2, 0))));
    assert_eq!(iter.next(), Some((4, (0, 1))));
    assert_eq!(iter.next(), Some((5, (1, 1))));
    assert_eq!(iter.next(), Some((6, (2, 1))));
    assert_eq!(iter.next(), None);
}

#[test]
fn matrix_from_iter() {
    let mut iter = MatrixIter::new(Matrix::new(vec![vec![1, 2, 3], vec![4, 5, 6]]));
    let mut cells: Vec<(isize, (usize, usize))> = Vec::new();
    while let Some((item, position)) = iter.next() {
        cells.push((item * 2, position));
    }
    let mapped_matrix: Matrix<isize> = Matrix::from_cells(cells);

    assert_eq!(mapped_matrix, Matrix::new(vec![vec![2, 4, 6], vec![8, 10, 12]]));
}

#[test]
fn matrix_from_iter_empty_matrix() {
    let mut iter: MatrixIter<isize> = MatrixIter::new(Matrix::new(Vec::new()));
    let mut cells: Vec<(isize, (usize, usize))> = Vec::new();
    while let Some(cell) = iter.next() {
        cells.push(cell);
    }
    let result: Matrix<isize> = Matrix::from_cells(cells);

    assert_eq!(result, Matrix::new(Vec::new()));
}

#[test]
fn matrix_from_iter_empty_rows() {
    let mut iter: MatrixIter<isize> =
        MatrixIter::new(Matrix::new(vec![Vec::new(), Vec::new(), Vec::new()]));
    let mut cells: Vec<(isize, (usize, usize))> = Vec::new();
    while let Some(cell) = iter.next() {
        cells.push(cell);
    }
    let result: Matrix<isize> = Matrix::from_cells(cells);

    assert_eq!(result, Matrix::new(Vec::new()));
}

#[test]
fn matrix_iter_empty_matrix() {
    let mut iter: MatrixIter<usize> = MatrixIter::new(Matrix::new(Vec::new()));

    assert_eq!(iter.next(), None);
}

#[test]
fn matrix_iter_empty_rows() {
    let mut iter: MatrixIter<usize> =
        MatrixIter::new(Matrix::new(vec![Vec::new(), Vec::new(), Vec::new()]));

    assert_eq!(iter.next(), None);
}

#[test]
fn matrix_iter_size_hint() {
    let mut iter = MatrixIter::new(Matrix::new(vec![
        vec![1, 2],
        vec![3, 4],
        vec![5, 6],
        vec![7, 8],
    ]));

    assert_eq!(iter.size_hint(), (8, Some(8)));
    iter.next();
    assert_eq!(iter.size_hint(), (7, Some(7)));
    iter.next();
    assert_eq!(iter.size_hint(), (6, Some(6)));
    iter.next();
    assert_eq!(iter.size_hint(), (5, Some(5)));
    iter.next();
    assert_eq!(iter.size_hint(), (4, Some(4)));
}

#[test]
fn rotating_four_quarter_turns_restores_the_grid() {
    let matrix = Matrix::new(vec![vec![1, 2, 3], vec![4, 5, 6]]);
    let spun = matrix
        .clone()
        .rotate_clockwise(MatrixRotation::Deg90)
        .rotate_clockwise(MatrixRotation::Deg90)
        .rotate_clockwise(MatrixRotation::Deg90)
        .rotate_clockwise(MatrixRotation::Deg90);

    assert_eq!(spun, matrix);
}

#[test]
fn two_quarter_turns_equal_a_half_turn() {
    let matrix = Matrix::new(vec![vec![1, 2, 3], vec![4, 5, 6]]);
    let twice = matrix
        .clone()
        .rotate_clockwise(MatrixRotation::Deg90)
        .rotate_clockwise(MatrixRotation::Deg90);
    let half = matrix.rotate_clockwise(MatrixRotation::Deg180);

    assert_eq!(twice, half);
}
