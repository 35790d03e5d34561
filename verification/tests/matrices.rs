use ray_tracer::matrices::{GenMatrix, Submatrix};

fn from_rows<const R: usize, const C: usize>(rows: [[f64; C]; R]) -> GenMatrix<f64, R, C> {
    let mut m = GenMatrix::fill(0.0);
    for r in 0..R {
        for c in 0..C {
            m.set(r, c, rows[r][c]);
        }
    }
    m
}

fn assert_entries<const R: usize, const C: usize>(m: &GenMatrix<f64, R, C>, rows: [[f64; C]; R]) {
    for r in 0..R {
        for c in 0..C {
            assert_eq!(m.get(r, c), rows[r][c], "entry ({}, {})", r, c);
        }
    }
}

#[test]
fn new_matrix() {
    let m: GenMatrix<f64, 3, 2> = GenMatrix::fill(0.0);
    assert!(m.get(0, 0) == 0.0);
    assert!(m.get(0, 1) == 0.0);
    assert!(m.get(1, 0) == 0.0);
    assert!(m.get(1, 1) == 0.0);
    assert!(m.get(2, 0) == 0.0);
    assert!(m.get(2, 1) == 0.0);
}

#[test]
fn transpose_4x4_matrix() {
    let a = from_rows([
        [0.0, 9.0, 3.0, 0.0],
        [9.0, 8.0, 0.0, 8.0],
        [1.0, 8.0, 5.0, 3.0],
        [0.0, 0.0, 5.0, 8.0],
    ]);
    assert_entries(
        &a.transpose(),
        [
            [0.0, 9.0, 1.0, 0.0],
            [9.0, 8.0, 8.0, 0.0],
            [3.0, 0.0, 5.0, 5.0],
            [0.0, 8.0, 3.0, 8.0],
        ],
    );
}

#[test]
fn transpose_identity_matrix_returns_identity_matrix() {
    let identity: GenMatrix<f64, 3, 3> = GenMatrix::diagonal(1.0, 0.0);
    let transposed = identity.transpose();
    for r in 0..3 {
        for c in 0..3 {
            assert_eq!(transposed.get(r, c), identity.get(r, c));
        }
    }
}

#[test]
fn calculate_submatrix_for_3x3_matrix() {
    let m = from_rows([
        [1.0, 5.0, 0.0],  //
        [-3.0, 2.0, 7.0], //
        [0.0, 6.0, -3.0], //
    ]);
    let m_sub: Option<GenMatrix<f64, 2, 2>> = (&m).submatrix(3, 0);
    assert!(m_sub.is_none());
    let m_sub: Option<GenMatrix<f64, 2, 2>> = (&m).submatrix(0, 3);
    assert!(m_sub.is_none());
    let m_sub: Option<GenMatrix<f64, 1, 2>> = (&m).submatrix(0, 0);
    assert!(m_sub.is_none());
    let m_sub: Option<GenMatrix<f64, 2, 3>> = (&m).submatrix(0, 0);
    assert!(m_sub.is_none());
    let m_sub: Option<GenMatrix<f64, 2, 2>> = (&m).submatrix(0, 2);
    assert_entries(
        &m_sub.unwrap(),
        [
            [-3.0, 2.0], //
            [0.0, 6.0],  //
        ],
    );
    let m_sub: Option<GenMatrix<f64, 2, 2>> = (&m).submatrix(2, 1);
    assert_entries(
        &m_sub.unwrap(),
        [
            [1.0, 0.0],  //
            [-3.0, 7.0], //
        ],
    );
}

#[test]
fn calculate_submatrix_for_4x4_matrix() {
    let m = from_rows([
        [-6.0, 1.0, 1.0, 6.0],
        [-8.0, 5.0, 8.0, 6.0],
        [-1.0, 0.0, 8.0, 2.0],
        [-7.0, 1.0, -1.0, 1.0],
    ]);
    let m_sub: Option<GenMatrix<f64, 3, 3>> = (&m).submatrix(4, 0);
    assert!(m_sub.is_none());
    let m_sub: Option<GenMatrix<f64, 3, 3>> = (&m).submatrix(0, 4);
    assert!(m_sub.is_none());
    let m_sub: Option<GenMatrix<f64, 2, 3>> = (&m).submatrix(0, 0);
    assert!(m_sub.is_none());
    let m_sub: Option<GenMatrix<f64, 3, 2>> = (&m).submatrix(0, 0);
    assert!(m_sub.is_none());
    let m_sub: Option<GenMatrix<f64, 3, 3>> = (&m).submatrix(2, 1);
    assert_entries(
        &m_sub.unwrap(),
        [
            [-6.0, 1.0, 6.0],
            [-8.0, 8.0, 6.0],
            [-7.0, -1.0, 1.0],
        ],
    );
    let m_sub: Option<GenMatrix<f64, 3, 3>> = (&m).submatrix(0, 3);
    assert_entries(
        &m_sub.unwrap(),
        [
            [-8.0, 5.0, 8.0],
            [-1.0, 0.0, 8.0],
            [-7.0, 1.0, -1.0],
        ],
    );
}

#[test]
fn diagonal_builder_places_both_values() {
    let m: GenMatrix<i32, 4, 4> = GenMatrix::diagonal(7, -1);
    for r in 0..4 {
        for c in 0..4 {
            assert_eq!(m.get(r, c), if r == c { 7 } else { -1 });
        }
    }
}

#[test]
fn submatrix_through_trait_rejects_malformed_buffer() {
    // The trait admits any receiver, so a buffer of the wrong shape is
    // turned away instead of being read out of bounds.
    let broken: GenMatrix<f64, 3, 3> = GenMatrix { data: vec![vec![1.0, 2.0]] };
    let sub: Option<GenMatrix<f64, 2, 2>> = (&broken).submatrix(0, 0);
    assert!(sub.is_none());
}

#[test]
fn set_replaces_only_the_named_entry() {
    let mut m: GenMatrix<f64, 2, 2> = GenMatrix::fill(0.5);
    m.set(0, 1, 9.25);
    assert_entries(&m, [[0.5, 9.25], [0.5, 0.5]]);
}
