use vstd::prelude::*;

verus! {

/// Access to the submatrix operation shared by matrix types of every fixed
/// size: the implementor removes the row and the column that are given and
/// returns the smaller matrix, or nothing when the indices or the output
/// dimensions do not fit.
pub trait Submatrix<Rhs = Self> {
    type Output;

    fn submatrix(self, row: usize, col: usize) -> Option<Self::Output>;
}

/// A matrix of `R` rows and `C` columns whose entries are left
/// uninterpreted. Everything that only moves entries — building a matrix,
/// transposing it, removing one row and one column — is proved here for
/// any entry type; the floating-point arithmetic on the entries lives
/// outside the verified core, which instantiates the entries at f64.
#[derive(Debug)]
pub struct GenMatrix<T, const R: usize, const C: usize> {
    pub data: Vec<Vec<T>>,
}

impl<T: Copy, const R: usize, const C: usize> GenMatrix<T, R, C> {
    /// The rows of the matrix, each a sequence of entries.
    pub open spec fn grid(&self) -> Seq<Seq<T>> {
        self.data@.map_values(|row: Vec<T>| row@)
    }

    /// The entry in row `row`, column `col`.
    pub open spec fn entry(&self, row: int, col: int) -> T {
        self.grid()[row][col]
    }

    /// The matrix holds exactly `R` rows of `C` entries each.
    pub open spec fn wf(&self) -> bool {
        &&& self.grid().len() == R
        &&& forall|i: int| 0 <= i < R ==> (#[trigger] self.grid()[i]).len() == C
    }

    /// A matrix with every entry equal to `value`.
    pub fn fill(value: T) -> (r: GenMatrix<T, R, C>)
        ensures
            r.wf(),
            forall|i: int, j: int| 0 <= i < R && 0 <= j < C ==> r.entry(i, j) == value,
    {
        let mut m = GenMatrix { data: Vec::new() };

        for done in 0..R
            invariant
                m.grid() =~= Seq::new(done as nat, |i: int| Seq::new(C as nat, |j: int| value)),
        {
            let mut row: Vec<T> = Vec::new();
            for filled in 0..C
                invariant
                    row@ =~= Seq::new(filled as nat, |j: int| value),
            {
                row.push(value);
                proof {
                    assert(row@ =~= Seq::new((filled + 1) as nat, |j: int| value));
                }
            }
            let ghost old_grid = m.grid();
            let ghost row_view = row@;
            m.data.push(row);
            proof {
                assert(m.grid() =~= old_grid.push(row_view));
                assert(m.grid() =~= Seq::new(
                    (done + 1) as nat,
                    |i: int| Seq::new(C as nat, |j: int| value),
                ));
            }
        }
        proof {
            assert forall|i: int, j: int| 0 <= i < R && 0 <= j < C implies m.entry(i, j)
                == value by {
                assert(m.grid()[i] == Seq::new(C as nat, |j: int| value));
            }
        }
        return m;
    }

    /// The entry at `(row, col)`.
    pub fn get(&self, row: usize, col: usize) -> (r: T)
        requires
            self.wf(),
            row < R,
            col < C,
        ensures
            r == self.entry(row as int, col as int),
    {
        proof {
            assert(self.grid()[row as int] == self.data@[row as int]@);
        }
        self.data[row][col]
    }

    /// Replaces the entry at `(row, col)`.
    pub fn set(&mut self, row: usize, col: usize, value: T)
        requires
            old(self).wf(),
            row < R,
            col < C,
        ensures
            final(self).wf(),
            forall|i: int, j: int|
                0 <= i < R && 0 <= j < C ==> final(self).entry(i, j) == (if i == row && j
                    == col {
                    value
                } else {
                    old(self).entry(i, j)
                }),
    {
        let ghost old_grid = self.grid();
        proof {
            assert(old_grid[row as int] == self.data@[row as int]@);
        }
        let entries: &mut Vec<T> = &mut self.data[row];
        entries[col] = value;
        proof {
            assert(self.grid() =~= old_grid.update(
                row as int,
                old_grid[row as int].update(col as int, value),
            ));
        }
    }

    /// The matrix without row `row` and column `col`, one smaller in each
    /// dimension; `None` when the indices do not exist or the requested
    /// output shape is not exactly one smaller.
    pub fn submatrix_at<const P: usize, const Q: usize>(&self, row: usize, col: usize) -> (r:
        Option<GenMatrix<T, P, Q>>)
        requires
            self.wf(),
        ensures
            (row < R && col < C && P + 1 == R && Q + 1 == C) <==> (r is Some),
            r matches Some(s) ==> s.wf() && forall|i: int, j: int|
                0 <= i < P && 0 <= j < Q ==> s.entry(i, j) == self.entry(
                    if i < row {
                        i
                    } else {
                        i + 1
                    },
                    if j < col {
                        j
                    } else {
                        j + 1
                    },
                ),
    {
        // The indices must exist and the output must be one smaller in
        // each dimension.
        if !(row < R && col < C && P < R && P + 1 == R && Q < C && Q + 1 == C) {
            return None;
        }

        let mut s: GenMatrix<T, P, Q> = GenMatrix { data: Vec::new() };
        for i in 0..P
            invariant
                self.wf(),
                row < R,
                col < C,
                P + 1 == R,
                Q + 1 == C,
                s.grid() =~= Seq::new(
                    i as nat,
                    |ii: int|
                        Seq::new(
                            Q as nat,
                            |jj: int|
                                self.entry(
                                    if ii < row {
                                        ii
                                    } else {
                                        ii + 1
                                    },
                                    if jj < col {
                                        jj
                                    } else {
                                        jj + 1
                                    },
                                ),
                        ),
                ),
        {
            let src_row = if i < row {
                i
            } else {
                i + 1
            };
            let mut out_row: Vec<T> = Vec::new();
            for j in 0..Q
                invariant
                    self.wf(),
                    row < R,
                    col < C,
                    P + 1 == R,
                    Q + 1 == C,
                    i < P,
                    src_row == (if i < row {
                        i as int
                    } else {
                        i + 1
                    }),
                    src_row < R,
                    out_row@ =~= Seq::new(
                        j as nat,
                        |jj: int|
                            self.entry(
                                src_row as int,
                                if jj < col {
                                    jj
                                } else {
                                    jj + 1
                                },
                            ),
                    ),
            {
                let src_col = if j < col {
                    j
                } else {
                    j + 1
                };
                out_row.push(self.get(src_row, src_col));
                proof {
                    assert(out_row@ =~= Seq::new(
                        (j + 1) as nat,
                        |jj: int|
                            self.entry(
                                src_row as int,
                                if jj < col {
                                    jj
                                } else {
                                    jj + 1
                                },
                            ),
                    ));
                }
            }
            let ghost old_grid = s.grid();
            let ghost row_view = out_row@;
            s.data.push(out_row);
            proof {
                assert(s.grid() =~= old_grid.push(row_view));
                assert(s.grid() =~= Seq::new(
                    (i + 1) as nat,
                    |ii: int|
                        Seq::new(
                            Q as nat,
                            |jj: int|
                                self.entry(
                                    if ii < row {
                                        ii
                                    } else {
                                        ii + 1
                                    },
                                    if jj < col {
                                        jj
                                    } else {
                                        jj + 1
                                    },
                                ),
                        ),
                ));
            }
        }
        proof {
            assert forall|i: int, j: int| 0 <= i < P && 0 <= j < Q implies s.entry(i, j)
                == self.entry(
                if i < row {
                    i
                } else {
                    i + 1
                },
                if j < col {
                    j
                } else {
                    j + 1
                },
            ) by {
                assert(s.grid()[i] == Seq::new(
                    Q as nat,
                    |jj: int|
                        self.entry(
                            if i < row {
                                i
                            } else {
                                i + 1
                            },
                            if jj < col {
                                jj
                            } else {
                                jj + 1
                            },
                        ),
                ));
            }
        }
        Some(s)
    }
}

impl<T: Copy, const R: usize> GenMatrix<T, R, R> {
    /// A square matrix with `on` along the main diagonal and `off`
    /// everywhere else.
    pub fn diagonal(on: T, off: T) -> (r: GenMatrix<T, R, R>)
        ensures
            r.wf(),
            forall|i: int, j: int|
                0 <= i < R && 0 <= j < R ==> r.entry(i, j) == (if i == j {
                    on
                } else {
                    off
                }),
    {
        let mut m: GenMatrix<T, R, R> = GenMatrix::fill(off);
        for i in 0..R
            invariant
                m.wf(),
                forall|ii: int, jj: int|
                    0 <= ii < R && 0 <= jj < R ==> m.entry(ii, jj) == (if ii == jj && ii < i {
                        on
                    } else {
                        off
                    }),
        {
            m.set(i, i, on);
        }
        return m;
    }

    /// The transpose: the entry at `(i, j)` is the original's at `(j, i)`.
    pub fn transpose(&self) -> (r: GenMatrix<T, R, R>)
        requires
            self.wf(),
        ensures
            r.wf(),
            forall|i: int, j: int|
                0 <= i < R && 0 <= j < R ==> r.entry(i, j) == self.entry(j, i),
    {
        let mut transposed: GenMatrix<T, R, R> = GenMatrix { data: Vec::new() };
        for i in 0..R
            invariant
                self.wf(),
                transposed.grid() =~= Seq::new(
                    i as nat,
                    |ii: int| Seq::new(R as nat, |jj: int| self.entry(jj, ii)),
                ),
        {
            let mut row: Vec<T> = Vec::new();
            for j in 0..R
                invariant
                    self.wf(),
                    i < R,
                    row@ =~= Seq::new(j as nat, |jj: int| self.entry(jj, i as int)),
            {
                row.push(self.get(j, i));
                proof {
                    assert(row@ =~= Seq::new((j + 1) as nat, |jj: int| self.entry(jj, i as int)));
                }
            }
            let ghost old_grid = transposed.grid();
            let ghost row_view = row@;
            transposed.data.push(row);
            proof {
                assert(transposed.grid() =~= old_grid.push(row_view));
                assert(transposed.grid() =~= Seq::new(
                    (i + 1) as nat,
                    |ii: int| Seq::new(R as nat, |jj: int| self.entry(jj, ii)),
                ));
            }
        }
        proof {
            assert forall|i: int, j: int| 0 <= i < R && 0 <= j < R implies transposed.entry(i, j)
                == self.entry(j, i) by {
                assert(transposed.grid()[i] == Seq::new(
                    R as nat,
                    |jj: int| self.entry(jj, i),
                ));
            }
        }
        return transposed;
    }
}

// The trait itself promises nothing and admits any receiver, so this
// implementation first establishes the shape the contracted method needs
// and then hands the call to `submatrix_at`, where the full contract
// lives.
impl<'a, T: Copy, const R: usize, const C: usize, const P: usize, const Q: usize> Submatrix<
    &'a GenMatrix<T, P, Q>,
> for &'a GenMatrix<T, R, C> {
    type Output = GenMatrix<T, P, Q>;

    fn submatrix(self, row: usize, col: usize) -> Option<GenMatrix<T, P, Q>> {
        if self.data.len() != R {
            return None;
        }
        for i in 0..R
            invariant
                self.data@.len() == R,
                forall|k: int| 0 <= k < i ==> (#[trigger] self.data@[k])@.len() == C,
        {
            if self.data[i].len() != C {
                return None;
            }
        }
        proof {
            assert forall|k: int| 0 <= k < R implies (#[trigger] self.grid()[k]).len()
                == C by {
                assert(self.grid()[k] == self.data@[k]@);
            }
            assert(self.wf());
        }
        self.submatrix_at::<P, Q>(row, col)
    }
}

} // verus!
