use vstd::prelude::*;

verus! {

/// The position of one pixel in a grid of `width` columns and `height`
/// rows. `x` counts columns from the left, `y` rows from the top.
#[derive(Clone, Copy, PartialEq, Eq, Structural, Debug)]
pub struct Coordinate {
    pub x: usize,
    pub y: usize,
}

impl Coordinate {
    /// Place of this coordinate in a row-major traversal of a grid that is
    /// `width` pixels wide: all of row 0 from left to right, then row 1,
    /// and so on.
    pub open spec fn index(self, width: nat) -> int {
        self.y * width + self.x
    }

    /// Whether the coordinate lies inside a `width` by `height` grid.
    pub open spec fn in_range(self, width: nat, height: nat) -> bool {
        self.x < width && self.y < height
    }

    /// The first coordinate of a row-major traversal, or `None` when the
    /// grid has no pixels at all.
    pub fn first(width: usize, height: usize) -> (r: Option<Coordinate>)
        ensures
            width > 0 && height > 0 ==> r == Some(Coordinate { x: 0usize, y: 0usize }),
            width == 0 || height == 0 ==> r is None,
    {
        if width > 0 && height > 0 {
            Some(Coordinate { x: 0, y: 0 })
        } else {
            None
        }
    }

    /// The coordinate that follows this one in a row-major traversal, or
    /// `None` when this is the last pixel of the grid.
    pub fn next_row_major(self, width: usize, height: usize) -> (r: Option<Coordinate>)
        requires
            self.in_range(width as nat, height as nat),
        ensures
            self.x + 1 < width ==> r == Some(Coordinate { x: (self.x + 1) as usize, y: self.y }),
            self.x + 1 == width && self.y + 1 < height ==> r == Some(
                Coordinate { x: 0usize, y: (self.y + 1) as usize },
            ),
            self.x + 1 == width && self.y + 1 == height ==> r is None,
            r matches Some(c) ==> c.in_range(width as nat, height as nat) && c.index(
                width as nat,
            ) == self.index(width as nat) + 1,
            r is None <==> self.index(width as nat) + 1 == width * height,
    {
        if self.x + 1 < width {
            proof {
                assert(self.y * width + self.x + 1 < width * height) by (nonlinear_arith)
                    requires
                        self.x + 1 < width,
                        self.y < height,
                ;
            }
            Some(Coordinate { x: self.x + 1, y: self.y })
        } else if self.y + 1 < height {
            proof {
                assert((self.y + 1) * width == self.y * width + width) by (nonlinear_arith);
                assert(self.y * width + self.x + 1 < width * height) by (nonlinear_arith)
                    requires
                        self.x < width,
                        self.x + 1 >= width,
                        self.y + 1 < height,
                ;
            }
            Some(Coordinate { x: 0, y: self.y + 1 })
        } else {
            proof {
                assert((self.y + 1) * width == self.y * width + width) by (nonlinear_arith);
                assert(self.y * width + self.x + 1 == width * height) by (nonlinear_arith)
                    requires
                        self.x + 1 == width,
                        self.y + 1 == height,
                ;
            }
            None
        }
    }
}

/// A rectangular pixel buffer: `height` rows of `width` pixels each, stored
/// row by row. The pixel type is left open; the renderer outside the
/// verified core stores its colors here, and the serializer reads them back
/// once they are quantized.
pub struct Canvas<T> {
    pub width: usize,
    pub height: usize,
    pub pixels: Vec<Vec<T>>,
}

impl<T: Copy> Canvas<T> {
    /// The rows of the buffer, each a sequence of pixels.
    pub open spec fn grid(&self) -> Seq<Seq<T>> {
        self.pixels@.map_values(|row: Vec<T>| row@)
    }

    /// The pixel stored at column `x` of row `y`.
    pub open spec fn pixel(&self, x: int, y: int) -> T {
        self.grid()[y][x]
    }

    /// The buffer holds exactly `height` rows of `width` pixels each.
    pub open spec fn wf(&self) -> bool {
        &&& self.grid().len() == self.height
        &&& forall|y: int|
            0 <= y < self.grid().len() ==> (#[trigger] self.grid()[y]).len() == self.width
    }

    /// All pixels in row-major order: row 0 from left to right, then row 1,
    /// and so on — the order in which an image is serialized.
    pub open spec fn row_major(&self) -> Seq<T> {
        Seq::new(
            (self.height * self.width) as nat,
            |i: int| self.pixel(i % (self.width as int), i / (self.width as int)),
        )
    }

    /// A buffer of `x` columns and `y` rows with every pixel set to `fill`.
    pub fn new(x: usize, y: usize, fill: T) -> (c: Canvas<T>)
        ensures
            c.wf(),
            c.width == x,
            c.height == y,
            forall|i: int, j: int| 0 <= i < x && 0 <= j < y ==> c.pixel(i, j) == fill,
    {
        let mut c = Canvas { width: x, height: y, pixels: Vec::new() };

        for row_index in 0..y
            invariant
                c.width == x,
                c.height == y,
                c.grid() =~= Seq::new(
                    row_index as nat,
                    |j: int| Seq::new(x as nat, |i: int| fill),
                ),
        {
            let mut row: Vec<T> = Vec::new();
            for col_index in 0..x
                invariant
                    row@ =~= Seq::new(col_index as nat, |i: int| fill),
            {
                row.push(fill);
                proof {
                    assert(row@ =~= Seq::new((col_index + 1) as nat, |i: int| fill));
                }
            }
            let ghost old_grid = c.grid();
            let ghost row_view = row@;
            c.pixels.push(row);
            proof {
                assert(c.grid() =~= old_grid.push(row_view));
                assert(c.grid() =~= Seq::new(
                    (row_index + 1) as nat,
                    |j: int| Seq::new(x as nat, |i: int| fill),
                ));
            }
        }
        proof {
            assert forall|i: int, j: int| 0 <= i < x && 0 <= j < y implies c.pixel(i, j)
                == fill by {
                assert(c.grid()[j] == Seq::new(x as nat, |i: int| fill));
            }
        }
        return c;
    }

    /// Stores `color` at `(x, y)`; a position outside the buffer is
    /// ignored and the buffer is left as it was.
    pub fn write_pixel(&mut self, x: usize, y: usize, color: T)
        requires
            old(self).wf(),
        ensures
            final(self).wf(),
            final(self).width == old(self).width,
            final(self).height == old(self).height,
            x < old(self).width && y < old(self).height ==> forall|i: int, j: int|
                0 <= i < old(self).width && 0 <= j < old(self).height ==> final(self).pixel(
                    i,
                    j,
                ) == (if i == x && j == y {
                    color
                } else {
                    old(self).pixel(i, j)
                }),
            !(x < old(self).width && y < old(self).height) ==> final(self).grid() == old(
                self,
            ).grid(),
    {
        if x < self.width && y < self.height {
            let ghost old_grid = self.grid();
            proof {
                assert(old_grid[y as int] == self.pixels@[y as int]@);
            }
            let row: &mut Vec<T> = &mut self.pixels[y];
            row[x] = color;
            proof {
                assert(self.grid() =~= old_grid.update(
                    y as int,
                    old_grid[y as int].update(x as int, color),
                ));
            }
        }
    }

    /// The pixel at `(x, y)`, or `None` for a position outside the buffer.
    pub fn read_pixel(&self, x: usize, y: usize) -> (r: Option<T>)
        requires
            self.wf(),
        ensures
            x < self.width && y < self.height ==> r == Some(self.pixel(x as int, y as int)),
            !(x < self.width && y < self.height) ==> r is None,
    {
        if x < self.width && y < self.height {
            proof {
                assert(self.grid()[y as int] == self.pixels@[y as int]@);
            }
            let row = &self.pixels[y];
            return Some(row[x]);
        } else {
            return None;
        }
    }
}

} // verus!
