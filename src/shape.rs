use vstd::prelude::*;

verus! {

/// Dimensions of a matrix: `cols` columns and `rows` rows, `cols * rows`
/// entries in all. A vector of length `n` has shape `(1, n)`.
#[derive(Clone, Copy, Debug, PartialEq, Eq, Structural)]
pub struct Shape {
    pub cols: usize,
    pub rows: usize,
}

impl Shape {
    pub open spec fn fits(self) -> bool {
        self.cols * self.rows <= usize::MAX
    }

    pub open spec fn size_spec(self) -> nat {
        (self.cols * self.rows) as nat
    }

    pub fn new(cols: usize, rows: usize) -> (r: Shape)
        ensures
            r.cols == cols,
            r.rows == rows,
    {
        Shape { cols, rows }
    }

    pub fn cols(&self) -> (r: usize)
        ensures
            r == self.cols,
    {
        self.cols
    }

    pub fn rows(&self) -> (r: usize)
        ensures
            r == self.rows,
    {
        self.rows
    }

    /// Number of entries.
    pub fn size(&self) -> (r: usize)
        requires
            self.fits(),
        ensures
            r == self.size_spec(),
    {
        self.cols * self.rows
    }

    pub fn reshape(&mut self, cols: usize, rows: usize)
        ensures
            final(self).cols == cols,
            final(self).rows == rows,
    {
        self.cols = cols;
        self.rows = rows;
    }
}

} // verus!
