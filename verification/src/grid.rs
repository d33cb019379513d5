use vstd::prelude::*;

verus! {

/// A square table of counts, stored in an `ndarray::Array2<u32>`.
#[verifier::external_body]
pub struct CountMatrix {
    array: ndarray::Array2<u32>,
}

/// The entries of a [`CountMatrix`], row by row.
pub uninterp spec fn count_rows(m: CountMatrix) -> Seq<Seq<u32>>;

impl CountMatrix {
    /// Calls `ndarray::Array2::zeros((n, n))`: an `n` by `n` array of zeros
    /// (ndarray panics when the number of entries overflows `isize`).
    #[verifier::external_body]
    pub(crate) fn zeros(n: usize) -> (m: CountMatrix)
        requires
            n * n <= isize::MAX,
        ensures
            count_rows(m) == Seq::new(n as nat, |i: int| Seq::new(n as nat, |j: int| 0u32)),
    {
        CountMatrix { array: ndarray::Array2::zeros((n, n)) }
    }

    /// Writes one entry through ndarray's `IndexMut` with the index `[i, j]`;
    /// no other entry changes (ndarray panics on an index out of bounds).
    #[verifier::external_body]
    pub(crate) fn set(&mut self, i: usize, j: usize, value: u32)
        requires
            i < count_rows(*old(self)).len(),
            j < count_rows(*old(self))[i as int].len(),
        ensures
            count_rows(*final(self)) == count_rows(*old(self)).update(
                i as int,
                count_rows(*old(self))[i as int].update(j as int, value),
            ),
    {
        self.array[[i, j]] = value;
    }

    /// Reads one entry through ndarray's `Index` with the index `[i, j]`
    /// (ndarray panics on an index out of bounds).
    #[verifier::external_body]
    fn read(&self, i: usize, j: usize) -> (value: u32)
        requires
            i < count_rows(*self).len(),
            j < count_rows(*self)[i as int].len(),
        ensures
            value == count_rows(*self)[i as int][j as int],
    {
        self.array[[i, j]]
    }

    /// Calls ndarray's `nrows`: the number of rows.
    #[verifier::external_body]
    fn nrows(&self) -> (n: usize)
        ensures
            n == count_rows(*self).len(),
    {
        self.array.nrows()
    }

    /// The entry in row `i` and column `j`.
    pub fn get(&self, i: usize, j: usize) -> (value: u32)
        requires
            i < count_rows(*self).len(),
            j < count_rows(*self)[i as int].len(),
        ensures
            value == count_rows(*self)[i as int][j as int],
    {
        self.read(i, j)
    }

    /// The number of rows.
    pub fn size(&self) -> (n: usize)
        ensures
            n == count_rows(*self).len(),
    {
        self.nrows()
    }
}

} // verus!
