//! A dense row-major two-dimensional array: the storage under the broad
//! phase's uniform grid. Cell `(x, y)` lives at flat index `x + y * width`.

use vstd::prelude::*;

verus! {

pub struct Array2D<T> {
    height: usize,
    width: usize,
    data: Vec<T>,
}

impl<T> View for Array2D<T> {
    type V = Seq<T>;

    closed spec fn view(&self) -> Seq<T> {
        self.data@
    }
}

impl<T> Array2D<T> {
    /// Number of columns.
    pub closed spec fn spec_width(&self) -> usize {
        self.width
    }

    /// Number of rows.
    pub closed spec fn spec_height(&self) -> usize {
        self.height
    }

    /// The storage holds exactly one value per cell.
    pub open spec fn wf(&self) -> bool {
        self@.len() == self.spec_width() * self.spec_height()
    }

    /// `(x, y)` names a cell of the array.
    pub open spec fn spec_in_bounds(&self, x: int, y: int) -> bool {
        0 <= x < self.spec_width() && 0 <= y < self.spec_height()
    }

    /// Flat index of cell `(x, y)`.
    pub open spec fn flat(&self, x: int, y: int) -> int {
        x + y * self.spec_width()
    }

    /// The flat index of an in-bounds cell addresses the storage.
    pub proof fn lemma_flat_in_range(&self, x: int, y: int)
        requires
            self.wf(),
            self.spec_in_bounds(x, y),
        ensures
            0 <= self.flat(x, y) < self@.len(),
    {
        let w = self.spec_width() as int;
        let h = self.spec_height() as int;
        assert(x + y * w < w * h) by (nonlinear_arith)
            requires
                0 <= x < w,
                0 <= y < h,
        ;
        assert(0 <= y * w) by (nonlinear_arith)
            requires
                0 <= y,
                0 <= w,
        ;
    }

    /// A fresh array with `height * width` cells, each a clone of `default`.
    pub fn new(height: usize, width: usize, default: T) -> (a: Self) where T: Clone
        requires
            height * width <= usize::MAX,
        ensures
            a.wf(),
            a.spec_height() == height,
            a.spec_width() == width,
            a@.len() == height * width,
            forall|i: int| 0 <= i < a@.len() ==> cloned(default, #[trigger] a@[i]),
    {
        let total: usize = height * width;
        let mut data: Vec<T> = Vec::new();
        while data.len() < total
            invariant
                data@.len() <= total,
                forall|i: int| 0 <= i < data@.len() ==> cloned(default, #[trigger] data@[i]),
            decreases total - data@.len(),
        {
            data.push(default.clone());
        }
        proof {
            assert(width * height == height * width) by (nonlinear_arith);
        }
        Array2D { height, width, data }
    }

    /// Overwrite cell `(x, y)` with `data`.
    pub fn insert(&mut self, data: T, x: usize, y: usize)
        requires
            old(self).wf(),
            old(self).spec_in_bounds(x as int, y as int),
        ensures
            final(self).wf(),
            final(self).spec_width() == old(self).spec_width(),
            final(self).spec_height() == old(self).spec_height(),
            final(self)@ == old(self)@.update(old(self).flat(x as int, y as int), data),
    {
        let n: usize = self.data.len();
        proof {
            self.lemma_flat_in_range(x as int, y as int);
        }
        let i: usize = x + y * self.width;
        self.data[i] = data;
    }

    /// Mutable access to the cell at flat index `i`, if it exists.
    pub fn try_get_mut_as_1d(&mut self, i: usize) -> (r: Option<&mut T>)
        ensures
            i < old(self)@.len() <==> r is Some,
            match r {
                Some(p) => {
                    &&& *p == old(self)@[i as int]
                    &&& final(self)@ == old(self)@.update(i as int, *final(p))
                    &&& final(self).spec_width() == old(self).spec_width()
                    &&& final(self).spec_height() == old(self).spec_height()
                },
                None => *final(self) == *old(self),
            },
    {
        if i >= self.data.len() {
            return None;
        }
        Some(&mut self.data[i])
    }

    /// Mutable access to the cell at flat index `i`.
    pub fn get_mut_as_1d(&mut self, i: usize) -> (p: &mut T)
        requires
            i < old(self)@.len(),
        ensures
            *p == old(self)@[i as int],
            final(self)@ == old(self)@.update(i as int, *final(p)),
            final(self).spec_width() == old(self).spec_width(),
            final(self).spec_height() == old(self).spec_height(),
    {
        &mut self.data[i]
    }

    /// Read cell `(x, y)`.
    pub fn get(&self, x: usize, y: usize) -> (p: &T)
        requires
            self.wf(),
            self.spec_in_bounds(x as int, y as int),
        ensures
            *p == self@[self.flat(x as int, y as int)],
    {
        let n: usize = self.data.len();
        proof {
            self.lemma_flat_in_range(x as int, y as int);
        }
        &self.data[x + y * self.width]
    }

    /// Mutable access to cell `(x, y)`.
    pub fn get_mut(&mut self, x: usize, y: usize) -> (p: &mut T)
        requires
            old(self).wf(),
            old(self).spec_in_bounds(x as int, y as int),
        ensures
            *p == old(self)@[old(self).flat(x as int, y as int)],
            final(self)@ == old(self)@.update(old(self).flat(x as int, y as int), *final(p)),
            final(self).spec_width() == old(self).spec_width(),
            final(self).spec_height() == old(self).spec_height(),
    {
        let n: usize = self.data.len();
        proof {
            self.lemma_flat_in_range(x as int, y as int);
        }
        let i: usize = x + y * self.width;
        &mut self.data[i]
    }

    /// Mutable access to cell `(x, y)`, if it exists.
    pub fn try_get_mut(&mut self, x: usize, y: usize) -> (r: Option<&mut T>)
        requires
            old(self).wf(),
        ensures
            old(self).spec_in_bounds(x as int, y as int) <==> r is Some,
            match r {
                Some(p) => {
                    &&& *p == old(self)@[old(self).flat(x as int, y as int)]
                    &&& final(self)@ == old(self)@.update(
                        old(self).flat(x as int, y as int),
                        *final(p),
                    )
                    &&& final(self).spec_width() == old(self).spec_width()
                    &&& final(self).spec_height() == old(self).spec_height()
                },
                None => *final(self) == *old(self),
            },
    {
        if !self.is_in_bounds(x, y) {
            return None;
        }
        let n: usize = self.data.len();
        proof {
            self.lemma_flat_in_range(x as int, y as int);
        }
        let i: usize = x + y * self.width;
        Some(&mut self.data[i])
    }

    /// Read cell `(x, y)`, if it exists.
    pub fn try_get(&self, x: usize, y: usize) -> (r: Option<&T>)
        requires
            self.wf(),
        ensures
            self.spec_in_bounds(x as int, y as int) <==> r is Some,
            match r {
                Some(p) => *p == self@[self.flat(x as int, y as int)],
                None => true,
            },
    {
        if !self.is_in_bounds(x, y) {
            return None;
        }
        let n: usize = self.data.len();
        proof {
            self.lemma_flat_in_range(x as int, y as int);
        }
        Some(&self.data[x + y * self.width])
    }

    /// Number of columns.
    pub fn get_width(&self) -> (w: usize)
        ensures
            w == self.spec_width(),
    {
        self.width
    }

    /// Number of rows.
    pub fn get_height(&self) -> (h: usize)
        ensures
            h == self.spec_height(),
    {
        self.height
    }

    /// Number of cells.
    pub fn total_size(&self) -> (n: usize)
        requires
            self.wf(),
        ensures
            n == self@.len(),
    {
        let n: usize = self.data.len();
        proof {
            assert(self.spec_width() * self.spec_height() == self@.len());
        }
        self.width * self.height
    }

    /// Whether `(x, y)` names a cell of the array.
    fn is_in_bounds(&self, x: usize, y: usize) -> (b: bool)
        ensures
            b == self.spec_in_bounds(x as int, y as int),
    {
        x < self.width && y < self.height
    }
}

} // verus!
