use vstd::prelude::*;

verus! {

/// A grid of `x` columns by `y` rows kept in one vector, column after
/// column: cell `(x, y)` is item `x * y_len + y`.
#[derive(Debug, Clone, PartialEq, Eq, PartialOrd, Ord, Hash)]
pub struct Vec2d<T> {
    inner: Vec<T>,
    x: usize,
    y: usize,
}

/// Whether `(a, b)` is the grid position of item `i` in a grid with columns
/// of `h` cells.
pub open spec fn position_of(i: int, h: int, a: int, b: int) -> bool {
    a * h + b == i && 0 <= b < h && 0 <= a
}

impl<T> Vec2d<T> {
    /// The items, column after column.
    pub closed spec fn cells(&self) -> Seq<T> {
        self.inner@
    }

    pub closed spec fn width(&self) -> nat {
        self.x as nat
    }

    pub closed spec fn height(&self) -> nat {
        self.y as nat
    }

    /// The vector holds exactly `width * height` items.
    pub closed spec fn wf(&self) -> bool {
        self.inner@.len() == self.x * self.y
    }

    pub proof fn lemma_wf(&self)
        requires
            self.wf(),
        ensures
            self.cells().len() == self.width() * self.height(),
    {
    }

    pub fn size(&self) -> (r: (usize, usize))
        ensures
            r.0 == self.width(),
            r.1 == self.height(),
    {
        (self.x, self.y)
    }

    /// The number of cells.
    pub fn cells_len(&self) -> (r: usize)
        ensures
            r == self.cells().len(),
    {
        self.inner.len()
    }

    pub fn x(&self) -> (r: usize)
        ensures
            r == self.width(),
    {
        self.x
    }

    pub fn y(&self) -> (r: usize)
        ensures
            r == self.height(),
    {
        self.y
    }

    /// The cell at column `x`, row `y`.
    pub fn get(&self, x: usize, y: usize) -> (r: &T)
        requires
            self.wf(),
            x < self.width(),
            y < self.height(),
        ensures
            *r == self.cells()[x * self.height() + y],
    {
        let n = self.inner.len();
        proof {
            let (w, h) = (self.x as int, self.y as int);
            assert(x * h + y < w * h) by (nonlinear_arith)
                requires
                    x < w,
                    y < h,
            ;
        }
        &self.inner[x * self.y + y]
    }

    /// Replaces the cell at column `x`, row `y`.
    pub fn set(&mut self, x: usize, y: usize, value: T)
        requires
            old(self).wf(),
            x < old(self).width(),
            y < old(self).height(),
        ensures
            final(self).wf(),
            final(self).width() == old(self).width(),
            final(self).height() == old(self).height(),
            final(self).cells() == old(self).cells().update(x * old(self).height() + y, value),
    {
        let n = self.inner.len();
        proof {
            let (w, h) = (self.x as int, self.y as int);
            assert(x * h + y < w * h) by (nonlinear_arith)
                requires
                    x < w,
                    y < h,
            ;
        }
        let i = x * self.y + y;
        self.inner.set(i, value);
    }

    /// The cells of column `x`.
    pub fn row(&self, x: usize) -> (r: &[T])
        requires
            self.wf(),
            x < self.width(),
        ensures
            r@ == self.cells().subrange(x * self.height(), (x + 1) * self.height()),
    {
        let n = self.inner.len();
        proof {
            let (w, h) = (self.x as int, self.y as int);
            assert((x + 1) * h <= w * h) by (nonlinear_arith)
                requires
                    x < w,
                    h >= 0,
            ;
            assert((x + 1) * h == x * h + h) by (nonlinear_arith);
        }
        let start = x * self.y;
        let s = self.inner.as_slice();
        &s[start..start + self.y]
    }

    /// Each cell with its position, column after column.
    pub fn into_iter(self) -> (r: Vec<((usize, usize), T)>)
        requires
            self.wf(),
        ensures
            r@.len() == self.cells().len(),
            forall|i: int|
                0 <= i < r@.len() ==> (#[trigger] r@[i]).1 == self.cells()[i] && position_of(
                    i,
                    self.height() as int,
                    r@[i].0.0 as int,
                    r@[i].0.1 as int,
                ),
    {
        let ghost cells = self.inner@;
        let h = self.y;
        let mut inner = self.inner;
        let mut rev: Vec<T> = Vec::new();
        while inner.len() > 0
            invariant
                inner@ + rev@.reverse() == cells,
            decreases inner@.len(),
        {
            let ghost before = inner@;
            let v = inner.pop().unwrap();
            rev.push(v);
            assert(inner@ + rev@.reverse() =~= before + rev@.drop_last().reverse());
        }
        assert(rev@.reverse() =~= cells);
        let mut out: Vec<((usize, usize), T)> = Vec::new();
        let mut a: usize = 0;
        let mut b: usize = 0;
        while rev.len() > 0
            invariant
                out@.len() + rev@.len() == cells.len(),
                rev@.reverse() == cells.skip(out@.len() as int),
                cells.len() == self.x * h,
                position_of(out@.len() as int, h as int, a as int, b as int) || h == 0,
                forall|i: int|
                    0 <= i < out@.len() ==> (#[trigger] out@[i]).1 == cells[i] && position_of(
                        i,
                        h as int,
                        out@[i].0.0 as int,
                        out@[i].0.1 as int,
                    ),
            decreases rev@.len(),
        {
            let ghost k = out@.len() as int;
            let ghost old_rev = rev@;
            assert(rev@.reverse()[0] == rev@.last());
            let v = rev.pop().unwrap();
            assert(rev@.reverse() =~= old_rev.reverse().skip(1));
            assert(k < cells.len());
            assert(h > 0) by (nonlinear_arith)
                requires
                    0 <= k < cells.len(),
                    cells.len() == self.x * h,
                    self.x >= 0,
                    h >= 0,
            ;
            assert(a < self.x) by (nonlinear_arith)
                requires
                    a * h + b == k,
                    k < self.x * h,
                    b >= 0,
                    h > 0,
            ;
            out.push(((a, b), v));
            assert(rev@.reverse() =~= cells.skip(out@.len() as int));
            if b + 1 == h {
                b = 0;
                a = a + 1;
                assert(a * h == (a - 1) * h + h) by (nonlinear_arith);
            } else {
                b = b + 1;
            }
        }
        out
    }

    /// Each cell by reference with its position, column after column.
    pub fn iter(&self) -> (r: Vec<((usize, usize), &T)>)
        requires
            self.wf(),
        ensures
            r@.len() == self.cells().len(),
            forall|i: int|
                0 <= i < r@.len() ==> *(#[trigger] r@[i]).1 == self.cells()[i] && position_of(
                    i,
                    self.height() as int,
                    r@[i].0.0 as int,
                    r@[i].0.1 as int,
                ),
    {
        let h = self.y;
        let n = self.inner.len();
        let mut out: Vec<((usize, usize), &T)> = Vec::new();
        let mut a: usize = 0;
        let mut b: usize = 0;
        let mut i: usize = 0;
        while i < n
            invariant
                n == self.inner@.len(),
                n == self.x * h,
                h == self.y,
                i <= n,
                out@.len() == i,
                position_of(i as int, h as int, a as int, b as int) || h == 0,
                forall|j: int|
                    0 <= j < out@.len() ==> *(#[trigger] out@[j]).1 == self.inner@[j] && position_of(
                        j,
                        h as int,
                        out@[j].0.0 as int,
                        out@[j].0.1 as int,
                    ),
            decreases n - i,
        {
            assert(h > 0) by (nonlinear_arith)
                requires
                    i < n,
                    n == self.x * h,
            ;
            assert(a < self.x) by (nonlinear_arith)
                requires
                    a * h + b == i,
                    i < self.x * h,
                    b >= 0,
                    h > 0,
            ;
            out.push(((a, b), &self.inner[i]));
            i = i + 1;
            if b + 1 == h {
                b = 0;
                a = a + 1;
                assert(a * h == (a - 1) * h + h) by (nonlinear_arith);
            } else {
                b = b + 1;
            }
        }
        out
    }

    /// Each cell by mutable reference with its position, column after column.
    pub fn iter_mut(&mut self) -> (r: Vec<((usize, usize), &mut T)>)
        requires
            old(self).wf(),
        ensures
            r@.len() == old(self).cells().len(),
            forall|i: int|
                0 <= i < r@.len() ==> *(#[trigger] r@[i]).1 == old(self).cells()[i] && position_of(
                    i,
                    old(self).height() as int,
                    r@[i].0.0 as int,
                    r@[i].0.1 as int,
                ),
    {
        let ghost all = self.inner@;
        let n = self.inner.len();
        let h = self.y;
        let w = self.x;
        let mut out: Vec<((usize, usize), &mut T)> = Vec::new();
        let mut rest: &mut [T] = self.inner.as_mut_slice();
        let mut a: usize = 0;
        let mut b: usize = 0;
        let mut i: usize = 0;
        while rest.len() > 0
            invariant
                all.len() == w * h,
                all.len() == n,
                i <= all.len(),
                rest@ == all.skip(i as int),
                out@.len() == i,
                position_of(i as int, h as int, a as int, b as int) || h == 0,
                forall|j: int|
                    0 <= j < i ==> *(#[trigger] out@[j]).1 == all[j] && position_of(
                        j,
                        h as int,
                        out@[j].0.0 as int,
                        out@[j].0.1 as int,
                    ),
            decreases rest@.len(),
        {
            assert(i < all.len());
            assert(h > 0) by (nonlinear_arith)
                requires
                    i < all.len(),
                    all.len() == w * h,
            ;
            assert(a < w) by (nonlinear_arith)
                requires
                    a * h + b == i,
                    i < w * h,
                    b >= 0,
                    h > 0,
            ;
            let (head, tail) = rest.split_at_mut(1);
            let e = head.first_mut().unwrap();
            out.push(((a, b), e));
            rest = tail;
            i = i + 1;
            if b + 1 == h {
                b = 0;
                a = a + 1;
                assert(a * h == (a - 1) * h + h) by (nonlinear_arith);
            } else {
                b = b + 1;
            }
        }
        assert(i == all.len());
        out
    }

    /// A walk over the positions of the grid, column after column.
    pub fn iter_index(&self) -> (r: IterIndex)
        requires
            self.wf(),
        ensures
            r.wf(),
            r.position() == 0,
            r.total() == self.cells().len(),
            r.column_len() == self.height(),
    {
        proof {
            assert(self.inner@.len() > 0 ==> self.y > 0) by (nonlinear_arith)
                requires
                    self.inner@.len() == self.x * self.y,
            ;
        }
        IterIndex { now: 0, len: self.inner.len(), y: self.y }
    }
}

impl<T: Clone> Vec2d<T> {
    /// A grid of `x` by `y` clones of `value`.
    pub fn new_filled(x: usize, y: usize, value: T) -> (r: Self)
        requires
            x * y <= usize::MAX,
        ensures
            r.wf(),
            r.width() == x,
            r.height() == y,
            forall|i: int| 0 <= i < r.cells().len() ==> cloned(value, #[trigger] r.cells()[i]),
    {
        let n = x * y;
        let mut v: Vec<T> = Vec::with_capacity(n);
        let mut i: usize = 0;
        while i < n
            invariant
                i <= n,
                v@.len() == i,
                forall|j: int| 0 <= j < i ==> cloned(value, #[trigger] v@[j]),
            decreases n - i,
        {
            v.push(value.clone());
            i = i + 1;
        }
        Vec2d { inner: v, x, y }
    }
}

impl<T: Copy> Vec2d<T> {
    /// A grid of `x` by `y` copies of `value`.
    pub fn new_filled_copy(x: usize, y: usize, value: T) -> (r: Self)
        requires
            x * y <= usize::MAX,
        ensures
            r.wf(),
            r.width() == x,
            r.height() == y,
            r.cells() == Seq::new((x * y) as nat, |i: int| value),
    {
        let n = x * y;
        let mut v: Vec<T> = Vec::with_capacity(n);
        let mut i: usize = 0;
        while i < n
            invariant
                i <= n,
                v@ == Seq::new(i as nat, |j: int| value),
            decreases n - i,
        {
            v.push(value);
            i = i + 1;
            assert(v@ =~= Seq::new(i as nat, |j: int| value));
        }
        Vec2d { inner: v, x, y }
    }
}

/// The positions of a grid, one after the other.
#[derive(Debug, Clone, Copy, Hash, PartialEq, Eq, PartialOrd, Ord)]
pub struct IterIndex {
    now: usize,
    len: usize,
    y: usize,
}

impl IterIndex {
    /// How many positions were already given.
    pub closed spec fn position(&self) -> nat {
        self.now as nat
    }

    pub closed spec fn total(&self) -> nat {
        self.len as nat
    }

    pub closed spec fn column_len(&self) -> nat {
        self.y as nat
    }

    pub closed spec fn wf(&self) -> bool {
        self.now <= self.len && (self.len > 0 ==> self.y > 0)
    }

    /// The next position, or `None` once all were given.
    pub fn next(&mut self) -> (r: Option<(usize, usize)>)
        requires
            old(self).wf(),
        ensures
            final(self).wf(),
            final(self).total() == old(self).total(),
            final(self).column_len() == old(self).column_len(),
            old(self).position() < old(self).total() ==> final(self).position() == old(
                self,
            ).position() + 1 && r == Some(
                (
                    (old(self).position() / old(self).column_len()) as usize,
                    (old(self).position() % old(self).column_len()) as usize,
                ),
            ),
            old(self).position() >= old(self).total() ==> r is None && *final(self) == *old(self),
    {
        if self.now < self.len {
            let idx = self.now;
            self.now = self.now + 1;
            Some((idx / self.y, idx % self.y))
        } else {
            None
        }
    }
}

} // verus!
