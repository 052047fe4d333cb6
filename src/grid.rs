use vstd::prelude::*;

verus! {

/// A `width` by `height` grid of character cells, stored row by row:
/// the cell at column `x` of row `y` is `cells[y * width + x]`, and
/// `marked[y * width + x]` says whether it has the highlight background.
pub struct Grid {
    pub width: usize,
    pub height: usize,
    pub cells: Vec<char>,
    pub marked: Vec<bool>,
}

/// The cell that offset `o` of a line's display cells shows: past its end, a blank.
pub open spec fn cell_at(e: Seq<char>, o: int) -> char {
    if 0 <= o < e.len() {
        e[o]
    } else {
        ' '
    }
}

/// `g` with `count` rows from `row` on showing `e` in rows of `w` cells, its
/// first `skip` rows left out.
pub open spec fn painted(g: Seq<char>, e: Seq<char>, row: int, count: int, skip: int, w: int) -> Seq<char> {
    Seq::new(
        g.len(),
        |q: int|
            if row * w <= q < (row + count) * w {
                cell_at(e, skip * w + (q - row * w))
            } else {
                g[q]
            },
    )
}

impl Grid {
    pub open spec fn view(&self) -> Seq<char> {
        self.cells@
    }

    pub open spec fn wf(&self) -> bool {
        &&& self.cells@.len() == self.width * self.height
        &&& self.width * self.height <= usize::MAX
        &&& self.marked@.len() == self.cells@.len()
    }

    /// A grid of blank cells, none highlighted.
    pub fn new(width: usize, height: usize) -> (g: Grid)
        requires
            width * height <= usize::MAX,
        ensures
            g.wf(),
            g.width == width,
            g.height == height,
            g@ == Seq::new((width * height) as nat, |q: int| ' '),
            g.marked@ == Seq::new((width * height) as nat, |q: int| false),
    {
        let n: usize = width * height;
        let mut cells: Vec<char> = Vec::new();
        let mut marked: Vec<bool> = Vec::new();
        let mut i: usize = 0;
        while i < n
            invariant
                i <= n,
                cells@ == Seq::new(i as nat, |q: int| ' '),
                marked@ == Seq::new(i as nat, |q: int| false),
            decreases n - i,
        {
            cells.push(' ');
            marked.push(false);
            i = i + 1;
            assert(cells@ =~= Seq::new(i as nat, |q: int| ' '));
            assert(marked@ =~= Seq::new(i as nat, |q: int| false));
        }
        Grid { width, height, cells, marked }
    }

    /// The character at column `x` of row `y`.
    pub fn cell(&self, x: usize, y: usize) -> (c: char)
        requires
            self.wf(),
            x < self.width,
            y < self.height,
        ensures
            c == self@[y * self.width + x],
    {
        proof {
            assert(y * self.width + x < self.width * self.height) by (nonlinear_arith)
                requires
                    x < self.width,
                    y < self.height,
            ;
        }
        self.cells[y * self.width + x]
    }

    /// Whether the cell at column `x` of row `y` has the highlight background.
    pub fn is_marked(&self, x: usize, y: usize) -> (m: bool)
        requires
            self.wf(),
            x < self.width,
            y < self.height,
        ensures
            m == self.marked@[y * self.width + x],
    {
        proof {
            assert(y * self.width + x < self.width * self.height) by (nonlinear_arith)
                requires
                    x < self.width,
                    y < self.height,
            ;
        }
        self.marked[y * self.width + x]
    }

    /// Writes `count` rows from `row` on with the display cells `e`, leaving out
    /// its first `skip` rows; cells past the end of `e` are blank.
    pub fn paint_rows(&mut self, e: &Vec<char>, row: usize, count: usize, skip: usize)
        requires
            old(self).wf(),
            row + count <= old(self).height,
            skip * old(self).width <= e@.len(),
        ensures
            final(self).wf(),
            final(self).width == old(self).width,
            final(self).height == old(self).height,
            final(self)@ == painted(old(self)@, e@, row as int, count as int, skip as int, old(self).width as int),
            final(self).marked == old(self).marked,
    {
        let w = self.width;
        let ghost g0 = self@;
        proof {
            assert(row * w + count * w == (row + count) * w) by (nonlinear_arith);
            assert((row + count) * w <= self.height * w) by (nonlinear_arith)
                requires
                    row + count <= self.height,
            ;
            assert(row * w <= (row + count) * w) by (nonlinear_arith);
            assert(count * w <= (row + count) * w) by (nonlinear_arith);
            assert(self@.len() == self.height * w) by (nonlinear_arith)
                requires
                    self@.len() == w * self.height,
            ;
        }
        let start: usize = row * w;
        let end: usize = start + count * w;
        let mut q: usize = start;
        let elen = e.len();
        let mut o: usize = skip * w;
        while q < end
            invariant
                self.wf(),
                self.width == w,
                self.height == old(self).height,
                self.marked == old(self).marked,
                g0 == old(self)@,
                g0.len() == self@.len(),
                start == row * w,
                end == (row + count) * w,
                end <= self@.len(),
                start <= q <= end,
                skip * w <= e@.len(),
                elen == e@.len(),
                o as int == if skip * w + (q - start) < e@.len() {
                    skip * w + (q - start)
                } else {
                    e@.len() as int
                },
                forall|p: int|
                    0 <= p < self@.len() ==> self@[p] == if start <= p < q {
                        cell_at(e@, skip * w + (p - start))
                    } else {
                        g0[p]
                    },
            decreases end - q,
        {
            let c: char;
            if o < elen {
                c = e[o];
                o = o + 1;
            } else {
                c = ' ';
            }
            self.cells.set(q, c);
            q = q + 1;
        }
        assert(self@ =~= painted(g0, e@, row as int, count as int, skip as int, w as int));
    }
}

} // verus!
