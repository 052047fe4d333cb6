use vstd::prelude::*;
use crate::grid::Grid;

verus! {

/// The character of a decimal digit `d < 10`.
pub open spec fn digit_char(d: nat) -> char {
    ((48 + d) as u8) as char
}

/// The decimal digits of `n`, most significant first, without leading zeros.
pub open spec fn decimal(n: nat) -> Seq<char>
    decreases n,
{
    if n < 10 {
        seq![digit_char(n)]
    } else {
        decimal(n / 10).push(digit_char(n % 10))
    }
}

/// The position indicator `"<bottom + 1>/<total> lines"`.
pub open spec fn position_text(bottom: nat, total: nat) -> Seq<char> {
    decimal(bottom + 1) + seq!['/'] + decimal(total) + seq![' ', 'l', 'i', 'n', 'e', 's']
}

/// The status row `w` cells wide: blanks, `name` from the left edge, and
/// `ind` ending at the right edge, over the name where the two meet.
pub open spec fn status_row(name: Seq<char>, ind: Seq<char>, w: int) -> Seq<char> {
    Seq::new(
        w as nat,
        |x: int|
            if x >= w - ind.len() {
                ind[x - (w - ind.len())]
            } else if x < name.len() {
                name[x]
            } else {
                ' '
            },
    )
}

/// Grid `g` of `h` rows of `w` cells with its last row replaced by the status row.
pub open spec fn with_status(g: Seq<char>, name: Seq<char>, ind: Seq<char>, w: int, h: int) -> Seq<char> {
    Seq::new(
        g.len(),
        |q: int|
            if (h - 1) * w <= q {
                status_row(name, ind, w)[q - (h - 1) * w]
            } else {
                g[q]
            },
    )
}

/// Highlight flags `m` of a grid of `h` rows of `w` cells with every cell of
/// its last row highlighted.
pub open spec fn with_status_marked(m: Seq<bool>, w: int, h: int) -> Seq<bool> {
    Seq::new(m.len(), |q: int| if (h - 1) * w <= q { true } else { m[q] })
}

/// Appends the decimal digits of `n` to `out`.
pub fn push_decimal(n: usize, out: &mut Vec<char>)
    ensures
        final(out)@ == old(out)@ + decimal(n as nat),
    decreases n,
{
    if n >= 10 {
        push_decimal(n / 10, out);
    }
    let d: u8 = (n % 10) as u8;
    out.push((48u8 + d) as char);
    assert(out@ =~= old(out)@ + decimal(n as nat));
}

/// The position indicator `"<bottom + 1>/<total> lines"`.
pub fn position_indicator(bottom: usize, total: usize) -> (s: Vec<char>)
    requires
        bottom < usize::MAX,
    ensures
        s@ == position_text(bottom as nat, total as nat),
{
    let mut s: Vec<char> = Vec::new();
    push_decimal(bottom + 1, &mut s);
    s.push('/');
    push_decimal(total, &mut s);
    s.push(' ');
    s.push('l');
    s.push('i');
    s.push('n');
    s.push('e');
    s.push('s');
    assert(s@ =~= position_text(bottom as nat, total as nat));
    s
}

impl Grid {
    /// Writes the status row, `name` on the left and `ind` on the right, into
    /// the last row of the grid, and gives every cell of that row the highlight
    /// background.
    pub fn write_status(&mut self, name: &Vec<char>, ind: &Vec<char>)
        requires
            old(self).wf(),
            old(self).height >= 1,
        ensures
            final(self).wf(),
            final(self).width == old(self).width,
            final(self).height == old(self).height,
            final(self)@ == with_status(
                old(self)@,
                name@,
                ind@,
                old(self).width as int,
                old(self).height as int,
            ),
            final(self).marked@ == with_status_marked(
                old(self).marked@,
                old(self).width as int,
                old(self).height as int,
            ),
    {
        let w = self.width;
        let h = self.height;
        let ghost g0 = self@;
        let ghost m0 = self.marked@;
        proof {
            assert((h - 1) * w + w == h * w) by (nonlinear_arith)
                requires
                    h >= 1,
            ;
            assert(h * w == w * h) by (nonlinear_arith);
        }
        let base: usize = (h - 1) * w;
        let ghost row = status_row(name@, ind@, w as int);
        let mut x: usize = 0;
        while x < w
            invariant
                self.wf(),
                self.width == w,
                self.height == h,
                h >= 1,
                base == (h - 1) * w,
                base + w == self@.len(),

                g0.len() == self@.len(),
                g0 == old(self)@,
                m0 == old(self).marked@,
                m0.len() == self@.len(),
                row == status_row(name@, ind@, w as int),
                x <= w,
                forall|q: int|
                    0 <= q < self@.len() ==> self@[q] == if base <= q < base + x {
                        row[q - base]
                    } else {
                        g0[q]
                    },
                forall|q: int|
                    0 <= q < self@.len() ==> self.marked@[q] == if base <= q < base + x {
                        true
                    } else {
                        m0[q]
                    },
            decreases w - x,
        {
            let c: char = if ind.len() >= w - x {
                ind[ind.len() - (w - x)]
            } else if x < name.len() {
                name[x]
            } else {
                ' '
            };
            self.cells.set(base + x, c);
            self.marked.set(base + x, true);
            x = x + 1;
        }
        assert(self@ =~= with_status(g0, name@, ind@, w as int, h as int));
        assert(self.marked@ =~= with_status_marked(m0, w as int, h as int));
    }
}

} // verus!
