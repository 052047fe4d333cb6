use vstd::prelude::*;
use crate::grid::{Grid, cell_at, painted};
use crate::text::{expand_line, lemma_shown_append, lemma_shown_plain, lemma_tab_is_four_blanks, rows_needed, rows_of, shown, LF, TAB};

verus! {

/// A document as the sequence of its lines' bytes.
pub open spec fn doc_view(doc: Seq<Vec<u8>>) -> Seq<Seq<u8>> {
    doc.map_values(|l: Vec<u8>| l@)
}

/// Laying out lines from `l` on, top down, line `l` starting at display row `r`
/// of `h` rows of `w` cells: the grid after, and the last line placed.
/// A line's display cells fill its rows left to right, and a row wraps to the
/// next only when cells remain, so a line exactly `w` cells long takes one row.
/// A tab's four blanks are cells like any other: one that meets the right edge
/// goes on at the start of the next row, and no cell is written past the width.
/// Each line takes the rows its display cells need and starts on a fresh row;
/// a line that reaches the last display row is cut there; the pass ends at the
/// document's last line or once the rows are filled. Rows below the last line
/// of a short document keep what they held.
pub open spec fn forward_from(doc: Seq<Seq<u8>>, l: int, r: int, w: int, h: int, g: Seq<char>) -> (Seq<char>, int)
    decreases h - r,
{
    if l < 0 || l >= doc.len() || r < 0 || r >= h || w <= 0 {
        (g, l)
    } else {
        let e = shown(doc[l]);
        let n = rows_of(e.len(), w as nat) as int;
        let k = if n < h - r { n } else { h - r };
        let g2 = painted(g, e, r, k, 0, w);
        if l + 1 >= doc.len() || r + n >= h || n < 1 {
            (g2, l)
        } else {
            forward_from(doc, l + 1, r + n, w, h, g2)
        }
    }
}

/// Forward layout from `top` into the first `h` rows of a grid `w` cells wide.
pub open spec fn forward(doc: Seq<Seq<u8>>, top: int, w: int, h: int, g: Seq<char>) -> (Seq<char>, int) {
    forward_from(doc, top, 0, w, h, g)
}

/// Laying out lines from `l` down to the first, bottom up, line `l` ending at
/// display row `r`: the grid after, and the last (topmost) line placed.
/// Each line keeps its rows in reading order and ends on the row above the
/// line after it; a line that does not fit under the top row shows its last rows.
pub open spec fn reverse_from(doc: Seq<Seq<u8>>, l: int, r: int, w: int, g: Seq<char>) -> (Seq<char>, int)
    decreases r,
{
    if l < 0 || l >= doc.len() || r < 0 || w <= 0 {
        (g, l)
    } else {
        let e = shown(doc[l]);
        let n = rows_of(e.len(), w as nat) as int;
        let first = r - n + 1;
        let top = if first < 0 { 0 } else { first };
        let g2 = painted(g, e, top, r + 1 - top, top - first, w);
        if l == 0 || r - n < 0 || n < 1 {
            (g2, l)
        } else {
            reverse_from(doc, l - 1, r - n, w, g2)
        }
    }
}

/// Reverse layout ending with line `bottom` on the last of `h` display rows.
pub open spec fn reverse(doc: Seq<Seq<u8>>, bottom: int, w: int, h: int, g: Seq<char>) -> (Seq<char>, int) {
    reverse_from(doc, bottom, h - 1, w, g)
}

proof fn lemma_rows_cover(len: nat, w: nat)
    requires
        w >= 1,
    ensures
        rows_of(len, w) >= 1,
        (rows_of(len, w) - 1) * w <= len,
{
    if len > 0 {
        let x = (len - 1) as nat;
        vstd::arithmetic::div_mod::lemma_fundamental_div_mod(x as int, w as int);
        assert((x / w) * w <= x) by (nonlinear_arith)
            requires
                x == w * (x / w) + x % w,
                x % w >= 0,
        ;
        let m = (rows_of(len, w) - 1) as int;
        assert(m == x / w);
        assert(m * w <= x);
    } else {
        assert(rows_of(len, w) - 1 == 0);
        assert((rows_of(len, w) - 1) * w == 0) by (nonlinear_arith)
            requires
                rows_of(len, w) - 1 == 0,
        ;
    }
}

/// Lays the document out top down from line `top` over every row of the grid
/// but the last, and returns the last line placed.
pub fn layout_forward(grid: &mut Grid, doc: &Vec<Vec<u8>>, top: usize) -> (bottom: usize)
    requires
        old(grid).wf(),
        old(grid).width >= 1,
        old(grid).height >= 2,
        top < doc@.len(),
    ensures
        final(grid).wf(),
        final(grid).width == old(grid).width,
        final(grid).height == old(grid).height,
        (final(grid)@, bottom as int) == forward(
            doc_view(doc@),
            top as int,
            old(grid).width as int,
            old(grid).height - 1,
            old(grid)@,
        ),
        top <= bottom < doc@.len(),
        final(grid).marked == old(grid).marked,
{
    let ghost d = doc_view(doc@);
    let ghost g0 = grid@;
    let w = grid.width;
    let h = grid.height - 1;
    let mut l = top;
    let mut r: usize = 0;
    loop
        invariant
            grid.wf(),
            grid.width == w,
            grid.height == h + 1,
            w >= 1,
            h >= 1,
            top <= l < doc@.len(),
            r < h,
            d == doc_view(doc@),
            w == old(grid).width,
            h + 1 == old(grid).height,
            g0 == old(grid)@,
            grid.marked == old(grid).marked,
            forward_from(d, l as int, r as int, w as int, h as int, grid@) == forward(
                d,
                top as int,
                w as int,
                h as int,
                g0,
            ),
        decreases h - r,
    {
        let e = expand_line(&doc[l]);
        assert(d[l as int] == doc@[l as int]@);
        let n = rows_needed(e.len(), w);
        let k = if n < h - r {
            n
        } else {
            h - r
        };
        grid.paint_rows(&e, r, k, 0);
        if l >= doc.len() - 1 || n >= h - r {
            return l;
        }
        l = l + 1;
        r = r + n;
    }
}

/// Lays the document out bottom up, line `bottom` on the last row above the
/// status row, and returns the topmost line placed.
pub fn layout_reverse(grid: &mut Grid, doc: &Vec<Vec<u8>>, bottom: usize) -> (top: usize)
    requires
        old(grid).wf(),
        old(grid).width >= 1,
        old(grid).height >= 2,
        bottom < doc@.len(),
    ensures
        final(grid).wf(),
        final(grid).width == old(grid).width,
        final(grid).height == old(grid).height,
        (final(grid)@, top as int) == reverse(
            doc_view(doc@),
            bottom as int,
            old(grid).width as int,
            old(grid).height - 1,
            old(grid)@,
        ),
        top <= bottom,
        final(grid).marked == old(grid).marked,
{
    let ghost d = doc_view(doc@);
    let ghost g0 = grid@;
    let w = grid.width;
    let h = grid.height - 1;
    let mut l = bottom;
    let mut r: usize = h - 1;
    loop
        invariant
            grid.wf(),
            grid.width == w,
            grid.height == h + 1,
            w >= 1,
            h >= 1,
            l <= bottom < doc@.len(),
            r < h,
            d == doc_view(doc@),
            w == old(grid).width,
            h + 1 == old(grid).height,
            g0 == old(grid)@,
            grid.marked == old(grid).marked,
            reverse_from(d, l as int, r as int, w as int, grid@) == reverse(
                d,
                bottom as int,
                w as int,
                h as int,
                g0,
            ),
        decreases r,
    {
        let e = expand_line(&doc[l]);
        assert(d[l as int] == doc@[l as int]@);
        let n = rows_needed(e.len(), w);
        proof {
            lemma_rows_cover(e@.len(), w as nat);
        }
        let first_fits = n <= r + 1;
        let top_row = if first_fits {
            r + 1 - n
        } else {
            0
        };
        let skip = if first_fits {
            0
        } else {
            n - (r + 1)
        };
        proof {
            assert(skip * w <= (n - 1) * w) by (nonlinear_arith)
                requires
                    skip <= n - 1,
            ;
        }
        grid.paint_rows(&e, top_row, r + 1 - top_row, skip);
        if l == 0 || n > r {
            return l;
        }
        l = l - 1;
        r = r - n;
    }
}

/// Forward layout from row `r` on leaves the rows above `r` as they were.
proof fn lemma_forward_frame(doc: Seq<Seq<u8>>, l: int, r: int, w: int, h: int, g: Seq<char>)
    ensures
        forward_from(doc, l, r, w, h, g).0.len() == g.len(),
        forall|p: int|
            0 <= p < g.len() && p < r * w ==> forward_from(doc, l, r, w, h, g).0[p] == g[p],
    decreases h - r,
{
    if l < 0 || l >= doc.len() || r < 0 || r >= h || w <= 0 {
    } else {
        let e = shown(doc[l]);
        let n = rows_of(e.len(), w as nat) as int;
        let k = if n < h - r { n } else { h - r };
        let g2 = painted(g, e, r, k, 0, w);
        assert forall|p: int| 0 <= p < g.len() && p < r * w implies g2[p] == g[p] by {}
        if l + 1 >= doc.len() || r + n >= h || n < 1 {
        } else {
            lemma_forward_frame(doc, l + 1, r + n, w, h, g2);
            assert(r * w <= (r + n) * w) by (nonlinear_arith)
                requires
                    n >= 1,
                    w >= 1,
            ;
        }
    }
}

/// Forward layout from line `l` at row `r`, run again over its own result,
/// changes nothing.
proof fn lemma_forward_from_idempotent(doc: Seq<Seq<u8>>, l: int, r: int, w: int, h: int, g: Seq<char>)
    ensures
        forward_from(doc, l, r, w, h, forward_from(doc, l, r, w, h, g).0) == forward_from(
            doc,
            l,
            r,
            w,
            h,
            g,
        ),
    decreases h - r,
{
    if l < 0 || l >= doc.len() || r < 0 || r >= h || w <= 0 {
    } else {
        let e = shown(doc[l]);
        let n = rows_of(e.len(), w as nat) as int;
        let k = if n < h - r { n } else { h - r };
        let g2 = painted(g, e, r, k, 0, w);
        if l + 1 >= doc.len() || r + n >= h || n < 1 {
            assert(painted(g2, e, r, k, 0, w) =~= g2);
        } else {
            let big = forward_from(doc, l + 1, r + n, w, h, g2).0;
            lemma_forward_frame(doc, l + 1, r + n, w, h, g2);
            assert(r * w + n * w == (r + n) * w) by (nonlinear_arith);
            assert(n * w >= 0) by (nonlinear_arith)
                requires
                    n >= 1,
                    w >= 1,
            ;
            assert(k == n);
            assert forall|q: int| 0 <= q < big.len() implies painted(big, e, r, k, 0, w)[q] == big[q] by {
                if r * w <= q < (r + k) * w {
                    assert(big[q] == g2[q]);
                }
            }
            assert(painted(big, e, r, k, 0, w) =~= big);
            lemma_forward_from_idempotent(doc, l + 1, r + n, w, h, g2);
        }
    }
}

/// Forward layout is idempotent: laying the same lines out again, from the
/// same top line on the same grid size, over the grid it produced gives that
/// grid and the same last line.
pub proof fn lemma_forward_idempotent(doc: Seq<Seq<u8>>, top: int, w: int, h: int, g: Seq<char>)
    ensures
        forward(doc, top, w, h, forward(doc, top, w, h, g).0) == forward(doc, top, w, h, g),
{
    lemma_forward_from_idempotent(doc, top, 0, w, h, g);
}

/// The rows a line takes when it starts at display row `r` show its display
/// cells in order, blanks after its end: later lines never write over them.
pub proof fn lemma_forward_line_cells(doc: Seq<Seq<u8>>, l: int, r: int, w: int, h: int, g: Seq<char>)
    requires
        0 <= l < doc.len(),
        0 <= r < h,
        w >= 1,
    ensures
        ({
            let e = shown(doc[l]);
            let n = rows_of(e.len(), w as nat) as int;
            let k = if n < h - r { n } else { h - r };
            forall|q: int|
                0 <= q < g.len() && r * w <= q < (r + k) * w ==> forward_from(doc, l, r, w, h, g).0[q]
                    == cell_at(e, q - r * w)
        }),
{
    let e = shown(doc[l]);
    let n = rows_of(e.len(), w as nat) as int;
    let k = if n < h - r { n } else { h - r };
    let g2 = painted(g, e, r, k, 0, w);
    if l + 1 >= doc.len() || r + n >= h || n < 1 {
    } else {
        lemma_forward_frame(doc, l + 1, r + n, w, h, g2);
        assert(k == n);
        let out = forward_from(doc, l + 1, r + n, w, h, g2).0;
        assert forall|q: int| 0 <= q < g.len() && r * w <= q < (r + k) * w implies out[q] == cell_at(
            e,
            q - r * w,
        ) by {
            assert(out[q] == g2[q]);
        }
    }
}

/// A tab reached before any line feed of a line that starts at display row
/// `r` is shown as four blank cells from the position where the cells before
/// it end, row by row (a tab at the right edge goes on at the start of the
/// next row), and what follows the tab is shown from the cell after them.
pub proof fn lemma_forward_tab(doc: Seq<Seq<u8>>, l: int, r: int, w: int, h: int, g: Seq<char>, c: int)
    requires
        0 <= l < doc.len(),
        0 <= r < h,
        w >= 1,
        0 <= c < doc[l].len(),
        doc[l][c] == TAB,
        forall|i: int| 0 <= i < c ==> doc[l][i] != LF,
    ensures
        ({
            let e = shown(doc[l]);
            let n = rows_of(e.len(), w as nat) as int;
            let k = if n < h - r { n } else { h - r };
            let p = r * w + shown(doc[l].take(c)).len();
            let out = forward_from(doc, l, r, w, h, g).0;
            &&& forall|i: int|
                0 <= i < 4 && p + i < (r + k) * w && p + i < g.len() ==> #[trigger] out[p + i] == ' '
            &&& forall|i: int|
                0 <= i && p + 4 + i < (r + k) * w && p + 4 + i < g.len() ==> #[trigger] out[p + 4 + i]
                    == cell_at(shown(doc[l].skip(c + 1)), i)
        }),
{
    let line = doc[l];
    let e = shown(line);
    let o = shown(line.take(c)).len() as int;
    lemma_tab_is_four_blanks(line, c);
    lemma_forward_line_cells(doc, l, r, w, h, g);
    assert forall|i: int| 0 <= i && o + 4 + i < e.len() implies e[o + 4 + i] == #[trigger] shown(line.skip(c + 1))[i] by {
        assert(e.skip(o + 4)[i] == e[o + 4 + i]);
    }
    assert forall|i: int| 0 <= i && o + 4 + i >= e.len() implies #[trigger] cell_at(shown(line.skip(c + 1)), i) == ' ' by {
        assert(e.skip(o + 4).len() == e.len() - (o + 4));
    }
}

/// A line of exactly `w` bytes with no tab, ended by its line feed or by
/// nothing, that starts at display row `r` above the last text row fills that
/// row with its bytes, and the line after it starts at column 0 of the next row.
pub proof fn lemma_forward_full_row(doc: Seq<Seq<u8>>, l: int, r: int, w: int, h: int, g: Seq<char>)
    requires
        0 <= l < doc.len(),
        0 <= r,
        r + 1 < h,
        w >= 1,
        doc[l].len() == w || (doc[l].len() == w + 1 && doc[l][w] == LF),
        forall|i: int| 0 <= i < w ==> doc[l][i] != LF && doc[l][i] != TAB,
    ensures
        forall|x: int|
            0 <= x < w && r * w + x < g.len() ==> forward_from(doc, l, r, w, h, g).0[r * w + x] == doc[l][x] as char,
        l + 1 < doc.len() ==> forward_from(doc, l, r, w, h, g) == forward_from(
            doc,
            l + 1,
            r + 1,
            w,
            h,
            painted(g, shown(doc[l]), r, 1, 0, w),
        ),
{
    let line = doc[l];
    let a = line.take(w);
    let b = line.skip(w);
    assert(line =~= a + b);
    lemma_shown_append(a, b);
    lemma_shown_plain(a);
    assert(shown(b) =~= Seq::<char>::empty());
    assert(shown(line) =~= shown(a));
    assert(rows_of(w as nat, w as nat) == 1) by (nonlinear_arith)
        requires
            w >= 1,
            rows_of(w as nat, w as nat) == ((w - 1) as nat / (w as nat) + 1) as nat,
    ;
    lemma_forward_line_cells(doc, l, r, w, h, g);
    assert(r * w + w == (r + 1) * w) by (nonlinear_arith);
}

/// Forward layout from the same line and row over two grids of one size ends
/// on the same line, and each cell either gets the same character in both or
/// keeps, in each, what that grid held; so equal grids give equal results.
pub proof fn lemma_forward_agree(doc: Seq<Seq<u8>>, l: int, r: int, w: int, h: int, g1: Seq<char>, g2: Seq<char>)
    requires
        g1.len() == g2.len(),
    ensures
        forward_from(doc, l, r, w, h, g1).1 == forward_from(doc, l, r, w, h, g2).1,
        forward_from(doc, l, r, w, h, g1).0.len() == g1.len(),
        forward_from(doc, l, r, w, h, g2).0.len() == g2.len(),
        forall|p: int|
            0 <= p < g1.len() ==> forward_from(doc, l, r, w, h, g1).0[p] == forward_from(doc, l, r, w, h, g2).0[p]
                || (forward_from(doc, l, r, w, h, g1).0[p] == g1[p] && forward_from(doc, l, r, w, h, g2).0[p]
                == g2[p]),
        g1 == g2 ==> forward_from(doc, l, r, w, h, g1) == forward_from(doc, l, r, w, h, g2),
    decreases h - r,
{
    lemma_forward_frame(doc, l, r, w, h, g1);
    lemma_forward_frame(doc, l, r, w, h, g2);
    if l < 0 || l >= doc.len() || r < 0 || r >= h || w <= 0 {
    } else {
        let e = shown(doc[l]);
        let n = rows_of(e.len(), w as nat) as int;
        let k = if n < h - r { n } else { h - r };
        let p1 = painted(g1, e, r, k, 0, w);
        let p2 = painted(g2, e, r, k, 0, w);
        if l + 1 >= doc.len() || r + n >= h || n < 1 {
        } else {
            lemma_forward_agree(doc, l + 1, r + n, w, h, p1, p2);
            let o1 = forward_from(doc, l + 1, r + n, w, h, p1).0;
            let o2 = forward_from(doc, l + 1, r + n, w, h, p2).0;
            assert forall|p: int| 0 <= p < g1.len() implies o1[p] == o2[p] || (o1[p] == g1[p] && o2[p]
                == g2[p]) by {
                if !(o1[p] == o2[p]) {
                    assert(o1[p] == p1[p] && o2[p] == p2[p]);
                }
            }
        }
    }
}

} // verus!
