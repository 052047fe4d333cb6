use vstd::prelude::*;
use vstd::string::*;
use crate::grid::Grid;
use crate::layout::{doc_view, forward, layout_forward, layout_reverse, reverse};
use crate::status::{position_indicator, position_text, with_status, with_status_marked};

verus! {

/// An input to the viewer: a key, or the terminal's new size in columns and rows.
#[derive(PartialEq, Eq, Structural, Debug, Clone, Copy)]
pub enum Event {
    Key(char),
    Resize(usize, usize),
}

/// What the caller does after an event: stop, show the new frame, or nothing.
#[derive(PartialEq, Eq, Structural, Debug, Clone, Copy)]
pub enum Action {
    Quit,
    Redraw,
    Idle,
}

/// A file being viewed: its lines, the frame drawn of them and the scroll position.
pub struct Term {
    /// The name of the file, shown in the status row.
    pub filename: Vec<char>,
    /// The lines of the file, each with its line feed.
    pub contents: Vec<Vec<u8>>,
    /// The frame: every row but the last shows text, the last is the status row.
    pub grid: Grid,
    /// Whether the user has asked to quit.
    pub quit: bool,
    /// The line at the top of the frame.
    pub top_line: usize,
    /// The last line shown, fully or in part.
    pub bottom_line: usize,
    /// The number of lines of the file.
    pub total_lines: usize,
}

impl Term {
    pub open spec fn doc(&self) -> Seq<Seq<u8>> {
        doc_view(self.contents@)
    }

    /// A state that a layout pass can start from.
    pub open spec fn ready(&self) -> bool {
        &&& self.grid.wf()
        &&& self.grid.width >= 1
        &&& self.grid.height >= 2
        &&& self.total_lines == self.contents@.len()
        &&& self.total_lines >= 1
        &&& self.top_line < self.total_lines
        &&& self.bottom_line < self.total_lines
        &&& forall|q: int|
            0 <= q < (self.grid.height - 1) * self.grid.width ==> !self.grid.marked@[q]
    }

    /// A state with a frame drawn: the top line is never below the bottom one,
    /// and the status row, and only it, has the highlight background.
    pub open spec fn wf(&self) -> bool {
        &&& self.ready()
        &&& self.top_line <= self.bottom_line
        &&& forall|q: int|
            (self.grid.height - 1) * self.grid.width <= q < self.grid@.len() ==> self.grid.marked@[q]
    }

    /// The number of rows that show text.
    pub open spec fn display_height(&self) -> int {
        self.grid.height - 1
    }

    /// The grid, drawn over `g`, when text is laid out from the top line.
    pub open spec fn forward_frame(&self, g: Seq<char>) -> (Seq<char>, int) {
        let (g1, b) = forward(self.doc(), self.top_line as int, self.grid.width as int, self.display_height(), g);
        (
            with_status(
                g1,
                self.filename@,
                position_text(b as nat, self.total_lines as nat),
                self.grid.width as int,
                self.grid.height as int,
            ),
            b,
        )
    }

    /// `self` shows, drawn over `g`, the frame that starts at its top line.
    pub open spec fn shows_forward(&self, g: Seq<char>) -> bool {
        self.grid@ == self.forward_frame(g).0 && self.bottom_line == self.forward_frame(g).1
    }

    /// `self` shows, drawn over `g`, the frame that ends with the last line.
    pub open spec fn shows_reverse(&self, g: Seq<char>) -> bool {
        let last = self.total_lines - 1;
        let (g1, t) = reverse(self.doc(), last, self.grid.width as int, self.display_height(), g);
        &&& self.bottom_line == last
        &&& self.top_line == t
        &&& self.grid@ == with_status(
            g1,
            self.filename@,
            position_text(last as nat, self.total_lines as nat),
            self.grid.width as int,
            self.grid.height as int,
        )
    }

    /// Only the frame and the scroll position may differ between `self` and `o`.
    pub open spec fn same_file(&self, o: &Term) -> bool {
        &&& self.filename == o.filename
        &&& self.contents == o.contents
        &&& self.total_lines == o.total_lines
        &&& self.quit == o.quit
    }

    /// A viewer of `contents` on a terminal of `width` columns and `height`
    /// rows, its first frame drawn from the first line.
    pub fn new(filename: &str, contents: Vec<Vec<u8>>, width: usize, height: usize) -> (t: Term)
        requires
            contents@.len() >= 1,
            width >= 1,
            height >= 2,
            width * height <= usize::MAX,
        ensures
            t.wf(),
            t.filename@ == filename@,
            t.contents == contents,
            !t.quit,
            t.top_line == 0,
            t.grid.width == width,
            t.grid.height == height,
            t.shows_forward(Seq::new((width * height) as nat, |q: int| ' ')),
    {
        let mut name: Vec<char> = Vec::new();
        let n = filename.unicode_len();
        let mut i: usize = 0;
        while i < n
            invariant
                n == filename@.len(),
                i <= n,
                name@ == filename@.subrange(0, i as int),
            decreases n - i,
        {
            name.push(filename.get_char(i));
            i = i + 1;
            assert(name@ =~= filename@.subrange(0, i as int));
        }
        assert(name@ =~= filename@);
        let total_lines = contents.len();
        let mut t = Term {
            filename: name,
            contents,
            grid: Grid::new(width, height),
            quit: false,
            top_line: 0,
            bottom_line: 0,
            total_lines,
        };
        proof {
            assert((height - 1) * width <= width * height) by (nonlinear_arith);
        }
        t.print_file();
        t.prompt();
        t
    }

    /// Lays the text out from the top line and records the last line shown.
    pub fn print_file(&mut self)
        requires
            old(self).ready(),
        ensures
            final(self).ready(),
            final(self).top_line <= final(self).bottom_line,
            final(self).grid.marked == old(self).grid.marked,
            final(self).same_file(old(self)),
            final(self).top_line == old(self).top_line,
            final(self).grid.width == old(self).grid.width,
            final(self).grid.height == old(self).grid.height,
            (final(self).grid@, final(self).bottom_line as int) == forward(
                old(self).doc(),
                old(self).top_line as int,
                old(self).grid.width as int,
                old(self).display_height(),
                old(self).grid@,
            ),
    {
        let b = layout_forward(&mut self.grid, &self.contents, self.top_line);
        self.bottom_line = b;
    }

    /// Lays the text out bottom up from the bottom line and records the top
    /// line shown.
    pub fn print_file_reverse(&mut self)
        requires
            old(self).ready(),
        ensures
            final(self).ready(),
            final(self).top_line <= final(self).bottom_line,
            final(self).grid.marked == old(self).grid.marked,
            final(self).same_file(old(self)),
            final(self).bottom_line == old(self).bottom_line,
            final(self).grid.width == old(self).grid.width,
            final(self).grid.height == old(self).grid.height,
            (final(self).grid@, final(self).top_line as int) == reverse(
                old(self).doc(),
                old(self).bottom_line as int,
                old(self).grid.width as int,
                old(self).display_height(),
                old(self).grid@,
            ),
    {
        let t = layout_reverse(&mut self.grid, &self.contents, self.bottom_line);
        self.top_line = t;
    }

    /// The position indicator of the frame: `"<bottom line + 1>/<lines> lines"`.
    pub fn prompt_line_number(&self) -> (s: Vec<char>)
        requires
            self.ready(),
        ensures
            s@ == position_text(self.bottom_line as nat, self.total_lines as nat),
    {
        position_indicator(self.bottom_line, self.total_lines)
    }

    /// Draws the status row: the file name on the left, the position on the right.
    pub fn prompt(&mut self)
        requires
            old(self).ready(),
            old(self).top_line <= old(self).bottom_line,
        ensures
            final(self).wf(),
            final(self).same_file(old(self)),
            final(self).top_line == old(self).top_line,
            final(self).bottom_line == old(self).bottom_line,
            final(self).grid.width == old(self).grid.width,
            final(self).grid.height == old(self).grid.height,
            final(self).grid@ == with_status(
                old(self).grid@,
                old(self).filename@,
                position_text(old(self).bottom_line as nat, old(self).total_lines as nat),
                old(self).grid.width as int,
                old(self).grid.height as int,
            ),
            final(self).grid.marked@ == with_status_marked(
                old(self).grid.marked@,
                old(self).grid.width as int,
                old(self).grid.height as int,
            ),
    {
        let ind = self.prompt_line_number();
        self.grid.write_status(&self.filename, &ind);
        let ghost m = self.grid.marked@;
        let ghost b = (self.grid.height - 1) * self.grid.width;
        proof {
            let w = self.grid.width as int;
            let h = self.grid.height as int;
            assert((h - 1) * w <= w * h) by (nonlinear_arith)
                requires
                    h >= 1,
                    w >= 0,
            ;
        }
        assert forall|q: int| 0 <= q < b implies !m[q] by {
            assert(m[q] == old(self).grid.marked@[q]);
        }
        assert forall|q: int| b <= q < self.grid@.len() implies m[q] by {}
    }

    /// The next state of the viewer after one event, and what the caller does
    /// then. `q` quits; `j` scrolls down one line while the file is taller
    /// than the text rows and its last line is not shown; `k` scrolls up one
    /// line and `g` goes to the first line, both while the top line is not the
    /// first; `G` shows the last line on the bottom text row while the file
    /// has more lines after the first than text rows; a resize to at least one
    /// column and two rows draws a new frame from the top line. Anything else,
    /// or a move that cannot be made, changes nothing.
    pub fn handle_event(&mut self, ev: Event) -> (a: Action)
        requires
            old(self).wf(),
        ensures
            final(self).wf(),
            final(self).filename == old(self).filename,
            final(self).contents == old(self).contents,
            final(self).total_lines == old(self).total_lines,
            ev == Event::Key('q') ==> a == Action::Quit && final(self).quit && final(self).grid
                == old(self).grid && final(self).top_line == old(self).top_line
                && final(self).bottom_line == old(self).bottom_line,
            ev == Event::Key('j') ==> if old(self).total_lines > old(self).display_height()
                && old(self).bottom_line < old(self).total_lines - 1 {
                &&& a == Action::Redraw
                &&& final(self).same_file(old(self))
                &&& final(self).top_line == old(self).top_line + 1
                &&& final(self).grid.width == old(self).grid.width
                &&& final(self).grid.height == old(self).grid.height
                &&& final(self).shows_forward(old(self).grid@)
            } else {
                a == Action::Idle && *final(self) == *old(self)
            },
            ev == Event::Key('k') ==> if old(self).top_line > 0 {
                &&& a == Action::Redraw
                &&& final(self).same_file(old(self))
                &&& final(self).top_line == old(self).top_line - 1
                &&& final(self).grid.width == old(self).grid.width
                &&& final(self).grid.height == old(self).grid.height
                &&& final(self).shows_forward(old(self).grid@)
            } else {
                a == Action::Idle && *final(self) == *old(self)
            },
            ev == Event::Key('g') ==> if old(self).top_line > 0 {
                &&& a == Action::Redraw
                &&& final(self).same_file(old(self))
                &&& final(self).top_line == 0
                &&& final(self).grid.width == old(self).grid.width
                &&& final(self).grid.height == old(self).grid.height
                &&& final(self).shows_forward(old(self).grid@)
            } else {
                a == Action::Idle && *final(self) == *old(self)
            },
            ev == Event::Key('G') ==> if old(self).total_lines - 1 > old(self).display_height() {
                &&& a == Action::Redraw
                &&& final(self).same_file(old(self))
                &&& final(self).grid.width == old(self).grid.width
                &&& final(self).grid.height == old(self).grid.height
                &&& final(self).shows_reverse(old(self).grid@)
            } else {
                a == Action::Idle && *final(self) == *old(self)
            },
            forall|c: char|
                ev == Event::Key(c) && c != 'q' && c != 'j' && c != 'k' && c != 'g' && c != 'G'
                    ==> a == Action::Idle && *final(self) == *old(self),
            forall|w: usize, h: usize|
                ev == Event::Resize(w, h) ==> if w >= 1 && h >= 2 && w * h <= usize::MAX {
                    &&& a == Action::Redraw
                    &&& final(self).same_file(old(self))
                    &&& final(self).top_line == old(self).top_line
                    &&& final(self).grid.width == w
                    &&& final(self).grid.height == h
                    &&& final(self).shows_forward(Seq::new((w * h) as nat, |q: int| ' '))
                } else {
                    a == Action::Idle && *final(self) == *old(self)
                },
    {
        match ev {
            Event::Key(c) => {
                if c == 'q' {
                    self.quit = true;
                    Action::Quit
                } else if c == 'j' {
                    if self.total_lines > self.grid.height - 1 && self.bottom_line < self.total_lines
                        - 1 {
                        self.top_line = self.top_line + 1;
                        self.print_file();
                        self.prompt();
                        Action::Redraw
                    } else {
                        Action::Idle
                    }
                } else if c == 'k' {
                    if self.top_line > 0 {
                        self.top_line = self.top_line - 1;
                        self.print_file();
                        self.prompt();
                        Action::Redraw
                    } else {
                        Action::Idle
                    }
                } else if c == 'g' {
                    if self.top_line > 0 {
                        self.top_line = 0;
                        self.print_file();
                        self.prompt();
                        Action::Redraw
                    } else {
                        Action::Idle
                    }
                } else if c == 'G' {
                    let last = self.total_lines - 1;
                    if last > self.grid.height - 1 {
                        self.bottom_line = last;
                        self.print_file_reverse();
                        self.prompt();
                        Action::Redraw
                    } else {
                        Action::Idle
                    }
                } else {
                    Action::Idle
                }
            },
            Event::Resize(w, h) => {
                if w >= 1 && h >= 2 {
                    match w.checked_mul(h) {
                        Some(_) => {
                            self.grid = Grid::new(w, h);
                            proof {
                                assert((h - 1) * w <= w * h) by (nonlinear_arith);
                            }
                            self.print_file();
                            self.prompt();
                            Action::Redraw
                        },
                        None => Action::Idle,
                    }
                } else {
                    Action::Idle
                }
            },
        }
    }
}

} // verus!
