use forge::grid::Grid;
use forge::layout::{layout_forward, layout_reverse};
use forge::lines::split_lines;
use forge::status::position_indicator;
use forge::term::{Action, Event, Term};
use forge::text::{expand_line, rows_needed};

fn doc(lines: &[&str]) -> Vec<Vec<u8>> {
    lines.iter().map(|l| l.as_bytes().to_vec()).collect()
}

fn row(g: &Grid, y: usize) -> String {
    (0..g.width).map(|x| g.cell(x, y)).collect()
}

fn row_marked(g: &Grid, y: usize) -> bool {
    (0..g.width).all(|x| g.is_marked(x, y))
}

fn row_unmarked(g: &Grid, y: usize) -> bool {
    (0..g.width).all(|x| !g.is_marked(x, y))
}

fn fifty() -> Vec<Vec<u8>> {
    (0..50).map(|_| b"x\n".to_vec()).collect()
}

#[test]
fn three_lines_first_frame() {
    let t = Term::new("f.txt", doc(&["aaa\n", "bbb\n", "ccc\n"]), 10, 4);
    assert_eq!(row(&t.grid, 0), "aaa       ");
    assert_eq!(row(&t.grid, 1), "bbb       ");
    assert_eq!(row(&t.grid, 2), "ccc       ");
    assert_eq!(t.top_line, 0);
    assert_eq!(t.bottom_line, 2);
    assert_eq!(row(&t.grid, 3), "f3/3 lines");
    assert!(row_marked(&t.grid, 3));
    assert!(row_unmarked(&t.grid, 0) && row_unmarked(&t.grid, 1) && row_unmarked(&t.grid, 2));
}

#[test]
fn long_name_under_indicator_highlighted() {
    let t = Term::new("abcdefgh", doc(&["aaa\n", "bbb\n", "ccc\n"]), 10, 4);
    assert_eq!(row(&t.grid, 3), "a3/3 lines");
    assert!(row_marked(&t.grid, 3));
}

#[test]
fn highlight_follows_resize() {
    let mut t = Term::new("x", fifty(), 10, 6);
    t.handle_event(Event::Resize(7, 3));
    assert!(row_marked(&t.grid, 2));
    assert!(row_unmarked(&t.grid, 0) && row_unmarked(&t.grid, 1));
}

#[test]
fn fresh_grid_has_no_highlight() {
    let g = Grid::new(3, 2);
    assert!(row_unmarked(&g, 0) && row_unmarked(&g, 1));
}

#[test]
fn status_row_text() {
    let t = Term::new("f.txt", doc(&["aaa\n", "bbb\n", "ccc\n"]), 20, 4);
    assert_eq!(row(&t.grid, 3), "f.txt      3/3 lines");
}

#[test]
fn up_at_top_changes_nothing() {
    let mut t = Term::new("f.txt", doc(&["aaa\n", "bbb\n", "ccc\n"]), 10, 4);
    let before: Vec<String> = (0..4).map(|y| row(&t.grid, y)).collect();
    assert_eq!(t.handle_event(Event::Key('k')), Action::Idle);
    assert_eq!(t.handle_event(Event::Key('k')), Action::Idle);
    assert_eq!(t.top_line, 0);
    assert_eq!(t.bottom_line, 2);
    let after: Vec<String> = (0..4).map(|y| row(&t.grid, y)).collect();
    assert_eq!(before, after);
}

#[test]
fn down_until_last_line_shown() {
    let mut t = Term::new("x", fifty(), 10, 6);
    assert_eq!(t.bottom_line, 4);
    let mut moves = 0;
    while t.handle_event(Event::Key('j')) == Action::Redraw {
        moves += 1;
        assert_eq!(t.top_line, moves);
        assert_eq!(t.bottom_line, moves + 4);
    }
    assert_eq!(moves, 45);
    assert_eq!(t.top_line, 45);
    assert_eq!(t.bottom_line, 49);
    assert_eq!(t.handle_event(Event::Key('j')), Action::Idle);
    assert_eq!(t.top_line, 45);
}

#[test]
fn down_when_file_fits_is_idle() {
    let mut t = Term::new("f", doc(&["a\n", "b\n"]), 10, 4);
    assert_eq!(t.handle_event(Event::Key('j')), Action::Idle);
    assert_eq!(t.top_line, 0);
}

#[test]
fn up_moves_one_line() {
    let mut t = Term::new("x", fifty(), 10, 6);
    t.handle_event(Event::Key('j'));
    t.handle_event(Event::Key('j'));
    t.handle_event(Event::Key('j'));
    assert_eq!(t.handle_event(Event::Key('k')), Action::Redraw);
    assert_eq!(t.top_line, 2);
    assert_eq!(t.bottom_line, 6);
}

#[test]
fn top_key_goes_to_first_line() {
    let mut t = Term::new("x", fifty(), 10, 6);
    assert_eq!(t.handle_event(Event::Key('g')), Action::Idle);
    t.handle_event(Event::Key('j'));
    t.handle_event(Event::Key('j'));
    assert_eq!(t.handle_event(Event::Key('g')), Action::Redraw);
    assert_eq!(t.top_line, 0);
    assert_eq!(t.bottom_line, 4);
}

#[test]
fn bottom_key_shows_last_line() {
    let mut t = Term::new("x", doc(&["a\n", "b\n", "c\n", "d\n", "e\n", "f\n", "g\n", "h\n"]), 5, 4);
    assert_eq!(t.handle_event(Event::Key('G')), Action::Redraw);
    assert_eq!(t.bottom_line, 7);
    assert_eq!(t.top_line, 5);
    assert_eq!(row(&t.grid, 0), "f    ");
    assert_eq!(row(&t.grid, 1), "g    ");
    assert_eq!(row(&t.grid, 2), "h    ");
    assert_eq!(row(&t.grid, 3), "lines");
}

#[test]
fn bottom_key_idle_when_short() {
    let mut t = Term::new("x", doc(&["a\n", "b\n", "c\n", "d\n"]), 5, 4);
    assert_eq!(t.handle_event(Event::Key('G')), Action::Idle);
    assert_eq!(t.top_line, 0);
}

#[test]
fn quit_and_other_keys() {
    let mut t = Term::new("x", fifty(), 10, 6);
    assert_eq!(t.handle_event(Event::Key('x')), Action::Idle);
    assert!(!t.quit);
    assert_eq!(t.handle_event(Event::Key('q')), Action::Quit);
    assert!(t.quit);
}

#[test]
fn resize_redraws_from_top_line() {
    let mut t = Term::new("x", fifty(), 10, 6);
    t.handle_event(Event::Key('j'));
    assert_eq!(t.handle_event(Event::Resize(4, 3)), Action::Redraw);
    assert_eq!(t.grid.width, 4);
    assert_eq!(t.grid.height, 3);
    assert_eq!(t.top_line, 1);
    assert_eq!(t.bottom_line, 2);
    assert_eq!(t.handle_event(Event::Resize(0, 10)), Action::Idle);
    assert_eq!(t.handle_event(Event::Resize(10, 1)), Action::Idle);
    assert_eq!(t.grid.width, 4);
}

#[test]
fn line_of_exactly_width_fills_one_row() {
    let mut g = Grid::new(5, 4);
    let d = doc(&["abcde\n", "xy\n", "z\n"]);
    let b = layout_forward(&mut g, &d, 0);
    assert_eq!(row(&g, 0), "abcde");
    assert_eq!(row(&g, 1), "xy   ");
    assert_eq!(row(&g, 2), "z    ");
    assert_eq!(b, 2);
}

#[test]
fn long_line_wraps_and_is_cut_at_last_row() {
    let mut g = Grid::new(3, 3);
    let d = doc(&["abcdefgh\n", "z\n"]);
    let b = layout_forward(&mut g, &d, 0);
    assert_eq!(row(&g, 0), "abc");
    assert_eq!(row(&g, 1), "def");
    assert_eq!(b, 0);
}

#[test]
fn tab_is_four_blanks() {
    let mut g = Grid::new(8, 2);
    let d = doc(&["a\tb\n"]);
    layout_forward(&mut g, &d, 0);
    assert_eq!(row(&g, 0), "a    b  ");
    assert_eq!(expand_line(&b"\tx".to_vec()), vec![' ', ' ', ' ', ' ', 'x']);
}

#[test]
fn tab_at_right_edge_continues_on_next_row() {
    let mut g = Grid::new(4, 3);
    let d = doc(&["ab\tc\n"]);
    layout_forward(&mut g, &d, 0);
    assert_eq!(row(&g, 0), "ab  ");
    assert_eq!(row(&g, 1), "  c ");
}

#[test]
fn forward_twice_gives_same_grid() {
    let d = doc(&["one\n", "two\tthree and more\n", "x\n"]);
    let mut g = Grid::new(6, 5);
    g.cells[20] = '#';
    let b1 = layout_forward(&mut g, &d, 0);
    let first = g.cells.clone();
    let b2 = layout_forward(&mut g, &d, 0);
    assert_eq!(b1, b2);
    assert_eq!(first, g.cells);
}

#[test]
fn short_document_leaves_lower_rows() {
    let mut g = Grid::new(3, 4);
    g.cells[6] = '#';
    let b = layout_forward(&mut g, &doc(&["a\n"]), 0);
    assert_eq!(b, 0);
    assert_eq!(row(&g, 0), "a  ");
    assert_eq!(g.cells[6], '#');
}

#[test]
fn reverse_then_forward_round_trip() {
    let d = doc(&["a\n", "bbbbbb\n", "c\n", "d\n"]);
    let mut g = Grid::new(3, 4);
    let top = layout_reverse(&mut g, &d, 3);
    assert_eq!(top, 1);
    assert_eq!(row(&g, 0), "bbb");
    let b = layout_forward(&mut g, &d, top);
    assert_eq!(b, 2);
}

#[test]
fn reverse_shows_end_of_tall_top_line() {
    let d = doc(&["abcdefghi\n", "z\n"]);
    let mut g = Grid::new(3, 3);
    let top = layout_reverse(&mut g, &d, 1);
    assert_eq!(top, 0);
    assert_eq!(row(&g, 0), "ghi");
    assert_eq!(row(&g, 1), "z  ");
}

#[test]
fn indicator_text() {
    let s: String = position_indicator(9, 120).into_iter().collect();
    assert_eq!(s, "10/120 lines");
    let s: String = position_indicator(0, 1).into_iter().collect();
    assert_eq!(s, "1/1 lines");
}

#[test]
fn indicator_wins_over_long_name() {
    let t = Term::new("abcdefghijkl", doc(&["a\n"]), 12, 2);
    assert_eq!(row(&t.grid, 1), "abc1/1 lines");
}

#[test]
fn split_keeps_line_feeds_drops_returns() {
    let lines = split_lines(&b"ab\r\ncd\n\nlast".to_vec());
    assert_eq!(lines, vec![b"ab\n".to_vec(), b"cd\n".to_vec(), b"\n".to_vec(), b"last".to_vec()]);
    assert_eq!(split_lines(&Vec::new()), Vec::<Vec<u8>>::new());
    assert_eq!(split_lines(&b"x\n".to_vec()), vec![b"x\n".to_vec()]);
}

#[test]
fn rows_for_lengths() {
    assert_eq!(rows_needed(0, 4), 1);
    assert_eq!(rows_needed(4, 4), 1);
    assert_eq!(rows_needed(5, 4), 2);
}
