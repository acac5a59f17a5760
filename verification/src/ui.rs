use vstd::prelude::*;
use crate::stdin::Key;
use crate::callbacks::{Callbacks, KeypressCallbacks, KeyHandler, MouseHandler, for_keys, slot_entries};

use crate::text::{chars_of, decimal_padded, push_decimal_padded, width_or_zero, width_or_zero_of};
use crate::util::{
    best_contrast, best_contrast_color, cell_is_placeholder, is_placeholder, rgb, Cell, CellGrid, Color,
    TextBoxInfo,
};

verus! {

// ===== the specification of text placement =====

/// The region and style a piece of text is drawn with: the drawable area
/// `(sx, sy, w, h)`, the colors (`None` keeps or derives the cell's own) and
/// whether text wraps at the right edge of the area.
pub struct PutArea {
    pub sx: isize,
    pub sy: isize,
    pub w: usize,
    pub h: usize,
    pub fg: Option<Color>,
    pub bg: Option<Color>,
    pub autowrap: bool,
}

/// The state of text placement: the cells, the cursor, the number of
/// characters counted as printed, and whether placement has stopped.
pub struct PutState {
    pub cells: Seq<Cell>,
    pub cx: int,
    pub cy: int,
    pub pn: int,
    pub stopped: bool,
}

pub open spec fn with_char(c: Cell, ch: char) -> Cell {
    Cell { c: Some(ch), ..c }
}

/// Blanks the wide glyph whose placeholders end at `i`: the run of
/// placeholders at and before `i` and the glyph in front of it become spaces.
pub open spec fn clear_back(s: Seq<Cell>, i: int) -> Seq<Cell>
    decreases i,
{
    if i < 0 || i >= s.len() {
        s
    } else if is_placeholder(s[i]) && i > 0 {
        clear_back(s.update(i, with_char(s[i], ' ')), i - 1)
    } else {
        s.update(i, with_char(s[i], ' '))
    }
}

/// Blanks the run of placeholders that starts at `i`.
pub open spec fn clear_fwd(s: Seq<Cell>, i: int) -> Seq<Cell>
    decreases s.len() - i,
{
    if 0 <= i < s.len() && is_placeholder(s[i]) {
        clear_fwd(s.update(i, with_char(s[i], ' ')), i + 1)
    } else {
        s
    }
}

/// Marks the `n` cells from `start` on as placeholders of a wide glyph.
pub open spec fn mark_wide(s: Seq<Cell>, start: int, n: int) -> Seq<Cell> {
    Seq::new(
        s.len(),
        |k: int|
            if start <= k < start + n {
                with_char(s[k], '\0')
            } else {
                s[k]
            },
    )
}

/// Writes character `ch` (of width `cw`) at the cursor, which lies on the
/// screen: neighbouring wide glyphs that it overlaps are blanked first.
pub open spec fn put_on_screen(
    pitch: int,
    halves: Seq<Color>,
    a: PutArea,
    st: PutState,
    ch: char,
    cw: int,
) -> PutState {
    let p = st.cy * pitch + st.cx;
    let s0 = st.cells;
    let s1 = if is_placeholder(s0[p]) {
        clear_back(s0, p - 1)
    } else {
        s0
    };
    let s2 = if is_placeholder(s1[p + 1]) {
        clear_fwd(s1, p + 1)
    } else {
        s1
    };
    if ch == ' ' && a.bg is None {
        let s3 = if s2[p].c is Some {
            s2.update(p, with_char(s2[p], ' '))
        } else {
            s2
        };
        PutState { cells: s3, cx: st.cx + 1, ..st }
    } else {
        let bgc = match a.bg {
            Some(b) => b,
            None => if s2[p].c is None {
                halves[p]
            } else {
                s2[p].bg
            },
        };
        let fgc = match a.fg {
            Some(f) => f,
            None => if s2[p].c is None {
                best_contrast(bgc)
            } else {
                s2[p].fg
            },
        };
        let s3 = s2.update(p, Cell { c: Some(ch), fg: fgc, bg: bgc });
        PutState { cells: mark_wide(s3, p + 1, cw - 1), cx: st.cx + cw, ..st }
    }
}

/// Places one character: zero-width characters only count; a character that
/// does not fit in the area wraps (or stops placement); a character outside
/// the screen only moves the cursor.
pub open spec fn put_char(
    width: int,
    height: int,
    pitch: int,
    halves: Seq<Color>,
    a: PutArea,
    st: PutState,
    ch: char,
) -> PutState {
    let cw = width_or_zero(ch);
    if st.stopped {
        st
    } else if cw == 0 {
        PutState { pn: st.pn + 1, ..st }
    } else if st.cy >= a.sy + a.h {
        PutState { stopped: true, ..st }
    } else if st.cx + cw > a.sx + a.w && !a.autowrap {
        PutState { stopped: true, ..st }
    } else {
        let wrapped = st.cx + cw > a.sx + a.w;
        let cx = if wrapped {
            a.sx as int
        } else {
            st.cx
        };
        let cy = if wrapped {
            st.cy + 1
        } else {
            st.cy
        };
        if cy >= a.sy + a.h {
            PutState { cx, cy, stopped: true, ..st }
        } else {
            let st1 = PutState { cx, cy, pn: st.pn + 1, ..st };
            if cx < 0 || cx + cw > width || cy < 0 || cy >= height {
                PutState { cx: cx + cw, ..st1 }
            } else {
                put_on_screen(pitch, halves, a, st1, ch, cw)
            }
        }
    }
}

/// Places the characters of `text` one after the other.
pub open spec fn put_text(
    width: int,
    height: int,
    pitch: int,
    halves: Seq<Color>,
    a: PutArea,
    st: PutState,
    text: Seq<char>,
) -> PutState
    decreases text.len(),
{
    if text.len() == 0 {
        st
    } else {
        put_char(
            width,
            height,
            pitch,
            halves,
            a,
            put_text(width, height, pitch, halves, a, st, text.drop_last()),
            text.last(),
        )
    }
}

/// The state in which placement starts: cursor at `(x, y)`, nothing printed.
pub open spec fn put_start(cells: Seq<Cell>, x: isize, y: isize) -> PutState {
    PutState { cells, cx: x as int, cy: y as int, pn: 0, stopped: false }
}

// ===== placement invariants =====

pub open spec fn grid_ok(s: Seq<Cell>, len: int) -> bool {
    &&& s.len() == len
    &&& len >= 1
    &&& !is_placeholder(s[0])
    &&& !is_placeholder(s[len - 1])
}

proof fn lemma_clear_back_ok(s: Seq<Cell>, i: int)
    requires
        s.len() >= 1,
        !is_placeholder(s[0]),
    ensures
        clear_back(s, i).len() == s.len(),
        !is_placeholder(clear_back(s, i)[0]),
        forall|k: int|
            0 <= k < s.len() && !is_placeholder(s[k]) ==> !is_placeholder(
                #[trigger] clear_back(s, i)[k],
            ),
        forall|k: int| i < k < s.len() ==> #[trigger] clear_back(s, i)[k] == s[k],
    decreases i,
{
    if i < 0 || i >= s.len() {
    } else if is_placeholder(s[i]) && i > 0 {
        lemma_clear_back_ok(s.update(i, with_char(s[i], ' ')), i - 1);
    } else {
    }
}

proof fn lemma_clear_fwd_ok(s: Seq<Cell>, i: int)
    ensures
        clear_fwd(s, i).len() == s.len(),
        forall|k: int|
            0 <= k < s.len() && !is_placeholder(s[k]) ==> !is_placeholder(
                #[trigger] clear_fwd(s, i)[k],
            ),
        forall|k: int| 0 <= k < i && k < s.len() ==> #[trigger] clear_fwd(s, i)[k] == s[k],
    decreases s.len() - i,
{
    if 0 <= i < s.len() && is_placeholder(s[i]) {
        lemma_clear_fwd_ok(s.update(i, with_char(s[i], ' ')), i + 1);
    }
}

// ===== placement =====

proof fn lemma_index_in_grid(cy: int, cx: int, cw: int, width: int, height: int, pitch: int)
    requires
        0 <= cy < height,
        0 <= cx,
        cw >= 1,
        cx + cw <= width,
        width <= pitch,
    ensures
        cy * pitch + cx + cw <= pitch * height,
        0 <= cy * pitch,
{
    assert(cy * pitch <= (height - 1) * pitch) by (nonlinear_arith)
        requires
            cy <= height - 1,
            pitch >= 0,
    ;
    assert((height - 1) * pitch + pitch == pitch * height) by (nonlinear_arith);
    assert(0 <= cy * pitch) by (nonlinear_arith)
        requires
            cy >= 0,
            pitch >= 0,
    ;
}

fn blank(c: Cell) -> (r: Cell)
    ensures
        r == with_char(c, ' '),
{
    Cell { c: Some(' '), ..c }
}

fn clear_back_exec(cells: &mut Vec<Cell>, start: usize)
    requires
        old(cells)@.len() >= 1,
        !is_placeholder(old(cells)@[0]),
        start < old(cells)@.len(),
    ensures
        final(cells)@ == clear_back(old(cells)@, start as int),
{
    let mut i = start;
    proof {
        lemma_clear_back_ok(cells@, i as int);
    }
    while cell_is_placeholder(&cells[i])
        invariant
            i < cells@.len(),
            cells@.len() == old(cells)@.len(),
            !is_placeholder(cells@[0]),
            clear_back(cells@, i as int) == clear_back(old(cells)@, start as int),
        decreases i,
    {
        let c = blank(cells[i]);
        cells.set(i, c);
        i = i - 1;
    }
    let c = blank(cells[i]);
    cells.set(i, c);
}

fn clear_fwd_exec(cells: &mut Vec<Cell>, start: usize)
    requires
        old(cells)@.len() >= 1,
        !is_placeholder(old(cells)@.last()),
        start < old(cells)@.len(),
    ensures
        final(cells)@ == clear_fwd(old(cells)@, start as int),
{
    let n = cells.len();
    let mut i = start;
    while cell_is_placeholder(&cells[i])
        invariant
            i < cells@.len(),
            n == cells@.len(),
            cells@.len() == old(cells)@.len(),
            !is_placeholder(cells@.last()),
            clear_fwd(cells@, i as int) == clear_fwd(old(cells)@, start as int),
        decreases cells@.len() - i,
    {
        assert(i + 1 < cells@.len());
        let c = blank(cells[i]);
        cells.set(i, c);
        i = i + 1;
    }
}

fn mark_wide_exec(cells: &mut Vec<Cell>, start: usize, n: usize)
    requires
        start + n <= old(cells)@.len(),
    ensures
        final(cells)@ == mark_wide(old(cells)@, start as int, n as int),
{
    let len = cells.len();
    let mut k: usize = 0;
    while k < n
        invariant
            k <= n,
            len == old(cells)@.len(),
            start + n <= old(cells)@.len(),
            cells@.len() == old(cells)@.len(),
            cells@ == mark_wide(old(cells)@, start as int, k as int),
        decreases n - k,
    {
        assert(start + k < old(cells)@.len());
        let c = Cell { c: Some('\0'), ..cells[start + k] };
        cells.set(start + k, c);
        assert(cells@ == mark_wide(old(cells)@, start as int, k + 1));
        k = k + 1;
    }
}

/// Writes `ch` (of width `cw`) with the cursor at `(cx, cy)` on the screen
/// and returns the cursor column after it.
fn place_char(
    grid: &mut CellGrid,
    halves: &Vec<Color>,
    fg: Option<Color>,
    bg: Option<Color>,
    cx: isize,
    cy: isize,
    ch: char,
    cw: isize,
) -> (ncx: isize)
    requires
        old(grid).wf(),
        halves@.len() == old(grid).cells@.len(),
        0 <= cy < old(grid).height,
        0 <= cx,
        1 <= cw <= 3,
        cx + cw <= old(grid).width,
        ch != '\0',
        ch == ' ' ==> cw == 1,
    ensures
        final(grid).wf(),
        final(grid).width == old(grid).width,
        final(grid).height == old(grid).height,
        final(grid).pitch == old(grid).pitch,
        ({
            let st = put_on_screen(
                old(grid).pitch as int,
                halves@,
                PutArea { sx: 0, sy: 0, w: 0, h: 0, fg, bg, autowrap: false },
                PutState { cells: old(grid).cells@, cx: cx as int, cy: cy as int, pn: 0, stopped: false },
                ch,
                cw as int,
            );
            final(grid).cells@ == st.cells && ncx == st.cx
        }),
{
    let ghost width = grid.width as int;
    let ghost height = grid.height as int;
    let ghost pitch = grid.pitch as int;
    proof {
        lemma_index_in_grid(cy as int, cx as int, cw as int, width, height, pitch);
    }
    let p = cy as usize * grid.pitch + cx as usize;
    if cell_is_placeholder(&grid.cells[p]) {
        proof {
            assert(p > 0);
            lemma_clear_back_ok(grid.cells@, p - 1);
        }
        clear_back_exec(&mut grid.cells, p - 1);
    }
    if cell_is_placeholder(&grid.cells[p + 1]) {
        proof {
            lemma_clear_fwd_ok(grid.cells@, p + 1);
        }
        clear_fwd_exec(&mut grid.cells, p + 1);
    }
    let here = grid.cells[p];
    if ch == ' ' && bg.is_none() {
        if here.c.is_some() {
            grid.cells.set(p, blank(here));
        }
        cx + 1
    } else {
        let bgc = match bg {
            Some(b) => b,
            None => if here.c.is_none() {
                halves[p]
            } else {
                here.bg
            },
        };
        let fgc = match fg {
            Some(f) => f,
            None => if here.c.is_none() {
                best_contrast_color(bgc)
            } else {
                here.fg
            },
        };
        grid.cells.set(p, Cell { c: Some(ch), fg: fgc, bg: bgc });
        mark_wide_exec(&mut grid.cells, p + 1, (cw - 1) as usize);
        cx + cw
    }
}

/// Draws `text` with the cursor starting at `(x, y)`, inside the area of size
/// `w` x `h` whose top-left corner is `(sx, sy)`. Returns the number of
/// characters counted as printed and the final cursor position.
///
/// A cell that shows the video (`c == None`) and gets text without a given
/// background takes the color `halves[p]`, the half-and-half mix of its own
/// foreground and background that the caller computed for it.
pub fn putat(
    grid: &mut CellGrid,
    halves: &Vec<Color>,
    text: &str,
    x: isize,
    y: isize,
    w: usize,
    h: usize,
    sx: isize,
    sy: isize,
    fg: Option<Color>,
    bg: Option<Color>,
    autowrap: bool,
) -> (r: (usize, isize, isize))
    requires
        old(grid).wf(),
        halves@.len() == old(grid).cells@.len(),
        x + 3 <= isize::MAX,
        sx + w + 6 <= isize::MAX,
        sy + h <= isize::MAX,
        w <= isize::MAX,
        h <= isize::MAX,
    ensures
        final(grid).wf(),
        final(grid).width == old(grid).width,
        final(grid).height == old(grid).height,
        final(grid).pitch == old(grid).pitch,
        ({
            let a = PutArea { sx, sy, w, h, fg, bg, autowrap };
            let st = put_text(
                old(grid).width as int,
                old(grid).height as int,
                old(grid).pitch as int,
                halves@,
                a,
                put_start(old(grid).cells@, x, y),
                text@,
            );
            if w == 0 || h == 0 {
                r == (0usize, x, y) && final(grid).cells@ == old(grid).cells@
            } else {
                &&& final(grid).cells@ == st.cells
                &&& r.0 == st.pn
                &&& r.1 == st.cx
                &&& r.2 == st.cy
            }
        }),
{
    if w == 0 || h == 0 {
        return (0, x, y);
    }
    let ghost a = PutArea { sx, sy, w, h, fg, bg, autowrap };
    let ghost width = grid.width as int;
    let ghost height = grid.height as int;
    let ghost pitch = grid.pitch as int;
    let ghost len = grid.cells@.len() as int;
    let chars = chars_of(text);
    let cells_width = grid.width as isize;
    let cells_height = grid.height as isize;
    let right = sx + w as isize;
    let bottom = sy + h as isize;
    let mut cx = x;
    let mut cy = y;
    let mut pn: usize = 0;
    let mut stopped = false;
    let mut k: usize = 0;
    while k < chars.len()
        invariant
            k <= chars@.len(),
            chars@ == text@,
            grid.wf(),
            grid.width as int == width,
            grid.height as int == height,
            grid.pitch as int == pitch,
            grid.cells@.len() == len,
            halves@.len() == len,
            cells_width as int == width,
            cells_height as int == height,
            right as int == sx + w,
            bottom as int == sy + h,
            right + 6 <= isize::MAX,
            bottom <= isize::MAX,
            x + 3 <= isize::MAX,
            a == (PutArea { sx, sy, w, h, fg, bg, autowrap }),
            cx <= (if x >= right + 3 {
                x as int
            } else {
                right + 3
            }),
            pn <= k,
            ({
                let st = put_text(
                    width,
                    height,
                    pitch,
                    halves@,
                    a,
                    put_start(old(grid).cells@, x, y),
                    text@.take(k as int),
                );
                &&& st.cells == grid.cells@
                &&& st.cx == cx
                &&& st.cy == cy
                &&& st.pn == pn
                &&& st.stopped == stopped
            }),
        decreases chars@.len() - k,
    {
        let ch = chars[k];
        let ghost prev = put_text(
            width,
            height,
            pitch,
            halves@,
            a,
            put_start(old(grid).cells@, x, y),
            text@.take(k as int),
        );
        assert(text@.take(k + 1).drop_last() == text@.take(k as int));
        assert(text@.take(k + 1).last() == ch);
        if !stopped {
            let cw = width_or_zero_of(ch) as isize;
            if cw == 0 {
                pn = pn + 1;
            } else if cy >= bottom {
                stopped = true;
            } else if cx + cw > right && !autowrap {
                stopped = true;
            } else {
                if cx + cw > right {
                    cx = sx;
                    cy = cy + 1;
                }
                if cy >= bottom {
                    stopped = true;
                } else {
                    pn = pn + 1;
                    if cx < 0 || cx + cw > cells_width || cy < 0 || cy >= cells_height {
                        cx = cx + cw;
                    } else {
                        cx = place_char(grid, halves, fg, bg, cx, cy, ch, cw);
                    }
                }
            }
        }
        k = k + 1;
    }
    assert(text@.take(chars@.len() as int) == text@);
    (pn, cx, cy)
}

// ===== text boxes =====

/// A text box: its geometry and cursor, and the colors that text drawn in it
/// uses when none are given.
pub struct TextBox {
    pub info: TextBoxInfo,
    pub default_fg: Option<Color>,
    pub default_bg: Option<Color>,
}

impl TextBox {
    pub fn new() -> (r: TextBox)
        ensures
            r.info == (TextBoxInfo { x: 0, y: 0, w: 0, h: 0, i: 0, j: 0, autowrap: false }),
            r.default_fg is None,
            r.default_bg is None,
    {
        TextBox { info: TextBoxInfo::new(), default_fg: None, default_bg: None }
    }
}

/// Sets up the text box at `(x, y)` of size `w` x `h` with the cursor at its
/// corner and no default colors.
pub fn textbox(tb: &mut TextBox, x: isize, y: isize, w: usize, h: usize, autowrap: bool)
    ensures
        final(tb).info == (TextBoxInfo { x, y, w, h, i: x, j: y, autowrap }),
        final(tb).default_fg is None,
        final(tb).default_bg is None,
{
    tb.info.set(x, y, w, h, x, y);
    tb.info.setwrap(autowrap);
    tb.default_fg = None;
    tb.default_bg = None;
}

/// Sets the colors that text drawn in the box uses when none are given.
pub fn textbox_default_color(tb: &mut TextBox, fg: Option<Color>, bg: Option<Color>)
    ensures
        final(tb).info == old(tb).info,
        final(tb).default_fg == fg,
        final(tb).default_bg == bg,
{
    tb.default_fg = fg;
    tb.default_bg = bg;
}

pub open spec fn or_else<T>(a: Option<T>, b: Option<T>) -> Option<T> {
    match a {
        Some(v) => Some(v),
        None => b,
    }
}

/// What drawing `text` in the text box gives, on cells `cells` of a grid of
/// the given shape.
pub open spec fn put_in_box_cells(
    width: int,
    height: int,
    pitch: int,
    cells: Seq<Cell>,
    halves: Seq<Color>,
    tb: TextBox,
    text: Seq<char>,
    fg: Option<Color>,
    bg: Option<Color>,
) -> PutState {
    let i = tb.info;
    put_text(
        width,
        height,
        pitch,
        halves,
        PutArea {
            sx: i.x,
            sy: i.y,
            w: i.w,
            h: i.h,
            fg: or_else(fg, tb.default_fg),
            bg: or_else(bg, tb.default_bg),
            autowrap: i.autowrap,
        },
        put_start(cells, i.i, i.j),
        text,
    )
}

/// What drawing `text` in the text box gives.
pub open spec fn put_in_box(grid: CellGrid, halves: Seq<Color>, tb: TextBox, text: Seq<char>, fg: Option<Color>, bg: Option<Color>) -> PutState {
    put_in_box_cells(grid.width as int, grid.height as int, grid.pitch as int, grid.cells@, halves, tb, text, fg, bg)
}

/// The cells and the text box after drawing a line of text: the cursor goes
/// to the start of the line below the one the text ended on.
pub open spec fn putln_step(
    width: int,
    height: int,
    pitch: int,
    cells: Seq<Cell>,
    halves: Seq<Color>,
    tb: TextBox,
    text: Seq<char>,
    fg: Option<Color>,
    bg: Option<Color>,
) -> (Seq<Cell>, TextBox) {
    let st = put_in_box_cells(width, height, pitch, cells, halves, tb, text, fg, bg);
    let i = tb.info;
    if i.w == 0 || i.h == 0 {
        (cells, TextBox { info: TextBoxInfo { i: i.x, j: (i.j + 1) as isize, ..i }, ..tb })
    } else {
        (st.cells, TextBox { info: TextBoxInfo { i: i.x, j: (st.cy + 1) as isize, ..i }, ..tb })
    }
}

pub open spec fn box_fits(tb: TextBox) -> bool {
    &&& tb.info.w <= isize::MAX
    &&& tb.info.h <= isize::MAX
    &&& tb.info.i + 3 <= isize::MAX
    &&& tb.info.x + tb.info.w + 6 <= isize::MAX
    &&& tb.info.y + tb.info.h <= isize::MAX
}

/// Draws `text` at the cursor of the text box and leaves the cursor after it.
pub fn put(grid: &mut CellGrid, halves: &Vec<Color>, tb: &mut TextBox, text: &str, fg: Option<Color>, bg: Option<Color>)
    requires
        old(grid).wf(),
        halves@.len() == old(grid).cells@.len(),
        box_fits(*old(tb)),
    ensures
        final(grid).wf(),
        final(grid).width == old(grid).width,
        final(grid).height == old(grid).height,
        final(grid).pitch == old(grid).pitch,
        ({
            let st = put_in_box(*old(grid), halves@, *old(tb), text@, fg, bg);
            let i = old(tb).info;
            if i.w == 0 || i.h == 0 {
                final(grid).cells@ == old(grid).cells@ && *final(tb) == *old(tb)
            } else {
                &&& final(grid).cells@ == st.cells
                &&& final(tb).info == (TextBoxInfo { i: st.cx as isize, j: st.cy as isize, ..i })
                &&& final(tb).default_fg == old(tb).default_fg
                &&& final(tb).default_bg == old(tb).default_bg
            }
        }),
{
    let fg = match fg {
        Some(c) => Some(c),
        None => tb.default_fg,
    };
    let bg = match bg {
        Some(c) => Some(c),
        None => tb.default_bg,
    };
    let (x, y, w, h, i, j) = tb.info.get();
    let (_, cx, cy) = putat(grid, halves, text, i, j, w, h, x, y, fg, bg, tb.info.getwrap());
    tb.info.set(x, y, w, h, cx, cy);
}

/// Draws `text` at the cursor of the text box and moves the cursor to the
/// start of the line below the one the text ended on.
pub fn putln(grid: &mut CellGrid, halves: &Vec<Color>, tb: &mut TextBox, text: &str, fg: Option<Color>, bg: Option<Color>)
    requires
        old(grid).wf(),
        halves@.len() == old(grid).cells@.len(),
        box_fits(*old(tb)),
        old(tb).info.j < isize::MAX,
        old(tb).info.y + old(tb).info.h < isize::MAX,
    ensures
        final(grid).wf(),
        final(grid).width == old(grid).width,
        final(grid).height == old(grid).height,
        final(grid).pitch == old(grid).pitch,
        ({
            let st = put_in_box(*old(grid), halves@, *old(tb), text@, fg, bg);
            let i = old(tb).info;
            let end_y = if i.w == 0 || i.h == 0 {
                i.j as int
            } else {
                st.cy
            };
            &&& final(grid).cells@ == (if i.w == 0 || i.h == 0 {
                old(grid).cells@
            } else {
                st.cells
            })
            &&& final(tb).info == (TextBoxInfo { i: i.x, j: (end_y + 1) as isize, ..i })
            &&& final(tb).default_fg == old(tb).default_fg
            &&& final(tb).default_bg == old(tb).default_bg
        }),
        (final(grid).cells@, *final(tb)) == putln_step(
            old(grid).width as int,
            old(grid).height as int,
            old(grid).pitch as int,
            old(grid).cells@,
            halves@,
            *old(tb),
            text@,
            fg,
            bg,
        ),
{
    let fg = match fg {
        Some(c) => Some(c),
        None => tb.default_fg,
    };
    let bg = match bg {
        Some(c) => Some(c),
        None => tb.default_bg,
    };
    let (x, y, w, h, i, j) = tb.info.get();
    let (_, _, cy) = putat(grid, halves, text, i, j, w, h, x, y, fg, bg, tb.info.getwrap());
    proof {
        lemma_put_text_cy_bound(grid.width as int, grid.height as int, grid.pitch as int, halves@,
            PutArea { sx: x, sy: y, w, h, fg, bg, autowrap: tb.info.autowrap },
            put_start(old(grid).cells@, i, j), text@);
    }
    tb.info.set(x, y, w, h, x, cy + 1);
}

/// The cursor row never passes the bottom edge of the area by more than one
/// row, and never moves up.
pub proof fn lemma_put_text_cy_bound(
    width: int,
    height: int,
    pitch: int,
    halves: Seq<Color>,
    a: PutArea,
    st: PutState,
    text: Seq<char>,
)
    ensures
        put_text(width, height, pitch, halves, a, st, text).cy <= if st.cy > a.sy + a.h {
            st.cy
        } else {
            a.sy + a.h
        },
        put_text(width, height, pitch, halves, a, st, text).cy >= st.cy,
    decreases text.len(),
{
    if text.len() > 0 {
        lemma_put_text_cy_bound(width, height, pitch, halves, a, st, text.drop_last());
    }
}

// ===== large text from the font =====

/// `core::char::from_u32` gives the character of a Unicode scalar value:
/// anything but a surrogate up to U+10FFFF.
pub assume_specification[ core::char::from_u32 ](i: u32) -> (r: Option<char>)
    ensures
        r is Some <==> (i <= 0xD7FF || (0xE000 <= i && i <= 0x10FFFF)),
        r matches Some(c) ==> c as u32 == i,
;

/// The glyph of the font that draws `ch`: its own for the first 65536
/// characters, the space's otherwise.
pub open spec fn glyph_index(ch: char) -> int {
    if (ch as u32) < 65536 {
        (ch as u32) as int
    } else {
        32
    }
}

/// How many braille characters a row of the glyph of `ch` takes: four for a
/// narrow character, eight for a wide one, none for one without width.
pub open spec fn glyph_cols(ch: char) -> int {
    if width_or_zero(ch) == 1 {
        4
    } else if width_or_zero(ch) == 2 {
        8
    } else {
        0
    }
}

/// The braille character with dot pattern `b`.
pub open spec fn braille(b: u8) -> char {
    ((0x2800 + b) as u32) as char
}

/// Row `y` (of four) of the glyph of `ch`: each font byte is a block of
/// 2x4 dots drawn as a braille character.
pub open spec fn glyph_row(font: Seq<u8>, ch: char, y: int) -> Seq<char> {
    Seq::new(glyph_cols(ch) as nat, |x: int| braille(font[glyph_index(ch) * 32 + y * 8 + x]))
}

/// Row `y` of `text` drawn in the large font.
pub open spec fn font_row(font: Seq<u8>, text: Seq<char>, y: int) -> Seq<char>
    decreases text.len(),
{
    if text.len() == 0 {
        Seq::empty()
    } else {
        font_row(font, text.drop_last(), y) + glyph_row(font, text.last(), y)
    }
}

fn braille_of(b: u8) -> (c: char)
    ensures
        c == braille(b),
{
    let c = core::char::from_u32(0x2800 + b as u32).unwrap();
    proof {
        vstd::utf8::char_u32_cast(c, c as u32);
    }
    c
}

fn font_row_exec(font: &Vec<u8>, chars: &Vec<char>, y: usize) -> (r: String)
    requires
        font@.len() == 65536 * 32,
        y < 4,
    ensures
        r@ == font_row(font@, chars@, y as int),
{
    let mut s = String::new();
    let mut k: usize = 0;
    assert(chars@.take(0) =~= Seq::<char>::empty());
    while k < chars.len()
        invariant
            font@.len() == 65536 * 32,
            y < 4,
            k <= chars@.len(),
            s@ == font_row(font@, chars@.take(k as int), y as int),
        decreases chars@.len() - k,
    {
        let ch = chars[k];
        let cw = width_or_zero_of(ch);
        let cols: usize = if cw == 1 {
            4
        } else if cw == 2 {
            8
        } else {
            0
        };
        let base: usize = if (ch as u32) < 65536 {
            (ch as u32) as usize * 32
        } else {
            32 * 32
        };
        let ghost s0 = s@;
        let mut x: usize = 0;
        while x < cols
            invariant
                font@.len() == 65536 * 32,
                y < 4,
                cols <= 8,
                base + 32 <= font@.len(),
                base == glyph_index(ch) * 32,
                x <= cols,
                cols == glyph_cols(ch),
                s@ == s0 + glyph_row(font@, ch, y as int).take(x as int),
            decreases cols - x,
        {
            let c = braille_of(font[base + y * 8 + x]);
            s.push(c);
            x = x + 1;
            assert(s@ =~= s0 + glyph_row(font@, ch, y as int).take(x as int));
        }
        proof {
            assert(glyph_row(font@, ch, y as int).take(cols as int) =~= glyph_row(font@, ch, y as int));
            assert(chars@.take(k + 1).drop_last() =~= chars@.take(k as int));
            assert(chars@.take(k + 1).last() == ch);
        }
        k = k + 1;
    }
    assert(chars@.take(k as int) =~= chars@);
    s
}

/// The four rows of `text` in the large font.
pub open spec fn font_rows(font: Seq<u8>, text: Seq<char>) -> Seq<Seq<char>> {
    seq![font_row(font, text, 0), font_row(font, text, 1), font_row(font, text, 2), font_row(font, text, 3)]
}

/// The cells and text box after drawing the rows in turn, each as a line.
pub open spec fn putlns_step(
    width: int,
    height: int,
    pitch: int,
    cells: Seq<Cell>,
    halves: Seq<Color>,
    tb: TextBox,
    rows: Seq<Seq<char>>,
    fg: Option<Color>,
    bg: Option<Color>,
) -> (Seq<Cell>, TextBox)
    decreases rows.len(),
{
    if rows.len() == 0 {
        (cells, tb)
    } else {
        let (c1, t1) = putlns_step(width, height, pitch, cells, halves, tb, rows.drop_last(), fg, bg);
        putln_step(width, height, pitch, c1, halves, t1, rows.last(), fg, bg)
    }
}

/// Room for four more lines below the cursor and the box.
pub open spec fn room_for_four(tb: TextBox) -> bool {
    box_fits(tb) && tb.info.j + 4 < isize::MAX && tb.info.y + tb.info.h + 4 < isize::MAX
}

/// Draws `text` four cells high in the large font (`font` holds 32 bytes
/// for each of the first 65536 characters), line by line.
pub fn putufln(
    grid: &mut CellGrid,
    halves: &Vec<Color>,
    tb: &mut TextBox,
    font: &Vec<u8>,
    text: &str,
    fg: Option<Color>,
    bg: Option<Color>,
)
    requires
        old(grid).wf(),
        halves@.len() == old(grid).cells@.len(),
        room_for_four(*old(tb)),
        font@.len() == 65536 * 32,
    ensures
        final(grid).wf(),
        final(grid).width == old(grid).width,
        final(grid).height == old(grid).height,
        final(grid).pitch == old(grid).pitch,
        (final(grid).cells@, *final(tb)) == putlns_step(
            old(grid).width as int,
            old(grid).height as int,
            old(grid).pitch as int,
            old(grid).cells@,
            halves@,
            *old(tb),
            font_rows(font@, text@),
            fg,
            bg,
        ),
{
    let chars = chars_of(text);
    let ghost rows = font_rows(font@, text@);
    let ghost w = grid.width as int;
    let ghost h = grid.height as int;
    let ghost p = grid.pitch as int;
    let ghost j0 = tb.info.j as int;
    let mut y: usize = 0;
    assert(rows.take(0) =~= Seq::<Seq<char>>::empty());
    while y < 4
        invariant
            grid.wf(),
            halves@.len() == grid.cells@.len(),
            grid.width == w && grid.height == h && grid.pitch == p,
            font@.len() == 65536 * 32,
            chars@ == text@,
            rows == font_rows(font@, text@),
            y <= 4,
            box_fits(*tb),
            tb.info.y + tb.info.h + 4 < isize::MAX,
            tb.info.j <= (if j0 > tb.info.y + tb.info.h { j0 } else { tb.info.y + tb.info.h as int }) + y,
            j0 + 4 < isize::MAX,
            (grid.cells@, *tb) == putlns_step(w, h, p, old(grid).cells@, halves@, *old(tb), rows.take(y as int), fg, bg),
            tb.info.x == old(tb).info.x && tb.info.y == old(tb).info.y && tb.info.w == old(tb).info.w
                && tb.info.h == old(tb).info.h,
        decreases 4 - y,
    {
        let row = font_row_exec(font, &chars, y);
        let ghost g0 = grid.cells@;
        let ghost t0 = *tb;
        proof {
            lemma_put_text_cy_bound(w, h, p, halves@,
                PutArea {
                    sx: t0.info.x,
                    sy: t0.info.y,
                    w: t0.info.w,
                    h: t0.info.h,
                    fg: or_else(fg, t0.default_fg),
                    bg: or_else(bg, t0.default_bg),
                    autowrap: t0.info.autowrap,
                },
                put_start(g0, t0.info.i, t0.info.j), row@);
        }
        putln(grid, halves, tb, row.as_str(), fg, bg);
        proof {
            assert(rows.take(y + 1).drop_last() =~= rows.take(y as int));
            assert(rows.take(y + 1).last() == row@);
        }
        y = y + 1;
    }
    assert(rows.take(4) =~= rows);
}

/// Draws a line of text, in the large font when the terminal's font is too
/// small to read (`font_large_enough` tells which).
pub fn putln_or_ufln(
    grid: &mut CellGrid,
    halves: &Vec<Color>,
    tb: &mut TextBox,
    font: &Vec<u8>,
    font_large_enough: bool,
    text: &str,
    fg: Option<Color>,
    bg: Option<Color>,
)
    requires
        old(grid).wf(),
        halves@.len() == old(grid).cells@.len(),
        room_for_four(*old(tb)),
        font@.len() == 65536 * 32,
    ensures
        final(grid).wf(),
        final(grid).width == old(grid).width,
        final(grid).height == old(grid).height,
        final(grid).pitch == old(grid).pitch,
        (final(grid).cells@, *final(tb)) == (if font_large_enough {
            putln_step(
                old(grid).width as int,
                old(grid).height as int,
                old(grid).pitch as int,
                old(grid).cells@,
                halves@,
                *old(tb),
                text@,
                fg,
                bg,
            )
        } else {
            putlns_step(
                old(grid).width as int,
                old(grid).height as int,
                old(grid).pitch as int,
                old(grid).cells@,
                halves@,
                *old(tb),
                font_rows(font@, text@),
                fg,
                bg,
            )
        }),
{
    if font_large_enough {
        putln(grid, halves, tb, text, fg, bg);
    } else {
        putufln(grid, halves, tb, font, text, fg, bg);
    }
}

// ===== chroma key and time display =====

/// The color that is keyed out of the video, if any.
#[derive(Clone, Copy, PartialEq, Eq, Structural, Debug)]
pub enum ChromaMode {
    /// No color is keyed out.
    Off,
    Red,
    Green,
    Blue,
    Yellow,
    Magenta,
    Cyan,
    White,
    Black,
}

pub open spec fn chroma_next(m: ChromaMode) -> ChromaMode {
    match m {
        ChromaMode::Off => ChromaMode::Red,
        ChromaMode::Red => ChromaMode::Green,
        ChromaMode::Green => ChromaMode::Blue,
        ChromaMode::Blue => ChromaMode::Yellow,
        ChromaMode::Yellow => ChromaMode::Magenta,
        ChromaMode::Magenta => ChromaMode::Cyan,
        ChromaMode::Cyan => ChromaMode::White,
        ChromaMode::White => ChromaMode::Black,
        ChromaMode::Black => ChromaMode::Off,
    }
}

pub open spec fn chroma_prev(m: ChromaMode) -> ChromaMode {
    match m {
        ChromaMode::Off => ChromaMode::Black,
        ChromaMode::Red => ChromaMode::Off,
        ChromaMode::Green => ChromaMode::Red,
        ChromaMode::Blue => ChromaMode::Green,
        ChromaMode::Yellow => ChromaMode::Blue,
        ChromaMode::Magenta => ChromaMode::Yellow,
        ChromaMode::Cyan => ChromaMode::Magenta,
        ChromaMode::White => ChromaMode::Cyan,
        ChromaMode::Black => ChromaMode::White,
    }
}

pub open spec fn chroma_color(m: ChromaMode) -> Option<Color> {
    match m {
        ChromaMode::Off => None,
        ChromaMode::Red => Some(rgb(255, 0, 0)),
        ChromaMode::Green => Some(rgb(0, 255, 0)),
        ChromaMode::Blue => Some(rgb(0, 0, 255)),
        ChromaMode::Yellow => Some(rgb(255, 255, 0)),
        ChromaMode::Magenta => Some(rgb(255, 0, 255)),
        ChromaMode::Cyan => Some(rgb(0, 255, 255)),
        ChromaMode::White => Some(rgb(255, 255, 255)),
        ChromaMode::Black => Some(rgb(0, 0, 0)),
    }
}

impl ChromaMode {
    /// The mode that the chroma key cycles to next.
    pub fn next(&self) -> (r: ChromaMode)
        ensures
            r == chroma_next(*self),
    {
        match self {
            ChromaMode::Off => ChromaMode::Red,
            ChromaMode::Red => ChromaMode::Green,
            ChromaMode::Green => ChromaMode::Blue,
            ChromaMode::Blue => ChromaMode::Yellow,
            ChromaMode::Yellow => ChromaMode::Magenta,
            ChromaMode::Magenta => ChromaMode::Cyan,
            ChromaMode::Cyan => ChromaMode::White,
            ChromaMode::White => ChromaMode::Black,
            ChromaMode::Black => ChromaMode::Off,
        }
    }

    /// The mode before this one in the cycle.
    pub fn prev(&self) -> (r: ChromaMode)
        ensures
            r == chroma_prev(*self),
    {
        match self {
            ChromaMode::Off => ChromaMode::Black,
            ChromaMode::Red => ChromaMode::Off,
            ChromaMode::Green => ChromaMode::Red,
            ChromaMode::Blue => ChromaMode::Green,
            ChromaMode::Yellow => ChromaMode::Blue,
            ChromaMode::Magenta => ChromaMode::Yellow,
            ChromaMode::Cyan => ChromaMode::Magenta,
            ChromaMode::White => ChromaMode::Cyan,
            ChromaMode::Black => ChromaMode::White,
        }
    }

    /// The color keyed out.
    pub fn color(&self) -> (r: Option<Color>)
        ensures
            r == chroma_color(*self),
    {
        match self {
            ChromaMode::Off => None,
            ChromaMode::Red => Some(Color::new(255, 0, 0)),
            ChromaMode::Green => Some(Color::new(0, 255, 0)),
            ChromaMode::Blue => Some(Color::new(0, 0, 255)),
            ChromaMode::Yellow => Some(Color::new(255, 255, 0)),
            ChromaMode::Magenta => Some(Color::new(255, 0, 255)),
            ChromaMode::Cyan => Some(Color::new(0, 255, 255)),
            ChromaMode::White => Some(Color::new(255, 255, 255)),
            ChromaMode::Black => Some(Color::new(0, 0, 0)),
        }
    }
}

/// Cycling through the chroma modes comes back after nine steps, passing
/// every mode once.
pub proof fn lemma_chroma_cycle(m: ChromaMode)
    ensures
        chroma_next(chroma_next(chroma_next(chroma_next(chroma_next(chroma_next(chroma_next(chroma_next(chroma_next(m)))))))))
            == m,
        chroma_next(m) != m,
{
}

/// Stepping back undoes stepping forward, and the other way round.
pub proof fn lemma_chroma_prev_next(m: ChromaMode)
    ensures
        chroma_prev(chroma_next(m)) == m,
        chroma_next(chroma_prev(m)) == m,
{
}

/// `HHh MMm SSs mmmms` of a time in nanoseconds (fields zero-padded to two
/// digits, three for milliseconds), or a blank `N/A` of the same width.
pub open spec fn format_time_spec(time: Option<u64>) -> Seq<char> {
    match time {
        Some(t) => {
            let secs = t / 1_000_000_000;
            decimal_padded((secs / 3600) as nat, 2) + seq!['h', ' '] + decimal_padded(((secs % 3600) / 60) as nat, 2)
                + seq!['m', ' '] + decimal_padded((secs % 60) as nat, 2) + seq!['s', ' '] + decimal_padded(
                ((t % 1_000_000_000) / 1_000_000) as nat,
                3,
            ) + seq!['m', 's']
        },
        None => "       N/A       "@,
    }
}

/// Formats a playback time for the overlay, as `format_time_spec` says.
pub fn format_time(time: Option<u64>) -> (r: String)
    ensures
        r@ == format_time_spec(time),
{
    match time {
        Some(t) => {
            let secs = t / 1_000_000_000;
            let mut s = String::new();
            push_decimal_padded(&mut s, secs / 3600, 2);
            s.push('h');
            s.push(' ');
            push_decimal_padded(&mut s, (secs % 3600) / 60, 2);
            s.push('m');
            s.push(' ');
            push_decimal_padded(&mut s, secs % 60, 2);
            s.push('s');
            s.push(' ');
            push_decimal_padded(&mut s, (t % 1_000_000_000) / 1_000_000, 3);
            s.push('m');
            s.push('s');
            assert(s@ =~= format_time_spec(time));
            s
        },
        None => "       N/A       ".to_owned(),
    }
}

/// The keys of the panels: `h` (help), `q` (quit when asked to confirm),
/// `c` (cancel quitting), `x` and `X` (chroma key), `o` (overlay text) and
/// `t` (test messages).
pub open spec fn panel_keys() -> Seq<Key> {
    seq![
        Key::Normal('h'),
        Key::Normal('q'),
        Key::Normal('c'),
        Key::Lower('x'),
        Key::Upper('x'),
        Key::Normal('o'),
        Key::Normal('t'),
    ]
}

/// The keys of the file selector: `q` closes it, space and Enter (either
/// form) open the
/// selected entry, `w`/Up and `s`/Down move, `a`/Left goes to the parent
/// directory and `d`/Right into the selected one.
pub open spec fn file_select_keys() -> Seq<Key> {
    seq![
        Key::Normal('q'),
        Key::Normal(' '),
        Key::Enter,
        Key::Normal('\n'),
        Key::Normal('w'),
        Key::Up,
        Key::Normal('s'),
        Key::Down,
        Key::Normal('a'),
        Key::Left,
        Key::Normal('d'),
        Key::Right,
    ]
}

/// Registers the handlers of the panels: the mouse on the progress bar and
/// the wheel, the panels' keys, then the file selector's.
pub fn register_input_callbacks(keys: &mut KeypressCallbacks<KeyHandler>, mice: &mut Callbacks<MouseHandler>)
    ensures
        final(mice).registered() == old(mice).registered().push(MouseHandler::ProgressBar).push(MouseHandler::Volume),
        final(keys).registered() == old(keys).registered() + slot_entries(for_keys(panel_keys(), KeyHandler::Panels))
            + slot_entries(for_keys(file_select_keys(), KeyHandler::FileSelect)),
{
    mice.push(MouseHandler::ProgressBar);
    mice.push(MouseHandler::Volume);
    let panels = vec![
        (Key::Normal('h'), KeyHandler::Panels),
        (Key::Normal('q'), KeyHandler::Panels),
        (Key::Normal('c'), KeyHandler::Panels),
        (Key::Lower('x'), KeyHandler::Panels),
        (Key::Upper('x'), KeyHandler::Panels),
        (Key::Normal('o'), KeyHandler::Panels),
        (Key::Normal('t'), KeyHandler::Panels),
    ];
    assert(panels@ =~= for_keys(panel_keys(), KeyHandler::Panels));
    keys.register_all(&panels);
    let files = vec![
        (Key::Normal('q'), KeyHandler::FileSelect),
        (Key::Normal(' '), KeyHandler::FileSelect),
        (Key::Enter, KeyHandler::FileSelect),
        (Key::Normal('\n'), KeyHandler::FileSelect),
        (Key::Normal('w'), KeyHandler::FileSelect),
        (Key::Up, KeyHandler::FileSelect),
        (Key::Normal('s'), KeyHandler::FileSelect),
        (Key::Down, KeyHandler::FileSelect),
        (Key::Normal('a'), KeyHandler::FileSelect),
        (Key::Left, KeyHandler::FileSelect),
        (Key::Normal('d'), KeyHandler::FileSelect),
        (Key::Right, KeyHandler::FileSelect),
    ];
    assert(files@ =~= for_keys(file_select_keys(), KeyHandler::FileSelect));
    keys.register_all(&files);
}

} // verus!
