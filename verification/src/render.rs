//! The renderer's bookkeeping: the terminal size, where the video goes in
//! it, and the escape sequences that bring the terminal from the last frame
//! to the new one.
use vstd::prelude::*;
use crate::text::{char_width, push_decimal, width_at_least_one, width_at_least_one_of, decimal};
use crate::util::{
    Cell, CellGrid, Color, escape_set_color, escape_set_color_spec, is_placeholder, some_if_ne, rgb,
};

verus! {

// ===== terminal size =====

/// The size of the terminal as the system reports it.
#[derive(Clone, Copy, PartialEq, Eq, Structural, Debug)]
pub struct Winsize {
    pub row: u16,
    pub col: u16,
    pub xpixel: u16,
    pub ypixel: u16,
}

/// The terminal size in cells and pixels: 80x24 cells when it is not known
/// or zero, and 8x16 pixels per cell when the pixel size is not known.
pub open spec fn effective_size(ws: Option<Winsize>) -> (usize, usize, usize, usize) {
    let w = match ws {
        Some(w) => w,
        None => Winsize { row: 24, col: 80, xpixel: 0, ypixel: 0 },
    };
    let (xc, yc) = if w.col == 0 || w.row == 0 {
        (80usize, 24usize)
    } else {
        (w.col as usize, w.row as usize)
    };
    if w.xpixel == 0 || w.ypixel == 0 {
        (xc, yc, (xc * 8) as usize, (yc * 16) as usize)
    } else {
        (xc, yc, w.xpixel as usize, w.ypixel as usize)
    }
}

pub fn effective_terminal_size(ws: Option<Winsize>) -> (r: (usize, usize, usize, usize))
    ensures
        r == effective_size(ws),
        r.0 >= 1 && r.1 >= 1 && r.2 >= 1 && r.3 >= 1,
        r.0 <= 65535 && r.1 <= 65535 && r.2 <= 65535 * 8 && r.3 <= 65535 * 16,
{
    let w = match ws {
        Some(w) => w,
        None => Winsize { row: 24, col: 80, xpixel: 0, ypixel: 0 },
    };
    let (xc, yc): (usize, usize) = if w.col == 0 || w.row == 0 {
        (80, 24)
    } else {
        (w.col as usize, w.row as usize)
    };
    if w.xpixel == 0 || w.ypixel == 0 {
        (xc, yc, xc * 8, yc * 16)
    } else {
        (xc, yc, w.xpixel as usize, w.ypixel as usize)
    }
}

/// Where the video goes: the padding (top, bottom, left, right) and the
/// size of the video area, in cells.
#[derive(Clone, Copy, PartialEq, Eq, Structural, Debug)]
pub struct VideoFit {
    pub padding_top: usize,
    pub padding_bottom: usize,
    pub padding_left: usize,
    pub padding_right: usize,
    pub video_cells_width: usize,
    pub video_cells_height: usize,
}

/// The video of `xv` x `yv` pixels fitted into `xc` x `yc` cells of
/// `xp` x `yp` pixels: letterboxed (equal bars above and below) when the
/// video is wider than the terminal, pillarboxed when it is narrower, the
/// whole terminal when the ratios agree or there is no video.
pub open spec fn fit_spec(xc: int, yc: int, xp: int, yp: int, xv: int, yv: int) -> (int, int, int, int, int, int) {
    let d = xv * yp - yv * xp;
    if d == 0 {
        (0, 0, 0, 0, xc, yc)
    } else if d > 0 {
        let y = (yc * xp * yv) / (xv * yp);
        let p = (yc - y) / 2;
        (p, p, 0, 0, xc, yc - 2 * p)
    } else {
        let x = (xc * yp * xv) / (yv * xp);
        let p = (xc - x) / 2;
        (0, 0, p, p, xc - 2 * p, yc)
    }
}

/// The arithmetic of fitting stays in range: the products fit the integer
/// types that compute them.
pub open spec fn fit_in_range(xc: int, yc: int, xp: int, yp: int, xv: int, yv: int) -> bool {
    &&& xv * yp <= i64::MAX
    &&& yv * xp <= i64::MAX
    &&& xv * yp <= usize::MAX
    &&& yv * xp <= usize::MAX
    &&& yc * xp * yv <= usize::MAX
    &&& xc * yp * xv <= usize::MAX
}

proof fn lemma_fit_bounds(c: int, p1: int, v1: int, v2: int, p2: int)
    requires
        c >= 1,
        p1 >= 1,
        p2 >= 1,
        v1 >= 0,
        v2 >= 1,
        v2 * p2 > v1 * p1,
    ensures
        0 <= (c * p1 * v1) / (v2 * p2) < c,
{
    assert(c * p1 * v1 < c * (v2 * p2)) by (nonlinear_arith)
        requires
            c >= 1,
            v2 * p2 > v1 * p1,
    ;
    assert(c * p1 * v1 >= 0) by (nonlinear_arith)
        requires
            c >= 1,
            p1 >= 1,
            v1 >= 0,
    ;
    assert(v2 * p2 >= 1) by (nonlinear_arith)
        requires
            v2 >= 1,
            p2 >= 1,
    ;
    let n = c * p1 * v1;
    let m = v2 * p2;
    assert(n / m < c) by (nonlinear_arith)
        requires
            0 <= n < c * m,
            m >= 1,
    ;
    assert(n / m >= 0) by (nonlinear_arith)
        requires
            0 <= n,
            m >= 1,
    ;
}

proof fn lemma_mul_ge(a: int, b: int)
    requires
        a >= 0,
        b >= 1,
    ensures
        a * b >= a,
{
    assert(a * b >= a) by (nonlinear_arith)
        requires
            a >= 0,
            b >= 1,
    ;
}

proof fn lemma_mul_nonneg(a: int, b: int)
    requires
        a >= 0,
        b >= 0,
    ensures
        a * b >= 0,
{
    assert(a * b >= 0) by (nonlinear_arith)
        requires
            a >= 0,
            b >= 0,
    ;
}

/// Fits the video into the terminal, as `fit_spec` says (the terminal sizes
/// are those of `effective_size`).
fn fit_video(xc: usize, yc: usize, xp: usize, yp: usize, xv: usize, yv: usize) -> (r: VideoFit)
    requires
        1 <= xc <= 0x100000 && 1 <= yc <= 0x100000 && 1 <= xp <= 0x100000 && 1 <= yp <= 0x100000,
        (xv == 0) == (yv == 0),
        fit_in_range(xc as int, yc as int, xp as int, yp as int, xv as int, yv as int),
    ensures
        (r.padding_top as int, r.padding_bottom as int, r.padding_left as int, r.padding_right as int, r.video_cells_width
            as int, r.video_cells_height as int) == fit_spec(xc as int, yc as int, xp as int, yp as int, xv as int, yv as int),
{
    proof {
        lemma_mul_ge(xv as int, yp as int);
        lemma_mul_ge(yv as int, xp as int);
        lemma_mul_nonneg(xv as int, yp as int);
        lemma_mul_nonneg(yv as int, xp as int);
    }
    let a = (xv as i64) * (yp as i64);
    let b = (yv as i64) * (xp as i64);
    if a == b {
        VideoFit {
            padding_top: 0,
            padding_bottom: 0,
            padding_left: 0,
            padding_right: 0,
            video_cells_width: xc,
            video_cells_height: yc,
        }
    } else if a > b {
        proof {
            if xv == 0 {
                assert(xv * yp == 0) by (nonlinear_arith)
                    requires
                        xv == 0,
                ;
            }
            lemma_fit_bounds(yc as int, xp as int, yv as int, xv as int, yp as int);
            lemma_mul_ge((yc * xp) as int, yv as int);
            lemma_mul_ge(yc as int, xp as int);
            assert(yc * xp * yv == (yc * xp) * yv) by (nonlinear_arith);
        }
        let n = yc * xp * yv;
        let m = xv * yp;
        let y = n / m;
        let p = (yc - y) / 2;
        VideoFit {
            padding_top: p,
            padding_bottom: p,
            padding_left: 0,
            padding_right: 0,
            video_cells_width: xc,
            video_cells_height: yc - p * 2,
        }
    } else {
        proof {
            if yv == 0 {
                assert(yv * xp == 0) by (nonlinear_arith)
                    requires
                        yv == 0,
                ;
            }
            lemma_fit_bounds(xc as int, yp as int, xv as int, yv as int, xp as int);
            lemma_mul_ge((xc * yp) as int, xv as int);
            lemma_mul_ge(xc as int, yp as int);
            assert(xc * yp * xv == (xc * yp) * xv) by (nonlinear_arith);
        }
        let n = xc * yp * xv;
        let m = yv * xp;
        let x = n / m;
        let p = (xc - x) / 2;
        VideoFit {
            padding_top: 0,
            padding_bottom: 0,
            padding_left: p,
            padding_right: p,
            video_cells_width: xc - p * 2,
            video_cells_height: yc,
        }
    }
}

/// The video area and its padding fill the terminal exactly, and the video
/// area is centred.
pub proof fn lemma_fit_fills(xc: int, yc: int, xp: int, yp: int, xv: int, yv: int)
    requires
        xc >= 1 && yc >= 1 && xp >= 1 && yp >= 1,
        xv >= 0 && yv >= 0,
        (xv == 0) == (yv == 0),
    ensures
        ({
            let f = fit_spec(xc, yc, xp, yp, xv, yv);
            &&& f.0 + f.5 + f.1 == yc
            &&& f.2 + f.4 + f.3 == xc
            &&& f.0 == f.1 && f.2 == f.3
            &&& f.0 >= 0 && f.2 >= 0 && f.4 >= 0 && f.5 >= 0
        }),
{
    let d = xv * yp - yv * xp;
    lemma_mul_nonneg(xv, yp);
    lemma_mul_nonneg(yv, xp);
    if d > 0 {
        if xv == 0 {
            assert(xv * yp == 0) by (nonlinear_arith)
                requires
                    xv == 0,
            ;
        }
        lemma_fit_bounds(yc, xp, yv, xv, yp);
    } else if d < 0 {
        if yv == 0 {
            assert(yv * xp == 0) by (nonlinear_arith)
                requires
                    yv == 0,
            ;
        }
        lemma_fit_bounds(xc, yp, xv, yv, xp);
    }
}

// ===== the frame diff =====

/// The state of encoding one row: the colors set last, how many unchanged
/// cells are waiting to be skipped, and the text so far.
pub struct DiffState {
    pub fg: Color,
    pub bg: Color,
    pub skip: nat,
    pub out: Seq<char>,
}

/// The width the diff encoder gives a cell's glyph: at least one column;
/// one for a video cell.
pub open spec fn cell_width(c: Cell) -> int {
    match c.c {
        Some(ch) => width_at_least_one(ch),
        None => 1,
    }
}

/// `ESC [ C` moves the cursor one cell right, `ESC [ n C` moves it `n`.
pub open spec fn skip_text(n: nat) -> Seq<char> {
    if n == 0 {
        Seq::empty()
    } else if n == 1 {
        seq!['\x1b', '[', 'C']
    } else {
        seq!['\x1b', '['] + decimal(n) + seq!['C']
    }
}

pub open spec fn transparent_color() -> Color {
    Color { r: 0, g: 0, b: 0, a: 0 }
}

/// The changed-color part of the escape: only the colors that differ from
/// the ones set last.
pub open spec fn color_change(cell: Cell, st: DiffState) -> Seq<char> {
    escape_set_color_spec(
        if cell.fg == st.fg {
            None
        } else {
            Some(cell.fg)
        },
        if cell.bg == st.bg {
            None
        } else {
            Some(cell.bg)
        },
    )
}

/// One cell of a row: trailing halves of wide glyphs are skipped over, an
/// unchanged narrow cell is skipped (unless the whole frame is redrawn), and
/// any other cell moves over the skipped cells, sets the colors that changed
/// and prints its glyph (the default glyph for a video cell).
pub open spec fn diff_step(st: DiffState, cell: Cell, last: Cell, force: bool, default_char: char) -> DiffState {
    if is_placeholder(cell) {
        st
    } else if !force && cell == last && cell_width(cell) == 1 {
        DiffState { skip: st.skip + 1, ..st }
    } else {
        let glyph = match cell.c {
            Some(ch) => ch,
            None => default_char,
        };
        DiffState {
            fg: cell.fg,
            bg: cell.bg,
            skip: 0,
            out: st.out + skip_text(st.skip) + color_change(cell, st) + seq![glyph],
        }
    }
}

pub open spec fn diff_start() -> DiffState {
    DiffState { fg: transparent_color(), bg: transparent_color(), skip: 0, out: Seq::empty() }
}

/// The state after the first `n` cells of a row.
pub open spec fn diff_fold(cells: Seq<Cell>, lasts: Seq<Cell>, n: int, force: bool, default_char: char) -> DiffState
    decreases n,
{
    if n <= 0 {
        diff_start()
    } else {
        diff_step(diff_fold(cells, lasts, n - 1, force, default_char), cells[n - 1], lasts[n - 1], force, default_char)
    }
}

/// The text that brings a row of the terminal from `lasts` to `cells`
/// (trailing skipped cells need no text).
pub open spec fn diff_line_spec(cells: Seq<Cell>, lasts: Seq<Cell>, force: bool, default_char: char) -> Seq<char> {
    diff_fold(cells, lasts, cells.len() as int, force, default_char).out
}

fn push_skip(s: &mut String, n: u64)
    ensures
        final(s)@ == old(s)@ + skip_text(n as nat),
{
    if n == 1 {
        s.push('\x1b');
        s.push('[');
        s.push('C');
        assert(final(s)@ =~= old(s)@ + skip_text(n as nat));
    } else if n > 1 {
        s.push('\x1b');
        s.push('[');
        push_decimal(s, n);
        s.push('C');
        assert(final(s)@ =~= old(s)@ + skip_text(n as nat));
    } else {
        assert(final(s)@ =~= old(s)@ + skip_text(n as nat));
    }
}

fn push_str_of(s: &mut String, t: &String)
    ensures
        final(s)@ == old(s)@ + t@,
{
    crate::text::push_all(s, t.as_str());
}

/// Encodes one row: the cells `cells[from..to]` against `lasts[from..to]`,
/// as `diff_line_spec` says.
pub fn print_diff_line(cells: &Vec<Cell>, lasts: &Vec<Cell>, from: usize, to: usize, force: bool, default_char: char) -> (r: String)
    requires
        from <= to <= cells@.len(),
        to <= lasts@.len(),
    ensures
        r@ == diff_line_spec(
            cells@.subrange(from as int, to as int),
            lasts@.subrange(from as int, to as int),
            force,
            default_char,
        ),
{
    let ghost cs = cells@.subrange(from as int, to as int);
    let ghost ls = lasts@.subrange(from as int, to as int);
    let mut last_fg = Color::transparent();
    let mut last_bg = Color::transparent();
    let mut skip: u64 = 0;
    let mut buf = String::new();
    let mut i = from;
    while i < to
        invariant
            from <= i <= to <= cells@.len(),
            to <= lasts@.len(),
            cs == cells@.subrange(from as int, to as int),
            ls == lasts@.subrange(from as int, to as int),
            skip <= i - from,
            diff_fold(cs, ls, i - from, force, default_char) == (DiffState {
                fg: last_fg,
                bg: last_bg,
                skip: skip as nat,
                out: buf@,
            }),
        decreases to - i,
    {
        let cell = cells[i];
        let last = lasts[i];
        assert(cs[i - from] == cell && ls[i - from] == last);
        let placeholder = match cell.c {
            Some(ch) => ch == '\0',
            None => false,
        };
        if placeholder {
            i = i + 1;
            continue;
        }
        let cw: usize = match cell.c {
            Some(ch) => width_at_least_one_of(ch),
            None => 1,
        };
        if !force && cell == last && cw == 1 {
            skip = skip + 1;
            i = i + 1;
            continue;
        }
        push_skip(&mut buf, skip);
        skip = 0;
        let fg = if cell.fg == last_fg {
            None
        } else {
            Some(cell.fg)
        };
        let bg = if cell.bg == last_bg {
            None
        } else {
            Some(cell.bg)
        };
        let esc = escape_set_color(fg, bg);
        push_str_of(&mut buf, &esc);
        let glyph = match cell.c {
            Some(ch) => ch,
            None => default_char,
        };
        let ghost b1 = buf@;
        buf.push(glyph);
        assert(buf@ =~= b1 + seq![glyph]);
        last_fg = cell.fg;
        last_bg = cell.bg;
        i = i + 1;
    }
    buf
}

/// `ESC [ m ESC [ H`: reset the colors and go home.
pub open spec fn frame_head() -> Seq<char> {
    seq!['\x1b', '[', 'm', '\x1b', '[', 'H']
}

/// `ESC [ m ESC [ E`: reset the colors and go to the next line.
pub open spec fn line_break() -> Seq<char> {
    seq!['\x1b', '[', 'm', '\x1b', '[', 'E']
}

/// The rows of a grid, each encoded and joined by line breaks, after the
/// frame head.
pub open spec fn frame_text(cells: Seq<Cell>, lasts: Seq<Cell>, width: int, pitch: int, rows: int, force: bool, default_char: char) -> Seq<char>
    decreases rows,
{
    if rows <= 0 {
        frame_head()
    } else {
        frame_text(cells, lasts, width, pitch, rows - 1, force, default_char) + (if rows > 1 {
            line_break()
        } else {
            Seq::empty()
        }) + diff_line_spec(
            cells.subrange((rows - 1) * pitch, (rows - 1) * pitch + width),
            lasts.subrange((rows - 1) * pitch, (rows - 1) * pitch + width),
            force,
            default_char,
        )
    }
}

/// Encodes a whole frame: the rows of `cells` against those of `lasts`, as
/// `frame_text` says.
pub fn print_diff(cells: &CellGrid, lasts: &CellGrid, force: bool, default_char: char) -> (r: String)
    requires
        cells.wf(),
        lasts.wf(),
        lasts.width == cells.width,
        lasts.height == cells.height,
        lasts.pitch == cells.pitch,
    ensures
        r@ == frame_text(cells.cells@, lasts.cells@, cells.width as int, cells.pitch as int, cells.height as int, force, default_char),
{
    let mut buf = String::new();
    buf.push('\x1b');
    buf.push('[');
    buf.push('m');
    buf.push('\x1b');
    buf.push('[');
    buf.push('H');
    assert(buf@ =~= frame_head());
    let mut y: usize = 0;
    while y < cells.height
        invariant
            cells.wf(),
            lasts.wf(),
            lasts.width == cells.width,
            lasts.height == cells.height,
            lasts.pitch == cells.pitch,
            y <= cells.height,
            buf@ == frame_text(cells.cells@, lasts.cells@, cells.width as int, cells.pitch as int, y as int, force, default_char),
        decreases cells.height - y,
    {
        if y != 0 {
            buf.push('\x1b');
            buf.push('[');
            buf.push('m');
            buf.push('\x1b');
            buf.push('[');
            buf.push('E');
        }
        proof {
            assert(y * cells.pitch + cells.width <= cells.pitch * cells.height) by (nonlinear_arith)
                requires
                    y < cells.height,
                    cells.width <= cells.pitch,
            ;
        }
        let start = y * cells.pitch;
        let line = print_diff_line(&cells.cells, &lasts.cells, start, start + cells.width, force, default_char);
        let ghost b0 = buf@;
        push_str_of(&mut buf, &line);
        assert(buf@ =~= frame_text(cells.cells@, lasts.cells@, cells.width as int, cells.pitch as int, y + 1, force, default_char));
        y = y + 1;
    }
    buf
}

/// With nothing forced, a row whose cells are all unchanged, narrow and not
/// halves of wide glyphs encodes to nothing: an unchanged frame costs no
/// output but its frame head and line breaks.
pub proof fn lemma_unchanged_row_is_silent(cells: Seq<Cell>, lasts: Seq<Cell>, default_char: char, n: int)
    requires
        0 <= n <= cells.len(),
        n <= lasts.len(),
        forall|i: int| 0 <= i < n ==> cells[i] == lasts[i] && cell_width(#[trigger] cells[i]) == 1,
    ensures
        diff_fold(cells, lasts, n, false, default_char).out == Seq::<char>::empty(),
    decreases n,
{
    if n > 0 {
        lemma_unchanged_row_is_silent(cells, lasts, default_char, n - 1);
        assert(cell_width(cells[n - 1]) == 1);
    }
}

/// Redrawing everything prints one glyph for every cell that is not the
/// trailing half of a wide glyph.
pub open spec fn glyph_count(cells: Seq<Cell>, n: int) -> int
    decreases n,
{
    if n <= 0 {
        0
    } else {
        glyph_count(cells, n - 1) + if is_placeholder(cells[n - 1]) {
            0int
        } else {
            1int
        }
    }
}

/// A forced redraw never skips: no cursor movement is pending at any point.
pub proof fn lemma_forced_never_skips(cells: Seq<Cell>, lasts: Seq<Cell>, default_char: char, n: int)
    requires
        0 <= n <= cells.len(),
    ensures
        diff_fold(cells, lasts, n, true, default_char).skip == 0,
    decreases n,
{
    if n > 0 {
        lemma_forced_never_skips(cells, lasts, default_char, n - 1);
    }
}

// ===== the layout state =====

/// The renderer's sizes: the terminal in cells and pixels, the padding
/// around the video, the video's own size and its area in cells, the frame
/// size and the pixels per cell, and the cell grids of this frame and the
/// last one.
pub struct RenderLayout {
    pub force_flush_next: bool,
    pub frame_width: usize,
    pub frame_height: usize,
    pub cells: Option<CellGrid>,
    pub lasts: Option<CellGrid>,
    pub cells_width: usize,
    pub cells_height: usize,
    pub cells_pitch: usize,
    pub pixels_width: usize,
    pub pixels_height: usize,
    pub padding_left: usize,
    pub padding_right: usize,
    pub padding_top: usize,
    pub padding_bottom: usize,
    pub video_origin_width: usize,
    pub video_origin_height: usize,
    pub video_cells_width: usize,
    pub video_cells_height: usize,
    pub fppc_x: usize,
    pub fppc_y: usize,
}

/// What `update_size` did.
#[derive(Clone, Copy, PartialEq, Eq, Structural, Debug)]
pub enum SizeUpdate {
    /// Nothing changed.
    Unchanged,
    /// The sizes were recomputed and the grids reset; with `true`, the frame
    /// size is still to be computed from the font size (no pixels per cell
    /// are set).
    Resized(bool),
}

/// The sizes would not change: the same terminal, and the same video size
/// given.
pub open spec fn size_unchanged(l: RenderLayout, ws: Option<Winsize>, xvideo: Option<usize>, yvideo: Option<usize>) -> bool {
    let (xc, yc, xp, yp) = effective_size(ws);
    &&& l.cells_width == xc && l.cells_height == yc
    &&& l.pixels_width == xp && l.pixels_height == yp
    &&& xvideo == Some(l.video_origin_width) && yvideo == Some(l.video_origin_height)
}

/// The video size in use after an update.
pub open spec fn new_origin(l: RenderLayout, xvideo: Option<usize>, yvideo: Option<usize>) -> (usize, usize) {
    match (xvideo, yvideo) {
        (Some(x), Some(y)) => (x, y),
        _ => (l.video_origin_width, l.video_origin_height),
    }
}

/// The update can go through: the video size is either unknown in both
/// directions or known in both, the fitting arithmetic stays in range, and
/// the frame size fits.
pub open spec fn size_update_ok(l: RenderLayout, ws: Option<Winsize>, xvideo: Option<usize>, yvideo: Option<usize>) -> bool {
    let (xc, yc, xp, yp) = effective_size(ws);
    let (xv, yv) = new_origin(l, xvideo, yvideo);
    size_unchanged(l, ws, xvideo, yvideo) || {
        &&& (xv == 0) == (yv == 0)
        &&& fit_in_range(xc as int, yc as int, xp as int, yp as int, xv as int, yv as int)
        &&& xc * l.fppc_x <= usize::MAX
        &&& yc * l.fppc_y <= usize::MAX
        &&& xc * yc + 1 <= isize::MAX
    }
}

impl RenderLayout {
    pub fn new() -> (r: RenderLayout)
        ensures
            r.force_flush_next,
            r.cells is None && r.lasts is None,
            r.cells_width == 0 && r.cells_height == 0 && r.pixels_width == 0 && r.pixels_height == 0,
            r.video_origin_width == 0 && r.video_origin_height == 0,
            r.fppc_x == 1 && r.fppc_y == 2,
    {
        RenderLayout {
            force_flush_next: true,
            frame_width: 0,
            frame_height: 0,
            cells: None,
            lasts: None,
            cells_width: 0,
            cells_height: 0,
            cells_pitch: 0,
            pixels_width: 0,
            pixels_height: 0,
            padding_left: 0,
            padding_right: 0,
            padding_top: 0,
            padding_bottom: 0,
            video_origin_width: 0,
            video_origin_height: 0,
            video_cells_width: 0,
            video_cells_height: 0,
            fppc_x: 1,
            fppc_y: 2,
        }
    }

    /// The next frame is drawn in full.
    pub fn force_flush_next(&mut self)
        ensures
            final(self).force_flush_next,
            final(self).cells_width == old(self).cells_width,
    {
        self.force_flush_next = true;
    }

    /// Recomputes the sizes for the terminal size `ws` and, when both are
    /// given, the video size: the terminal's size in cells and pixels, the
    /// video's place in it, the frame size, and fresh cell grids; nothing
    /// changes when neither size did.
    pub fn update_size(&mut self, ws: Option<Winsize>, xvideo: Option<usize>, yvideo: Option<usize>) -> (r: SizeUpdate)
        requires
            size_update_ok(*old(self), ws, xvideo, yvideo),
        ensures
            size_unchanged(*old(self), ws, xvideo, yvideo) ==> r == SizeUpdate::Unchanged,
            !size_unchanged(*old(self), ws, xvideo, yvideo) ==> {
                let (xc, yc, xp, yp) = effective_size(ws);
                let (xv, yv) = new_origin(*old(self), xvideo, yvideo);
                let f = fit_spec(xc as int, yc as int, xp as int, yp as int, xv as int, yv as int);
                let zero = old(self).fppc_x == 0 || old(self).fppc_y == 0;
                &&& r == SizeUpdate::Resized(zero)
                &&& final(self).cells_width == xc && final(self).cells_height == yc
                &&& final(self).cells_pitch == xc
                &&& final(self).pixels_width == xp && final(self).pixels_height == yp
                &&& final(self).video_origin_width == xv && final(self).video_origin_height == yv
                &&& final(self).padding_top == f.0 && final(self).padding_bottom == f.1
                &&& final(self).padding_left == f.2 && final(self).padding_right == f.3
                &&& final(self).video_cells_width == f.4 && final(self).video_cells_height == f.5
                &&& zero ==> final(self).fppc_x == 0 && final(self).fppc_y == 0
                &&& !zero ==> final(self).fppc_x == old(self).fppc_x && final(self).fppc_y == old(self).fppc_y
                    && final(self).frame_width == f.4 * old(self).fppc_x && final(self).frame_height == f.5
                    * old(self).fppc_y
                &&& final(self).cells matches Some(g) && g.wf() && g.width == xc && g.height == yc && g.pitch == xc
                    && g.cells@.len() == xc * yc + 1 && forall|i: int|
                    0 <= i < g.cells@.len() ==> g.cells@[i] == (Cell { c: None, fg: rgb(0, 0, 0), bg: rgb(0, 0, 0) })
                &&& final(self).lasts matches Some(g) && g.wf() && g.width == xc && g.height == yc && g.pitch == xc
                    && g.cells@.len() == xc * yc + 1 && forall|i: int|
                    0 <= i < g.cells@.len() ==> g.cells@[i] == (Cell { c: None, fg: rgb(0, 0, 0), bg: rgb(0, 0, 0) })
                &&& final(self).force_flush_next
            },
    {
        let (xc, yc, xp, yp) = effective_terminal_size(ws);
        if self.cells_width == xc && self.cells_height == yc && self.pixels_width == xp && self.pixels_height == yp {
            match (xvideo, yvideo) {
                (Some(x), Some(y)) => {
                    if x == self.video_origin_width && y == self.video_origin_height {
                        return SizeUpdate::Unchanged;
                    }
                },
                _ => {},
            }
        }
        self.cells_width = xc;
        self.cells_height = yc;
        self.cells_pitch = xc;
        self.pixels_width = xp;
        self.pixels_height = yp;
        match (xvideo, yvideo) {
            (Some(x), Some(y)) => {
                self.video_origin_width = x;
                self.video_origin_height = y;
            },
            _ => {},
        }
        let zero = self.fppc_x == 0 || self.fppc_y == 0;
        let fit = fit_video(xc, yc, xp, yp, self.video_origin_width, self.video_origin_height);
        self.padding_top = fit.padding_top;
        self.padding_bottom = fit.padding_bottom;
        self.padding_left = fit.padding_left;
        self.padding_right = fit.padding_right;
        self.video_cells_width = fit.video_cells_width;
        self.video_cells_height = fit.video_cells_height;
        proof {
            lemma_fit_fills(
                xc as int,
                yc as int,
                xp as int,
                yp as int,
                self.video_origin_width as int,
                self.video_origin_height as int,
            );
        }
        if zero {
            self.fppc_x = 0;
            self.fppc_y = 0;
        } else {
            assert(fit.video_cells_width * self.fppc_x <= xc * self.fppc_x) by (nonlinear_arith)
                requires
                    fit.video_cells_width <= xc,
            ;
            assert(fit.video_cells_height * self.fppc_y <= yc * self.fppc_y) by (nonlinear_arith)
                requires
                    fit.video_cells_height <= yc,
            ;
            self.frame_width = fit.video_cells_width * self.fppc_x;
            self.frame_height = fit.video_cells_height * self.fppc_y;
        }
        self.cells = Some(CellGrid::new(xc, yc));
        self.lasts = Some(CellGrid::new(xc, yc));
        self.force_flush_next = true;
        SizeUpdate::Resized(zero)
    }

    /// Where no pixels per cell are set, the frame size computed from the
    /// font size, kept no larger than the video where the video size is known.
    pub fn clamp_frame(&mut self, frame_width: usize, frame_height: usize)
        ensures
            final(self).frame_width == (if frame_width > old(self).video_origin_width && old(self).video_origin_width
                != 0 {
                old(self).video_origin_width
            } else {
                frame_width
            }),
            final(self).frame_height == (if frame_height > old(self).video_origin_height
                && old(self).video_origin_height != 0 {
                old(self).video_origin_height
            } else {
                frame_height
            }),
            final(self).video_origin_width == old(self).video_origin_width,
            final(self).video_origin_height == old(self).video_origin_height,
    {
        self.frame_width = if frame_width > self.video_origin_width && self.video_origin_width != 0 {
            self.video_origin_width
        } else {
            frame_width
        };
        self.frame_height = if frame_height > self.video_origin_height && self.video_origin_height != 0 {
            self.video_origin_height
        } else {
            frame_height
        };
    }
}


// ===== the video cells =====

pub open spec fn clear_color() -> Color {
    Color { r: 0, g: 0, b: 0, a: 0 }
}

/// The cell of the video at (`fx`, `fy`) of the video area, from a frame
/// `fp` pixels wide with `rows` pixel rows per cell row. With one row, the
/// pixel is the foreground; with two, the lower pixel is the foreground and
/// the upper one the background. Where a chroma key is set, `keyed` tells
/// which pixels match it: a matching pixel is left out (the other pixel of
/// the cell takes its place), and a cell of matching pixels only is a
/// transparent blank.
pub open spec fn video_cell(frame: Seq<Color>, fp: int, keyed: Option<Seq<bool>>, rows: int, fx: int, fy: int) -> Cell {
    let t = clear_color();
    if rows == 1 {
        let i = fy * fp + fx;
        if keyed is Some && keyed->0[i] {
            Cell { c: Some(' '), fg: t, bg: t }
        } else {
            Cell { c: None, fg: frame[i], bg: t }
        }
    } else {
        let bi = fy * fp * 2 + fx;
        let fi = bi + fp;
        let fg = frame[fi];
        let bg = frame[bi];
        match keyed {
            None => Cell { c: None, fg, bg },
            Some(k) => if k[fi] && k[bi] {
                Cell { c: Some(' '), fg: t, bg: t }
            } else if k[fi] {
                Cell { c: None, fg: bg, bg }
            } else if k[bi] {
                Cell { c: None, fg, bg: fg }
            } else {
                Cell { c: None, fg, bg }
            },
        }
    }
}

/// Whether cell `i` of a grid with rows `pitch` apart lies in rows
/// `y0..y1` and columns `x0..x1`.
pub open spec fn in_area(i: int, pitch: int, y0: int, y1: int, x0: int, x1: int) -> bool {
    y0 <= i / pitch < y1 && x0 <= i % pitch < x1
}

pub open spec fn keyed_view(keyed: Option<&Vec<bool>>) -> Option<Seq<bool>> {
    match keyed {
        Some(k) => Some(k@),
        None => None,
    }
}

/// The frame holds the pixels of a video area of `vw` x `vh` cells.
pub open spec fn frame_covers(frame_len: int, keyed: Option<Seq<bool>>, fp: int, rows: int, vw: int, vh: int) -> bool {
    &&& vw <= fp
    &&& vh * rows * fp <= frame_len
    &&& keyed matches Some(k) ==> k.len() == frame_len
}

proof fn lemma_frame_index(fy: int, fx: int, fp: int, rows: int, vh: int)
    requires
        0 <= fy < vh,
        0 <= fx < fp,
        rows == 1 || rows == 2,
    ensures
        fy * fp * rows + fx + (rows - 1) * fp < vh * rows * fp,
        fy * fp * rows >= 0,
        fy * fp * 2 == fy * fp * rows || rows == 1,
        rows == 1 ==> fy * fp + fx < vh * rows * fp,
{
    if rows == 1 {
        assert(fy * fp + fx < vh * rows * fp) by (nonlinear_arith)
            requires
                0 <= fy < vh,
                0 <= fx < fp,
                rows == 1,
        ;
    }
    assert(fy * fp * rows + fx + (rows - 1) * fp < (fy + 1) * rows * fp) by (nonlinear_arith)
        requires
            0 <= fx < fp,
            rows == 1 || rows == 2,
            fy >= 0,
    ;
    assert((fy + 1) * rows * fp <= vh * rows * fp) by (nonlinear_arith)
        requires
            fy + 1 <= vh,
            rows >= 1,
            fp >= 1,
    ;
    assert(fy * fp * rows >= 0) by (nonlinear_arith)
        requires
            fy >= 0,
            fp >= 1,
            rows >= 1,
    ;
}

fn video_cell_exec(frame: &Vec<Color>, fp: usize, keyed: Option<&Vec<bool>>, rows: usize, fx: usize, fy: usize, vh: usize) -> (c: Cell)
    requires
        rows == 1 || rows == 2,
        fx < fp,
        fy < vh,
        frame_covers(frame@.len() as int, keyed_view(keyed), fp as int, rows as int, fp as int, vh as int),
    ensures
        c == video_cell(frame@, fp as int, keyed_view(keyed), rows as int, fx as int, fy as int),
{
    proof {
        lemma_frame_index(fy as int, fx as int, fp as int, rows as int, vh as int);
    }
    let t = Color::transparent();
    let n = frame.len();
    if rows == 1 {
        assert(fy * fp + fx < n);
        let i = fy * fp + fx;
        let k = match keyed {
            Some(k) => k[i],
            None => false,
        };
        if k {
            Cell { c: Some(' '), fg: t, bg: t }
        } else {
            Cell { c: None, fg: frame[i], bg: t }
        }
    } else {
        let bi = fy * fp * 2 + fx;
        let fi = bi + fp;
        let fg = frame[fi];
        let bg = frame[bi];
        match keyed {
            None => Cell { c: None, fg, bg },
            Some(k) => {
                if k[fi] && k[bi] {
                    Cell { c: Some(' '), fg: t, bg: t }
                } else if k[fi] {
                    Cell { c: None, fg: bg, bg }
                } else if k[bi] {
                    Cell { c: None, fg, bg: fg }
                } else {
                    Cell { c: None, fg, bg }
                }
            },
        }
    }
}

/// Fills the video area of the grid (inside the padding) from the frame,
/// `rows` pixel rows per cell row, as `video_cell` says; the other cells
/// stay as they were.
pub fn render_video_cells(
    grid: &mut CellGrid,
    top: usize,
    bottom: usize,
    left: usize,
    right: usize,
    frame: &Vec<Color>,
    fp: usize,
    keyed: Option<&Vec<bool>>,
    rows: usize,
)
    requires
        old(grid).wf(),
        rows == 1 || rows == 2,
        top + bottom <= old(grid).height,
        left + right <= old(grid).width,
        frame_covers(
            frame@.len() as int,
            keyed_view(keyed),
            fp as int,
            rows as int,
            old(grid).width - left - right,
            old(grid).height - top - bottom,
        ),
    ensures
        final(grid).wf(),
        final(grid).width == old(grid).width,
        final(grid).height == old(grid).height,
        final(grid).pitch == old(grid).pitch,
        final(grid).cells@.len() == old(grid).cells@.len(),
        forall|i: int|
            0 <= i < old(grid).cells@.len() ==> #[trigger] final(grid).cells@[i] == (if in_area(
                i,
                old(grid).pitch as int,
                top as int,
                old(grid).height - bottom,
                left as int,
                old(grid).width - right,
            ) {
                video_cell(
                    frame@,
                    fp as int,
                    keyed_view(keyed),
                    rows as int,
                    i % (old(grid).pitch as int) - left,
                    i / (old(grid).pitch as int) - top,
                )
            } else {
                old(grid).cells@[i]
            }),
{
    let ghost g0 = *grid;
    let ghost kv = keyed_view(keyed);
    let h = grid.height;
    let w = grid.width;
    let p = grid.pitch;
    let yb = h - bottom;
    let xr = w - right;
    let ghost vw = (w - left - right) as int;
    let ghost vh = (h - top - bottom) as int;
    let mut cy = top;
    while cy < yb
        invariant
            grid.wf(),
            grid.width == w,
            grid.height == h,
            grid.pitch == p,
            w == g0.width,
            h == g0.height,
            p == g0.pitch,
            grid.cells@.len() == g0.cells@.len(),
            yb == h - bottom,
            xr == w - right,
            top <= cy <= yb,
            left <= xr,
            rows == 1 || rows == 2,
            vw == w - left - right,
            vh == h - top - bottom,
            kv == keyed_view(keyed),
            frame_covers(frame@.len() as int, kv, fp as int, rows as int, vw, vh),
            forall|i: int|
                0 <= i < g0.cells@.len() ==> #[trigger] grid.cells@[i] == (if in_area(
                    i,
                    p as int,
                    top as int,
                    cy as int,
                    left as int,
                    xr as int,
                ) {
                    video_cell(frame@, fp as int, kv, rows as int, i % (p as int) - left, i / (p as int) - top)
                } else {
                    g0.cells@[i]
                }),
        decreases yb - cy,
    {
        let mut cx = left;
        while cx < xr
            invariant
                grid.wf(),
                grid.width == w,
                grid.height == h,
                grid.pitch == p,
                w == g0.width,
                h == g0.height,
                p == g0.pitch,
                grid.cells@.len() == g0.cells@.len(),
                yb == h - bottom,
                xr == w - right,
                top <= cy < yb,
                left <= cx <= xr,
                rows == 1 || rows == 2,
                vw == w - left - right,
                vh == h - top - bottom,
                kv == keyed_view(keyed),
                frame_covers(frame@.len() as int, kv, fp as int, rows as int, vw, vh),
                forall|i: int|
                    0 <= i < g0.cells@.len() ==> #[trigger] grid.cells@[i] == (if in_area(
                        i,
                        p as int,
                        top as int,
                        cy as int,
                        left as int,
                        xr as int,
                    ) || (i / (p as int) == cy && left <= i % (p as int) < cx) {
                        video_cell(frame@, fp as int, kv, rows as int, i % (p as int) - left, i / (p as int) - top)
                    } else {
                        g0.cells@[i]
                    }),
            decreases xr - cx,
        {
            let fy = cy - top;
            let fx = cx - left;
            proof {
                assert(cy * p + cx < p * h) by (nonlinear_arith)
                    requires
                        cy < h,
                        cx < p,
                ;
            }
            let idx = cy * p + cx;
            let cell = video_cell_exec(frame, fp, keyed, rows, fx, fy, h - top - bottom);
            let ghost before = grid.cells@;
            grid.cells.set(idx, cell);
            proof {
                vstd::arithmetic::div_mod::lemma_fundamental_div_mod_converse(idx as int, p as int, cy as int, cx as int);
                assert forall|i: int| 0 <= i < g0.cells@.len() implies #[trigger] grid.cells@[i] == (if in_area(
                    i,
                    p as int,
                    top as int,
                    cy as int,
                    left as int,
                    xr as int,
                ) || (i / (p as int) == cy && left <= i % (p as int) < cx + 1) {
                    video_cell(frame@, fp as int, kv, rows as int, i % (p as int) - left, i / (p as int) - top)
                } else {
                    g0.cells@[i]
                }) by {
                    if i != idx {
                        vstd::arithmetic::div_mod::lemma_fundamental_div_mod(i, p as int);
                        assert(before[i] == grid.cells@[i]);
                        if i / (p as int) == cy && i % (p as int) == cx {
                            assert(i == (p as int) * (i / (p as int)) + i % (p as int));
                            assert(i == cy * p + cx) by (nonlinear_arith)
                                requires
                                    i == (p as int) * (i / (p as int)) + i % (p as int),
                                    i / (p as int) == cy,
                                    i % (p as int) == cx,
                            ;
                        }
                    }
                }
                assert(!is_placeholder(grid.cells@[0]));
                assert(!is_placeholder(grid.cells@.last()));
            }
            cx = cx + 1;
        }
        proof {
            assert forall|i: int| 0 <= i < g0.cells@.len() implies #[trigger] grid.cells@[i] == (if in_area(
                i,
                p as int,
                top as int,
                cy + 1,
                left as int,
                xr as int,
            ) {
                video_cell(frame@, fp as int, kv, rows as int, i % (p as int) - left, i / (p as int) - top)
            } else {
                g0.cells@[i]
            }) by {}
        }
        cy = cy + 1;
    }
}

/// The video in one character cell per pixel.
pub fn render_video_1x1(
    grid: &mut CellGrid,
    top: usize,
    bottom: usize,
    left: usize,
    right: usize,
    frame: &Vec<Color>,
    fp: usize,
    keyed: Option<&Vec<bool>>,
)
    requires
        old(grid).wf(),
        top + bottom <= old(grid).height,
        left + right <= old(grid).width,
        frame_covers(
            frame@.len() as int,
            keyed_view(keyed),
            fp as int,
            1,
            old(grid).width - left - right,
            old(grid).height - top - bottom,
        ),
    ensures
        final(grid).wf(),
        final(grid).width == old(grid).width,
        final(grid).height == old(grid).height,
        final(grid).pitch == old(grid).pitch,
        final(grid).cells@.len() == old(grid).cells@.len(),
        forall|i: int|
            0 <= i < old(grid).cells@.len() ==> #[trigger] final(grid).cells@[i] == (if in_area(
                i,
                old(grid).pitch as int,
                top as int,
                old(grid).height - bottom,
                left as int,
                old(grid).width - right,
            ) {
                video_cell(
                    frame@,
                    fp as int,
                    keyed_view(keyed),
                    1,
                    i % (old(grid).pitch as int) - left,
                    i / (old(grid).pitch as int) - top,
                )
            } else {
                old(grid).cells@[i]
            }),
{
    render_video_cells(grid, top, bottom, left, right, frame, fp, keyed, 1);
}

/// The video in half blocks: two pixels, one above the other, per cell.
pub fn render_video_1x2(
    grid: &mut CellGrid,
    top: usize,
    bottom: usize,
    left: usize,
    right: usize,
    frame: &Vec<Color>,
    fp: usize,
    keyed: Option<&Vec<bool>>,
)
    requires
        old(grid).wf(),
        top + bottom <= old(grid).height,
        left + right <= old(grid).width,
        frame_covers(
            frame@.len() as int,
            keyed_view(keyed),
            fp as int,
            2,
            old(grid).width - left - right,
            old(grid).height - top - bottom,
        ),
    ensures
        final(grid).wf(),
        final(grid).width == old(grid).width,
        final(grid).height == old(grid).height,
        final(grid).pitch == old(grid).pitch,
        final(grid).cells@.len() == old(grid).cells@.len(),
        forall|i: int|
            0 <= i < old(grid).cells@.len() ==> #[trigger] final(grid).cells@[i] == (if in_area(
                i,
                old(grid).pitch as int,
                top as int,
                old(grid).height - bottom,
                left as int,
                old(grid).width - right,
            ) {
                video_cell(
                    frame@,
                    fp as int,
                    keyed_view(keyed),
                    2,
                    i % (old(grid).pitch as int) - left,
                    i / (old(grid).pitch as int) - top,
                )
            } else {
                old(grid).cells@[i]
            }),
{
    render_video_cells(grid, top, bottom, left, right, frame, fp, keyed, 2);
}


// ===== braille cells =====

/// The dot pattern of a braille cell over a 2 x 4 block of pixels, given
/// which pixels show (left column top to bottom, then right column, in the
/// order 1, 2 / 3, 4 / 5, 6 / 7, 8 of the block read row by row): the dots
/// 1 to 8 of the Unicode braille block, left column first.
pub open spec fn braille_bits(v: Seq<bool>) -> int {
    (if v[0] { 1int } else { 0 }) + (if v[2] { 2int } else { 0 }) + (if v[4] { 4int } else { 0 }) + (if v[1] {
        8int
    } else {
        0
    }) + (if v[3] { 16int } else { 0 }) + (if v[5] { 32int } else { 0 }) + (if v[6] { 64int } else { 0 }) + (
    if v[7] {
        128int
    } else {
        0
    })
}

/// The braille character whose dots are the pixels of the block that show.
pub fn braille_char(v: [bool; 8]) -> (c: char)
    ensures
        c as u32 == 0x2800 + braille_bits(v@),
{
    let mut bits: u32 = 0;
    if v[0] {
        bits = bits + 1;
    }
    if v[2] {
        bits = bits + 2;
    }
    if v[4] {
        bits = bits + 4;
    }
    if v[1] {
        bits = bits + 8;
    }
    if v[3] {
        bits = bits + 16;
    }
    if v[5] {
        bits = bits + 32;
    }
    if v[6] {
        bits = bits + 64;
    }
    if v[7] {
        bits = bits + 128;
    }
    assert(bits == braille_bits(v@));
    match core::char::from_u32(0x2800 + bits) {
        Some(c) => c,
        None => '\u{2800}',
    }
}


/// Pixel `j` (0 to 7, row by row, left before right) of the 2 x 4 block of
/// the braille cell at (`fx`, `fy`) of the video area, in a frame `fp`
/// pixels wide.
pub open spec fn braille_px(fy: int, fx: int, fp: int, j: int) -> int {
    let row = if j >= 6 {
        3 * fp
    } else if j >= 4 {
        2 * fp
    } else if j >= 2 {
        fp
    } else {
        0
    };
    fy * fp * 4 + fx * 2 + row + (if j == 1 || j == 3 || j == 5 || j == 7 { 1int } else { 0 })
}

/// The pixels of a block that show: those that do not match the chroma key.
pub open spec fn braille_dots(k: Seq<bool>, fy: int, fx: int, fp: int) -> Seq<bool> {
    Seq::new(8, |j: int| !k[braille_px(fy, fx, fp, j)])
}

/// Cell `c` is the braille cell at (`fx`, `fy`) with the average colour
/// `color` of the block's shown pixels: without a chroma key, all eight
/// dots; with one, the dots of the pixels that show, and a transparent
/// blank where none does. The background is transparent.
pub open spec fn braille_cell_is(c: Cell, keyed: Option<Seq<bool>>, color: Color, fy: int, fx: int, fp: int) -> bool {
    let t = clear_color();
    match keyed {
        None => c == Cell { c: Some('\u{28FF}'), fg: color, bg: t },
        Some(k) => {
            let d = braille_dots(k, fy, fx, fp);
            if forall|j: int| 0 <= j < 8 ==> !#[trigger] d[j] {
                c == Cell { c: Some(' '), fg: t, bg: t }
            } else {
                &&& c.c matches Some(ch) && ch as int == 0x2800 + braille_bits(d)
                &&& c.fg == color
                &&& c.bg == t
            }
        },
    }
}

proof fn lemma_braille_px(fy: int, fx: int, fp: int, j: int, vw: int, vh: int)
    requires
        0 <= fy < vh,
        0 <= fx < vw,
        2 * vw <= fp,
        0 <= j < 8,
    ensures
        0 <= braille_px(fy, fx, fp, j) < vh * 4 * fp,
{
    let a: int = if j >= 6 {
        3
    } else if j >= 4 {
        2
    } else if j >= 2 {
        1
    } else {
        0
    };
    let b: int = if j == 1 || j == 3 || j == 5 || j == 7 { 1 } else { 0 };
    assert(braille_px(fy, fx, fp, j) == fy * fp * 4 + fx * 2 + a * fp + b);
    assert(0 <= fy * fp * 4 + fx * 2 + a * fp + b < vh * 4 * fp) by (nonlinear_arith)
        requires
            0 <= fy < vh,
            0 <= fx,
            2 * fx + 2 <= fp,
            0 <= a < 4,
            0 <= b < 2,
    ;
}

fn braille_cell_exec(
    keyed: Option<&Vec<bool>>,
    color: Color,
    fw: usize,
    fx: usize,
    fy: usize,
    vw: usize,
    vh: usize,
    frame_len: usize,
) -> (c: Cell)
    requires
        fx < vw,
        fy < vh,
        2 * vw <= fw,
        frame_covers(frame_len as int, keyed_view(keyed), fw as int, 4, vw as int, vh as int),
    ensures
        braille_cell_is(c, keyed_view(keyed), color, fy as int, fx as int, fw as int),
        !is_placeholder(c),
{
    let t = Color::transparent();
    match keyed {
        None => Cell { c: Some('\u{28FF}'), fg: color, bg: t },
        Some(k) => {
            proof {
                assert forall|j: int| 0 <= j < 8 implies 0 <= #[trigger] braille_px(fy as int, fx as int, fw as int, j) < k@.len() by {
                    lemma_braille_px(fy as int, fx as int, fw as int, j, vw as int, vh as int);
                }
                assert(braille_px(fy as int, fx as int, fw as int, 7) == fy * fw * 4 + fx * 2 + 3 * fw + 1);
            }
            let base = fy * fw * 4 + fx * 2;
            let dots: [bool; 8] = [
                !k[base],
                !k[base + 1],
                !k[base + fw],
                !k[base + fw + 1],
                !k[base + fw * 2],
                !k[base + fw * 2 + 1],
                !k[base + fw * 3],
                !k[base + fw * 3 + 1],
            ];
            let ghost d = braille_dots(k@, fy as int, fx as int, fw as int);
            proof {
                assert(dots@ =~= d);
            }
            if !(dots[0] || dots[1] || dots[2] || dots[3] || dots[4] || dots[5] || dots[6] || dots[7]) {
                proof {
                    assert forall|j: int| 0 <= j < 8 implies !#[trigger] d[j] by {
                        assert(d[j] == dots@[j]);
                    }
                }
                Cell { c: Some(' '), fg: t, bg: t }
            } else {
                let ch = braille_char(dots);
                proof {
                    assert(ch != '\0');
                }
                Cell { c: Some(ch), fg: color, bg: t }
            }
        },
    }
}

/// The video in braille dots: a 2 x 4 block of pixels per cell. `keyed`
/// tells which pixels of the frame (`frame_len` pixels, `fw` wide) match
/// the chroma key, and `colors` holds the colour of each cell of the video
/// area, row by row. Every cell of the area becomes its braille cell, as
/// `braille_cell_is` says; the other cells stay as they were.
pub fn render_video_braille(
    grid: &mut CellGrid,
    top: usize,
    bottom: usize,
    left: usize,
    right: usize,
    frame_len: usize,
    fw: usize,
    keyed: Option<&Vec<bool>>,
    colors: &Vec<Color>,
)
    requires
        old(grid).wf(),
        top + bottom <= old(grid).height,
        left + right <= old(grid).width,
        2 * (old(grid).width - left - right) <= fw,
        frame_covers(
            frame_len as int,
            keyed_view(keyed),
            fw as int,
            4,
            old(grid).width - left - right,
            old(grid).height - top - bottom,
        ),
        colors@.len() == (old(grid).width - left - right) * (old(grid).height - top - bottom),
    ensures
        final(grid).wf(),
        final(grid).width == old(grid).width,
        final(grid).height == old(grid).height,
        final(grid).pitch == old(grid).pitch,
        final(grid).cells@.len() == old(grid).cells@.len(),
        forall|i: int|
            0 <= i < old(grid).cells@.len() ==> (if in_area(
                i,
                old(grid).pitch as int,
                top as int,
                old(grid).height - bottom,
                left as int,
                old(grid).width - right,
            ) {
                braille_cell_is(
                    #[trigger] final(grid).cells@[i],
                    keyed_view(keyed),
                    colors@[(i / (old(grid).pitch as int) - top) * (old(grid).width - left - right) + (i % (
                    old(grid).pitch as int) - left)],
                    i / (old(grid).pitch as int) - top,
                    i % (old(grid).pitch as int) - left,
                    fw as int,
                )
            } else {
                final(grid).cells@[i] == old(grid).cells@[i]
            }),
{
    let ghost g0 = *grid;
    let ghost kv = keyed_view(keyed);
    let h = grid.height;
    let w = grid.width;
    let p = grid.pitch;
    let yb = h - bottom;
    let xr = w - right;
    let vw = w - left - right;
    let vh = h - top - bottom;
    let mut cy = top;
    while cy < yb
        invariant
            grid.wf(),
            grid.width == w,
            grid.height == h,
            grid.pitch == p,
            w == g0.width,
            h == g0.height,
            p == g0.pitch,
            grid.cells@.len() == g0.cells@.len(),
            yb == h - bottom,
            xr == w - right,
            top <= cy <= yb,
            left <= xr,
            vw == w - left - right,
            vh == h - top - bottom,
            2 * vw <= fw,
            colors@.len() == vw * vh,
            kv == keyed_view(keyed),
            frame_covers(frame_len as int, kv, fw as int, 4, vw as int, vh as int),
            forall|i: int|
                0 <= i < g0.cells@.len() ==> (if in_area(i, p as int, top as int, cy as int, left as int, xr as int) {
                    braille_cell_is(
                        #[trigger] grid.cells@[i],
                        kv,
                        colors@[(i / (p as int) - top) * vw + (i % (p as int) - left)],
                        i / (p as int) - top,
                        i % (p as int) - left,
                        fw as int,
                    )
                } else {
                    grid.cells@[i] == g0.cells@[i]
                }),
        decreases yb - cy,
    {
        let mut cx = left;
        while cx < xr
            invariant
                grid.wf(),
                grid.width == w,
                grid.height == h,
                grid.pitch == p,
                w == g0.width,
                h == g0.height,
                p == g0.pitch,
                grid.cells@.len() == g0.cells@.len(),
                yb == h - bottom,
                xr == w - right,
                top <= cy < yb,
                left <= cx <= xr,
                vw == w - left - right,
                vh == h - top - bottom,
                2 * vw <= fw,
                colors@.len() == vw * vh,
                kv == keyed_view(keyed),
                frame_covers(frame_len as int, kv, fw as int, 4, vw as int, vh as int),
                forall|i: int|
                    0 <= i < g0.cells@.len() ==> (if in_area(i, p as int, top as int, cy as int, left as int, xr as int)
                        || (i / (p as int) == cy && left <= i % (p as int) < cx) {
                        braille_cell_is(
                            #[trigger] grid.cells@[i],
                            kv,
                            colors@[(i / (p as int) - top) * vw + (i % (p as int) - left)],
                            i / (p as int) - top,
                            i % (p as int) - left,
                            fw as int,
                        )
                    } else {
                        grid.cells@[i] == g0.cells@[i]
                    }),
            decreases xr - cx,
        {
            let fy = cy - top;
            let fx = cx - left;
            let ncolors = colors.len();
            proof {
                assert(cy * p + cx < p * h) by (nonlinear_arith)
                    requires
                        cy < h,
                        cx < p,
                ;
                assert(fy * vw + fx < vw * vh) by (nonlinear_arith)
                    requires
                        fy < vh,
                        fx < vw,
                ;
                assert(ncolors == colors@.len());
            }
            let idx = cy * p + cx;
            let color = colors[fy * vw + fx];
            let cell = braille_cell_exec(keyed, color, fw, fx, fy, vw, vh, frame_len);
            let ghost before = grid.cells@;
            grid.cells.set(idx, cell);
            proof {
                vstd::arithmetic::div_mod::lemma_fundamental_div_mod_converse(idx as int, p as int, cy as int, cx as int);
                assert forall|i: int| 0 <= i < g0.cells@.len() implies (if in_area(
                    i,
                    p as int,
                    top as int,
                    cy as int,
                    left as int,
                    xr as int,
                ) || (i / (p as int) == cy && left <= i % (p as int) < cx + 1) {
                    braille_cell_is(
                        #[trigger] grid.cells@[i],
                        kv,
                        colors@[(i / (p as int) - top) * vw + (i % (p as int) - left)],
                        i / (p as int) - top,
                        i % (p as int) - left,
                        fw as int,
                    )
                } else {
                    grid.cells@[i] == g0.cells@[i]
                }) by {
                    if i != idx {
                        vstd::arithmetic::div_mod::lemma_fundamental_div_mod(i, p as int);
                        assert(before[i] == grid.cells@[i]);
                        if i / (p as int) == cy && i % (p as int) == cx {
                            assert(i == (p as int) * (i / (p as int)) + i % (p as int));
                            assert(i == cy * p + cx) by (nonlinear_arith)
                                requires
                                    i == (p as int) * (i / (p as int)) + i % (p as int),
                                    i / (p as int) == cy,
                                    i % (p as int) == cx,
                            ;
                        }
                    }
                }
                if idx != 0 {
                    assert(grid.cells@[0] == before[0]);
                }
                if idx != grid.cells@.len() - 1 {
                    assert(grid.cells@.last() == before.last());
                }
                assert(!is_placeholder(grid.cells@[0]));
                assert(!is_placeholder(grid.cells@.last()));
            }
            cx = cx + 1;
        }
        proof {
            assert forall|i: int| 0 <= i < g0.cells@.len() implies (if in_area(
                i,
                p as int,
                top as int,
                cy + 1,
                left as int,
                xr as int,
            ) {
                braille_cell_is(
                    #[trigger] grid.cells@[i],
                    kv,
                    colors@[(i / (p as int) - top) * vw + (i % (p as int) - left)],
                    i / (p as int) - top,
                    i % (p as int) - left,
                    fw as int,
                )
            } else {
                grid.cells@[i] == g0.cells@[i]
            }) by {}
        }
        cy = cy + 1;
    }
}

// ===== color modes =====

/// How the video is drawn.
#[derive(Clone, Copy, PartialEq, Eq, Structural, Debug)]
pub enum ColorMode {
    /// Inline JPEG images (iTerm2).
    Osc1337,
    TrueColorOnly,
    Palette256Prefer,
    Palette256Only,
    GrayScale,
    BlackWhite,
    /// One character per pixel.
    AsciiArt,
    /// Braille dots, 2 x 4 pixels per cell.
    Braille,
}

pub open spec fn color_mode_next(m: ColorMode) -> ColorMode {
    match m {
        ColorMode::Osc1337 => ColorMode::TrueColorOnly,
        ColorMode::TrueColorOnly => ColorMode::Palette256Prefer,
        ColorMode::Palette256Prefer => ColorMode::Palette256Only,
        ColorMode::Palette256Only => ColorMode::GrayScale,
        ColorMode::GrayScale => ColorMode::BlackWhite,
        ColorMode::BlackWhite => ColorMode::AsciiArt,
        ColorMode::AsciiArt => ColorMode::Braille,
        ColorMode::Braille => ColorMode::Osc1337,
    }
}

pub open spec fn color_mode_prev(m: ColorMode) -> ColorMode {
    match m {
        ColorMode::Osc1337 => ColorMode::Braille,
        ColorMode::TrueColorOnly => ColorMode::Osc1337,
        ColorMode::Palette256Prefer => ColorMode::TrueColorOnly,
        ColorMode::Palette256Only => ColorMode::Palette256Prefer,
        ColorMode::GrayScale => ColorMode::Palette256Only,
        ColorMode::BlackWhite => ColorMode::GrayScale,
        ColorMode::AsciiArt => ColorMode::BlackWhite,
        ColorMode::Braille => ColorMode::AsciiArt,
    }
}

/// Frame pixels per cell, across and down; none for inline images, whose
/// frame size comes from the font size.
pub open spec fn fppc_spec(m: ColorMode) -> (usize, usize) {
    match m {
        ColorMode::Osc1337 => (0, 0),
        ColorMode::AsciiArt => (1, 1),
        ColorMode::Braille => (2, 4),
        _ => (1, 2),
    }
}

/// The character drawn where a cell shows the video.
pub open spec fn default_char_spec(m: ColorMode) -> char {
    match m {
        ColorMode::Osc1337 => ' ',
        ColorMode::AsciiArt => '*',
        ColorMode::Braille => '\u{28FF}',
        _ => '\u{2584}',
    }
}

impl ColorMode {
    /// True color, the start of the cycle after inline images.
    pub fn new() -> (r: ColorMode)
        ensures
            r == ColorMode::TrueColorOnly,
    {
        ColorMode::TrueColorOnly
    }

    pub fn next(&self) -> (r: ColorMode)
        ensures
            r == color_mode_next(*self),
    {
        match self {
            ColorMode::Osc1337 => ColorMode::TrueColorOnly,
            ColorMode::TrueColorOnly => ColorMode::Palette256Prefer,
            ColorMode::Palette256Prefer => ColorMode::Palette256Only,
            ColorMode::Palette256Only => ColorMode::GrayScale,
            ColorMode::GrayScale => ColorMode::BlackWhite,
            ColorMode::BlackWhite => ColorMode::AsciiArt,
            ColorMode::AsciiArt => ColorMode::Braille,
            ColorMode::Braille => ColorMode::Osc1337,
        }
    }

    pub fn prev(&self) -> (r: ColorMode)
        ensures
            r == color_mode_prev(*self),
    {
        match self {
            ColorMode::Osc1337 => ColorMode::Braille,
            ColorMode::TrueColorOnly => ColorMode::Osc1337,
            ColorMode::Palette256Prefer => ColorMode::TrueColorOnly,
            ColorMode::Palette256Only => ColorMode::Palette256Prefer,
            ColorMode::GrayScale => ColorMode::Palette256Only,
            ColorMode::BlackWhite => ColorMode::GrayScale,
            ColorMode::AsciiArt => ColorMode::BlackWhite,
            ColorMode::Braille => ColorMode::AsciiArt,
        }
    }

    pub fn fppc(&self) -> (r: (usize, usize))
        ensures
            r == fppc_spec(*self),
    {
        match self {
            ColorMode::Osc1337 => (0, 0),
            ColorMode::AsciiArt => (1, 1),
            ColorMode::Braille => (2, 4),
            _ => (1, 2),
        }
    }

    pub fn default_char(&self) -> (r: char)
        ensures
            r == default_char_spec(*self),
    {
        match self {
            ColorMode::Osc1337 => ' ',
            ColorMode::AsciiArt => '*',
            ColorMode::Braille => '\u{28FF}',
            _ => '\u{2584}',
        }
    }
}

/// Stepping back undoes stepping forward through the color modes.
pub proof fn lemma_color_mode_prev_next(m: ColorMode)
    ensures
        color_mode_prev(color_mode_next(m)) == m,
        color_mode_next(color_mode_prev(m)) == m,
{
}

} // verus!
