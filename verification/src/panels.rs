//! The panels drawn over the video: where they go, the lines of text in
//! them, the file selector, and the keys that open and close them.
use vstd::prelude::*;
use vstd::string::StrSliceExecFns;
use crate::util::{Cell, CellGrid, Color};
use crate::playlist::PlaylistOverlay;
use crate::ui::{
    TextBox, box_fits, font_rows, lemma_put_text_cy_bound, put_in_box_cells, putln_or_ufln, putln_step,
    putlns_step, textbox, textbox_default_color,
};

verus! {

// ===== lines of text =====

/// A line of text and its colors (`None`: the text box's default).
pub struct StyledLine {
    pub text: String,
    pub fg: Option<Color>,
    pub bg: Option<Color>,
}

pub open spec fn styled_views(v: Seq<StyledLine>) -> Seq<(Seq<char>, Option<Color>, Option<Color>)> {
    v.map_values(|l: StyledLine| (l.text@, l.fg, l.bg))
}

/// The cells and text box after drawing one line, in the terminal's font
/// when it is large enough and four cells high in the large font otherwise.
pub open spec fn line_step(
    width: int,
    height: int,
    pitch: int,
    cells: Seq<Cell>,
    halves: Seq<Color>,
    tb: TextBox,
    font: Seq<u8>,
    large: bool,
    line: (Seq<char>, Option<Color>, Option<Color>),
) -> (Seq<Cell>, TextBox) {
    if large {
        putln_step(width, height, pitch, cells, halves, tb, line.0, line.1, line.2)
    } else {
        putlns_step(width, height, pitch, cells, halves, tb, font_rows(font, line.0), line.1, line.2)
    }
}

/// The cells and text box after drawing the lines in turn.
pub open spec fn lines_step(
    width: int,
    height: int,
    pitch: int,
    cells: Seq<Cell>,
    halves: Seq<Color>,
    tb: TextBox,
    font: Seq<u8>,
    large: bool,
    lines: Seq<(Seq<char>, Option<Color>, Option<Color>)>,
) -> (Seq<Cell>, TextBox)
    decreases lines.len(),
{
    if lines.len() == 0 {
        (cells, tb)
    } else {
        let (c1, t1) = lines_step(width, height, pitch, cells, halves, tb, font, large, lines.drop_last());
        line_step(width, height, pitch, c1, halves, t1, font, large, lines.last())
    }
}

/// The box and its default colors are the same.
pub open spec fn same_box(a: TextBox, b: TextBox) -> bool {
    &&& a.info.x == b.info.x
    &&& a.info.y == b.info.y
    &&& a.info.w == b.info.w
    &&& a.info.h == b.info.h
    &&& a.info.autowrap == b.info.autowrap
    &&& a.default_fg == b.default_fg
    &&& a.default_bg == b.default_bg
}

pub open spec fn max_int(a: int, b: int) -> int {
    if a > b {
        a
    } else {
        b
    }
}

proof fn lemma_putln_step_box(
    width: int,
    height: int,
    pitch: int,
    cells: Seq<Cell>,
    halves: Seq<Color>,
    tb: TextBox,
    text: Seq<char>,
    fg: Option<Color>,
    bg: Option<Color>,
)
    requires
        box_fits(tb),
        max_int(tb.info.j as int, tb.info.y + tb.info.h) + 1 < isize::MAX,
    ensures
        ({
            let t2 = putln_step(width, height, pitch, cells, halves, tb, text, fg, bg).1;
            &&& same_box(tb, t2)
            &&& box_fits(t2)
            &&& t2.info.j <= max_int(tb.info.j as int, tb.info.y + tb.info.h) + 1
        }),
{
    let i = tb.info;
    if !(i.w == 0 || i.h == 0) {
        let a = crate::ui::PutArea {
            sx: i.x,
            sy: i.y,
            w: i.w,
            h: i.h,
            fg: crate::ui::or_else(fg, tb.default_fg),
            bg: crate::ui::or_else(bg, tb.default_bg),
            autowrap: i.autowrap,
        };
        lemma_put_text_cy_bound(width, height, pitch, halves, a, crate::ui::put_start(cells, i.i, i.j), text);
        let st = put_in_box_cells(width, height, pitch, cells, halves, tb, text, fg, bg);
        assert(st.cy <= max_int(i.j as int, i.y + i.h));
    }
}

proof fn lemma_putlns_step_box(
    width: int,
    height: int,
    pitch: int,
    cells: Seq<Cell>,
    halves: Seq<Color>,
    tb: TextBox,
    rows: Seq<Seq<char>>,
    fg: Option<Color>,
    bg: Option<Color>,
)
    requires
        box_fits(tb),
        max_int(tb.info.j as int, tb.info.y + tb.info.h) + rows.len() < isize::MAX,
    ensures
        ({
            let t2 = putlns_step(width, height, pitch, cells, halves, tb, rows, fg, bg).1;
            &&& same_box(tb, t2)
            &&& box_fits(t2)
            &&& t2.info.j <= max_int(tb.info.j as int, tb.info.y + tb.info.h) + rows.len()
        }),
    decreases rows.len(),
{
    if rows.len() > 0 {
        lemma_putlns_step_box(width, height, pitch, cells, halves, tb, rows.drop_last(), fg, bg);
        let (c1, t1) = putlns_step(width, height, pitch, cells, halves, tb, rows.drop_last(), fg, bg);
        lemma_putln_step_box(width, height, pitch, c1, halves, t1, rows.last(), fg, bg);
    }
}

/// There is room below the cursor and the box for `n` more lines.
pub open spec fn room_for_lines(tb: TextBox, n: int) -> bool {
    box_fits(tb) && max_int(tb.info.j as int, tb.info.y + tb.info.h) + 4 * n + 8 < isize::MAX
}

/// Draws the lines in turn, each in the terminal's font when it is large
/// enough (`large`) and four cells high in the large font otherwise.
pub fn put_lines(
    grid: &mut CellGrid,
    halves: &Vec<Color>,
    tb: &mut TextBox,
    font: &Vec<u8>,
    large: bool,
    lines: &Vec<StyledLine>,
)
    requires
        old(grid).wf(),
        halves@.len() == old(grid).cells@.len(),
        font@.len() == 65536 * 32,
        room_for_lines(*old(tb), lines@.len() as int),
    ensures
        final(grid).wf(),
        final(grid).width == old(grid).width,
        final(grid).height == old(grid).height,
        final(grid).pitch == old(grid).pitch,
        (final(grid).cells@, *final(tb)) == lines_step(
            old(grid).width as int,
            old(grid).height as int,
            old(grid).pitch as int,
            old(grid).cells@,
            halves@,
            *old(tb),
            font@,
            large,
            styled_views(lines@),
        ),
{
    let ghost g0 = *grid;
    let ghost t0 = *tb;
    let ghost m = max_int(t0.info.j as int, t0.info.y + t0.info.h);
    let ghost views = styled_views(lines@);
    let mut k: usize = 0;
    assert(views.take(0) =~= Seq::<(Seq<char>, Option<Color>, Option<Color>)>::empty());
    while k < lines.len()
        invariant
            grid.wf(),
            grid.width == g0.width,
            grid.height == g0.height,
            grid.pitch == g0.pitch,
            halves@.len() == grid.cells@.len(),
            font@.len() == 65536 * 32,
            views == styled_views(lines@),
            views.len() == lines@.len(),
            m == max_int(t0.info.j as int, t0.info.y + t0.info.h),
            m + 4 * lines@.len() + 8 < isize::MAX,
            k <= lines@.len(),
            same_box(t0, *tb),
            box_fits(*tb),
            tb.info.j <= m + 4 * k,
            (grid.cells@, *tb) == lines_step(
                g0.width as int,
                g0.height as int,
                g0.pitch as int,
                g0.cells@,
                halves@,
                t0,
                font@,
                large,
                views.take(k as int),
            ),
        decreases lines@.len() - k,
    {
        let ghost c1 = grid.cells@;
        let ghost t1 = *tb;
        let line = &lines[k];
        proof {
            assert(views[k as int] == (line.text@, line.fg, line.bg));
            if large {
                lemma_putln_step_box(
                    g0.width as int,
                    g0.height as int,
                    g0.pitch as int,
                    c1,
                    halves@,
                    t1,
                    line.text@,
                    line.fg,
                    line.bg,
                );
            } else {
                lemma_putlns_step_box(
                    g0.width as int,
                    g0.height as int,
                    g0.pitch as int,
                    c1,
                    halves@,
                    t1,
                    font_rows(font@, line.text@),
                    line.fg,
                    line.bg,
                );
            }
        }
        putln_or_ufln(grid, halves, tb, font, large, line.text.as_str(), line.fg, line.bg);
        proof {
            assert(views.take(k + 1).drop_last() =~= views.take(k as int));
            assert(views.take(k + 1).last() == views[k as int]);
        }
        k = k + 1;
    }
    assert(views.take(lines@.len() as int) =~= views);
}

/// Sets up the text box at `(x, y)` of size `w` x `h`, without wrapping,
/// with `fg` as its default text color, and draws the lines in it.
pub fn put_panel_lines(
    grid: &mut CellGrid,
    halves: &Vec<Color>,
    tb: &mut TextBox,
    font: &Vec<u8>,
    large: bool,
    x: isize,
    y: isize,
    w: usize,
    h: usize,
    fg: Option<Color>,
    lines: &Vec<StyledLine>,
)
    requires
        old(grid).wf(),
        halves@.len() == old(grid).cells@.len(),
        font@.len() == 65536 * 32,
        room_for_lines(
            TextBox {
                info: crate::util::TextBoxInfo { x, y, w, h, i: x, j: y, autowrap: false },
                default_fg: fg,
                default_bg: None,
            },
            lines@.len() as int,
        ),
    ensures
        final(grid).wf(),
        final(grid).width == old(grid).width,
        final(grid).height == old(grid).height,
        final(grid).pitch == old(grid).pitch,
        (final(grid).cells@, *final(tb)) == lines_step(
            old(grid).width as int,
            old(grid).height as int,
            old(grid).pitch as int,
            old(grid).cells@,
            halves@,
            TextBox {
                info: crate::util::TextBoxInfo { x, y, w, h, i: x, j: y, autowrap: false },
                default_fg: fg,
                default_bg: None,
            },
            font@,
            large,
            styled_views(lines@),
        ),
{
    textbox(tb, x, y, w, h, false);
    textbox_default_color(tb, fg, None);
    put_lines(grid, halves, tb, font, large, lines);
}


// ===== where the panels go =====

/// `(a - b) / 2` rounded toward zero, as Rust divides integers.
pub open spec fn half_diff(a: int, b: int) -> int {
    if a >= b {
        (a - b) / 2
    } else {
        -((b - a) / 2)
    }
}

/// The offset that centers `size` cells in `total`.
pub fn centered(total: usize, size: usize) -> (r: isize)
    requires
        total <= isize::MAX,
        size <= isize::MAX,
    ensures
        r == half_diff(total as int, size as int),
{
    if total >= size {
        ((total - size) / 2) as isize
    } else {
        -(((size - total) / 2) as isize)
    }
}

/// A rectangle of cells.
#[derive(Clone, Copy, PartialEq, Eq, Structural, Debug)]
pub struct PanelRect {
    pub x: isize,
    pub y: isize,
    pub w: usize,
    pub h: usize,
}

/// Whether the terminal is large enough for the panels: 8 x 8 cells.
pub open spec fn roomy(cw: int, ch: int) -> bool {
    cw >= 8 && ch >= 8
}

/// The help panel: 54 x 12 cells, or 204 x 42 for the large font,
/// centered; its text goes 2 cells in from the sides and 1 from the top and
/// bottom.
pub open spec fn help_rect_spec(cw: int, ch: int, large: bool) -> Option<(PanelRect, PanelRect)> {
    if !roomy(cw, ch) {
        None
    } else {
        let w: int = if large { 54 } else { 204 };
        let h: int = if large { 12 } else { 42 };
        let x = half_diff(cw, w);
        let y = half_diff(ch, h);
        Some((
            PanelRect { x: x as isize, y: y as isize, w: w as usize, h: h as usize },
            PanelRect { x: (x + 2) as isize, y: (y + 1) as isize, w: (w - 4) as usize, h: (h - 2) as usize },
        ))
    }
}

/// The help panel and the box of its text, on a terminal of `cw` x `ch`
/// cells.
pub fn help_rect(cw: usize, ch: usize, large: bool) -> (r: Option<(PanelRect, PanelRect)>)
    requires
        cw <= isize::MAX,
        ch <= isize::MAX,
    ensures
        r == help_rect_spec(cw as int, ch as int, large),
{
    if cw < 8 || ch < 8 {
        return None;
    }
    let w: usize = if large { 54 } else { 204 };
    let h: usize = if large { 12 } else { 42 };
    let x = centered(cw, w);
    let y = centered(ch, h);
    Some((PanelRect { x, y, w, h }, PanelRect { x: x + 2, y: y + 1, w: w - 4, h: h - 2 }))
}

/// The quit confirmation: a box of 25 x 3 cells (100 x 12 for the large
/// font), centered, for the text, on a shade 10 cells wider on each side and
/// 2 higher (40 and 8 for the large font).
pub open spec fn quit_rect_spec(cw: int, ch: int, large: bool) -> Option<(PanelRect, PanelRect)> {
    if !roomy(cw, ch) {
        None
    } else {
        let w: int = if large { 25 } else { 100 };
        let h: int = if large { 3 } else { 12 };
        let mx: int = if large { 10 } else { 40 };
        let my: int = if large { 2 } else { 8 };
        let x = half_diff(cw, w);
        let y = half_diff(ch, h);
        Some((
            PanelRect { x: (x - mx) as isize, y: (y - my) as isize, w: (w + 2 * mx) as usize, h: (h + 2 * my) as usize },
            PanelRect { x: x as isize, y: y as isize, w: w as usize, h: h as usize },
        ))
    }
}

/// The shade of the quit confirmation and the box of its text.
pub fn quit_rect(cw: usize, ch: usize, large: bool) -> (r: Option<(PanelRect, PanelRect)>)
    requires
        cw <= isize::MAX,
        ch <= isize::MAX,
    ensures
        r == quit_rect_spec(cw as int, ch as int, large),
{
    if cw < 8 || ch < 8 {
        return None;
    }
    let w: usize = if large { 25 } else { 100 };
    let h: usize = if large { 3 } else { 12 };
    let mx: usize = if large { 10 } else { 40 };
    let my: usize = if large { 2 } else { 8 };
    let x = centered(cw, w);
    let y = centered(ch, h);
    Some((
        PanelRect { x: x - mx as isize, y: y - my as isize, w: w + 2 * mx, h: h + 2 * my },
        PanelRect { x, y, w, h },
    ))
}

/// The box of the statistics text: the terminal less 2 cells at the sides
/// and 1 at the top and bottom.
pub fn overlay_text_rect(cw: usize, ch: usize) -> (r: Option<PanelRect>)
    ensures
        r == (if roomy(cw as int, ch as int) {
            Some(PanelRect { x: 2, y: 1, w: (cw - 4) as usize, h: (ch - 2) as usize })
        } else {
            None
        }),
{
    if cw < 8 || ch < 8 {
        None
    } else {
        Some(PanelRect { x: 2, y: 1, w: cw - 4, h: ch - 2 })
    }
}

/// The file selector: half the terminal each way, centered, its text 1
/// cell in from each edge.
pub open spec fn file_select_rect_spec(cw: int, ch: int) -> Option<(PanelRect, PanelRect)> {
    if !roomy(cw, ch) {
        None
    } else {
        let w = cw / 2;
        let h = ch / 2;
        let x = (cw - w) / 2;
        let y = (ch - h) / 2;
        Some((
            PanelRect { x: x as isize, y: y as isize, w: w as usize, h: h as usize },
            PanelRect { x: (x + 1) as isize, y: (y + 1) as isize, w: (w - 2) as usize, h: (h - 2) as usize },
        ))
    }
}

/// The file selector and the box of its text.
pub fn file_select_rect(cw: usize, ch: usize) -> (r: Option<(PanelRect, PanelRect)>)
    requires
        cw <= isize::MAX,
        ch <= isize::MAX,
    ensures
        r == file_select_rect_spec(cw as int, ch as int),
{
    if cw < 8 || ch < 8 {
        return None;
    }
    let w = cw / 2;
    let h = ch / 2;
    let x = (cw - w) / 2;
    let y = (ch - h) / 2;
    Some((
        PanelRect { x: x as isize, y: y as isize, w, h },
        PanelRect { x: (x + 1) as isize, y: (y + 1) as isize, w: w - 2, h: h - 2 },
    ))
}

/// How many entries the file selector has room for in a panel `h` cells
/// high: the text box less the three header lines, a quarter as many in the
/// large font.
pub open spec fn file_rows_spec(h: int, large: bool) -> int {
    (if large { h - 2 } else { (h - 2) / 4 }) - 3
}

pub fn file_rows(h: usize, large: bool) -> (r: usize)
    requires
        file_rows_spec(h as int, large) >= 0,
        h >= 2,
    ensures
        r == file_rows_spec(h as int, large),
{
    let l = h - 2;
    (if large {
        l
    } else {
        l / 4
    }) - 3
}

/// The slot of the message `i` places above the bottom (0 is the newest):
/// one row each, or four for the large font; as wide as 40% of the
/// terminal, at least 50 cells; none once it would be above the top.
pub open spec fn message_rect_spec(cw: int, ch: int, large: bool, i: int) -> Option<PanelRect> {
    let width = if cw * 4 / 10 > 50 { cw * 4 / 10 } else { 50 };
    let rows: int = if large { 1 } else { 4 };
    let y = ch - rows * i - rows;
    if !roomy(cw, ch) || y < 0 {
        None
    } else {
        Some(PanelRect { x: 0, y: y as isize, w: width as usize, h: rows as usize })
    }
}

pub fn message_rect(cw: usize, ch: usize, large: bool, i: usize) -> (r: Option<PanelRect>)
    requires
        cw * 4 <= usize::MAX,
        ch <= isize::MAX,
    ensures
        r == message_rect_spec(cw as int, ch as int, large, i as int),
{
    if cw < 8 || ch < 8 {
        return None;
    }
    let width = if cw * 4 / 10 > 50 {
        cw * 4 / 10
    } else {
        50
    };
    let rows: usize = if large { 1 } else { 4 };
    if i >= ch / rows || ch - rows * i < rows {
        proof {
            if i >= ch / rows {
                assert(rows * i >= rows * (ch / rows)) by (nonlinear_arith)
                    requires
                        i >= ch / rows,
                        rows > 0,
                ;
                assert(rows * (ch / rows) > ch - rows) by (nonlinear_arith)
                    requires
                        rows > 0,
                ;
            }
        }
        return None;
    }
    proof {
        assert(rows * i <= ch) by (nonlinear_arith)
            requires
                i < ch / rows,
                rows > 0,
        ;
    }
    Some(PanelRect { x: 0, y: (ch - rows * i - rows) as isize, w: width, h: rows })
}

/// The playlist panel, slid in `pos` cells from the right edge: as wide as
/// 62 cells (482 for the large font) or the terminal, its text 1 cell in
/// from each edge but the right.
pub open spec fn playlist_rect_spec(cw: int, ch: int, large: bool, pos: int) -> Option<(PanelRect, PanelRect)> {
    let width: int = if large {
        if cw < 62 { cw } else { 62 }
    } else {
        if cw < 482 { cw } else { 482 }
    };
    let x = if cw >= pos { cw - pos } else { 0 };
    if !roomy(cw, ch) || pos == 0 {
        None
    } else {
        Some((
            PanelRect { x: x as isize, y: 0, w: width as usize, h: ch as usize },
            PanelRect { x: (x + 1) as isize, y: 1, w: (width - 2) as usize, h: (ch - 2) as usize },
        ))
    }
}

/// How wide the playlist panel is.
pub fn playlist_width(cw: usize, large: bool) -> (r: usize)
    ensures
        r == (if large {
            if cw < 62 { cw } else { 62 }
        } else {
            if cw < 482 { cw } else { 482 }
        }),
{
    let full: usize = if large { 62 } else { 482 };
    if cw < full {
        cw
    } else {
        full
    }
}

pub fn playlist_rect(cw: usize, ch: usize, large: bool, pos: usize) -> (r: Option<(PanelRect, PanelRect)>)
    requires
        cw < isize::MAX,
    ensures
        r == playlist_rect_spec(cw as int, ch as int, large, pos as int),
{
    if cw < 8 || ch < 8 || pos == 0 {
        return None;
    }
    let width = playlist_width(cw, large);
    let x = if cw >= pos { cw - pos } else { 0 };
    Some((
        PanelRect { x: x as isize, y: 0, w: width, h: ch },
        PanelRect { x: (x + 1) as isize, y: 1, w: width - 2, h: ch - 2 },
    ))
}


// ===== the playlist panel =====

/// The line of item `i` of the playlist: a marker before the item that is
/// playing, and the terminal's colors swapped on the selected one.
pub open spec fn playlist_row(
    item: Seq<char>,
    i: int,
    playing: int,
    selected: int,
    fg: Color,
    bg: Color,
) -> (Seq<char>, Option<Color>, Option<Color>) {
    let icon = if i == playing {
        seq!['\u{25B6}', ' ']
    } else {
        seq![' ', ' ']
    };
    if i == selected {
        (icon + item, Some(fg), Some(bg))
    } else {
        (icon + item, None, None)
    }
}

/// The lines of the playlist panel below its title.
pub fn playlist_rows(items: &Vec<String>, playing: usize, selected: isize, fg: Color, bg: Color) -> (r: Vec<StyledLine>)
    ensures
        styled_views(r@).len() == items@.len(),
        forall|i: int|
            0 <= i < items@.len() ==> #[trigger] styled_views(r@)[i] == playlist_row(
                items@[i]@,
                i,
                playing as int,
                selected as int,
                fg,
                bg,
            ),
{
    let mut r: Vec<StyledLine> = Vec::new();
    let mut i: usize = 0;
    while i < items.len()
        invariant
            i <= items@.len(),
            r@.len() == i,
            forall|k: int|
                0 <= k < i ==> #[trigger] styled_views(r@)[k] == playlist_row(
                    items@[k]@,
                    k,
                    playing as int,
                    selected as int,
                    fg,
                    bg,
                ),
        decreases items@.len() - i,
    {
        let mut text = String::new();
        if i == playing {
            text.push('\u{25B6}');
            text.push(' ');
        } else {
            text.push(' ');
            text.push(' ');
        }
        crate::text::push_all(&mut text, items[i].as_str());
        let selected_here = i <= isize::MAX as usize && i as isize == selected;
        let (lf, lb) = if selected_here {
            (Some(fg), Some(bg))
        } else {
            (None, None)
        };
        proof {
            let icon = if i == playing { seq!['\u{25B6}', ' '] } else { seq![' ', ' '] };
            assert(text@ =~= icon + items@[i as int]@);
            assert(selected_here == (i as int == selected as int));
        }
        let ghost r0 = r@;
        let ghost tv = (text@, lf, lb);
        r.push(StyledLine { text, fg: lf, bg: lb });
        proof {
            assert(styled_views(r@) =~= styled_views(r0).push(tv));
            assert forall|k: int| 0 <= k < i + 1 implies #[trigger] styled_views(r@)[k] == playlist_row(
                items@[k]@,
                k,
                playing as int,
                selected as int,
                fg,
                bg,
            ) by {
                if k < i {
                    assert(r@[k] == r0[k]);
                }
            }
        }
        i = i + 1;
    }
    r
}

// ===== the file selector =====

/// What a directory entry is.
#[derive(Clone, Copy, PartialEq, Eq, Structural, Debug)]
pub enum EntryKind {
    Dir,
    File,
    Symlink,
    Other,
}

/// An entry of the directory shown.
pub struct FileEntry {
    pub kind: EntryKind,
    pub name: String,
}

/// The file selector: whether it is open, the directory shown, its
/// entries, and the selected one.
pub struct FileSelect {
    pub active: bool,
    pub path: String,
    pub entries: Vec<FileEntry>,
    pub index: usize,
}

pub struct FileSelectView {
    pub active: bool,
    pub path: Seq<char>,
    pub entries: Seq<(EntryKind, Seq<char>)>,
    pub index: int,
}

pub open spec fn entries_view(v: Seq<FileEntry>) -> Seq<(EntryKind, Seq<char>)> {
    v.map_values(|e: FileEntry| (e.kind, e.name@))
}

impl View for FileSelect {
    type V = FileSelectView;

    open spec fn view(&self) -> FileSelectView {
        FileSelectView {
            active: self.active,
            path: self.path@,
            entries: entries_view(self.entries@),
            index: self.index as int,
        }
    }
}

/// The selection is an entry, or there are none and it is the first.
pub open spec fn select_ok(v: FileSelectView) -> bool {
    v.index < v.entries.len() || (v.entries.len() == 0 && v.index == 0)
}

/// What a key did to the file selector.
pub enum SelectOutcome {
    /// The selector is closed; the key is for someone else.
    Ignored,
    /// The key was taken, and nothing more is to be done.
    Handled,
    /// The file at this path is to be played next.
    Open(String),
    /// The entry at this path is not a file.
    NotAFile(String),
    /// The directory at this path is to be listed (`set_entries`).
    List(String),
}

/// The path of entry `name` of directory `dir`.
pub open spec fn child_path(dir: Seq<char>, name: Seq<char>) -> Seq<char> {
    dir.push('/') + name
}

/// The last `/`-separated part of `path`.
pub open spec fn last_part(path: Seq<char>) -> Seq<char>
    decreases path.len(),
{
    if path.len() == 0 {
        path
    } else if path.last() == '/' {
        seq![]
    } else {
        last_part(path.drop_last()).push(path.last())
    }
}

/// The first entry called `name`, or the first entry.
pub open spec fn index_of_name(entries: Seq<(EntryKind, Seq<char>)>, name: Seq<char>) -> int
    decreases entries.len(),
{
    if entries.len() == 0 {
        0
    } else if exists|k: int| 0 <= k < entries.len() - 1 && entries[k].1 == name {
        index_of_name(entries.drop_last(), name)
    } else if entries.last().1 == name {
        entries.len() - 1
    } else {
        0
    }
}

/// The directory one goes into from `path`.
pub open spec fn descend_path(path: Seq<char>, name: Seq<char>) -> Seq<char> {
    if path.len() > 0 && path.last() == '/' {
        path + name
    } else {
        path.push('/') + name
    }
}

impl FileSelect {
    /// Closed, no directory yet.
    pub fn new() -> (r: FileSelect)
        ensures
            r@ == (FileSelectView { active: false, path: seq![], entries: seq![], index: 0 }),
    {
        let r = FileSelect { active: false, path: String::new(), entries: Vec::new(), index: 0 };
        assert(entries_view(r.entries@) =~= seq![]);
        r
    }

    /// Opens a closed selector and closes an open one.
    pub fn toggle(&mut self)
        ensures
            final(self)@ == (FileSelectView { active: !old(self)@.active, ..old(self)@ }),
    {
        self.active = !self.active;
    }

    /// The quit key closes an open selector.
    pub fn key_close(&mut self) -> (r: bool)
        ensures
            r == old(self)@.active,
            final(self)@ == (FileSelectView { active: false, ..old(self)@ }),
    {
        let was = self.active;
        self.active = false;
        was
    }

    /// When no directory is shown yet, shows the root (`/`), to be listed.
    pub fn start(&mut self) -> (r: Option<String>)
        ensures
            old(self)@.path.len() == 0 ==> (r matches Some(p) && p@ == seq!['/'] && final(self)@ == (FileSelectView {
                path: seq!['/'],
                entries: seq![],
                ..old(self)@
            })),
            old(self)@.path.len() > 0 ==> r is None && final(self)@ == old(self)@,
    {
        if self.path.as_str().unicode_len() == 0 {
            proof {
                assert(self.path@.len() == 0);
            }
            let mut p = String::new();
            p.push('/');
            self.path = p;
            self.entries = Vec::new();
            let mut q = String::new();
            q.push('/');
            proof {
                assert(entries_view(self.entries@) =~= seq![]);
                assert(self.path@ =~= seq!['/']);
                assert(q@ =~= seq!['/']);
            }
            Some(q)
        } else {
            proof {
                assert(self.path@.len() > 0);
            }
            None
        }
    }

    /// Shows the entries of the directory listed; the selection stays on
    /// the first.
    pub fn set_entries(&mut self, entries: Vec<FileEntry>)
        requires
            old(self).index == 0,
        ensures
            final(self)@ == (FileSelectView { entries: entries_view(entries@), ..old(self)@ }),
            select_ok(final(self)@),
    {
        self.entries = entries;
    }

    /// The path of the selected entry, if there is one.
    pub fn selected_path(&self) -> (r: Option<String>)
        requires
            select_ok(self@),
        ensures
            self@.entries.len() == 0 ==> r is None,
            self@.entries.len() > 0 ==> (r matches Some(p) && p@ == child_path(
                self@.path,
                self@.entries[self@.index].1,
            )),
    {
        if self.entries.len() == 0 {
            return None;
        }
        let mut p = String::new();
        crate::text::push_all(&mut p, self.path.as_str());
        p.push('/');
        crate::text::push_all(&mut p, self.entries[self.index].name.as_str());
        proof {
            assert(self@.entries[self@.index] == (self.entries@[self.index as int].kind, self.entries@[self.index as int].name@));
            assert(p@ =~= child_path(self@.path, self@.entries[self@.index].1));
        }
        Some(p)
    }

    /// Space or Enter: plays the selected entry if it is a file (for a
    /// symbolic link, `target_is_file` tells what its target is, when that
    /// could be found out) and closes the selector.
    pub fn key_select(&mut self, target_is_file: Option<bool>) -> (r: SelectOutcome)
        requires
            select_ok(old(self)@),
        ensures
            !old(self)@.active ==> r is Ignored && final(self)@ == old(self)@,
            old(self)@.active && old(self)@.entries.len() == 0 ==> r is Handled && final(self)@ == old(self)@,
            old(self)@.active && old(self)@.entries.len() > 0 ==> ({
                let e = old(self)@.entries[old(self)@.index];
                let path = child_path(old(self)@.path, e.1);
                let is_file = if e.0 == EntryKind::Symlink && target_is_file is Some {
                    target_is_file->0
                } else {
                    e.0 == EntryKind::File
                };
                if is_file {
                    r matches SelectOutcome::Open(p) && p@ == path && final(self)@ == (FileSelectView {
                        active: false,
                        ..old(self)@
                    })
                } else {
                    r matches SelectOutcome::NotAFile(p) && p@ == path && final(self)@ == old(self)@
                }
            }),
    {
        if !self.active {
            return SelectOutcome::Ignored;
        }
        if self.entries.len() == 0 {
            return SelectOutcome::Handled;
        }
        let path = match self.selected_path() {
            Some(p) => p,
            None => String::new(),
        };
        let kind = self.entries[self.index].kind;
        let mut is_file = kind == EntryKind::File;
        if kind == EntryKind::Symlink {
            match target_is_file {
                Some(t) => {
                    is_file = t;
                },
                None => {},
            }
        }
        proof {
            assert(old(self)@.entries[old(self)@.index].0 == kind);
        }
        if is_file {
            self.active = false;
            SelectOutcome::Open(path)
        } else {
            SelectOutcome::NotAFile(path)
        }
    }

    /// Up: the entry above, staying on the first.
    pub fn key_up(&mut self) -> (r: bool)
        requires
            old(self)@.active ==> old(self)@.entries.len() > 0,
        ensures
            r == old(self)@.active,
            final(self)@ == (FileSelectView {
                index: if old(self)@.active {
                    (if old(self)@.index < 1 {
                        1
                    } else if old(self)@.index > old(self)@.entries.len() {
                        old(self)@.entries.len() as int
                    } else {
                        old(self)@.index
                    }) - 1
                } else {
                    old(self)@.index
                },
                ..old(self)@
            }),
    {
        if !self.active {
            return false;
        }
        let len = self.entries.len();
        let c = if self.index < 1 {
            1
        } else if self.index > len {
            len
        } else {
            self.index
        };
        self.index = c - 1;
        true
    }

    /// Down: the entry below, staying on the last.
    pub fn key_down(&mut self) -> (r: bool)
        requires
            old(self)@.active ==> old(self)@.entries.len() > 0,
            old(self).index < usize::MAX,
        ensures
            r == old(self)@.active,
            final(self)@ == (FileSelectView {
                index: if old(self)@.active {
                    if old(self)@.index + 1 > old(self)@.entries.len() - 1 {
                        old(self)@.entries.len() - 1
                    } else {
                        old(self)@.index + 1
                    }
                } else {
                    old(self)@.index
                },
                ..old(self)@
            }),
    {
        if !self.active {
            return false;
        }
        let len = self.entries.len();
        let next = self.index + 1;
        self.index = if next > len - 1 {
            len - 1
        } else {
            next
        };
        true
    }

    /// Left, first step: the name of the directory shown, to be selected
    /// once its parent is listed (`show_parent`).
    pub fn key_left(&self) -> (r: Option<String>)
        ensures
            !self@.active ==> r is None,
            self@.active ==> (r matches Some(n) && n@ == last_part(self@.path)),
    {
        if !self.active {
            return None;
        }
        let v = crate::text::chars_of(self.path.as_str());
        let mut k = v.len();
        assert(v@.take(k as int) =~= v@);
        assert(v@.subrange(k as int, k as int) =~= Seq::<char>::empty());
        while k > 0 && v[k - 1] != '/'
            invariant
                v@ == self.path@,
                k <= v@.len(),
                last_part(v@) == last_part(v@.take(k as int)) + v@.subrange(k as int, v@.len() as int),
            decreases k,
        {
            proof {
                let t = v@.take(k as int);
                assert(t.drop_last() =~= v@.take(k - 1));
                assert(t.last() == v@[k - 1]);
                assert(v@.subrange(k - 1, v@.len() as int) =~= seq![v@[k - 1]] + v@.subrange(
                    k as int,
                    v@.len() as int,
                ));
                assert(last_part(t) == last_part(v@.take(k - 1)).push(v@[k - 1]));
                assert(last_part(v@.take(k - 1)).push(v@[k - 1]) + v@.subrange(k as int, v@.len() as int)
                    =~= last_part(v@.take(k - 1)) + v@.subrange(k - 1, v@.len() as int));
            }
            k = k - 1;
        }
        proof {
            let t = v@.take(k as int);
            if k > 0 {
                assert(t.last() == '/');
            } else {
                assert(t.len() == 0);
            }
            assert(last_part(t) =~= seq![]);
            assert(v@.take(v@.len() as int) =~= v@);
        }
        let mut n = String::new();
        crate::text::push_chars(&mut n, &v, k, v.len());
        proof {
            assert(n@ =~= last_part(self@.path));
        }
        Some(n)
    }

    /// Left, second step: shows the parent directory `path` with its
    /// entries, selecting the one called `name` (else the first).
    pub fn show_parent(&mut self, path: String, entries: Vec<FileEntry>, name: &str)
        ensures
            final(self)@ == (FileSelectView {
                path: path@,
                entries: entries_view(entries@),
                index: index_of_name(entries_view(entries@), name@),
                ..old(self)@
            }),
            select_ok(final(self)@),
    {
        let ghost ev = entries_view(entries@);
        let mut k: usize = 0;
        let mut found: Option<usize> = None;
        while k < entries.len()
            invariant
                ev == entries_view(entries@),
                k <= entries@.len(),
                found matches Some(f) ==> f < k && ev[f as int].1 == name@ && forall|j: int| 0 <= j < f ==> ev[j].1 != name@,
                found is None ==> forall|j: int| 0 <= j < k ==> ev[j].1 != name@,
            decreases entries@.len() - k,
        {
            if found.is_none() && crate::text::same_text(entries[k].name.as_str(), name) {
                proof {
                    assert(ev[k as int].1 == entries@[k as int].name@);
                }
                found = Some(k);
            } else {
                proof {
                    assert(ev[k as int].1 == entries@[k as int].name@);
                }
            }
            k = k + 1;
        }
        let idx = match found {
            Some(f) => f,
            None => 0,
        };
        proof {
            lemma_index_of_name(ev, name@, found);
        }
        self.path = path;
        self.entries = entries;
        self.index = idx;
    }

    /// Right: goes into the selected entry if it is a directory; it is
    /// then to be listed, with the first entry selected.
    pub fn key_right(&mut self) -> (r: SelectOutcome)
        requires
            select_ok(old(self)@),
        ensures
            !old(self)@.active ==> r is Ignored && final(self)@ == old(self)@,
            old(self)@.active && (old(self)@.entries.len() == 0 || old(self)@.entries[old(self)@.index].0
                != EntryKind::Dir) ==> r is Handled && final(self)@ == old(self)@,
            old(self)@.active && old(self)@.entries.len() > 0 && old(self)@.entries[old(self)@.index].0
                == EntryKind::Dir ==> ({
                let p = descend_path(old(self)@.path, old(self)@.entries[old(self)@.index].1);
                r matches SelectOutcome::List(l) && l@ == p && final(self)@ == (FileSelectView {
                    path: p,
                    entries: seq![],
                    index: 0,
                    ..old(self)@
                })
            }),
    {
        if !self.active {
            return SelectOutcome::Ignored;
        }
        if self.entries.len() == 0 {
            return SelectOutcome::Handled;
        }
        proof {
            assert(old(self)@.entries[old(self)@.index] == (self.entries@[self.index as int].kind, self.entries@[self.index as int].name@));
        }
        if self.entries[self.index].kind != EntryKind::Dir {
            return SelectOutcome::Handled;
        }
        let v = crate::text::chars_of(self.path.as_str());
        let mut p = String::new();
        crate::text::push_all(&mut p, self.path.as_str());
        if !(v.len() > 0 && v[v.len() - 1] == '/') {
            p.push('/');
        }
        crate::text::push_all(&mut p, self.entries[self.index].name.as_str());
        let mut l = String::new();
        crate::text::push_all(&mut l, p.as_str());
        proof {
            assert(p@ =~= descend_path(old(self)@.path, old(self)@.entries[old(self)@.index].1));
        }
        self.path = p;
        self.entries = Vec::new();
        self.index = 0;
        proof {
            assert(entries_view(self.entries@) =~= seq![]);
            assert(l@ =~= self.path@);
        }
        SelectOutcome::List(l)
    }
}

proof fn lemma_index_of_name(ev: Seq<(EntryKind, Seq<char>)>, name: Seq<char>, found: Option<usize>)
    requires
        found matches Some(f) ==> f < ev.len() && ev[f as int].1 == name && forall|j: int| 0 <= j < f ==> ev[j].1 != name,
        found is None ==> forall|j: int| 0 <= j < ev.len() ==> ev[j].1 != name,
    ensures
        index_of_name(ev, name) == (match found {
            Some(f) => f as int,
            None => 0,
        }),
    decreases ev.len(),
{
    if ev.len() > 0 {
        let d = ev.drop_last();
        match found {
            Some(f) => {
                if (f as int) < ev.len() - 1 {
                    assert(d[f as int] == ev[f as int]);
                    assert forall|j: int| 0 <= j < f implies d[j].1 != name by {
                        assert(d[j] == ev[j]);
                    }
                    lemma_index_of_name(d, name, found);
                } else {
                    assert forall|k: int| 0 <= k < ev.len() - 1 implies ev[k].1 != name by {}
                }
            },
            None => {
                assert forall|j: int| 0 <= j < d.len() implies d[j].1 != name by {
                    assert(d[j] == ev[j]);
                }
                lemma_index_of_name(d, name, found);
            },
        }
    }
}

/// The icon before an entry.
pub open spec fn entry_icon(k: EntryKind) -> char {
    match k {
        EntryKind::Dir => '\u{1F4C1}',
        EntryKind::File => '\u{1F4C4}',
        EntryKind::Symlink => '\u{1F517}',
        EntryKind::Other => '\u{2753}',
    }
}

/// The line of an entry: its icon and its name, spaced.
pub open spec fn entry_text(e: (EntryKind, Seq<char>)) -> Seq<char> {
    seq![' ', entry_icon(e.0), ' '] + e.1 + seq![' ']
}

/// Whether entry `i` is in the window of `max_show` entries round the
/// selection.
pub open spec fn in_window(i: int, len: int, index: int, max_show: int) -> bool {
    !(i + max_show / 2 < index && i + max_show < len)
}

/// The entries in the window, in order, the first `limit` of them, as
/// lines: the selected one with the terminal's colors swapped.
pub open spec fn window_rows(
    v: FileSelectView,
    upto: int,
    max_show: int,
    limit: int,
    fg: Color,
    bg: Color,
) -> Seq<(Seq<char>, Option<Color>, Option<Color>)>
    decreases upto,
{
    if upto <= 0 {
        seq![]
    } else {
        let r = window_rows(v, upto - 1, max_show, limit, fg, bg);
        let i = upto - 1;
        if in_window(i, v.entries.len() as int, v.index, max_show) && r.len() < limit {
            r.push(
                if i == v.index {
                    (entry_text(v.entries[i]), Some(fg), Some(bg))
                } else {
                    (entry_text(v.entries[i]), None, None)
                },
            )
        } else {
            r
        }
    }
}

impl FileSelect {
    /// The lines of the entries shown: those in a window of `max_show`
    /// round the selection, at most `limit` of them.
    pub fn entry_rows(&self, max_show: usize, limit: usize, fg: Color, bg: Color) -> (r: Vec<StyledLine>)
        requires
            self.entries@.len() + max_show <= usize::MAX,
        ensures
            styled_views(r@) == window_rows(
                self@,
                self@.entries.len() as int,
                max_show as int,
                limit as int,
                fg,
                bg,
            ),
    {
        let mut r: Vec<StyledLine> = Vec::new();
        let len = self.entries.len();
        let mut i: usize = 0;
        while i < len
            invariant
                len == self@.entries.len(),
                len + max_show <= usize::MAX,
                i <= len,
                styled_views(r@) == window_rows(self@, i as int, max_show as int, limit as int, fg, bg),
            decreases len - i,
        {
            let skip = i + max_show / 2 < self.index && i + max_show < len;
            if !skip && r.len() < limit {
                let e = &self.entries[i];
                let mut text = String::new();
                text.push(' ');
                text.push(
                    match e.kind {
                        EntryKind::Dir => '\u{1F4C1}',
                        EntryKind::File => '\u{1F4C4}',
                        EntryKind::Symlink => '\u{1F517}',
                        EntryKind::Other => '\u{2753}',
                    },
                );
                text.push(' ');
                crate::text::push_all(&mut text, e.name.as_str());
                text.push(' ');
                let (lf, lb) = if i == self.index {
                    (Some(fg), Some(bg))
                } else {
                    (None, None)
                };
                proof {
                    assert(self@.entries[i as int] == (e.kind, e.name@));
                    assert(text@ =~= entry_text(self@.entries[i as int]));
                }
                let ghost r0 = r@;
                r.push(StyledLine { text, fg: lf, bg: lb });
                proof {
                    assert(styled_views(r@) =~= styled_views(r0).push((text@, lf, lb)));
                }
            }
            i = i + 1;
        }
        r
    }
}


// ===== panels opened and closed by keys =====

/// Which panels are shown, and whether quitting waits for confirmation.
#[derive(Clone, Copy, PartialEq, Eq, Structural, Debug)]
pub struct UiFlags {
    pub show_help: bool,
    pub quit_confirmation: bool,
    pub show_overlay_text: bool,
    pub show_progressbar: bool,
}

impl UiFlags {
    /// Statistics and progress bar shown, nothing else.
    pub fn new() -> (r: UiFlags)
        ensures
            r == (UiFlags { show_help: false, quit_confirmation: false, show_overlay_text: true, show_progressbar: true }),
    {
        UiFlags { show_help: false, quit_confirmation: false, show_overlay_text: true, show_progressbar: true }
    }

    /// `h`: shows or hides the help.
    pub fn key_help(&mut self) -> (r: bool)
        ensures
            r,
            *final(self) == (UiFlags { show_help: !old(self).show_help, ..*old(self) }),
    {
        self.show_help = !self.show_help;
        true
    }

    /// `o`: shows or hides the statistics.
    pub fn key_overlay_text(&mut self) -> (r: bool)
        ensures
            r,
            *final(self) == (UiFlags { show_overlay_text: !old(self).show_overlay_text, ..*old(self) }),
    {
        self.show_overlay_text = !self.show_overlay_text;
        true
    }

    /// `c` while quitting waits for confirmation: the local terminal (id 0)
    /// cancels; the key is taken from any terminal.
    pub fn key_cancel_quit(&mut self, id: i32) -> (r: bool)
        ensures
            r == old(self).quit_confirmation,
            *final(self) == (if old(self).quit_confirmation && id == 0 {
                UiFlags { quit_confirmation: false, ..*old(self) }
            } else {
                *old(self)
            }),
    {
        if !self.quit_confirmation {
            return false;
        }
        if id == 0 {
            self.quit_confirmation = false;
        }
        true
    }

    /// `q` while quitting waits for confirmation: whether to quit (only
    /// the local terminal, id 0, quits); nothing when no confirmation is
    /// asked for.
    pub fn key_confirm_quit(&self, id: i32) -> (r: Option<bool>)
        ensures
            r == (if self.quit_confirmation { Some(id == 0) } else { None::<bool> }),
    {
        if self.quit_confirmation {
            Some(id == 0)
        } else {
            None
        }
    }

    /// `q` that nothing else took: the local terminal (id 0) is asked to
    /// confirm quitting.
    pub fn key_ask_quit(&mut self, id: i32)
        ensures
            *final(self) == (if id == 0 { UiFlags { quit_confirmation: true, ..*old(self) } } else { *old(self) }),
    {
        if id == 0 {
            self.quit_confirmation = true;
        }
    }
}

/// What the quit key did.
#[derive(Clone, Copy, PartialEq, Eq, Structural, Debug)]
pub enum QuitKey {
    /// It closed the file selector.
    ClosedFileSelect,
    /// It confirmed quitting: the program is to end.
    Quit,
    /// It was taken and did nothing (a remote terminal cannot quit).
    Swallowed,
    /// It closed the playlist.
    ClosedPlaylist,
    /// It asked for confirmation.
    AskedToConfirm,
}

/// The quit key, from terminal `id`, given which panels are open: it closes
/// the file selector, else confirms quitting when asked, else closes the
/// playlist, else asks for confirmation; only the local terminal (id 0)
/// quits or asks.
pub open spec fn quit_key_spec(flags: UiFlags, files_open: bool, playlist_open: bool, id: int) -> (UiFlags, bool, bool, QuitKey) {
    if files_open {
        (flags, false, playlist_open, QuitKey::ClosedFileSelect)
    } else if flags.quit_confirmation {
        (flags, files_open, playlist_open, if id == 0 { QuitKey::Quit } else { QuitKey::Swallowed })
    } else if playlist_open {
        (flags, files_open, false, QuitKey::ClosedPlaylist)
    } else if id == 0 {
        (UiFlags { quit_confirmation: true, ..flags }, files_open, playlist_open, QuitKey::AskedToConfirm)
    } else {
        (flags, files_open, playlist_open, QuitKey::Swallowed)
    }
}

/// The quit key (`q`), when the command line does not take it.
pub fn quit_key(flags: &mut UiFlags, files: &mut FileSelect, overlay: &mut PlaylistOverlay, id: i32) -> (r: QuitKey)
    ensures
        ({
            let (f, fa, po, k) = quit_key_spec(*old(flags), old(files)@.active, old(overlay).show, id as int);
            &&& *final(flags) == f
            &&& final(files)@ == (FileSelectView { active: fa, ..old(files)@ })
            &&& *final(overlay) == (PlaylistOverlay { show: po, ..*old(overlay) })
            &&& r == k
        }),
{
    if files.key_close() {
        return QuitKey::ClosedFileSelect;
    }
    match flags.key_confirm_quit(id) {
        Some(true) => return QuitKey::Quit,
        Some(false) => return QuitKey::Swallowed,
        None => {},
    }
    if overlay.show {
        overlay.show = false;
        return QuitKey::ClosedPlaylist;
    }
    flags.key_ask_quit(id);
    if id == 0 {
        QuitKey::AskedToConfirm
    } else {
        QuitKey::Swallowed
    }
}

/// With no panel open, the local terminal quits with two presses of the
/// quit key: the first asks for confirmation, the second confirms.
pub proof fn lemma_quit_takes_two(flags: UiFlags)
    requires
        !flags.quit_confirmation,
    ensures
        quit_key_spec(flags, false, false, 0).3 == QuitKey::AskedToConfirm,
        quit_key_spec(quit_key_spec(flags, false, false, 0).0, false, false, 0).3 == QuitKey::Quit,
{
}

/// A remote terminal never quits, whatever it presses.
pub proof fn lemma_remote_never_quits(flags: UiFlags, files_open: bool, playlist_open: bool, id: int)
    requires
        id != 0,
    ensures
        quit_key_spec(flags, files_open, playlist_open, id).3 != QuitKey::Quit,
        quit_key_spec(flags, files_open, playlist_open, id).0 == flags,
{
}

} // verus!
