use vstd::prelude::*;
use vstd::std_specs::cmp::PartialEqSpec;

use crate::text::{decimal, push_decimal};

verus! {

// ===== cursor / box geometry =====

/// A pair of coordinates.
pub struct XY {
    x: usize,
    y: usize,
}

impl View for XY {
    type V = (usize, usize);

    closed spec fn view(&self) -> (usize, usize) {
        (self.x, self.y)
    }
}

impl XY {
    pub fn new() -> (r: XY)
        ensures
            r@ == (0usize, 0usize),
    {
        XY { x: 0, y: 0 }
    }

    pub fn set(&mut self, x: usize, y: usize)
        ensures
            final(self)@ == (x, y),
    {
        self.x = x;
        self.y = y;
    }

    pub fn get(&self) -> (r: (usize, usize))
        ensures
            r == self@,
    {
        (self.x, self.y)
    }

    pub fn x(&self) -> (r: usize)
        ensures
            r == self@.0,
    {
        self.x
    }

    pub fn y(&self) -> (r: usize)
        ensures
            r == self@.1,
    {
        self.y
    }
}

/// Four margins: top, bottom, left, right.
pub struct TBLR {
    top: usize,
    bottom: usize,
    left: usize,
    right: usize,
}

impl View for TBLR {
    type V = (usize, usize, usize, usize);

    closed spec fn view(&self) -> (usize, usize, usize, usize) {
        (self.top, self.bottom, self.left, self.right)
    }
}

impl TBLR {
    pub fn new() -> (r: TBLR)
        ensures
            r@ == (0usize, 0usize, 0usize, 0usize),
    {
        TBLR { top: 0, bottom: 0, left: 0, right: 0 }
    }

    pub fn set(&mut self, top: usize, bottom: usize, left: usize, right: usize)
        ensures
            final(self)@ == (top, bottom, left, right),
    {
        self.top = top;
        self.bottom = bottom;
        self.left = left;
        self.right = right;
    }

    pub fn get(&self) -> (r: (usize, usize, usize, usize))
        ensures
            r == self@,
    {
        (self.top, self.bottom, self.left, self.right)
    }

    pub fn top(&self) -> (r: usize)
        ensures
            r == self@.0,
    {
        self.top
    }

    pub fn bottom(&self) -> (r: usize)
        ensures
            r == self@.1,
    {
        self.bottom
    }

    pub fn left(&self) -> (r: usize)
        ensures
            r == self@.2,
    {
        self.left
    }

    pub fn right(&self) -> (r: usize)
        ensures
            r == self@.3,
    {
        self.right
    }
}

/// The state of a text box: its origin `(x, y)`, size `(w, h)`, the cursor
/// `(i, j)` and whether text wraps at the right edge.
pub struct TextBoxInfo {
    pub x: isize,
    pub y: isize,
    pub w: usize,
    pub h: usize,
    pub i: isize,
    pub j: isize,
    pub autowrap: bool,
}

impl TextBoxInfo {
    pub fn new() -> (r: TextBoxInfo)
        ensures
            r == (TextBoxInfo { x: 0, y: 0, w: 0, h: 0, i: 0, j: 0, autowrap: false }),
    {
        TextBoxInfo { x: 0, y: 0, w: 0, h: 0, i: 0, j: 0, autowrap: false }
    }

    pub fn set(&mut self, x: isize, y: isize, w: usize, h: usize, i: isize, j: isize)
        ensures
            *final(self) == (TextBoxInfo { x, y, w, h, i, j, autowrap: old(self).autowrap }),
    {
        self.x = x;
        self.y = y;
        self.w = w;
        self.h = h;
        self.i = i;
        self.j = j;
    }

    pub fn get(&self) -> (r: (isize, isize, usize, usize, isize, isize))
        ensures
            r == (self.x, self.y, self.w, self.h, self.i, self.j),
    {
        (self.x, self.y, self.w, self.h, self.i, self.j)
    }

    pub fn x(&self) -> (r: isize)
        ensures
            r == self.x,
    {
        self.x
    }

    pub fn y(&self) -> (r: isize)
        ensures
            r == self.y,
    {
        self.y
    }

    pub fn w(&self) -> (r: usize)
        ensures
            r == self.w,
    {
        self.w
    }

    pub fn h(&self) -> (r: usize)
        ensures
            r == self.h,
    {
        self.h
    }

    pub fn i(&self) -> (r: isize)
        ensures
            r == self.i,
    {
        self.i
    }

    pub fn j(&self) -> (r: isize)
        ensures
            r == self.j,
    {
        self.j
    }

    pub fn setwrap(&mut self, autowrap: bool)
        ensures
            *final(self) == (TextBoxInfo { autowrap, ..*old(self) }),
    {
        self.autowrap = autowrap;
    }

    pub fn getwrap(&self) -> (r: bool)
        ensures
            r == self.autowrap,
    {
        self.autowrap
    }
}

// ===== colors =====

/// An RGBA color with 8-bit channels.
#[derive(Clone, Copy, PartialEq, Eq, Structural, Debug, Hash)]
pub struct Color {
    pub r: u8,
    pub g: u8,
    pub b: u8,
    pub a: u8,
}

pub open spec fn rgb(r: u8, g: u8, b: u8) -> Color {
    Color { r, g, b, a: 255 }
}

impl Default for Color {
    fn default() -> (c: Color)
        ensures
            c == rgb(0, 0, 0),
    {
        Color { r: 0, g: 0, b: 0, a: 255 }
    }
}

impl Color {
    /// An opaque color.
    pub fn new(r: u8, g: u8, b: u8) -> (c: Color)
        ensures
            c == rgb(r, g, b),
    {
        Color { r, g, b, a: 255 }
    }

    /// The fully transparent black.
    pub fn transparent() -> (c: Color)
        ensures
            c == (Color { r: 0, g: 0, b: 0, a: 0 }),
    {
        Color { r: 0, g: 0, b: 0, a: 0 }
    }

    /// Whether the color is fully transparent.
    pub fn is_transparent(&self) -> (r: bool)
        ensures
            r == (self.a == 0),
    {
        self.a == 0
    }
}

pub open spec fn contrast_channel(c: u8) -> u8 {
    if c < 128 {
        255
    } else {
        0
    }
}

pub open spec fn best_contrast(bg: Color) -> Color {
    rgb(contrast_channel(bg.r), contrast_channel(bg.g), contrast_channel(bg.b))
}

/// The black-or-white (per channel) color that stands out best on `bg`.
pub fn best_contrast_color(bg: Color) -> (c: Color)
    ensures
        c == best_contrast(bg),
{
    let r: u8 = if bg.r < 128 {
        255
    } else {
        0
    };
    let g: u8 = if bg.g < 128 {
        255
    } else {
        0
    };
    let b: u8 = if bg.b < 128 {
        255
    } else {
        0
    };
    Color::new(r, g, b)
}

// ===== cells =====

/// One character cell of the terminal: an optional glyph and its colors.
/// `c == None` means the cell shows the video (the glyph is drawn by the
/// renderer), `c == Some('\0')` marks the trailing half of a wide glyph.
#[derive(Clone, Copy, PartialEq, Eq, Structural, Debug, Hash)]
pub struct Cell {
    pub c: Option<char>,
    pub fg: Color,
    pub bg: Color,
}

impl Default for Cell {
    fn default() -> (r: Cell)
        ensures
            r == (Cell { c: None, fg: rgb(0, 0, 0), bg: rgb(0, 0, 0) }),
    {
        Cell { c: None, fg: Color::default(), bg: Color::default() }
    }
}

impl Cell {
    pub fn new(c: char, fg: Color, bg: Color) -> (r: Cell)
        ensures
            r == (Cell { c: Some(c), fg, bg }),
    {
        Cell { c: Some(c), fg, bg }
    }

    pub fn transparent() -> (r: Cell)
        ensures
            r == (Cell {
                c: None,
                fg: Color { r: 0, g: 0, b: 0, a: 0 },
                bg: Color { r: 0, g: 0, b: 0, a: 0 },
            }),
    {
        Cell { c: None, fg: Color::transparent(), bg: Color::transparent() }
    }
}

/// A grid of cells with a row pitch and one trailing sentinel cell. The first
/// cell and the sentinel never hold a wide-glyph placeholder, so a scan over a
/// run of placeholders always stops inside the grid.
pub struct CellGrid {
    pub cells: Vec<Cell>,
    pub width: usize,
    pub height: usize,
    pub pitch: usize,
}

pub open spec fn is_placeholder(c: Cell) -> bool {
    c.c == Some('\0')
}

impl CellGrid {
    pub open spec fn wf(&self) -> bool {
        &&& self.width <= self.pitch
        &&& self.pitch <= isize::MAX
        &&& self.height <= isize::MAX
        &&& self.cells@.len() <= isize::MAX
        &&& self.cells@.len() == self.pitch * self.height + 1
        &&& !is_placeholder(self.cells@[0])
        &&& !is_placeholder(self.cells@.last())
    }

    /// A grid of `width` x `height` default cells (plus the sentinel).
    pub fn new(width: usize, height: usize) -> (g: CellGrid)
        requires
            width * height + 1 <= isize::MAX,
            width <= isize::MAX,
            height <= isize::MAX,
        ensures
            g.wf(),
            g.width == width,
            g.height == height,
            g.pitch == width,
            forall|i: int| 0 <= i < g.cells@.len() ==> g.cells@[i] == (Cell { c: None, fg: rgb(0, 0, 0), bg: rgb(0, 0, 0) }),
    {
        let n = width * height + 1;
        let mut cells: Vec<Cell> = Vec::new();
        let mut k: usize = 0;
        while k < n
            invariant
                k <= n,
                cells@.len() == k,
                forall|i: int| 0 <= i < k ==> cells@[i] == (Cell { c: None, fg: rgb(0, 0, 0), bg: rgb(0, 0, 0) }),
            decreases n - k,
        {
            cells.push(Cell::default());
            k = k + 1;
        }
        CellGrid { cells, width, height, pitch: width }
    }
}

pub fn cell_is_placeholder(c: &Cell) -> (r: bool)
    ensures
        r == is_placeholder(*c),
{
    match c.c {
        Some(ch) => ch == '\0',
        None => false,
    }
}

// ===== the xterm 256-color palette =====

/// The sixteen base colors of the palette (indices 0..16).
pub open spec fn ansi_color(i: int) -> Color {
    if i == 0 {
        rgb(0, 0, 0)
    } else if i == 1 {
        rgb(205, 0, 0)
    } else if i == 2 {
        rgb(0, 205, 0)
    } else if i == 3 {
        rgb(205, 205, 0)
    } else if i == 4 {
        rgb(0, 0, 238)
    } else if i == 5 {
        rgb(205, 0, 205)
    } else if i == 6 {
        rgb(0, 205, 205)
    } else if i == 7 {
        rgb(229, 229, 229)
    } else if i == 8 {
        rgb(127, 127, 127)
    } else if i == 9 {
        rgb(255, 0, 0)
    } else if i == 10 {
        rgb(0, 255, 0)
    } else if i == 11 {
        rgb(255, 255, 0)
    } else if i == 12 {
        rgb(92, 92, 255)
    } else if i == 13 {
        rgb(255, 0, 255)
    } else if i == 14 {
        rgb(0, 255, 255)
    } else {
        rgb(255, 255, 255)
    }
}

/// Level `k` of the color cube: 0, 95, 135, 175, 215, 255 for `k` in 0..6.
pub open spec fn cube_level(k: int) -> int {
    if k == 0 {
        0
    } else {
        k * 40 + 55
    }
}

/// The gray ramp entry `k` (0..24): 8, 18, ..., 238.
pub open spec fn gray_level(k: int) -> int {
    k * 10 + 8
}

/// The color of palette entry `index`.
pub open spec fn palette256_spec(index: u8) -> Color {
    if index < 16 {
        ansi_color(index as int)
    } else if index < 232 {
        let j = index as int - 16;
        rgb(cube_level(j / 36) as u8, cube_level(j % 36 / 6) as u8, cube_level(j % 6) as u8)
    } else {
        let c = gray_level(index as int - 232) as u8;
        rgb(c, c, c)
    }
}

fn ansi_color_of(index: u8) -> (c: Color)
    requires
        index < 16,
    ensures
        c == ansi_color(index as int),
{
    match index {
        0 => Color::new(0, 0, 0),
        1 => Color::new(205, 0, 0),
        2 => Color::new(0, 205, 0),
        3 => Color::new(205, 205, 0),
        4 => Color::new(0, 0, 238),
        5 => Color::new(205, 0, 205),
        6 => Color::new(0, 205, 205),
        7 => Color::new(229, 229, 229),
        8 => Color::new(127, 127, 127),
        9 => Color::new(255, 0, 0),
        10 => Color::new(0, 255, 0),
        11 => Color::new(255, 255, 0),
        12 => Color::new(92, 92, 255),
        13 => Color::new(255, 0, 255),
        14 => Color::new(0, 255, 255),
        _ => Color::new(255, 255, 255),
    }
}

fn palette256_scale(c: u8) -> (r: u8)
    requires
        c < 6,
    ensures
        r == cube_level(c as int),
{
    if c == 0 {
        0
    } else {
        c * 40 + 55
    }
}

/// The cube level (0..6) nearest below channel value `c`.
pub open spec fn cube_reverse(c: u8) -> u8 {
    if c < 35 {
        0
    } else {
        ((c - 35) / 40) as u8
    }
}

fn palette256_reverse(c: u8) -> (r: u8)
    ensures
        r == cube_reverse(c),
        r < 6,
{
    if c < 35 {
        0
    } else {
        (c - 35) / 40
    }
}

/// The cube level whose value is exactly `c`, if any.
pub open spec fn cube_exact(c: u8) -> Option<u8> {
    if c == 0 {
        Some(0u8)
    } else if c == 95 {
        Some(1u8)
    } else if c == 135 {
        Some(2u8)
    } else if c == 175 {
        Some(3u8)
    } else if c == 215 {
        Some(4u8)
    } else if c == 255 {
        Some(5u8)
    } else {
        None
    }
}

fn palette256_try_reverse(c: u8) -> (r: Option<u8>)
    ensures
        r == cube_exact(c),
{
    match c {
        0 => Some(0),
        95 => Some(1),
        135 => Some(2),
        175 => Some(3),
        215 => Some(4),
        255 => Some(5),
        _ => None,
    }
}

fn palette256_gray(c: u8) -> (r: u8)
    requires
        c < 24,
    ensures
        r == gray_level(c as int),
{
    c * 10 + 8
}

/// The gray ramp entry whose value is exactly `c`, if any.
pub open spec fn gray_exact(c: u8) -> Option<u8> {
    if 8 <= c <= 238 && (c - 8) % 10 == 0 {
        Some(((c - 8) / 10) as u8)
    } else {
        None
    }
}

fn palette256_gray_try_reverse(c: u8) -> (r: Option<u8>)
    ensures
        r == gray_exact(c),
{
    if c >= 8 && c <= 238 && (c - 8) % 10 == 0 {
        Some((c - 8) / 10)
    } else {
        None
    }
}

/// The color of entry `index` of the xterm 256-color palette.
pub fn palette256_to_color(index: u8) -> (c: Color)
    ensures
        c == palette256_spec(index),
{
    if index < 16 {
        ansi_color_of(index)
    } else if index < 232 {
        let j = index - 16;
        let r = palette256_scale(j / 36);
        let g = palette256_scale(j % 36 / 6);
        let b = palette256_scale(j % 6);
        Color::new(r, g, b)
    } else {
        let c = palette256_gray(index - 232);
        Color::new(c, c, c)
    }
}

/// The index of the color-cube entry nearest below `c` in each channel.
pub open spec fn cube_index(r: u8, g: u8, b: u8) -> int {
    r * 36 + g * 6 + b + 16
}

/// The color-cube entry (16..232) that `c` falls into.
pub fn palette256_from_color(c: Color) -> (i: u8)
    ensures
        i == cube_index(cube_reverse(c.r), cube_reverse(c.g), cube_reverse(c.b)),
        16 <= i < 232,
{
    let r = palette256_reverse(c.r);
    let g = palette256_reverse(c.g);
    let b = palette256_reverse(c.b);
    r * 36 + g * 6 + b + 16
}

/// The palette index whose color equals `c` exactly (alpha ignored): a
/// color-cube entry is preferred over a gray-ramp entry.
pub open spec fn try_palette256_spec(c: Color) -> Option<u8> {
    if cube_exact(c.r) is Some && cube_exact(c.g) is Some && cube_exact(c.b) is Some {
        Some(
            cube_index(cube_exact(c.r)->0, cube_exact(c.g)->0, cube_exact(c.b)->0) as u8,
        )
    } else if gray_exact(c.g) is Some && c.r == c.g && c.g == c.b {
        Some((gray_exact(c.g)->0 + 232) as u8)
    } else {
        None
    }
}

pub fn try_palette256(c: Color) -> (r: Option<u8>)
    ensures
        r == try_palette256_spec(c),
{
    if let Some(ri) = palette256_try_reverse(c.r) {
        if let Some(gi) = palette256_try_reverse(c.g) {
            if let Some(bi) = palette256_try_reverse(c.b) {
                return Some(ri * 36 + gi * 6 + bi + 16);
            }
        }
    }
    if let Some(i) = palette256_gray_try_reverse(c.g) {
        if c.r == c.g && c.g == c.b {
            return Some(i + 232);
        }
    }
    None
}

proof fn lemma_cube_level_exact(k: int)
    requires
        0 <= k < 6,
    ensures
        cube_exact(cube_level(k) as u8) == Some(k as u8),
{
    if k == 0 {
    } else if k == 1 {
    } else if k == 2 {
    } else if k == 3 {
    } else if k == 4 {
    } else {
    }
}

/// Every entry of the color cube and of the gray ramp is found again from
/// its color.
pub proof fn lemma_palette256_round_trip(index: u8)
    requires
        16 <= index,
    ensures
        try_palette256_spec(palette256_spec(index)) == Some(index),
{
    if index < 232 {
        let j = index as int - 16;
        let a = j / 36;
        let b = j % 36 / 6;
        let c = j % 6;
        assert(0 <= a < 6 && 0 <= b < 6 && 0 <= c < 6 && a * 36 + b * 6 + c == j) by (nonlinear_arith)
            requires
                0 <= j < 216,
                a == j / 36,
                b == j % 36 / 6,
                c == j % 6,
        ;
        lemma_cube_level_exact(a);
        lemma_cube_level_exact(b);
        lemma_cube_level_exact(c);
    } else {
        let k = index as int - 232;
        let v = k * 10 + 8;
        assert((v - 8) % 10 == 0 && (v - 8) / 10 == k) by (nonlinear_arith)
            requires
                v == k * 10 + 8,
                0 <= k,
        ;
    }
}

// ===== small helpers =====

/// `Some(a)` when `a == b`.
pub fn some_if_eq<T: PartialEq>(a: T, b: T) -> (r: Option<T>)
    ensures
        T::obeys_eq_spec() ==> r == (if a.eq_spec(&b) {
            Some(a)
        } else {
            None
        }),
{
    if a == b {
        Some(a)
    } else {
        None
    }
}

/// `Some(a)` when `a != b`.
pub fn some_if_ne<T: PartialEq>(a: T, b: T) -> (r: Option<T>)
    ensures
        T::obeys_eq_spec() ==> r == (if a.eq_spec(&b) {
            None
        } else {
            Some(a)
        }),
{
    if a == b {
        None
    } else {
        Some(a)
    }
}

// ===== SGR color sequences =====

/// `R;G;B` in decimal, as a true-color SGR parameter list takes it.
pub open spec fn color_code(c: Color) -> Seq<char> {
    decimal(c.r as nat) + seq![';'] + decimal(c.g as nat) + seq![';'] + decimal(c.b as nat)
}

/// The SGR sequence that sets the given foreground and background colors;
/// empty when neither is given.
pub open spec fn escape_set_color_spec(fg: Option<Color>, bg: Option<Color>) -> Seq<char> {
    match (fg, bg) {
        (Some(fg), Some(bg)) => seq!['\x1b', '[', '3', '8', ';', '2', ';'] + color_code(fg) + seq![
            ';',
            '4',
            '8',
            ';',
            '2',
            ';',
        ] + color_code(bg) + seq!['m'],
        (Some(fg), None) => seq!['\x1b', '[', '3', '8', ';', '2', ';'] + color_code(fg) + seq!['m'],
        (None, Some(bg)) => seq!['\x1b', '[', '4', '8', ';', '2', ';'] + color_code(bg) + seq!['m'],
        (None, None) => Seq::empty(),
    }
}

fn push_color_code(s: &mut String, c: Color)
    ensures
        final(s)@ == old(s)@ + color_code(c),
{
    push_decimal(s, c.r as u64);
    s.push(';');
    push_decimal(s, c.g as u64);
    s.push(';');
    push_decimal(s, c.b as u64);
    assert(final(s)@ == old(s)@ + color_code(c));
}

fn push_sgr_head(s: &mut String, ground: char)
    ensures
        final(s)@ == old(s)@ + seq!['\x1b', '[', ground, '8', ';', '2', ';'],
{
    s.push('\x1b');
    s.push('[');
    s.push(ground);
    s.push('8');
    s.push(';');
    s.push('2');
    s.push(';');
    assert(final(s)@ == old(s)@ + seq!['\x1b', '[', ground, '8', ';', '2', ';']);
}

/// The SGR sequence that sets the given foreground and background colors.
pub fn escape_set_color(fg: Option<Color>, bg: Option<Color>) -> (s: String)
    ensures
        s@ == escape_set_color_spec(fg, bg),
{
    let mut s = String::new();
    match (fg, bg) {
        (Some(fg), Some(bg)) => {
            push_sgr_head(&mut s, '3');
            push_color_code(&mut s, fg);
            s.push(';');
            s.push('4');
            s.push('8');
            s.push(';');
            s.push('2');
            s.push(';');
            push_color_code(&mut s, bg);
            s.push('m');
        },
        (Some(fg), None) => {
            push_sgr_head(&mut s, '3');
            push_color_code(&mut s, fg);
            s.push('m');
        },
        (None, Some(bg)) => {
            push_sgr_head(&mut s, '4');
            push_color_code(&mut s, bg);
            s.push('m');
        },
        (None, None) => {},
    }
    assert(s@ == escape_set_color_spec(fg, bg));
    s
}

} // verus!
