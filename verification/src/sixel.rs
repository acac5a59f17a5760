//! Sixel graphics: images as bands six pixels high, one character per column
//! of a band and color, with run-length compression.
use vstd::prelude::*;
use crate::text::{decimal, push_decimal};
use crate::util::{Color, cube_index, cube_reverse, palette256_from_color, palette256_to_color, palette256_spec};

verus! {

// ===== coverage masks =====

/// The bit for row `y` of a band.
pub open spec fn row_bit(y: int) -> int {
    if y == 0 {
        1
    } else if y == 1 {
        2
    } else if y == 2 {
        4
    } else if y == 3 {
        8
    } else if y == 4 {
        16
    } else {
        32
    }
}

/// The sum of `f(y)` for the rows `0..n` of a band.
pub open spec fn band_mask(f: spec_fn(int) -> bool, n: int) -> int
    decreases n,
{
    if n <= 0 {
        0
    } else {
        band_mask(f, n - 1) + if f(n - 1) {
            row_bit(n - 1)
        } else {
            0
        }
    }
}

proof fn lemma_band_mask_ext(f: spec_fn(int) -> bool, g: spec_fn(int) -> bool, n: int)
    requires
        forall|y: int| 0 <= y < n ==> #[trigger] f(y) == g(y),
    ensures
        band_mask(f, n) == band_mask(g, n),
    decreases n,
{
    if n > 0 {
        lemma_band_mask_ext(f, g, n - 1);
    }
}

proof fn lemma_band_mask_bound(f: spec_fn(int) -> bool, n: int)
    requires
        0 <= n <= 6,
    ensures
        0 <= band_mask(f, n) < row_bit(n) || (n == 6 && band_mask(f, n) < 64),
    decreases n,
{
    if n > 0 {
        lemma_band_mask_bound(f, n - 1);
    }
}

fn bit_of(y: usize) -> (b: u8)
    requires
        y < 6,
    ensures
        b == row_bit(y as int),
{
    if y == 0 {
        1
    } else if y == 1 {
        2
    } else if y == 2 {
        4
    } else if y == 3 {
        8
    } else if y == 4 {
        16
    } else {
        32
    }
}

/// Pixel `x` of row `y` of a one-band image laid out row after row, `w`
/// pixels to a row, is opaque enough to draw (alpha above 128).
pub open spec fn covered(image: Seq<Color>, w: int, x: int) -> spec_fn(int) -> bool {
    |y: int| image[x + y * w].a > 128
}

/// One band (the image holds six rows): a sixel character per column for
/// the pixels drawn.
pub open spec fn sixel_line_spec(image: Seq<Color>) -> Seq<u8> {
    let w = (image.len() / 6) as int;
    Seq::new(w as nat, |x: int| (63 + band_mask(covered(image, w, x), 6)) as u8)
}

fn column_mask(image: &Vec<Color>, w: usize, x: usize) -> (r: u8)
    requires
        x < w,
        w * 6 <= image@.len(),
    ensures
        r == band_mask(covered(image@, w as int, x as int), 6),
        r < 64,
{
    let mut byte: u8 = 0;
    let mut y: usize = 0;
    let n = image.len();
    let ghost f = covered(image@, w as int, x as int);
    while y < 6
        invariant
            y <= 6,
            x < w,
            n == image@.len(),
            w * 6 <= image@.len(),
            f == covered(image@, w as int, x as int),
            byte == band_mask(f, y as int),
        decreases 6 - y,
    {
        proof {
            lemma_band_mask_bound(f, y as int);
            assert(x + y * w < w * 6 && y * w <= w * 6) by (nonlinear_arith)
                requires
                    x < w,
                    y < 6,
            ;
        }
        let color = image[x + y * w];
        if color.a > 128 {
            let bit = bit_of(y);
            assert(byte < bit);
            byte = byte + bit;
        }
        y = y + 1;
    }
    proof {
        lemma_band_mask_bound(f, 6);
    }
    byte
}

/// The sixel characters of one band of six rows.
fn image_to_sixel_line(image: &Vec<Color>) -> (r: Vec<u8>)
    ensures
        r@ == sixel_line_spec(image@),
{
    let mut result: Vec<u8> = Vec::new();
    let width = image.len() / 6;
    let mut x: usize = 0;
    while x < width
        invariant
            width == image@.len() / 6,
            x <= width,
            result@ == sixel_line_spec(image@).take(x as int),
        decreases width - x,
    {
        let byte = column_mask(image, width, x);
        result.push(0x3f + byte);
        x = x + 1;
        assert(result@ =~= sixel_line_spec(image@).take(x as int));
    }
    assert(sixel_line_spec(image@).take(width as int) =~= sixel_line_spec(image@));
    result
}

/// `ESC P q`, which starts sixel data.
pub open spec fn sixel_start_bytes() -> Seq<u8> {
    seq![0x1bu8, 0x50u8, 0x71u8]
}

/// `ESC \`, which ends it.
pub open spec fn sixel_end_bytes() -> Seq<u8> {
    seq![0x1bu8, 0x5cu8]
}

/// One band of sixels, as a complete sequence.
fn image_to_sixel(image: &Vec<Color>) -> (r: Vec<u8>)
    ensures
        r@ == sixel_start_bytes() + sixel_line_spec(image@) + sixel_end_bytes(),
{
    let mut result: Vec<u8> = Vec::new();
    result.push(0x1b);
    result.push(0x50);
    result.push(0x71);
    let mut line = image_to_sixel_line(image);
    result.append(&mut line);
    result.push(0x1b);
    result.push(0x5c);
    assert(result@ =~= sixel_start_bytes() + sixel_line_spec(image@) + sixel_end_bytes());
    result
}

// ===== palette sixels =====

/// The palette index a pixel is drawn with; 255 marks a transparent pixel.
pub open spec fn pixel_index(p: Color) -> u8 {
    if p.a == 0 {
        255
    } else {
        cube_index(cube_reverse(p.r), cube_reverse(p.g), cube_reverse(p.b)) as u8
    }
}

/// A band: six rows of `width` pixels.
pub open spec fn band_ok(rows: Seq<Seq<Color>>, width: int) -> bool {
    rows.len() == 6 && forall|y: int| 0 <= y < 6 ==> #[trigger] rows[y].len() == width
}

/// Some opaque pixel of the band has palette index `c`.
pub open spec fn color_used(rows: Seq<Seq<Color>>, width: int, c: int) -> bool {
    exists|y: int, x: int| 0 <= y < 6 && 0 <= x < width && rows[y][x].a != 0 && pixel_index(#[trigger] rows[y][x]) == c
}

/// The rows of column `x` whose pixel has palette index `c`.
pub open spec fn has_index(rows: Seq<Seq<Color>>, x: int, c: int) -> spec_fn(int) -> bool {
    |y: int| pixel_index(rows[y][x]) == c
}

/// The sixel characters of color `c` along the band.
pub open spec fn color_line(rows: Seq<Seq<Color>>, width: int, c: int) -> Seq<char> {
    Seq::new(width as nat, |x: int| (63 + band_mask(has_index(rows, x, c), 6)) as char)
}

/// The length of the run of equal characters of `s` from `i`.
pub open spec fn run_len(s: Seq<char>, i: int) -> int
    decreases s.len() - i,
{
    if i < 0 || i >= s.len() {
        0
    } else if i + 1 < s.len() && s[i + 1] == s[i] {
        1 + run_len(s, i + 1)
    } else {
        1
    }
}

/// `s` from `i` with runs of more than three equal characters written as
/// `!` count character.
pub open spec fn rle_from(s: Seq<char>, i: int) -> Seq<char>
    decreases s.len() - i,
{
    if i < 0 || i >= s.len() || run_len(s, i) < 1 || i + run_len(s, i) > s.len() {
        Seq::empty()
    } else {
        let n = run_len(s, i);
        (if n > 3 {
            seq!['!'] + decimal(n as nat) + seq![s[i]]
        } else {
            Seq::new(n as nat, |k: int| s[i])
        }) + rle_from(s, i + n)
    }
}

/// The text of one color: `#` index, its sixels compressed, `$`.
pub open spec fn color_block(rows: Seq<Seq<Color>>, width: int, c: int) -> Seq<char> {
    seq!['#'] + decimal(c as nat) + rle_from(color_line(rows, width, c), 0) + seq!['$']
}

/// The text of a band: the block of every used color, in index order from
/// `c` on.
pub open spec fn band_text_from(rows: Seq<Seq<Color>>, width: int, c: int) -> Seq<char>
    decreases 256 - c,
{
    if c < 0 || c >= 256 {
        Seq::empty()
    } else {
        (if color_used(rows, width, c) {
            color_block(rows, width, c)
        } else {
            Seq::empty()
        }) + band_text_from(rows, width, c + 1)
    }
}

pub open spec fn band_text(rows: Seq<Seq<Color>>, width: int) -> Seq<char> {
    band_text_from(rows, width, 0)
}

pub open spec fn rows_view(rows: Seq<Vec<Color>>) -> Seq<Seq<Color>> {
    rows.map_values(|r: Vec<Color>| r@)
}

fn pixel_index_exec(p: Color) -> (r: u8)
    ensures
        r == pixel_index(p),
{
    if p.is_transparent() {
        255
    } else {
        palette256_from_color(p)
    }
}

proof fn lemma_run_len(s: Seq<char>, i: int)
    requires
        0 <= i < s.len(),
    ensures
        1 <= run_len(s, i) <= s.len() - i,
        forall|k: int| i <= k < i + run_len(s, i) ==> s[k] == s[i],
        i + run_len(s, i) < s.len() ==> s[i + run_len(s, i)] != s[i],
    decreases s.len() - i,
{
    if i + 1 < s.len() && s[i + 1] == s[i] {
        lemma_run_len(s, i + 1);
    }
}

/// `s` compressed as `rle_from(s, 0)` says.
fn rle(out: &mut String, s: &Vec<char>)
    ensures
        final(out)@ == old(out)@ + rle_from(s@, 0),
{
    let ghost o0 = out@;
    let n = s.len();
    let mut pos: usize = 0;
    while pos < n
        invariant
            n == s@.len(),
            pos <= n,
            o0 + rle_from(s@, 0) == out@ + rle_from(s@, pos as int),
        decreases n - pos,
    {
        let ch = s[pos];
        let mut count: usize = 1;
        while pos + count < n && s[pos + count] == ch
            invariant
                pos < n,
                n == s@.len(),
                1 <= count <= n - pos,
                ch == s@[pos as int],
                run_len(s@, pos as int) == count - 1 + run_len(s@, pos + count - 1),
                forall|k: int| pos <= k < pos + count ==> s@[k] == ch,
            decreases n - pos - count,
        {
            count = count + 1;
        }
        proof {
            lemma_run_len(s@, pos as int);
            lemma_run_len(s@, pos + count - 1);
            assert(run_len(s@, pos + count - 1) == 1);
        }
        let ghost before = out@;
        if count > 3 {
            out.push('!');
            push_decimal(out, count as u64);
            out.push(ch);
            assert(out@ =~= before + (seq!['!'] + decimal(count as nat) + seq![ch]));
        } else {
            let mut k: usize = 0;
            while k < count
                invariant
                    k <= count,
                    out@ == before + Seq::new(k as nat, |j: int| ch),
                decreases count - k,
            {
                out.push(ch);
                k = k + 1;
                assert(out@ =~= before + Seq::new(k as nat, |j: int| ch));
            }
            assert(Seq::new(count as nat, |j: int| ch) =~= Seq::new(count as nat, |j: int| s@[pos as int]));
        }
        pos = pos + count;
    }
    assert(rle_from(s@, n as int) =~= Seq::<char>::empty());
    assert(out@ =~= out@ + Seq::<char>::empty());
}

/// The sixel text of one band, as `band_text` says.
pub fn format_sixel_line(rows: &Vec<Vec<Color>>, width: usize) -> (r: String)
    requires
        band_ok(rows_view(rows@), width as int),
    ensures
        r@ == band_text(rows_view(rows@), width as int),
{
    let ghost rv = rows_view(rows@);
    let mut indices: Vec<Vec<u8>> = Vec::new();
    let mut used: Vec<bool> = Vec::new();
    let mut c: usize = 0;
    while c < 256
        invariant
            c <= 256,
            used@.len() == c,
            forall|k: int| 0 <= k < c ==> !(#[trigger] used@[k]),
        decreases 256 - c,
    {
        used.push(false);
        c = c + 1;
    }
    let mut y: usize = 0;
    while y < 6
        invariant
            y <= 6,
            rv == rows_view(rows@),
            band_ok(rv, width as int),
            indices@.len() == y,
            used@.len() == 256,
            forall|yy: int, x: int| 0 <= yy < y && 0 <= x < width ==> #[trigger] indices@[yy]@[x] == pixel_index(rv[yy][x]),
            forall|yy: int| 0 <= yy < y ==> (#[trigger] indices@[yy])@.len() == width,
            forall|k: int|
                0 <= k < 256 ==> (#[trigger] used@[k] <==> exists|yy: int, x: int|
                    0 <= yy < y && 0 <= x < width && rv[yy][x].a != 0 && pixel_index(#[trigger] rv[yy][x]) == k),
        decreases 6 - y,
    {
        let mut row: Vec<u8> = Vec::new();
        let mut x: usize = 0;
        assert(rv[y as int] == rows@[y as int]@);
        while x < width
            invariant
                y < 6,
                rv == rows_view(rows@),
                band_ok(rv, width as int),
                rv[y as int] == rows@[y as int]@,
                x <= width,
                row@.len() == x,
                used@.len() == 256,
                forall|xx: int| 0 <= xx < x ==> #[trigger] row@[xx] == pixel_index(rv[y as int][xx]),
                forall|k: int|
                    0 <= k < 256 ==> (#[trigger] used@[k] <==> (exists|yy: int, xx: int|
                        0 <= yy < y && 0 <= xx < width && rv[yy][xx].a != 0 && pixel_index(#[trigger] rv[yy][xx]) == k)
                        || (exists|xx: int|
                        0 <= xx < x && rv[y as int][xx].a != 0 && pixel_index(#[trigger] rv[y as int][xx]) == k)),
            decreases width - x,
        {
            let p = rows[y][x];
            let i = pixel_index_exec(p);
            row.push(i);
            if !p.is_transparent() {
                used.set(i as usize, true);
            }
            proof {
                assert forall|k: int| 0 <= k < 256 implies (#[trigger] used@[k] <==> (exists|yy: int, xx: int|
                    0 <= yy < y && 0 <= xx < width && rv[yy][xx].a != 0 && pixel_index(#[trigger] rv[yy][xx]) == k)
                    || (exists|xx: int|
                    0 <= xx < x + 1 && rv[y as int][xx].a != 0 && pixel_index(#[trigger] rv[y as int][xx]) == k)) by {
                    if p.a != 0 && k == i {
                        assert(rv[y as int][x as int] == p);
                    }
                    if exists|xx: int| 0 <= xx < x + 1 && rv[y as int][xx].a != 0 && pixel_index(#[trigger] rv[y as int][xx]) == k {
                        let xx = choose|xx: int| 0 <= xx < x + 1 && rv[y as int][xx].a != 0 && pixel_index(#[trigger] rv[y as int][xx]) == k;
                        if xx == x {
                            assert(rv[y as int][x as int] == p);
                        }
                    }
                }
            }
            x = x + 1;
        }
        indices.push(row);
        y = y + 1;
    }
    let mut out = String::new();
    let mut color: usize = 0;
    assert(band_text_from(rv, width as int, 0) =~= out@ + band_text_from(rv, width as int, 0));
    while color < 256
        invariant
            color <= 256,
            rv == rows_view(rows@),
            band_ok(rv, width as int),
            indices@.len() == 6,
            used@.len() == 256,
            forall|yy: int, x: int| 0 <= yy < 6 && 0 <= x < width ==> #[trigger] indices@[yy]@[x] == pixel_index(rv[yy][x]),
            forall|yy: int| 0 <= yy < 6 ==> (#[trigger] indices@[yy])@.len() == width,
            forall|k: int| 0 <= k < 256 ==> (#[trigger] used@[k] <==> color_used(rv, width as int, k)),
            band_text(rv, width as int) == out@ + band_text_from(rv, width as int, color as int),
        decreases 256 - color,
    {
        let ghost before = out@;
        if used[color] {
            out.push('#');
            push_decimal(&mut out, color as u64);
            let line = color_chars(&indices, width, color as u8);
            rle(&mut out, &line);
            out.push('$');
            proof {
                assert forall|x: int| 0 <= x < width implies #[trigger] line@[x] == color_line(rv, width as int, color as int)[x] by {
                    let f = |y: int| indices@[y]@[x] == color as u8;
                    let g = has_index(rv, x, color as int);
                    assert forall|y: int| 0 <= y < 6 implies #[trigger] f(y) == g(y) by {
                        assert(indices@[y]@[x] == pixel_index(rv[y][x]));
                    }
                    lemma_band_mask_ext(f, g, 6);
                }
                assert(line@ =~= color_line(rv, width as int, color as int));
                assert(out@ =~= before + color_block(rv, width as int, color as int));
            }
        }
        proof {
            assert(band_text_from(rv, width as int, color as int) == (if color_used(rv, width as int, color as int) {
                color_block(rv, width as int, color as int)
            } else {
                Seq::empty()
            }) + band_text_from(rv, width as int, color + 1));
            if !used@[color as int] {
                assert(Seq::<char>::empty() + band_text_from(rv, width as int, color + 1) =~= band_text_from(
                    rv,
                    width as int,
                    color + 1,
                ));
            }
            assert(before + band_text_from(rv, width as int, color as int) =~= out@ + band_text_from(
                rv,
                width as int,
                color + 1,
            ));
        }
        color = color + 1;
    }
    assert(out@ + band_text_from(rv, width as int, 256) =~= out@);
    out
}

/// The sixel characters of one color along the band.
fn color_chars(indices: &Vec<Vec<u8>>, width: usize, c: u8) -> (r: Vec<char>)
    requires
        indices@.len() == 6,
        forall|yy: int| 0 <= yy < 6 ==> (#[trigger] indices@[yy])@.len() == width,
    ensures
        r@.len() == width,
        forall|x: int|
            0 <= x < width ==> #[trigger] r@[x] == (63 + band_mask(|y: int| indices@[y]@[x] == c, 6)) as char,
{
    let mut r: Vec<char> = Vec::new();
    let mut x: usize = 0;
    while x < width
        invariant
            indices@.len() == 6,
            forall|yy: int| 0 <= yy < 6 ==> (#[trigger] indices@[yy])@.len() == width,
            x <= width,
            r@.len() == x,
            forall|xx: int|
                0 <= xx < x ==> #[trigger] r@[xx] == (63 + band_mask(|y: int| indices@[y]@[xx] == c, 6)) as char,
        decreases width - x,
    {
        let mut mask: u8 = 0;
        let mut y: usize = 0;
        let ghost f = |yy: int| indices@[yy]@[x as int] == c;
        while y < 6
            invariant
                y <= 6,
                x < width,
                indices@.len() == 6,
                forall|yy: int| 0 <= yy < 6 ==> (#[trigger] indices@[yy])@.len() == width,
                f == (|yy: int| indices@[yy]@[x as int] == c),
                mask == band_mask(f, y as int),
            decreases 6 - y,
        {
            proof {
                lemma_band_mask_bound(f, y as int);
            }
            if indices[y][x] == c {
                let bit = bit_of(y);
                mask = mask + bit;
            }
            y = y + 1;
        }
        proof {
            lemma_band_mask_bound(f, 6);
        }
        r.push(((mask + 63) as u8) as char);
        x = x + 1;
    }
    r
}

// ===== whole images =====

/// The image is `height` rows of `width` pixels, each row starting `pitch`
/// pixels after the one before.
pub open spec fn image_ok(data: Seq<Color>, width: int, height: int, pitch: int) -> bool {
    &&& width <= pitch
    &&& height >= 1 ==> (height - 1) * pitch + width <= data.len()
}

pub open spec fn pixel(data: Seq<Color>, pitch: int, x: int, y: int) -> Color {
    data[y * pitch + x]
}

/// Some opaque pixel of the image has palette index `c`.
pub open spec fn image_uses(data: Seq<Color>, width: int, height: int, pitch: int, c: int) -> bool {
    exists|y: int, x: int|
        0 <= y < height && 0 <= x < width && pixel(data, pitch, x, y).a != 0 && pixel_index(
            #[trigger] pixel(data, pitch, x, y),
        ) == c
}

/// Row `y` of the image, or a transparent row past its end.
pub open spec fn image_row(data: Seq<Color>, width: int, height: int, pitch: int, y: int) -> Seq<Color> {
    if y < height {
        data.subrange(y * pitch, y * pitch + width)
    } else {
        Seq::new(width as nat, |x: int| Color { r: 0, g: 0, b: 0, a: 0 })
    }
}

/// The band of six rows from row `y0`.
pub open spec fn band_rows(data: Seq<Color>, width: int, height: int, pitch: int, y0: int) -> Seq<Seq<Color>> {
    Seq::new(6, |i: int| image_row(data, width, height, pitch, y0 + i))
}

/// A color's percentage, as the sixel palette takes it.
pub open spec fn percent(v: u8) -> nat {
    (v * 100 / 255) as nat
}

/// The palette entry of index `c`: `# c ; 2 ; r ; g ; b` in percent.
pub open spec fn palette_entry(c: int) -> Seq<char> {
    let col = palette256_spec(c as u8);
    seq!['#'] + decimal(c as nat) + seq![';', '2', ';'] + decimal(percent(col.r)) + seq![';'] + decimal(
        percent(col.g),
    ) + seq![';'] + decimal(percent(col.b))
}

/// The palette entries of the colors used, in index order from `c` on.
pub open spec fn palette_from(data: Seq<Color>, width: int, height: int, pitch: int, c: int) -> Seq<char>
    decreases 256 - c,
{
    if c < 0 || c >= 256 {
        Seq::empty()
    } else {
        (if image_uses(data, width, height, pitch, c) {
            palette_entry(c)
        } else {
            Seq::empty()
        }) + palette_from(data, width, height, pitch, c + 1)
    }
}

/// The bands from band `k` on (rows `6k..`), each after a `-` but the
/// first.
pub open spec fn bands_from(data: Seq<Color>, width: int, height: int, pitch: int, k: int) -> Seq<char>
    decreases (height + 5) / 6 - k,
{
    if k < 0 || k >= (height + 5) / 6 {
        Seq::empty()
    } else {
        (if k > 0 {
            seq!['-']
        } else {
            Seq::empty()
        }) + band_text(band_rows(data, width, height, pitch, 6 * k), width) + bands_from(
            data,
            width,
            height,
            pitch,
            k + 1,
        )
    }
}

/// The sixel image: the start, the palette of the colors used, the bands,
/// and the end.
pub open spec fn sixel_text(data: Seq<Color>, width: int, height: int, pitch: int) -> Seq<char> {
    seq!['\x1b', 'P', 'q'] + palette_from(data, width, height, pitch, 0) + bands_from(data, width, height, pitch, 0)
        + seq!['\x1b', '\\']
}

proof fn lemma_row_start(y: int, height: int, pitch: int, width: int, len: int)
    requires
        0 <= y < height,
        0 <= width <= pitch,
        (height - 1) * pitch + width <= len,
    ensures
        y * pitch + width <= len,
        0 <= y * pitch,
{
    assert(y * pitch <= (height - 1) * pitch) by (nonlinear_arith)
        requires
            0 <= y <= height - 1,
            pitch >= 0,
    ;
    assert(0 <= y * pitch) by (nonlinear_arith)
        requires
            0 <= y,
            pitch >= 0,
    ;
}

fn used_colors(data: &Vec<Color>, width: usize, height: usize, pitch: usize) -> (used: Vec<bool>)
    requires
        image_ok(data@, width as int, height as int, pitch as int),
    ensures
        used@.len() == 256,
        forall|c: int| 0 <= c < 256 ==> (#[trigger] used@[c] <==> image_uses(data@, width as int, height as int, pitch as int, c)),
{
    let mut used: Vec<bool> = Vec::new();
    let mut c: usize = 0;
    while c < 256
        invariant
            c <= 256,
            used@.len() == c,
            forall|k: int| 0 <= k < c ==> !(#[trigger] used@[k]),
        decreases 256 - c,
    {
        used.push(false);
        c = c + 1;
    }
    let n = data.len();
    let mut y: usize = 0;
    while y < height
        invariant
            n == data@.len(),
            image_ok(data@, width as int, height as int, pitch as int),
            y <= height,
            used@.len() == 256,
            forall|k: int|
                0 <= k < 256 ==> (#[trigger] used@[k] <==> exists|yy: int, x: int|
                    0 <= yy < y && 0 <= x < width && pixel(data@, pitch as int, x, yy).a != 0 && pixel_index(
                        #[trigger] pixel(data@, pitch as int, x, yy),
                    ) == k),
        decreases height - y,
    {
        proof {
            lemma_row_start(y as int, height as int, pitch as int, width as int, n as int);
        }
        let start = y * pitch;
        let mut x: usize = 0;
        while x < width
            invariant
                n == data@.len(),
                y < height,
                start == y * pitch,
                start + width <= n,
                x <= width,
                used@.len() == 256,
                forall|k: int|
                    0 <= k < 256 ==> (#[trigger] used@[k] <==> (exists|yy: int, xx: int|
                        0 <= yy < y && 0 <= xx < width && pixel(data@, pitch as int, xx, yy).a != 0 && pixel_index(
                            #[trigger] pixel(data@, pitch as int, xx, yy),
                        ) == k) || (exists|xx: int|
                        0 <= xx < x && pixel(data@, pitch as int, xx, y as int).a != 0 && pixel_index(
                            #[trigger] pixel(data@, pitch as int, xx, y as int),
                        ) == k)),
            decreases width - x,
        {
            let p = data[start + x];
            assert(p == pixel(data@, pitch as int, x as int, y as int));
            if !p.is_transparent() {
                let i = pixel_index_exec(p);
                used.set(i as usize, true);
            }
            proof {
                assert forall|k: int| 0 <= k < 256 implies (#[trigger] used@[k] <==> (exists|yy: int, xx: int|
                    0 <= yy < y && 0 <= xx < width && pixel(data@, pitch as int, xx, yy).a != 0 && pixel_index(
                        #[trigger] pixel(data@, pitch as int, xx, yy),
                    ) == k) || (exists|xx: int|
                    0 <= xx < x + 1 && pixel(data@, pitch as int, xx, y as int).a != 0 && pixel_index(
                        #[trigger] pixel(data@, pitch as int, xx, y as int),
                    ) == k)) by {
                    if exists|xx: int|
                        0 <= xx < x + 1 && pixel(data@, pitch as int, xx, y as int).a != 0 && pixel_index(
                            #[trigger] pixel(data@, pitch as int, xx, y as int),
                        ) == k {
                        let xx = choose|xx: int|
                            0 <= xx < x + 1 && pixel(data@, pitch as int, xx, y as int).a != 0 && pixel_index(
                                #[trigger] pixel(data@, pitch as int, xx, y as int),
                            ) == k;
                        if xx == x {
                            assert(pixel(data@, pitch as int, xx, y as int) == p);
                        }
                    }
                }
            }
            x = x + 1;
        }
        y = y + 1;
    }
    used
}

fn band_of(data: &Vec<Color>, width: usize, height: usize, pitch: usize, y0: usize) -> (r: Vec<Vec<Color>>)
    requires
        image_ok(data@, width as int, height as int, pitch as int),
        y0 + 6 <= usize::MAX,
    ensures
        rows_view(r@) == band_rows(data@, width as int, height as int, pitch as int, y0 as int),
        band_ok(rows_view(r@), width as int),
{
    let mut rows: Vec<Vec<Color>> = Vec::new();
    let mut i: usize = 0;
    let n = data.len();
    while i < 6
        invariant
            n == data@.len(),
            image_ok(data@, width as int, height as int, pitch as int),
            y0 + 6 <= usize::MAX,
            i <= 6,
            rows@.len() == i,
            forall|k: int| 0 <= k < i ==> (#[trigger] rows@[k])@ == image_row(data@, width as int, height as int, pitch as int, y0 + k),
            forall|k: int| 0 <= k < i ==> (#[trigger] rows@[k])@.len() == width,
        decreases 6 - i,
    {
        let y = y0 + i;
        let mut row: Vec<Color> = Vec::new();
        if y < height {
            proof {
                lemma_row_start(y as int, height as int, pitch as int, width as int, n as int);
            }
            let start = y * pitch;
            let mut x: usize = 0;
            while x < width
                invariant
                    start + width <= n,
                    n == data@.len(),
                    x <= width,
                    row@ == data@.subrange(start as int, start + x),
                decreases width - x,
            {
                row.push(data[start + x]);
                x = x + 1;
                assert(row@ =~= data@.subrange(start as int, start + x));
            }
        } else {
            let mut x: usize = 0;
            while x < width
                invariant
                    x <= width,
                    row@ == Seq::new(x as nat, |j: int| Color { r: 0, g: 0, b: 0, a: 0 }),
                decreases width - x,
            {
                row.push(Color::transparent());
                x = x + 1;
                assert(row@ =~= Seq::new(x as nat, |j: int| Color { r: 0, g: 0, b: 0, a: 0 }));
            }
        }
        rows.push(row);
        i = i + 1;
    }
    assert(rows_view(rows@) =~= band_rows(data@, width as int, height as int, pitch as int, y0 as int));
    rows
}

fn push_percent(s: &mut String, v: u8)
    ensures
        final(s)@ == old(s)@ + decimal(percent(v)),
{
    let p = (v as u16) * 100 / 255;
    push_decimal(s, p as u64);
}

/// The sixel image of `data`, as `sixel_text` says.
pub fn format_sixel(data: &Vec<Color>, width: usize, height: usize, pitch: usize) -> (r: String)
    requires
        image_ok(data@, width as int, height as int, pitch as int),
        height + 6 <= usize::MAX,
    ensures
        r@ == sixel_text(data@, width as int, height as int, pitch as int),
{
    let ghost d = data@;
    let mut out = String::new();
    out.push('\x1b');
    out.push('P');
    out.push('q');
    assert(out@ =~= seq!['\x1b', 'P', 'q']);
    let used = used_colors(data, width, height, pitch);
    let ghost head = out@;
    let mut c: usize = 0;
    assert(palette_from(d, width as int, height as int, pitch as int, 0) =~= out@.subrange(head.len() as int, out@.len() as int) + palette_from(d, width as int, height as int, pitch as int, 0));
    while c < 256
        invariant
            c <= 256,
            d == data@,
            used@.len() == 256,
            forall|k: int| 0 <= k < 256 ==> (#[trigger] used@[k] <==> image_uses(d, width as int, height as int, pitch as int, k)),
            head.len() <= out@.len(),
            out@.subrange(0, head.len() as int) == head,
            palette_from(d, width as int, height as int, pitch as int, 0) == out@.subrange(head.len() as int, out@.len() as int)
                + palette_from(d, width as int, height as int, pitch as int, c as int),
        decreases 256 - c,
    {
        let ghost before = out@;
        if used[c] {
            out.push('#');
            push_decimal(&mut out, c as u64);
            out.push(';');
            out.push('2');
            out.push(';');
            let col = palette256_to_color(c as u8);
            push_percent(&mut out, col.r);
            out.push(';');
            push_percent(&mut out, col.g);
            out.push(';');
            push_percent(&mut out, col.b);
            assert(out@ =~= before + palette_entry(c as int));
        }
        proof {
            let e = if image_uses(d, width as int, height as int, pitch as int, c as int) {
                palette_entry(c as int)
            } else {
                Seq::empty()
            };
            assert(out@ =~= before + e);
            assert(out@.subrange(0, head.len() as int) =~= head);
            assert(out@.subrange(head.len() as int, out@.len() as int) =~= before.subrange(head.len() as int, before.len() as int) + e);
        }
        c = c + 1;
    }
    let ghost pal = out@;
    proof {
        assert(palette_from(d, width as int, height as int, pitch as int, 256) =~= Seq::<char>::empty());
        assert(pal =~= pal.subrange(0, head.len() as int) + pal.subrange(head.len() as int, pal.len() as int));
        assert(pal =~= seq!['\x1b', 'P', 'q'] + palette_from(d, width as int, height as int, pitch as int, 0));
    }
    let mut y0: usize = 0;
    let mut k: usize = 0;
    assert(bands_from(d, width as int, height as int, pitch as int, 0) =~= out@.subrange(pal.len() as int, out@.len() as int) + bands_from(d, width as int, height as int, pitch as int, 0));
    while y0 < height
        invariant
            d == data@,
            image_ok(data@, width as int, height as int, pitch as int),
            height + 6 <= usize::MAX,
            y0 == 6 * k,
            y0 <= height + 5,
            (y0 < height) == (k < (height + 5) / 6),
            pal.len() <= out@.len(),
            out@.subrange(0, pal.len() as int) == pal,
            bands_from(d, width as int, height as int, pitch as int, 0) == out@.subrange(pal.len() as int, out@.len() as int)
                + bands_from(d, width as int, height as int, pitch as int, k as int),
        decreases height + 6 - y0,
    {
        let ghost before = out@;
        if k > 0 {
            out.push('-');
        }
        let rows = band_of(data, width, height, pitch, y0);
        let line = format_sixel_line(&rows, width);
        crate::text::push_all(&mut out, line.as_str());
        proof {
            let e = (if k > 0 {
                seq!['-']
            } else {
                Seq::empty()
            }) + band_text(band_rows(d, width as int, height as int, pitch as int, 6 * k), width as int);
            assert(out@ =~= before + e);
            assert(out@.subrange(0, pal.len() as int) =~= pal);
            assert(out@.subrange(pal.len() as int, out@.len() as int) =~= before.subrange(pal.len() as int, before.len() as int) + e);
        }
        y0 = y0 + 6;
        k = k + 1;
    }
    proof {
        assert(bands_from(d, width as int, height as int, pitch as int, k as int) =~= Seq::<char>::empty());
        assert(out@ =~= out@.subrange(0, pal.len() as int) + out@.subrange(pal.len() as int, out@.len() as int));
        assert(out@ =~= pal + bands_from(d, width as int, height as int, pitch as int, 0));
    }
    out.push('\x1b');
    out.push('\\');
    proof {
        assert(out@ =~= sixel_text(d, width as int, height as int, pitch as int));
    }
    out
}

} // verus!
