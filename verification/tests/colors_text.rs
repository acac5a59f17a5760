use tvid::text::{
    chars_of, is_whitespace, parse_i32_range, parse_unsigned_range, push_decimal, push_decimal_padded, same_text,
    string_of, trim_range, width_at_least_one_of, width_or_zero_of,
};
use tvid::ui::{format_time, ChromaMode};
use tvid::util::{
    best_contrast_color, escape_set_color, palette256_from_color, palette256_to_color, some_if_eq, some_if_ne,
    try_palette256, Color, TBLR, TextBoxInfo, XY,
};

#[test]
fn palette_ansi_colors() {
    assert_eq!(palette256_to_color(0), Color::new(0, 0, 0));
    assert_eq!(palette256_to_color(1), Color::new(205, 0, 0));
    assert_eq!(palette256_to_color(12), Color::new(92, 92, 255));
    assert_eq!(palette256_to_color(15), Color::new(255, 255, 255));
}

#[test]
fn palette_cube_colors() {
    // the cube starts at entry 16: red from (index - 16) / 36
    assert_eq!(palette256_to_color(16), Color::new(0, 0, 0));
    assert_eq!(palette256_to_color(100), Color::new(135, 135, 0));
    assert_eq!(palette256_to_color(36), Color::new(0, 175, 135));
    assert_eq!(palette256_to_color(231), Color::new(255, 255, 255));
    assert_eq!(palette256_to_color(52), Color::new(95, 0, 0));
}

#[test]
fn palette_round_trip() {
    for i in 16..=255u8 {
        assert_eq!(try_palette256(palette256_to_color(i)), Some(i));
    }
}

#[test]
fn palette_gray_colors() {
    assert_eq!(palette256_to_color(232), Color::new(8, 8, 8));
    assert_eq!(palette256_to_color(255), Color::new(238, 238, 238));
}

#[test]
fn palette_from_color_rounds_down_to_cube() {
    assert_eq!(palette256_from_color(Color::new(95, 135, 215)), 68);
    assert_eq!(palette256_from_color(Color::new(0, 0, 0)), 16);
    assert_eq!(palette256_from_color(Color::new(34, 74, 114)), 17);
    assert_eq!(palette256_from_color(Color::new(75, 115, 155)), 67);
    assert_eq!(palette256_from_color(Color::new(255, 255, 255)), 231);
}

#[test]
fn try_palette_exact_colors() {
    assert_eq!(try_palette256(Color::new(0, 135, 215)), Some(32));
    assert_eq!(try_palette256(Color::new(255, 255, 255)), Some(231));
    assert_eq!(try_palette256(Color::new(8, 8, 8)), Some(232));
    assert_eq!(try_palette256(Color::new(128, 128, 128)), Some(244));
    assert_eq!(try_palette256(Color::new(1, 2, 3)), None);
    assert_eq!(try_palette256(Color::new(128, 128, 129)), None);
}

#[test]
fn escape_set_color_forms() {
    let a = Color::new(1, 2, 3);
    let b = Color::new(255, 0, 10);
    assert_eq!(escape_set_color(Some(a), Some(b)), "\x1b[38;2;1;2;3;48;2;255;0;10m");
    assert_eq!(escape_set_color(Some(a), None), "\x1b[38;2;1;2;3m");
    assert_eq!(escape_set_color(None, Some(b)), "\x1b[48;2;255;0;10m");
    assert_eq!(escape_set_color(None, None), "");
}

#[test]
fn best_contrast_per_channel() {
    assert_eq!(best_contrast_color(Color::new(0, 200, 127)), Color::new(255, 0, 255));
    assert_eq!(best_contrast_color(Color::new(128, 128, 128)), Color::new(0, 0, 0));
}

#[test]
fn transparent_color() {
    let t = Color::transparent();
    assert!(t.is_transparent());
    assert!(!Color::new(1, 1, 1).is_transparent());
    assert_eq!(Color::default(), Color::new(0, 0, 0));
}

#[test]
fn some_if_helpers() {
    assert_eq!(some_if_eq(3, 3), Some(3));
    assert_eq!(some_if_eq(3, 4), None);
    assert_eq!(some_if_ne(3, 4), Some(3));
    assert_eq!(some_if_ne(3, 3), None);
}

#[test]
fn small_value_holders() {
    let mut xy = XY::new();
    xy.set(3, 4);
    assert_eq!(xy.get(), (3, 4));
    assert_eq!((xy.x(), xy.y()), (3, 4));
    let mut t = TBLR::new();
    t.set(1, 2, 3, 4);
    assert_eq!(t.get(), (1, 2, 3, 4));
    assert_eq!((t.top(), t.bottom(), t.left(), t.right()), (1, 2, 3, 4));
    let mut tb = TextBoxInfo::new();
    tb.set(-1, 2, 3, 4, 5, -6);
    tb.setwrap(true);
    assert_eq!(tb.get(), (-1, 2, 3, 4, 5, -6));
    assert!(tb.getwrap());
    assert_eq!((tb.x(), tb.y(), tb.w(), tb.h(), tb.i(), tb.j()), (-1, 2, 3, 4, 5, -6));
}

#[test]
fn character_widths() {
    assert_eq!(width_or_zero_of('a'), 1);
    assert_eq!(width_at_least_one_of('中'), 2);
    assert_eq!(width_or_zero_of('\u{7}'), 0);
    assert_eq!(width_or_zero_of('中'), 2);
    assert_eq!(width_at_least_one_of('\u{7}'), 1);
    assert_eq!(width_at_least_one_of('\u{301}'), 1);
}

#[test]
fn decimal_text() {
    let mut s = String::new();
    push_decimal(&mut s, 0);
    push_decimal(&mut s, 1234);
    assert_eq!(s, "01234");
    let mut p = String::new();
    push_decimal_padded(&mut p, 7, 3);
    push_decimal_padded(&mut p, 12345, 3);
    assert_eq!(p, "00712345");
}

#[test]
fn trimming_and_words() {
    let v = chars_of("  ab c \t");
    let (a, b) = trim_range(&v, 0, v.len());
    assert_eq!(string_of(&v[a..b].to_vec()), "ab c");
    assert!(is_whitespace('\u{3000}'));
    assert!(!is_whitespace('x'));
    assert!(same_text("abc", "abc"));
    assert!(!same_text("abc", "abd"));
    assert!(!same_text("abc", "ab"));
}

#[test]
fn integer_parsing() {
    let v = chars_of("+42");
    assert_eq!(parse_unsigned_range(&v, 0, v.len(), 100), Some(42));
    assert_eq!(parse_unsigned_range(&v, 0, v.len(), 41), None);
    let v = chars_of("-17");
    assert_eq!(parse_i32_range(&v, 0, v.len()), Some(-17));
    let v = chars_of("2147483648");
    assert_eq!(parse_i32_range(&v, 0, v.len()), None);
    let v = chars_of("-2147483648");
    assert_eq!(parse_i32_range(&v, 0, v.len()), Some(i32::MIN));
    let v = chars_of("1x");
    assert_eq!(parse_unsigned_range(&v, 0, v.len(), 100), None);
    let v = chars_of("");
    assert_eq!(parse_unsigned_range(&v, 0, 0, 100), None);
}

#[test]
fn time_display() {
    assert_eq!(format_time(Some(3_723_004_000_000)), "01h 02m 03s 004ms");
    assert_eq!(format_time(Some(0)), "00h 00m 00s 000ms");
    assert_eq!(format_time(None), "       N/A       ");
}

#[test]
fn chroma_modes_cycle() {
    let mut m = ChromaMode::Off;
    for _ in 0..9 {
        m = m.next();
    }
    assert_eq!(m, ChromaMode::Off);
    assert_eq!(ChromaMode::Off.next(), ChromaMode::Red);
    assert_eq!(ChromaMode::Red.prev(), ChromaMode::Off);
    assert_eq!(ChromaMode::Off.prev(), ChromaMode::Black);
    assert_eq!(ChromaMode::Green.next().prev(), ChromaMode::Green);
    assert_eq!(ChromaMode::Off.color(), None);
    assert_eq!(ChromaMode::Magenta.color(), Some(Color::new(255, 0, 255)));
}
