use tvid::command::{
    filter_suggestions, longest_common_prefix, split_tokens, CommandLine, CommandRun, CompleterKind,
};
use tvid::render::{
    braille_char, effective_terminal_size, print_diff, print_diff_line, ColorMode, RenderLayout, SizeUpdate, Winsize,
};
use tvid::sixel::{format_sixel, format_sixel_line};
use tvid::stdin::Key;
use tvid::subtitle::{
    parse_ass_color_tags, parse_ass_line, parse_color_from_tag, parse_duration, sort_for_display, AssDialogue,
    SubtitleQueue,
};
use tvid::ui::{put, putat, putln, TextBox};
use tvid::util::{Cell, CellGrid, Color};

const MS: u128 = 1_000_000;

fn chars(s: &str) -> Vec<char> {
    s.chars().collect()
}

fn text(v: &Vec<char>) -> String {
    v.iter().collect()
}

// ===== subtitles =====

#[test]
fn ass_durations() {
    assert_eq!(parse_duration("0:00:01.50"), 1000 * MS + 50 * MS);
    assert_eq!(parse_duration("1:02:03"), (3723 * 1000) * MS);
    assert_eq!(parse_duration("0:01:x.5"), 60_000 * MS + 5 * MS);
    assert_eq!(parse_duration("12:34"), 0);
    assert_eq!(parse_duration(""), 0);
}

#[test]
fn ass_dialogue_lines() {
    let d = parse_ass_line(1, 2, " 3, 1 ,Default,Bob,0,0,0,, Hello, world ").unwrap();
    assert_eq!((d.start, d.end), (1, 2));
    assert_eq!(d.id, 3);
    assert_eq!(d.layer, 1);
    assert_eq!(d.style, "Default");
    assert_eq!(d.name, "Bob");
    assert_eq!(d.effect, "");
    assert_eq!(d.text, "Hello, world");
    assert_eq!(d.display_time, 0);
    let d = parse_ass_line(0, 0, "x,-2,a,b,c,d,e,f,g").unwrap();
    assert_eq!((d.id, d.layer), (0, -2));
    assert!(parse_ass_line(0, 0, "1,2,3,4,5,6,7,8").is_none());
}

#[test]
fn subtitle_queue_shows_and_drops() {
    let mut q = SubtitleQueue::new();
    q.push_text(1000 * MS, 2000 * MS, "first", 0);
    q.push_ass(1500 * MS, 0, "0,0,s,n,0,0,0,,open ended", 0);
    let shown = q.get_subtitles(1600 * MS);
    let texts: Vec<&str> = shown.iter().map(|d| d.text.as_str()).collect();
    // the one without an end comes first
    assert_eq!(texts, vec!["open ended", "first"]);
    assert!(shown.iter().all(|d| d.display_time == 1600 * MS));
    // the open dialogue ends when the next one comes
    q.push_nothing(3000 * MS);
    let shown = q.get_subtitles(3000 * MS);
    let texts: Vec<&str> = shown.iter().map(|d| d.text.as_str()).collect();
    assert_eq!(texts, vec!["open ended"]);
    let shown = q.get_subtitles(3500 * MS);
    assert!(shown.is_empty());
    q.push_text(4000 * MS, 5000 * MS, "later", 0);
    q.clear();
    assert!(q.get_subtitles(4500 * MS).is_empty());
}

#[test]
fn subtitle_stamped_when_first_on_screen() {
    let mut q = SubtitleQueue::new();
    q.push_text(5000 * MS, 6000 * MS, "soon", 0);
    assert!(q.get_subtitles(1000 * MS).is_empty());
    let shown = q.get_subtitles(5200 * MS);
    assert_eq!(shown.len(), 1);
    assert_eq!(shown[0].display_time, 5200 * MS);
    let shown = q.get_subtitles(5800 * MS);
    assert_eq!(shown[0].display_time, 5200 * MS);
}

#[test]
fn subtitle_display_order() {
    let v = vec![
        AssDialogue::new(0, 10, "a"),
        AssDialogue::new(0, 30, "b"),
        AssDialogue::new(0, 0, "c"),
        AssDialogue::new(0, 30, "d"),
    ];
    let sorted = sort_for_display(v);
    let texts: Vec<&str> = sorted.iter().map(|d| d.text.as_str()).collect();
    assert_eq!(texts, vec!["c", "b", "d", "a"]);
    let d = AssDialogue::new(1, 2, "x").duplicate();
    assert_eq!(d.text, "x");
}

#[test]
fn ass_color_tags() {
    assert_eq!(parse_color_from_tag("\\c&H0000FF&"), Some(Color::new(255, 0, 0)));
    assert_eq!(parse_color_from_tag("\\1C&hff0000&"), Some(Color::new(0, 0, 255)));
    assert_eq!(parse_color_from_tag("\\c&H00FF00"), Some(Color::new(0, 255, 0)));
    assert_eq!(parse_color_from_tag("\\c&H80112233&"), Some(Color::new(0x33, 0x22, 0x11)));
    assert_eq!(parse_color_from_tag("\\b1"), None);
    assert_eq!(parse_color_from_tag("\\c&H&"), None);
    let red = Some(Color::new(255, 0, 0));
    assert_eq!(
        parse_ass_color_tags("a{\\c&H0000FF&}b\\Nc\\x{"),
        vec![('a', None), ('b', red), ('\n', None), ('c', red), ('\\', red), ('x', red), ('{', red)]
    );
}

// ===== drawing text on the grid =====

#[test]
fn text_in_a_box() {
    let mut grid = CellGrid::new(10, 3);
    let halves = vec![Color::new(5, 5, 5); grid.cells.len()];
    let fg = Color::new(1, 2, 3);
    let (_, cx, cy) = putat(&mut grid, &halves, "ab", 1, 1, 5, 1, 1, 1, Some(fg), None, false);
    assert_eq!((cx, cy), (3, 1));
    assert_eq!(grid.cells[11].c, Some('a'));
    assert_eq!(grid.cells[11].fg, fg);
    assert_eq!(grid.cells[11].bg, Color::new(5, 5, 5));
    assert_eq!(grid.cells[12].c, Some('b'));
    let mut tb = TextBox::new();
    tvid::ui::textbox(&mut tb, 0, 0, 4, 3, true);
    put(&mut grid, &halves, &mut tb, "wxyz12", None, Some(fg));
    assert_eq!(grid.cells[0].c, Some('w'));
    assert_eq!(grid.cells[0].bg, fg);
    assert_eq!(grid.cells[10].c, Some('1'));
    putln(&mut grid, &halves, &mut tb, "", None, None);
    assert_eq!((tb.info.i, tb.info.j), (0, 2));
}

#[test]
fn wide_character_takes_two_cells() {
    let mut grid = CellGrid::new(6, 1);
    let halves = vec![Color::new(0, 0, 0); grid.cells.len()];
    let (_, cx, _) = putat(&mut grid, &halves, "中a", 0, 0, 6, 1, 0, 0, None, None, false);
    assert_eq!(cx, 3);
    assert_eq!(grid.cells[0].c, Some('中'));
    assert_eq!(grid.cells[1].c, Some('\0'));
    assert_eq!(grid.cells[2].c, Some('a'));
}

// ===== the frame diff =====

fn cell(c: Option<char>, fg: Color, bg: Color) -> Cell {
    Cell { c, fg, bg }
}

#[test]
fn diff_line_skips_unchanged_cells() {
    let a = Color::new(1, 2, 3);
    let b = Color::new(4, 5, 6);
    let same = cell(None, a, b);
    let cells = vec![cell(Some('x'), a, b), same, cell(Some('y'), a, b), same, same];
    let lasts = vec![same, same, same, same, same];
    assert_eq!(print_diff_line(&cells, &lasts, 0, 5, false, '\u{2584}'), "\x1b[38;2;1;2;3;48;2;4;5;6mx\x1b[Cy");
    assert_eq!(print_diff_line(&lasts, &lasts, 0, 5, false, '\u{2584}'), "");
    assert_eq!(
        print_diff_line(&lasts, &lasts, 0, 2, true, '\u{2584}'),
        "\x1b[38;2;1;2;3;48;2;4;5;6m\u{2584}\u{2584}"
    );
}

#[test]
fn diff_line_counts_long_skips() {
    let a = Color::new(1, 1, 1);
    let same = cell(None, a, a);
    let mut cells = vec![same; 5];
    cells[4] = cell(Some('z'), a, Color::new(2, 2, 2));
    let lasts = vec![same; 5];
    assert_eq!(print_diff_line(&cells, &lasts, 0, 5, false, ' '), "\x1b[4C\x1b[38;2;1;1;1;48;2;2;2;2mz");
}

#[test]
fn diff_line_wide_glyphs_always_drawn() {
    let a = Color::new(0, 0, 0);
    let wide = cell(Some('中'), a, a);
    let tail = cell(Some('\0'), a, a);
    let cells = vec![wide, tail, cell(Some('k'), a, a)];
    let out = print_diff_line(&cells, &cells, 0, 3, false, ' ');
    assert_eq!(out, "\x1b[38;2;0;0;0;48;2;0;0;0m中");
}

#[test]
fn whole_frame_diff() {
    let cur = CellGrid::new(2, 2);
    let last = CellGrid::new(2, 2);
    assert_eq!(print_diff(&cur, &last, false, ' '), "\x1b[m\x1b[H\x1b[m\x1b[E");
    assert_eq!(
        print_diff(&cur, &last, true, '.'),
        "\x1b[m\x1b[H\x1b[38;2;0;0;0;48;2;0;0;0m..\x1b[m\x1b[E\x1b[38;2;0;0;0;48;2;0;0;0m.."
    );
}

// ===== terminal size and video fitting =====

#[test]
fn terminal_size_defaults() {
    assert_eq!(effective_terminal_size(None), (80, 24, 640, 384));
    let ws = Winsize { row: 0, col: 100, xpixel: 0, ypixel: 0 };
    assert_eq!(effective_terminal_size(Some(ws)), (80, 24, 640, 384));
    let ws = Winsize { row: 30, col: 100, xpixel: 1000, ypixel: 600 };
    assert_eq!(effective_terminal_size(Some(ws)), (100, 30, 1000, 600));
}

#[test]
fn video_letterboxed() {
    let mut l = RenderLayout::new();
    let ws = Some(Winsize { row: 24, col: 80, xpixel: 640, ypixel: 384 });
    assert_eq!(l.update_size(ws, Some(1920), Some(1080)), SizeUpdate::Resized(false));
    assert_eq!((l.cells_width, l.cells_height), (80, 24));
    assert_eq!((l.padding_top, l.padding_bottom, l.padding_left, l.padding_right), (1, 1, 0, 0));
    assert_eq!((l.video_cells_width, l.video_cells_height), (80, 22));
    assert_eq!((l.frame_width, l.frame_height), (80, 44));
    assert_eq!(l.update_size(ws, Some(1920), Some(1080)), SizeUpdate::Unchanged);
}

#[test]
fn video_pillarboxed() {
    let mut l = RenderLayout::new();
    let ws = Some(Winsize { row: 24, col: 80, xpixel: 640, ypixel: 384 });
    l.update_size(ws, Some(1080), Some(1920));
    assert_eq!((l.padding_left, l.padding_right), (26, 26));
    assert_eq!((l.video_cells_width, l.video_cells_height), (28, 24));
    l.clamp_frame(5000, 10);
    assert_eq!((l.frame_width, l.frame_height), (1080, 10));
    l.force_flush_next();
    assert!(l.force_flush_next);
}

// ===== sixel =====

#[test]
fn sixel_single_pixel() {
    let data = vec![Color::new(0, 0, 0)];
    assert_eq!(format_sixel(&data, 1, 1, 1), "\x1bPq#16;2;0;0;0#16@$\x1b\\");
}

#[test]
fn sixel_run_lengths_and_bands() {
    let red = Color::new(255, 0, 0);
    let data = vec![red; 5 * 7];
    let out = format_sixel(&data, 5, 7, 5);
    assert_eq!(out, "\x1bPq#196;2;100;0;0#196!5~$-#196!5@$\x1b\\");
    let row = vec![red, red, red, Color::transparent()];
    let rows = vec![row.clone(), vec![Color::transparent(); 4], vec![Color::transparent(); 4], vec![Color::transparent(); 4], vec![Color::transparent(); 4], vec![Color::transparent(); 4]];
    assert_eq!(format_sixel_line(&rows, 4), "#196@@@?$");
}

// ===== the command line =====

#[test]
fn words_and_prefixes() {
    let t = split_tokens(&chars("  seek  +5 "));
    assert_eq!(t, vec![chars("seek"), chars("+5")]);
    let items = vec![chars("help"), chars("hello"), chars("quit")];
    assert_eq!(filter_suggestions(&chars("hel"), &items), vec![chars("help"), chars("hello")]);
    assert_eq!(longest_common_prefix(&vec![chars("help"), chars("hello")]), chars("hel"));
    assert_eq!(longest_common_prefix(&vec![chars("a"), chars("b")]), chars(""));
    assert_eq!(longest_common_prefix(&vec![]), chars(""));
}

fn typed(cl: &mut CommandLine, s: &str) {
    for c in s.chars() {
        cl.on_key(Key::Normal(c));
    }
}

#[test]
fn command_line_opens_and_runs() {
    let mut cl = CommandLine::new();
    cl.register_commands();
    assert_eq!(cl.on_key(Key::Normal('x')).0, false);
    assert!(cl.on_key(Key::Normal('/')).0);
    assert!(cl.mode);
    assert_eq!(cl.candidates.len(), 10);
    typed(&mut cl, "seek +5");
    assert_eq!(text(&cl.buffer), "seek +5");
    assert_eq!(cl.candidates, vec![chars("+5")]);
    let (taken, run) = cl.on_key(Key::Normal('\n'));
    assert!(taken);
    match run {
        CommandRun::Run { name, args } => {
            assert_eq!(text(&name), "seek");
            assert_eq!(args, vec![chars("+5")]);
        },
        _ => panic!("seek is a command"),
    }
    assert!(!cl.mode);
    assert_eq!(cl.history, vec![chars("seek +5")]);
}

#[test]
fn command_line_unknown_and_empty() {
    let mut cl = CommandLine::new();
    cl.register_commands();
    cl.on_key(Key::Normal('/'));
    typed(&mut cl, "fly away");
    match cl.on_key(Key::Normal('\n')).1 {
        CommandRun::Unknown(n) => assert_eq!(text(&n), "fly"),
        _ => panic!("fly is no command"),
    }
    cl.on_key(Key::Normal('/'));
    typed(&mut cl, "   ");
    assert!(matches!(cl.on_key(Key::Normal('\n')).1, CommandRun::Nothing));
    assert_eq!(cl.history.len(), 1);
}

#[test]
fn command_line_completion() {
    let mut cl = CommandLine::new();
    cl.register_commands();
    cl.on_key(Key::Normal('/'));
    typed(&mut cl, "vo");
    cl.on_key(Key::Tab);
    assert_eq!(text(&cl.buffer), "volume ");
    assert_eq!(cl.candidates.len(), 7);
    typed(&mut cl, "1");
    assert_eq!(cl.candidates, vec![chars("100"), chars("150")]);
    cl.on_key(Key::Tab);
    assert_eq!(text(&cl.buffer), "volume 1");
    assert_eq!(cl.candidates, vec![chars("100"), chars("150")]);
    cl.on_key(Key::Backspace);
    cl.on_key(Key::Backspace);
    typed(&mut cl, " re");
    assert_eq!(text(&cl.buffer), "volume re");
    cl.on_key(Key::Tab);
    assert_eq!(text(&cl.buffer), "volume re");
    assert!(cl.candidates.is_empty());
    cl.on_key(Key::Escape);
    cl.on_key(Key::Normal('/'));
    typed(&mut cl, "lang z");
    cl.on_key(Key::Tab);
    assert_eq!(text(&cl.buffer), "lang zh-");
    typed(&mut cl, "t");
    cl.on_key(Key::Tab);
    assert_eq!(text(&cl.buffer), "lang zh-tw ");
}

#[test]
fn command_line_history() {
    let mut cl = CommandLine::new();
    cl.register_commands();
    for line in ["pause", "resume", "resume"] {
        cl.on_key(Key::Normal('/'));
        typed(&mut cl, line);
        cl.on_key(Key::Normal('\n'));
    }
    assert_eq!(cl.history, vec![chars("pause"), chars("resume")]);
    cl.on_key(Key::Normal('/'));
    typed(&mut cl, "ne");
    cl.on_key(Key::Up);
    assert_eq!(text(&cl.buffer), "resume");
    cl.on_key(Key::Up);
    assert_eq!(text(&cl.buffer), "pause");
    cl.on_key(Key::Up);
    assert_eq!(text(&cl.buffer), "pause");
    cl.on_key(Key::Down);
    assert_eq!(text(&cl.buffer), "resume");
    cl.on_key(Key::Down);
    assert_eq!(text(&cl.buffer), "ne");
    assert!(cl.on_key(Key::Escape).0);
    assert!(!cl.mode);
    assert!(cl.buffer.is_empty());
}

#[test]
fn command_line_swallows_keys_while_open() {
    let mut cl = CommandLine::new();
    assert!(!cl.on_key(Key::Lower('a')).0);
    cl.on_key(Key::Normal('/'));
    assert!(cl.on_key(Key::Lower('a')).0);
    assert!(cl.on_key(Key::Left).0);
    assert!(!cl.on_key(Key::PageUp).0);
    assert!(cl.on_paste("abc"));
    assert_eq!(text(&cl.buffer), "abc");
    cl.on_key(Key::Escape);
    assert!(!cl.on_paste("x"));
    let mut own = CommandLine::new();
    own.register_command("seek", Some(CompleterKind::Volume));
    own.register_command("seek", None);
    assert_eq!(own.commands.len(), 1);
}

// ===== video cells =====

#[test]
fn video_half_blocks() {
    let mut grid = CellGrid::new(4, 3);
    let px = |i: u8| Color::new(i, i, i);
    // a 2 x 2-cell video area (4 pixel rows) inside one cell of padding left and top
    let frame: Vec<Color> = (0..8u8).map(px).collect();
    tvid::render::render_video_1x2(&mut grid, 1, 0, 1, 1, &frame, 2, None);
    let at = |g: &CellGrid, x: usize, y: usize| g.cells[y * g.pitch + x];
    assert_eq!(at(&grid, 1, 1), Cell { c: None, fg: px(2), bg: px(0) });
    assert_eq!(at(&grid, 2, 1), Cell { c: None, fg: px(3), bg: px(1) });
    assert_eq!(at(&grid, 1, 2), Cell { c: None, fg: px(6), bg: px(4) });
    assert_eq!(at(&grid, 0, 1), Cell::default());
    assert_eq!(at(&grid, 3, 2), Cell::default());
    assert_eq!(at(&grid, 1, 0), Cell::default());
}

#[test]
fn video_chroma_key() {
    let mut grid = CellGrid::new(2, 1);
    let frame = vec![Color::new(1, 1, 1), Color::new(2, 2, 2), Color::new(3, 3, 3), Color::new(4, 4, 4)];
    let keyed = vec![true, false, true, true];
    tvid::render::render_video_1x2(&mut grid, 0, 0, 0, 0, &frame, 2, Some(&keyed));
    let clear = Color::transparent();
    assert_eq!(grid.cells[0], Cell { c: Some(' '), fg: clear, bg: clear });
    assert_eq!(grid.cells[1], Cell { c: None, fg: Color::new(2, 2, 2), bg: Color::new(2, 2, 2) });
    let mut one = CellGrid::new(2, 1);
    tvid::render::render_video_1x1(&mut one, 0, 0, 0, 0, &frame, 2, Some(&vec![false, true, false, false]));
    assert_eq!(one.cells[0], Cell { c: None, fg: Color::new(1, 1, 1), bg: clear });
    assert_eq!(one.cells[1], Cell { c: Some(' '), fg: clear, bg: clear });
}

#[test]
fn braille_dots_and_color_modes() {
    assert_eq!(braille_char([false; 8]), '\u{2800}');
    assert_eq!(braille_char([true; 8]), '\u{28FF}');
    assert_eq!(braille_char([true, false, false, false, false, false, false, false]), '\u{2801}');
    assert_eq!(braille_char([false, true, false, false, false, false, false, false]), '\u{2808}');
    assert_eq!(braille_char([false, false, false, false, false, false, false, true]), '\u{2880}');
    let m = ColorMode::new();
    assert_eq!(m, ColorMode::TrueColorOnly);
    assert_eq!(m.fppc(), (1, 2));
    assert_eq!(m.next().next().next().next().next().fppc(), (1, 1));
    assert_eq!(ColorMode::Braille.fppc(), (2, 4));
    assert_eq!(ColorMode::Braille.default_char(), '\u{28FF}');
    assert_eq!(ColorMode::Osc1337.fppc(), (0, 0));
    assert_eq!(m.prev().next(), m);
    let mut c = m;
    for _ in 0..8 {
        c = c.next();
    }
    assert_eq!(c, m);
}
