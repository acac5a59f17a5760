use base64::Engine;
use tvid::command::{cmd_lang, command_layout, language_for, render_command, CommandLine, LangCommand};
use tvid::config::{parse_playlist, playlist_file_text, Config, ConfigError};
use tvid::osc1337::{format_image, format_image_escape, STEAL_FOCUS};
use tvid::panels::{
    centered, file_rows, file_select_rect, help_rect, message_rect, overlay_text_rect, playlist_rect, playlist_rows,
    playlist_width, put_panel_lines, quit_key, quit_rect, EntryKind, FileEntry, FileSelect, PanelRect, QuitKey,
    SelectOutcome, StyledLine, UiFlags,
};
use tvid::playlist::PlaylistOverlay;
use tvid::ui::TextBox;
use tvid::util::{CellGrid, Color};
use tvid::stdin::Key;

fn rect(x: isize, y: isize, w: usize, h: usize) -> PanelRect {
    PanelRect { x, y, w, h }
}

// ===== settings =====

#[test]
fn config_defaults() {
    let c = Config::new();
    assert_eq!(c.volume, 100);
    assert!(!c.looping);
    assert_eq!(Config::default(), c);
}

#[test]
fn config_set_volume() {
    let mut c = Config::new();
    assert_eq!(c.set_entry("volume", "150"), Ok(()));
    assert_eq!(c.volume, 150);
    assert_eq!(c.set_entry("volume", "+0"), Ok(()));
    assert_eq!(c.volume, 0);
    assert_eq!(c.set_entry("volume", "200"), Ok(()));
    assert_eq!(c.volume, 200);
}

#[test]
fn config_volume_errors_leave_settings() {
    let mut c = Config::new();
    assert_eq!(c.set_entry("volume", "201"), Err(ConfigError::VolumeOutOfRange));
    assert_eq!(c.set_entry("volume", "-1"), Err(ConfigError::InvalidNumber));
    assert_eq!(c.set_entry("volume", "loud"), Err(ConfigError::InvalidNumber));
    assert_eq!(c.set_entry("volume", ""), Err(ConfigError::InvalidNumber));
    assert_eq!(c.set_entry("volume", "4294967296"), Err(ConfigError::InvalidNumber));
    assert_eq!(c, Config::new());
}

#[test]
fn config_looping() {
    let mut c = Config::new();
    assert_eq!(c.set_entry("looping", "true"), Ok(()));
    assert!(c.looping);
    assert_eq!(c.set_entry("looping", "True"), Err(ConfigError::InvalidBool));
    assert!(c.looping);
    assert_eq!(c.set_entry("looping", "false"), Ok(()));
    assert!(!c.looping);
}

#[test]
fn config_unknown_key() {
    let mut c = Config::new();
    assert_eq!(c.set_entry("speed", "2"), Err(ConfigError::UnknownKey));
    assert_eq!(c.set_entry("Volume", "2"), Err(ConfigError::UnknownKey));
}

#[test]
fn playlist_file_parsing() {
    let text = "# my list\n\n  /a/b.mp4  \r\n#skip\n\t \nc.mkv";
    assert_eq!(parse_playlist(text), vec!["/a/b.mp4".to_string(), "c.mkv".to_string()]);
    assert_eq!(parse_playlist(""), Vec::<String>::new());
    assert_eq!(parse_playlist("x\n"), vec!["x".to_string()]);
}

#[test]
fn playlist_file_writing_reads_back() {
    let items = vec!["a.mp4".to_string(), "b c.mkv".to_string()];
    let text = playlist_file_text("# header\n", &items);
    assert_eq!(text, "# header\na.mp4\nb c.mkv\n");
    assert_eq!(parse_playlist(&text), items);
}

// ===== inline images =====

#[test]
fn image_escape_base64() {
    let mut buf = Vec::new();
    format_image_escape(&mut buf, &b"Man".to_vec(), 10, 5);
    assert_eq!(buf, b"\x1b]1337;File=inline=1;width=10;height=5;size=3:TWFu\x1b\\".to_vec());
    let mut buf = Vec::new();
    format_image_escape(&mut buf, &b"Ma".to_vec(), 1, 2);
    assert_eq!(buf, b"\x1b]1337;File=inline=1;width=1;height=2;size=2:TWE=\x1b\\".to_vec());
    let mut buf = b"x".to_vec();
    format_image_escape(&mut buf, &b"M".to_vec(), 0, 0);
    assert_eq!(buf, b"x\x1b]1337;File=inline=1;width=0;height=0;size=1:TQ==\x1b\\".to_vec());
    let mut buf = Vec::new();
    format_image_escape(&mut buf, &vec![0xfb, 0xff, 0xbf], 1, 1);
    assert_eq!(buf, b"\x1b]1337;File=inline=1;width=1;height=1;size=3:+/+/\x1b\\".to_vec());
}

#[test]
fn image_escape_of_a_frame() {
    let data = vec![Color::new(255, 0, 0); 8 * 4];
    let mut buf = Vec::new();
    format_image(&mut buf, &data, 8, 4, 8, 20, 10);
    let head = b"\x1b]1337;File=inline=1;width=20;height=10;size=";
    assert!(buf.starts_with(head));
    assert!(buf.ends_with(b"\x1b\\"));
    let colon = buf.iter().position(|&b| b == b':').unwrap();
    let size: usize = std::str::from_utf8(&buf[head.len()..colon]).unwrap().parse().unwrap();
    let jpeg = base64::engine::general_purpose::STANDARD.decode(&buf[colon + 1..buf.len() - 2]).unwrap();
    assert_eq!(jpeg.len(), size);
    assert_eq!(&jpeg[..2], &[0xff, 0xd8]);
}

#[test]
fn image_with_padded_rows_matches_packed() {
    let mut padded = Vec::new();
    let mut packed = Vec::new();
    for y in 0..3u8 {
        for x in 0..6u8 {
            let c = Color::new(x * 40, y * 80, 7);
            if x < 4 {
                packed.push(c);
            }
            padded.push(c);
        }
    }
    let mut a = Vec::new();
    format_image(&mut a, &padded, 4, 3, 6, 4, 3);
    let mut b = Vec::new();
    format_image(&mut b, &packed, 4, 3, 4, 4, 3);
    assert!(!a.is_empty());
    assert_eq!(a, b);
}

#[test]
fn image_of_nothing_is_nothing() {
    let mut buf = b"keep".to_vec();
    format_image(&mut buf, &Vec::new(), 0, 0, 0, 1, 1);
    assert_eq!(buf, b"keep".to_vec());
    let mut buf = Vec::new();
    format_image(&mut buf, &vec![Color::new(1, 2, 3); 2], 4, 1, 4, 1, 1);
    assert!(buf.is_empty());
    assert_eq!(STEAL_FOCUS, "\x1b]1337;StealFocus\x1b\\");
}

// ===== panels =====

#[test]
fn centering_rounds_toward_zero() {
    assert_eq!(centered(80, 54), 13);
    assert_eq!(centered(100, 204), -52);
    assert_eq!(centered(101, 204), -51);
    assert_eq!(centered(5, 5), 0);
}

#[test]
fn help_panel_rects() {
    assert_eq!(help_rect(80, 24, true), Some((rect(13, 6, 54, 12), rect(15, 7, 50, 10))));
    assert_eq!(help_rect(100, 30, false), Some((rect(-52, -6, 204, 42), rect(-50, -5, 200, 40))));
    assert_eq!(help_rect(7, 30, true), None);
    assert_eq!(help_rect(30, 7, true), None);
}

#[test]
fn quit_panel_rects() {
    assert_eq!(quit_rect(80, 24, true), Some((rect(17, 8, 45, 7), rect(27, 10, 25, 3))));
    assert_eq!(quit_rect(200, 60, false), Some((rect(10, 16, 180, 28), rect(50, 24, 100, 12))));
    assert_eq!(quit_rect(8, 7, false), None);
}

#[test]
fn other_panel_rects() {
    assert_eq!(overlay_text_rect(80, 24), Some(rect(2, 1, 76, 22)));
    assert_eq!(overlay_text_rect(80, 4), None);
    assert_eq!(file_select_rect(80, 24), Some((rect(20, 6, 40, 12), rect(21, 7, 38, 10))));
    assert_eq!(file_select_rect(9, 9), Some((rect(2, 2, 4, 4), rect(3, 3, 2, 2))));
    assert_eq!(file_rows(12, true), 7);
    assert_eq!(file_rows(30, false), 4);
}

#[test]
fn message_slots() {
    assert_eq!(message_rect(100, 24, true, 0), Some(rect(0, 23, 50, 1)));
    assert_eq!(message_rect(200, 24, true, 2), Some(rect(0, 21, 80, 1)));
    assert_eq!(message_rect(100, 24, false, 5), Some(rect(0, 0, 50, 4)));
    assert_eq!(message_rect(100, 24, false, 6), None);
    assert_eq!(message_rect(100, 24, true, 24), None);
    assert_eq!(message_rect(5, 24, true, 0), None);
}

#[test]
fn playlist_panel() {
    assert_eq!(playlist_width(100, true), 62);
    assert_eq!(playlist_width(40, true), 40);
    assert_eq!(playlist_width(1000, false), 482);
    assert_eq!(playlist_rect(100, 24, true, 10), Some((rect(90, 0, 62, 24), rect(91, 1, 60, 22))));
    assert_eq!(playlist_rect(100, 24, true, 200), Some((rect(0, 0, 62, 24), rect(1, 1, 60, 22))));
    assert_eq!(playlist_rect(100, 24, true, 0), None);
    let fg = Color::new(1, 1, 1);
    let bg = Color::new(2, 2, 2);
    let rows = playlist_rows(&vec!["a".to_string(), "b".to_string(), "c".to_string()], 1, 2, fg, bg);
    assert_eq!(rows.len(), 3);
    assert_eq!(rows[0].text, "  a");
    assert_eq!(rows[1].text, "\u{25B6} b");
    assert_eq!((rows[1].fg, rows[1].bg), (None, None));
    assert_eq!(rows[2].text, "  c");
    assert_eq!((rows[2].fg, rows[2].bg), (Some(fg), Some(bg)));
    let none = playlist_rows(&vec!["a".to_string()], 0, -1, fg, bg);
    assert_eq!((none[0].fg, none[0].bg), (None, None));
}

#[test]
fn panel_lines_drawn_in_box() {
    let mut grid = CellGrid::new(20, 6);
    let halves = vec![Color::new(0, 0, 0); grid.cells.len()];
    let mut tb = TextBox::new();
    let font = vec![0u8; 65536 * 32];
    let fg = Color::new(9, 9, 9);
    let lines = vec![
        StyledLine { text: "hi".to_string(), fg: None, bg: None },
        StyledLine { text: "yo".to_string(), fg: Some(Color::new(1, 2, 3)), bg: None },
    ];
    put_panel_lines(&mut grid, &halves, &mut tb, &font, true, 3, 1, 10, 4, Some(fg), &lines);
    let at = |x: usize, y: usize| grid.cells[y * grid.pitch + x];
    assert_eq!(at(3, 1).c, Some('h'));
    assert_eq!(at(4, 1).c, Some('i'));
    assert_eq!(at(3, 1).fg, fg);
    assert_eq!(at(3, 2).c, Some('y'));
    assert_eq!(at(3, 2).fg, Color::new(1, 2, 3));
    assert_eq!(at(2, 1).c, None);
    assert_eq!(tb.info.j, 3);
    assert_eq!(tb.info.i, 3);
}

// ===== the file selector =====

fn entry(kind: EntryKind, name: &str) -> FileEntry {
    FileEntry { kind, name: name.to_string() }
}

#[test]
fn file_select_opens_at_root() {
    let mut fs = FileSelect::new();
    assert!(!fs.active);
    assert!(!fs.key_close());
    fs.toggle();
    assert!(fs.active);
    assert_eq!(fs.start(), Some("/".to_string()));
    assert_eq!(fs.path, "/");
    assert_eq!(fs.start(), None);
    fs.set_entries(vec![entry(EntryKind::Dir, "etc"), entry(EntryKind::File, "a.mp4")]);
    assert_eq!(fs.selected_path(), Some("//etc".to_string()));
    assert!(fs.key_close());
    assert!(!fs.active);
}

#[test]
fn file_select_moves_within_list() {
    let mut fs = FileSelect::new();
    fs.toggle();
    fs.start();
    fs.set_entries(vec![entry(EntryKind::Dir, "a"), entry(EntryKind::File, "b"), entry(EntryKind::File, "c")]);
    assert!(fs.key_up());
    assert_eq!(fs.index, 0);
    assert!(fs.key_down());
    assert!(fs.key_down());
    assert!(fs.key_down());
    assert_eq!(fs.index, 2);
    assert!(fs.key_up());
    assert_eq!(fs.index, 1);
    fs.toggle();
    assert!(!fs.key_up());
    assert_eq!(fs.index, 1);
}

#[test]
fn file_select_plays_files_only() {
    let mut fs = FileSelect::new();
    fs.toggle();
    fs.start();
    fs.set_entries(vec![
        entry(EntryKind::Dir, "d"),
        entry(EntryKind::File, "f.mp4"),
        entry(EntryKind::Symlink, "l"),
    ]);
    match fs.key_select(None) {
        SelectOutcome::NotAFile(p) => assert_eq!(p, "//d"),
        _ => panic!("a directory is not played"),
    }
    assert!(fs.active);
    fs.key_down();
    fs.key_down();
    match fs.key_select(None) {
        SelectOutcome::NotAFile(p) => assert_eq!(p, "//l"),
        _ => panic!("a link of unknown target is not played"),
    }
    match fs.key_select(Some(true)) {
        SelectOutcome::Open(p) => assert_eq!(p, "//l"),
        _ => panic!("a link to a file is played"),
    }
    assert!(!fs.active);
    assert!(matches!(fs.key_select(Some(true)), SelectOutcome::Ignored));
    let mut empty = FileSelect::new();
    empty.toggle();
    assert!(matches!(empty.key_select(None), SelectOutcome::Handled));
}

#[test]
fn file_select_walks_directories() {
    let mut fs = FileSelect::new();
    fs.toggle();
    fs.start();
    fs.set_entries(vec![entry(EntryKind::File, "x"), entry(EntryKind::Dir, "usr")]);
    assert!(matches!(fs.key_right(), SelectOutcome::Handled));
    fs.key_down();
    match fs.key_right() {
        SelectOutcome::List(p) => assert_eq!(p, "/usr"),
        _ => panic!("going into a directory lists it"),
    }
    assert_eq!(fs.path, "/usr");
    assert_eq!(fs.index, 0);
    assert!(fs.entries.is_empty());
    fs.set_entries(vec![entry(EntryKind::Dir, "lib")]);
    match fs.key_right() {
        SelectOutcome::List(p) => assert_eq!(p, "/usr/lib"),
        _ => panic!("going into a directory lists it"),
    }
    assert_eq!(fs.key_left(), Some("lib".to_string()));
    fs.show_parent("/usr".to_string(), vec![entry(EntryKind::Dir, "bin"), entry(EntryKind::Dir, "lib")], "lib");
    assert_eq!(fs.index, 1);
    assert_eq!(fs.path, "/usr");
    fs.show_parent("/".to_string(), vec![entry(EntryKind::Dir, "etc")], "usr");
    assert_eq!(fs.index, 0);
    fs.toggle();
    assert_eq!(fs.key_left(), None);
    assert!(matches!(fs.key_right(), SelectOutcome::Ignored));
}

#[test]
fn file_select_window_of_entries() {
    let mut fs = FileSelect::new();
    fs.toggle();
    fs.start();
    fs.set_entries(vec![
        entry(EntryKind::File, "a"),
        entry(EntryKind::File, "b"),
        entry(EntryKind::File, "c"),
        entry(EntryKind::Dir, "d"),
        entry(EntryKind::Symlink, "e"),
    ]);
    fs.key_down();
    fs.key_down();
    fs.key_down();
    let fg = Color::new(1, 1, 1);
    let bg = Color::new(2, 2, 2);
    let rows = fs.entry_rows(2, 10, fg, bg);
    let texts: Vec<&str> = rows.iter().map(|r| r.text.as_str()).collect();
    assert_eq!(texts, vec![" \u{1F4C4} c ", " \u{1F4C1} d ", " \u{1F517} e "]);
    assert_eq!((rows[1].fg, rows[1].bg), (Some(fg), Some(bg)));
    assert_eq!((rows[0].fg, rows[0].bg), (None, None));
    assert_eq!(fs.entry_rows(2, 2, fg, bg).len(), 2);
    assert_eq!(fs.entry_rows(10, 10, fg, bg).len(), 5);
}

// ===== keys of the panels =====

#[test]
fn ui_flag_keys() {
    let mut f = UiFlags::new();
    assert!(!f.show_help && !f.quit_confirmation && f.show_overlay_text && f.show_progressbar);
    assert!(f.key_help());
    assert!(f.show_help);
    assert!(f.key_help());
    assert!(!f.show_help);
    assert!(f.key_overlay_text());
    assert!(!f.show_overlay_text);
    assert!(!f.key_cancel_quit(0));
}

#[test]
fn quit_needs_two_presses() {
    let mut f = UiFlags::new();
    let mut fs = FileSelect::new();
    let mut o = PlaylistOverlay::new();
    assert_eq!(quit_key(&mut f, &mut fs, &mut o, 0), QuitKey::AskedToConfirm);
    assert!(f.quit_confirmation);
    assert_eq!(quit_key(&mut f, &mut fs, &mut o, 0), QuitKey::Quit);
}

#[test]
fn quit_closes_panels_first() {
    let mut f = UiFlags::new();
    let mut fs = FileSelect::new();
    let mut o = PlaylistOverlay::new();
    fs.toggle();
    o.show = true;
    assert_eq!(quit_key(&mut f, &mut fs, &mut o, 0), QuitKey::ClosedFileSelect);
    assert!(!fs.active);
    assert_eq!(quit_key(&mut f, &mut fs, &mut o, 0), QuitKey::ClosedPlaylist);
    assert!(!o.show);
    assert_eq!(quit_key(&mut f, &mut fs, &mut o, 3), QuitKey::Swallowed);
    assert!(!f.quit_confirmation);
    assert_eq!(quit_key(&mut f, &mut fs, &mut o, 0), QuitKey::AskedToConfirm);
    assert_eq!(quit_key(&mut f, &mut fs, &mut o, 3), QuitKey::Swallowed);
    assert!(f.key_cancel_quit(3));
    assert!(f.quit_confirmation);
    assert!(f.key_cancel_quit(0));
    assert!(!f.quit_confirmation);
}

// ===== the command line =====

#[test]
fn lang_command() {
    assert!(matches!(cmd_lang(&vec![]), LangCommand::MissingArgument));
    match cmd_lang(&vec!["EN".to_string()]) {
        LangCommand::Selected(t) => assert_eq!(t, "en-us"),
        _ => panic!("en is English"),
    }
    match cmd_lang(&vec!["ZH-TW".to_string(), "x".to_string()]) {
        LangCommand::Selected(t) => assert_eq!(t, "zh-tw"),
        _ => panic!("zh-tw is known"),
    }
    match cmd_lang(&vec!["Klingon".to_string()]) {
        LangCommand::Unsupported(l) => assert_eq!(l, "klingon"),
        _ => panic!("klingon is not known"),
    }
    assert_eq!(language_for("zh"), Some("zh-cn"));
    assert_eq!(language_for("pt"), Some("pt-br"));
    assert_eq!(language_for("ja-jp"), Some("ja-jp"));
    assert_eq!(language_for("tw"), None);
    assert_eq!(language_for("EN"), None);
}

#[test]
fn command_line_layout() {
    let buf: Vec<char> = "abc".chars().collect();
    let cands: Vec<Vec<char>> = vec!["help".chars().collect(), "hello".chars().collect()];
    let l = command_layout(80, 24, &buf, &cands);
    assert_eq!(l.text, "/abc_");
    assert_eq!(l.popup_x, 6);
    assert_eq!(l.popup_w, 5);
    assert_eq!(l.rows, vec![(19, "help".to_string()), (20, "hello".to_string())]);
    assert_eq!(l.bar_y, 21);
    let l = command_layout(4, 24, &"abcdef".chars().collect(), &vec![]);
    assert_eq!(l.text, "def_");
    assert_eq!(l.bar_y, 21);
    assert!(l.rows.is_empty());
}

#[test]
fn command_line_popup_stays_on_screen() {
    let buf: Vec<char> = "x".repeat(30).chars().collect();
    let cands: Vec<Vec<char>> = (0..8).map(|i| format!("c{i}").chars().collect()).collect();
    let l = command_layout(20, 5, &buf, &cands);
    assert_eq!(l.text.chars().count(), 20);
    assert_eq!(l.popup_w, 2);
    assert_eq!(l.popup_x, 18);
    // four rows fit the terminal, two above the bar
    assert_eq!(l.rows.len(), 4);
    assert_eq!(l.rows[0].0, 0);
    assert_eq!(l.bar_y, 2);
}

#[test]
fn command_line_drawn_when_open() {
    let mut cl = CommandLine::new();
    let mut grid = CellGrid::new(30, 10);
    let halves = vec![Color::new(0, 0, 0); grid.cells.len()];
    let mut tb = TextBox::new();
    let fg = Color::new(200, 200, 200);
    render_command(&cl, &mut grid, &halves, &mut tb, fg);
    assert!(grid.cells.iter().all(|c| c.c.is_none()));
    cl.enter_mode();
    cl.push_str("ab");
    render_command(&cl, &mut grid, &halves, &mut tb, fg);
    let row = 8 * grid.pitch;
    let text: String = (2..6).map(|x| grid.cells[row + x].c.unwrap()).collect();
    assert_eq!(text, "/ab_");
    assert_eq!(grid.cells[row + 2].fg, fg);
}

#[test]
fn tab_on_multibyte_space_is_refused() {
    let mut cl = CommandLine::new();
    cl.register_commands();
    cl.enter_mode();
    cl.push_str("volume\u{3000}15");
    assert!(cl.tab_slices_badly());
    let mut ok = CommandLine::new();
    ok.register_commands();
    ok.enter_mode();
    ok.push_str("volume 1");
    assert!(!ok.tab_slices_badly());
    ok.push_str("x");
    assert!(!ok.tab_slices_badly());
}

#[test]
fn key_validity_and_clock_readability() {
    assert!(Key::Normal('a').is_valid());
    assert!(!Key::Normal('\u{100}').is_valid());
    assert!(!Key::Lower('1').is_valid());
    assert!(!Key::Fn(13).is_valid());
    assert!(Key::Up.is_valid());
    let mut s = tvid::avsync::AVSyncState::new(10, false, false);
    assert!(s.wf_at(0));
    tvid::avsync::hint_seeked(&mut s, 2, 5);
    assert!(s.wf_at(5));
    assert!(!s.wf_at(2));
    let mut p = tvid::playlist::Playlist::new();
    assert!(p.setnext_ok());
    p.push("a");
    assert!(p.setnext_ok());
    p.clear();
    p.setnext(0);
    p.push("b");
    assert!(p.setnext_ok());
}
