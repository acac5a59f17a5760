use std::cell::Cell as StdCell;

use tvid::avsync::AVSyncState;
use tvid::callbacks::{
    call_in_order, file_key, panel_key, player_action, register_handlers, Callbacks, FileKey, KeyHandler,
    KeypressCallbacks, MouseHandler, PanelKey, PasteHandler, PlayerAction,
};
use tvid::config::config_text;
use tvid::playlist::{playlist_handler, OverlayAction, Playlist, PlaylistOverlay};
use tvid::render::{render_video_braille, RenderLayout, SizeUpdate, Winsize};
use tvid::stdin::Key;
use tvid::util::{Cell, CellGrid, Color};

#[test]
fn dispatch_stops_at_the_first_taker() {
    let asked = StdCell::new(Vec::new());
    let order = vec![1u8, 2, 3, 4];
    let taken = call_in_order(&order, |h| {
        let mut v = asked.take();
        v.push(h);
        asked.set(v);
        h == 2
    });
    assert!(taken);
    assert_eq!(asked.take(), vec![1, 2]);
    let taken = call_in_order(&order, |h| {
        let mut v = asked.take();
        v.push(h);
        asked.set(v);
        false
    });
    assert!(!taken);
    assert_eq!(asked.take(), vec![1, 2, 3, 4]);
    assert!(!call_in_order(&Vec::<u8>::new(), |_| true));
}

#[test]
fn key_dispatch_newest_first() {
    let mut keys = KeypressCallbacks::new();
    let mut mice = Callbacks::new();
    let mut pastes = Callbacks::new();
    register_handlers(&mut keys, &mut mice, &mut pastes);
    let asked = StdCell::new(Vec::new());
    let taken = keys.call(Key::Normal('q'), |h| {
        let mut v = asked.take();
        v.push(h);
        asked.set(v);
        h == KeyHandler::Panels
    });
    assert!(taken);
    assert_eq!(
        asked.take(),
        vec![KeyHandler::CommandLine, KeyHandler::CommandLine, KeyHandler::FileSelect, KeyHandler::Panels]
    );
    assert!(!mice.call(|h| h == MouseHandler::ProgressBar && false));
    assert!(pastes.call(|h| h == PasteHandler::CommandLine));
    assert_eq!(
        keys.call_order(Key::Normal('\n')),
        vec![KeyHandler::CommandLine, KeyHandler::FileSelect, KeyHandler::Playlist]
    );
}

#[test]
fn player_keys_and_actions() {
    assert_eq!(player_action(Key::Left), Some(PlayerAction::SeekBackSmall));
    assert_eq!(player_action(Key::Right), Some(PlayerAction::SeekForwardSmall));
    assert_eq!(player_action(Key::Up), Some(PlayerAction::SeekBackLarge));
    assert_eq!(player_action(Key::Down), Some(PlayerAction::SeekForwardLarge));
    assert_eq!(player_action(Key::Normal(' ')), Some(PlayerAction::TogglePause));
    assert_eq!(player_action(Key::Normal('q')), Some(PlayerAction::AskQuit));
    assert_eq!(player_action(Key::Normal('Q')), Some(PlayerAction::AskQuit));
    assert_eq!(player_action(Key::Escape), Some(PlayerAction::QuitHint));
    assert_eq!(player_action(Key::Lower('c')), Some(PlayerAction::NextColorMode));
    assert_eq!(player_action(Key::Upper('c')), Some(PlayerAction::PrevColorMode));
    assert_eq!(player_action(Key::Normal('m')), Some(PlayerAction::Nothing));
    assert_eq!(player_action(Key::Normal('z')), None);
}

#[test]
fn file_and_panel_keys() {
    assert_eq!(file_key(Key::Normal('\n')), Some(FileKey::Select));
    assert_eq!(file_key(Key::Enter), Some(FileKey::Select));
    assert_eq!(file_key(Key::Normal(' ')), Some(FileKey::Select));
    assert_eq!(file_key(Key::Left), Some(FileKey::Parent));
    assert_eq!(file_key(Key::Normal('d')), Some(FileKey::Into));
    assert_eq!(file_key(Key::Normal('q')), Some(FileKey::Close));
    assert_eq!(file_key(Key::Tab), None);
    assert_eq!(panel_key(Key::Normal('h')), Some(PanelKey::Help));
    assert_eq!(panel_key(Key::Upper('x')), Some(PanelKey::PrevChroma));
    assert_eq!(panel_key(Key::Lower('x')), Some(PanelKey::NextChroma));
    assert_eq!(panel_key(Key::Normal('c')), Some(PanelKey::CancelQuit));
    assert_eq!(panel_key(Key::Up), None);
}

fn three_items() -> Playlist {
    let mut p = Playlist::new();
    p.push("a");
    p.push("b");
    p.push("c");
    p
}

#[test]
fn playlist_plays_the_selected_item_on_newline() {
    let mut p = three_items();
    let mut o = PlaylistOverlay { show: true, selected: 2 };
    let mut sync = AVSyncState::new(0, false, false);
    let (taken, action) = playlist_handler(&mut o, &mut p, &mut sync, Key::Normal('\n'), 0);
    assert!(taken);
    assert_eq!(action, OverlayAction::PlaySelected);
    assert!(!o.show);
    assert!(tvid::avsync::decode_ended(&sync));
    assert_eq!(p.next().map(|s| s.as_str()), Some("c"));
}

#[test]
fn playlist_moves_and_ignores() {
    let mut p = three_items();
    let mut o = PlaylistOverlay { show: true, selected: -1 };
    let mut sync = AVSyncState::new(0, false, false);
    let (taken, action) = playlist_handler(&mut o, &mut p, &mut sync, Key::Down, 0);
    assert!(taken);
    assert_eq!(action, OverlayAction::Handled);
    assert_eq!(o.selected, 1);
    assert!(!tvid::avsync::decode_ended(&sync));
    let (taken, action) = playlist_handler(&mut o, &mut p, &mut sync, Key::Tab, 0);
    assert!(!taken);
    assert_eq!(action, OverlayAction::Ignored);
    let mut hidden = PlaylistOverlay { show: false, selected: 0 };
    let (taken, _) = playlist_handler(&mut hidden, &mut p, &mut sync, Key::Normal(' '), 0);
    assert!(!taken);
}

#[test]
fn braille_cells_from_keyed_pixels() {
    // A 2-cell wide, 1-cell high area: a frame of 4 x 4 pixels.
    let mut grid = CellGrid::new(2, 1);
    let red = Color::new(255, 0, 0);
    let blue = Color::new(0, 0, 255);
    let colors = vec![red, blue];
    let mut keyed = vec![true; 16];
    // Left cell: its top-left pixel and its bottom-right pixel show.
    keyed[0] = false;
    keyed[13] = false;
    render_video_braille(&mut grid, 0, 0, 0, 0, 16, 4, Some(&keyed), &colors);
    assert_eq!(grid.cells[0], Cell { c: Some('\u{2881}'), fg: red, bg: Color::transparent() });
    assert_eq!(grid.cells[1], Cell { c: Some(' '), fg: Color::transparent(), bg: Color::transparent() });
    let mut grid = CellGrid::new(2, 1);
    render_video_braille(&mut grid, 0, 0, 0, 0, 16, 4, None, &colors);
    assert_eq!(grid.cells[1], Cell { c: Some('\u{28FF}'), fg: blue, bg: Color::transparent() });
}

#[test]
fn braille_leaves_the_padding() {
    let mut grid = CellGrid::new(3, 2);
    let before = grid.cells.clone();
    let colors = vec![Color::new(1, 2, 3)];
    render_video_braille(&mut grid, 1, 0, 1, 1, 8, 2, None, &colors);
    assert_eq!(grid.cells[4], Cell { c: Some('\u{28FF}'), fg: Color::new(1, 2, 3), bg: Color::transparent() });
    for i in [0, 1, 2, 3, 5, 6] {
        assert_eq!(grid.cells[i], before[i]);
    }
}

#[test]
fn settings_text_keeps_comments() {
    let source = "# settings\nvolume = 100 # percent\nlooping = false\n";
    let out = config_text(source, 150, true).unwrap();
    assert!(out.starts_with("# settings\nvolume = 150"), "{}", out);
    assert!(out.contains("looping = true"), "{}", out);
    assert!(!out.contains("volume = 100"), "{}", out);
    let out = config_text("# nothing yet\n", 80, false).unwrap();
    assert!(out.contains("# nothing yet\n"), "{}", out);
    assert!(out.contains("volume = 80"), "{}", out);
    assert!(out.contains("looping = false"), "{}", out);
    assert_eq!(config_text("volume = = 3", 1, false), None);
}

#[test]
fn resized_grids_are_packed() {
    let mut l = RenderLayout::new();
    let ws = Winsize { row: 24, col: 80, xpixel: 640, ypixel: 384 };
    let r = l.update_size(Some(ws), Some(1920), Some(1080));
    assert_eq!(r, SizeUpdate::Resized(false));
    let cells = l.cells.as_ref().unwrap();
    assert_eq!((cells.width, cells.height, cells.pitch, cells.cells.len()), (80, 24, 80, 80 * 24 + 1));
    let lasts = l.lasts.as_ref().unwrap();
    assert_eq!(lasts.cells.len(), 80 * 24 + 1);
    assert!(l.force_flush_next);
}
