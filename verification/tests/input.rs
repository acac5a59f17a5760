use tvid::callbacks::{
    register_handlers, register_player_keys, Callbacks, KeyHandler, KeypressCallbacks, MouseHandler, PasteHandler,
};
use tvid::stdin::{InputDecoder, InputEvent, InputIssue, Key, Mouse, MouseAction};

#[derive(Debug, PartialEq)]
enum Ev {
    K(Key),
    M(MouseAction, (i32, i32), bool),
    P(String),
    I(InputIssue),
}

fn simplify(events: Vec<InputEvent>) -> Vec<Ev> {
    events
        .into_iter()
        .map(|e| match e {
            InputEvent::Key(k) => Ev::K(k),
            InputEvent::Mouse(m) => Ev::M(m.action, m.pos, m.left),
            InputEvent::Paste(s) => Ev::P(s),
            InputEvent::Issue(i) => Ev::I(i),
        })
        .collect()
}

fn decode(bytes: &[u8]) -> Vec<Ev> {
    let mut d = InputDecoder::new(0);
    simplify(d.feed_all(bytes))
}

#[test]
fn letters_give_case_and_plain_keys() {
    assert_eq!(decode(b"a"), vec![Ev::K(Key::Lower('a')), Ev::K(Key::Normal('a'))]);
    assert_eq!(decode(b"Q"), vec![Ev::K(Key::Upper('Q')), Ev::K(Key::Normal('Q'))]);
}

#[test]
fn control_bytes() {
    assert_eq!(decode(b"\r\n"), vec![Ev::K(Key::Normal('\n')), Ev::K(Key::Normal('\n'))]);
    assert_eq!(decode(b"\x7f"), vec![Ev::K(Key::Backspace)]);
    assert_eq!(decode(b"\x01"), vec![Ev::K(Key::Ctrl('a'))]);
    // Tab arrives as Ctrl-I
    assert_eq!(decode(b"\t"), vec![Ev::K(Key::Ctrl('i'))]);
    assert_eq!(decode(b"\x1c\x1f"), vec![Ev::K(Key::FileSeparator), Ev::K(Key::UnitSeparator)]);
    assert_eq!(decode(b" !~"), vec![Ev::K(Key::Normal(' ')), Ev::K(Key::Normal('!')), Ev::K(Key::Normal('~'))]);
}

#[test]
fn unhandled_bytes() {
    assert_eq!(decode(b"\0"), vec![Ev::I(InputIssue::NulKey)]);
    assert_eq!(decode(b"\x80\xff"), vec![Ev::I(InputIssue::UnhandledByte(0x80)), Ev::I(InputIssue::UnhandledByte(0xff))]);
}

#[test]
fn lone_escape_after_timeout() {
    let mut d = InputDecoder::new(0);
    assert!(d.feed_all(b"\x1b").is_empty());
    assert!(d.waits_with_timeout());
    assert_eq!(simplify(d.timeout()), vec![Ev::K(Key::Escape)]);
    assert!(!d.waits_with_timeout());
    assert!(d.timeout().is_empty());
}

#[test]
fn alt_keys() {
    assert_eq!(decode(b"\x1bx"), vec![Ev::K(Key::Alt('x'))]);
    assert_eq!(decode(b"\x1bX"), vec![Ev::K(Key::AltShift('x'))]);
    assert_eq!(decode(b"\x1b\x02"), vec![Ev::K(Key::CtrlAlt('b'))]);
    assert_eq!(decode(b"\x1b!"), vec![Ev::I(InputIssue::UnknownEscape(b'!'))]);
}

#[test]
fn csi_keys() {
    assert_eq!(
        decode(b"\x1b[A\x1b[B\x1b[C\x1b[D\x1b[H\x1b[F\x1b[Z"),
        vec![
            Ev::K(Key::Up),
            Ev::K(Key::Down),
            Ev::K(Key::Right),
            Ev::K(Key::Left),
            Ev::K(Key::Home),
            Ev::K(Key::End),
            Ev::K(Key::ShiftTab),
        ]
    );
    assert_eq!(decode(b"\x1b[?"), vec![Ev::I(InputIssue::UnknownCsi(b'?'))]);
}

#[test]
fn numbered_keys() {
    assert_eq!(
        decode(b"\x1b[1~\x1b[2~\x1b[3~\x1b[4~\x1b[5~\x1b[6~\x1b[7~\x1b[8~"),
        vec![
            Ev::K(Key::Home),
            Ev::K(Key::Insert),
            Ev::K(Key::Delete),
            Ev::K(Key::End),
            Ev::K(Key::PageUp),
            Ev::K(Key::PageDown),
            Ev::K(Key::Home),
            Ev::K(Key::End),
        ]
    );
    assert_eq!(decode(b"\x1b[11~\x1b[15~\x1b[17~\x1b[24~"), vec![
        Ev::K(Key::Fn(1)),
        Ev::K(Key::Fn(5)),
        Ev::K(Key::Fn(6)),
        Ev::K(Key::Fn(12)),
    ]);
    assert_eq!(decode(b"\x1b[16~"), vec![Ev::I(InputIssue::UnknownFunctionNumber(16))]);
    assert_eq!(decode(b"\x1b[99~"), vec![Ev::I(InputIssue::UnknownTilde(99))]);
    assert_eq!(decode(b"\x1b[1x"), vec![Ev::I(InputIssue::BadNumber)]);
}

#[test]
fn bracketed_paste() {
    assert_eq!(decode("\x1b[200~h\u{e9}llo\n\x1b[201~".as_bytes()), vec![Ev::P("h\u{e9}llo\n".to_string())]);
    assert_eq!(decode(b"\x1b[200~\x1b[201~"), vec![Ev::P(String::new())]);
    assert_eq!(decode(b"\x1b[200~\xff\x1b[201~"), vec![Ev::I(InputIssue::InvalidPaste)]);
}

#[test]
fn paste_in_pieces_is_the_same() {
    let bytes = "\x1b[200~abc\x1b[201~x".as_bytes();
    let whole = decode(bytes);
    let mut d = InputDecoder::new(0);
    let mut pieces = Vec::new();
    for b in bytes {
        pieces.extend(simplify(d.feed(*b)));
    }
    assert_eq!(whole, pieces);
    assert_eq!(whole, vec![Ev::P("abc".to_string()), Ev::K(Key::Lower('x')), Ev::K(Key::Normal('x'))]);
}

#[test]
fn sgr_mouse_reports() {
    let mut d = InputDecoder::new(0);
    let ev = simplify(d.feed_all(b"\x1b[<0;10;5M"));
    assert_eq!(ev, vec![Ev::M(MouseAction::LeftDown, (9, 4), true)]);
    let ev = simplify(d.feed_all(b"\x1b[<0;11;5m"));
    assert_eq!(ev, vec![Ev::M(MouseAction::LeftUp, (10, 4), false)]);
    let ev = simplify(d.feed_all(b"\x1b[<64;1;1M"));
    assert_eq!(ev, vec![Ev::M(MouseAction::ScrollUp, (0, 0), false)]);
    let ev = d.feed_all(b"\x1b[<16;2;3M");
    match &ev[..] {
        [InputEvent::Mouse(m)] => {
            assert!(m.ctrl && !m.alt && !m.shift);
            assert_eq!(m.action, MouseAction::LeftDown);
        },
        _ => panic!("one mouse event"),
    }
}

#[test]
fn bad_sgr_mouse_reports() {
    assert_eq!(decode(b"\x1b[<0;1M"), vec![Ev::I(InputIssue::InvalidMouse)]);
    assert_eq!(decode(b"\x1b[<0;1;x"), vec![Ev::I(InputIssue::InvalidMouse)]);
    assert_eq!(decode(b"\x1b[<3;1;1M"), vec![Ev::I(InputIssue::UnknownMouseAction(3, false))]);
}

#[test]
fn x10_mouse_reports() {
    let mut d = InputDecoder::new(0);
    let ev = simplify(d.feed_all(b"\x1b[M !\""));
    assert_eq!(ev, vec![Ev::M(MouseAction::LeftDown, (0, 1), true)]);
    let ev = simplify(d.feed_all(b"\x1b[M#!\""));
    assert_eq!(ev, vec![Ev::M(MouseAction::LeftUp, (0, 1), false)]);
    let ev = simplify(d.feed_all(b"\x1b[M \x10!"));
    assert_eq!(ev, vec![Ev::I(InputIssue::InvalidX10Mouse(32, -16, 1))]);
    let ev = simplify(d.feed_all(b"\x1b[M`!!"));
    assert_eq!(ev, vec![Ev::I(InputIssue::UnknownX10Action(96))]);
}

#[test]
fn key_numbers() {
    assert_eq!(Key::Normal('a').to_u16(), 97);
    assert_eq!(Key::Normal('A').to_u16(), 97);
    assert_eq!(Key::Normal('!').to_u16(), 33);
    assert_eq!(Key::Lower('a').to_u16(), 128);
    assert_eq!(Key::Upper('B').to_u16(), 128 + 26 + 1);
    assert_eq!(Key::Ctrl('c').to_u16(), 128 + 52 + 2);
    assert_eq!(Key::CtrlAlt('a').to_u16(), 128 + 78);
    assert_eq!(Key::Alt('z').to_u16(), 128 + 104 + 25);
    assert_eq!(Key::AltShift('a').to_u16(), 128 + 130);
    assert_eq!(Key::Fn(12).to_u16(), 128 + 156 + 11);
    assert_eq!(Key::Up.to_u16(), 384);
    assert_eq!(Key::ShiftTab.to_u16(), 402);
}

#[test]
fn mouse_buttons() {
    assert_eq!(MouseAction::LeftDown.to_up(), MouseAction::LeftUp);
    assert_eq!(MouseAction::ScrollUp.to_up(), MouseAction::ScrollUp);
    assert_eq!(MouseAction::Button9Up.to_down(), MouseAction::Button9Down);
    assert_eq!(MouseAction::RightDown.to(true), MouseAction::RightUp);
    assert_eq!(MouseAction::RightUp.to(false), MouseAction::RightDown);
    let mut m = Mouse::new();
    let s = m.update((3, 4), MouseAction::MiddleDown, (false, true, false));
    assert!(s.middle && s.alt);
    assert_eq!(s.pos, (3, 4));
    let s = m.update((3, 5), MouseAction::MiddleUp, (false, false, false));
    assert!(!s.middle && !s.alt);
    assert_eq!(m, s);
}

fn all_handlers() -> (KeypressCallbacks<KeyHandler>, Callbacks<MouseHandler>, Callbacks<PasteHandler>) {
    let mut keys = KeypressCallbacks::new();
    let mut mice = Callbacks::new();
    let mut pastes = Callbacks::new();
    register_handlers(&mut keys, &mut mice, &mut pastes);
    (keys, mice, pastes)
}

#[test]
fn quit_key_asks_every_panel_in_turn() {
    let (keys, _, _) = all_handlers();
    use_order(
        &keys,
        Key::Normal('q'),
        &[
            KeyHandler::CommandLine,
            KeyHandler::CommandLine,
            KeyHandler::FileSelect,
            KeyHandler::Panels,
            KeyHandler::Playlist,
            KeyHandler::Player,
        ],
    );
    use_order(
        &keys,
        Key::Normal('Q'),
        &[
            KeyHandler::CommandLine,
            KeyHandler::CommandLine,
            KeyHandler::FileSelect,
            KeyHandler::Panels,
            KeyHandler::Playlist,
            KeyHandler::Player,
        ],
    );
}

fn use_order(keys: &KeypressCallbacks<KeyHandler>, k: Key, expected: &[KeyHandler]) {
    assert_eq!(keys.call_order(k), expected.to_vec(), "{:?}", k);
}

#[test]
fn handlers_of_other_keys() {
    let (keys, _, _) = all_handlers();
    use_order(&keys, Key::Up, &[KeyHandler::CommandLine, KeyHandler::FileSelect, KeyHandler::Playlist, KeyHandler::Player]);
    use_order(&keys, Key::Enter, &[KeyHandler::CommandLine, KeyHandler::FileSelect, KeyHandler::Playlist]);
    use_order(&keys, Key::Normal('m'), &[KeyHandler::CommandLine, KeyHandler::CommandLine, KeyHandler::Player]);
    use_order(&keys, Key::Normal('h'), &[KeyHandler::CommandLine, KeyHandler::CommandLine, KeyHandler::Panels]);
    use_order(&keys, Key::Lower('c'), &[KeyHandler::CommandLine, KeyHandler::Player]);
    use_order(&keys, Key::Upper('x'), &[KeyHandler::CommandLine, KeyHandler::Panels]);
    use_order(&keys, Key::Escape, &[KeyHandler::CommandLine, KeyHandler::Player]);
    use_order(&keys, Key::Normal('/'), &[KeyHandler::CommandLine, KeyHandler::CommandLine]);
    use_order(&keys, Key::Fn(1), &[]);
    use_order(&keys, Key::Home, &[]);
}

#[test]
fn mouse_and_paste_handlers() {
    let (_, mice, pastes) = all_handlers();
    assert_eq!(mice.call_order(), vec![MouseHandler::Volume, MouseHandler::ProgressBar]);
    assert_eq!(pastes.call_order(), vec![PasteHandler::CommandLine]);
}

#[test]
fn newest_handler_first() {
    let mut keys: KeypressCallbacks<u8> = KeypressCallbacks::new();
    keys.register(Key::Normal('a'), 1);
    keys.register(Key::Normal('b'), 2);
    keys.register(Key::Normal('A'), 3);
    assert_eq!(keys.call_order(Key::Normal('a')), vec![3, 1]);
    assert_eq!(keys.call_order(Key::Normal('b')), vec![2]);
    assert_eq!(keys.call_order(Key::Lower('a')), Vec::<u8>::new());
    let mut list: Callbacks<u8> = Callbacks::new();
    list.push(7);
    list.push(8);
    list.push(9);
    assert_eq!(list.call_order(), vec![9, 8, 7]);
}

#[test]
fn player_keys_alone() {
    let mut keys = KeypressCallbacks::new();
    register_player_keys(&mut keys);
    use_order(&keys, Key::Normal(' '), &[KeyHandler::Player]);
    use_order(&keys, Key::Normal('x'), &[]);
}
