use vstd::prelude::*;
use vstd::utf8::{decode_utf8, encode_utf8, valid_utf8};

verus! {

// ===== keys =====

/// A key press as the callbacks see it.
#[derive(Clone, Copy, PartialEq, Eq, Structural, Debug)]
pub enum Key {
    Normal(char),
    Lower(char),
    Upper(char),
    Ctrl(char),
    Alt(char),
    CtrlAlt(char),
    AltShift(char),
    Fn(i32),
    Up,
    Down,
    Left,
    Right,
    Home,
    End,
    PageUp,
    PageDown,
    Insert,
    Delete,
    Backspace,
    Tab,
    Enter,
    Escape,
    FileSeparator,
    GroupSeparator,
    RecordSeparator,
    UnitSeparator,
    ShiftTab,
}

pub open spec fn is_lower(c: char) -> bool {
    'a' <= c <= 'z'
}

pub open spec fn is_upper(c: char) -> bool {
    'A' <= c <= 'Z'
}

/// A letter's position in the alphabet, whatever its case.
pub open spec fn letter_index(c: char) -> int {
    if is_lower(c) {
        c as int - 'a' as int
    } else {
        c as int - 'A' as int
    }
}

/// The low byte of a character, as `c as u8` truncates it.
pub open spec fn low_byte(c: char) -> int {
    (c as int) % 256
}

/// The low 16 bits of a character, as `c as u16` truncates it.
pub open spec fn low_word(c: char) -> int {
    (c as int) % 65536
}

/// The keys that have a callback slot: `Normal` takes a character whose low
/// byte is in `1..128`, the modifier keys take a letter, `Fn` takes 1..=12.
pub open spec fn key_valid(k: Key) -> bool {
    match k {
        Key::Normal(c) => 1 <= low_byte(c) < 128,
        Key::Lower(c) | Key::Upper(c) | Key::Ctrl(c) | Key::CtrlAlt(c) | Key::Alt(c) | Key::AltShift(
            c,
        ) => is_lower(c) || is_upper(c),
        Key::Fn(n) => 1 <= n <= 12,
        _ => true,
    }
}

/// The callback slot of a key. Letters of `Normal` share a slot across
/// cases; each modifier has a block of 26 slots from 128 on, the function
/// keys follow, and the named keys start at 384.
pub open spec fn key_code(k: Key) -> int {
    match k {
        Key::Normal(c) => if is_upper(low_byte(c) as char) && 'A' as int <= low_byte(c) <= 'Z' as int {
            low_word(c) - 'A' as int + 'a' as int
        } else {
            low_word(c)
        },
        Key::Lower(c) => letter_index(c) + 128,
        Key::Upper(c) => letter_index(c) + 128 + 26,
        Key::Ctrl(c) => letter_index(c) + 128 + 26 * 2,
        Key::CtrlAlt(c) => letter_index(c) + 128 + 26 * 3,
        Key::Alt(c) => letter_index(c) + 128 + 26 * 4,
        Key::AltShift(c) => letter_index(c) + 128 + 26 * 5,
        Key::Fn(n) => n - 1 + 128 + 26 * 6,
        Key::Up => 384,
        Key::Down => 385,
        Key::Left => 386,
        Key::Right => 387,
        Key::Home => 388,
        Key::End => 389,
        Key::PageUp => 390,
        Key::PageDown => 391,
        Key::Insert => 392,
        Key::Delete => 393,
        Key::Backspace => 394,
        Key::Tab => 395,
        Key::Enter => 396,
        Key::Escape => 397,
        Key::FileSeparator => 398,
        Key::GroupSeparator => 399,
        Key::RecordSeparator => 400,
        Key::UnitSeparator => 401,
        Key::ShiftTab => 402,
    }
}

fn letter_offset(c: char) -> (r: u16)
    requires
        is_lower(c) || is_upper(c),
    ensures
        r == letter_index(c),
        r < 26,
{
    if 'a' <= c && c <= 'z' {
        (c as u32 - 'a' as u32) as u16
    } else {
        (c as u32 - 'A' as u32) as u16
    }
}

impl Key {
    /// Whether the key has a callback slot (`to_u16` takes it).
    pub fn is_valid(self) -> (r: bool)
        ensures
            r == key_valid(self),
    {
        match self {
            Key::Normal(c) => {
                let b = (c as u32) % 256;
                1 <= b && b < 128
            },
            Key::Lower(c) | Key::Upper(c) | Key::Ctrl(c) | Key::CtrlAlt(c) | Key::Alt(c) | Key::AltShift(c) => (
            'a' <= c && c <= 'z') || ('A' <= c && c <= 'Z'),
            Key::Fn(n) => 1 <= n && n <= 12,
            _ => true,
        }
    }

    /// The callback slot of the key.
    pub fn to_u16(self) -> (r: u16)
        requires
            key_valid(self),
        ensures
            r == key_code(self),
    {
        match self {
            Key::Normal(c) => {
                let b = (c as u32 % 256) as u8;
                let w = (c as u32 % 65536) as u16;
                if 65 <= b && b <= 90 {
                    assert(is_upper(low_byte(c) as char));
                    w - 65 + 97
                } else {
                    assert(!(is_upper(low_byte(c) as char) && 'A' as int <= low_byte(c) <= 'Z' as int));
                    w
                }
            },
            Key::Lower(c) => letter_offset(c) + 128,
            Key::Upper(c) => letter_offset(c) + 128 + 26,
            Key::Ctrl(c) => letter_offset(c) + 128 + 26 * 2,
            Key::CtrlAlt(c) => letter_offset(c) + 128 + 26 * 3,
            Key::Alt(c) => letter_offset(c) + 128 + 26 * 4,
            Key::AltShift(c) => letter_offset(c) + 128 + 26 * 5,
            Key::Fn(n) => (n - 1) as u16 + 128 + 26 * 6,
            Key::Up => 384,
            Key::Down => 385,
            Key::Left => 386,
            Key::Right => 387,
            Key::Home => 388,
            Key::End => 389,
            Key::PageUp => 390,
            Key::PageDown => 391,
            Key::Insert => 392,
            Key::Delete => 393,
            Key::Backspace => 394,
            Key::Tab => 395,
            Key::Enter => 396,
            Key::Escape => 397,
            Key::FileSeparator => 398,
            Key::GroupSeparator => 399,
            Key::RecordSeparator => 400,
            Key::UnitSeparator => 401,
            Key::ShiftTab => 402,
        }
    }
}

/// Every key whose character is ASCII has a slot below 512, the size of the
/// callback table.
pub proof fn lemma_ascii_keys_fit_table(k: Key)
    requires
        key_valid(k),
        match k {
            Key::Normal(c) => (c as int) < 128,
            _ => true,
        },
    ensures
        0 <= key_code(k) < 512,
{
}

/// The kind of a key: its variant.
pub open spec fn key_kind(k: Key) -> int {
    match k {
        Key::Normal(_) => 0,
        Key::Lower(_) => 1,
        Key::Upper(_) => 2,
        Key::Ctrl(_) => 3,
        Key::CtrlAlt(_) => 4,
        Key::Alt(_) => 5,
        Key::AltShift(_) => 6,
        Key::Fn(_) => 7,
        Key::Up => 8,
        Key::Down => 9,
        Key::Left => 10,
        Key::Right => 11,
        Key::Home => 12,
        Key::End => 13,
        Key::PageUp => 14,
        Key::PageDown => 15,
        Key::Insert => 16,
        Key::Delete => 17,
        Key::Backspace => 18,
        Key::Tab => 19,
        Key::Enter => 20,
        Key::Escape => 21,
        Key::FileSeparator => 22,
        Key::GroupSeparator => 23,
        Key::RecordSeparator => 24,
        Key::UnitSeparator => 25,
        Key::ShiftTab => 26,
    }
}

/// The letter that a modifier key names.
pub open spec fn key_letter(k: Key) -> char {
    match k {
        Key::Normal(c) | Key::Lower(c) | Key::Upper(c) | Key::Ctrl(c) | Key::CtrlAlt(c) | Key::Alt(c) | Key::AltShift(
            c,
        ) => c,
        _ => ' ',
    }
}

/// Keys of different kinds never share a callback slot (for `Normal` keys
/// with an ASCII character); keys of one modifier kind share a slot exactly
/// when they name the same letter, whatever its case.
pub proof fn lemma_key_kinds_disjoint(a: Key, b: Key)
    requires
        key_valid(a),
        key_valid(b),
        key_code(a) == key_code(b),
        !(a is Normal) || (a->Normal_0 as int) < 128,
        !(b is Normal) || (b->Normal_0 as int) < 128,
    ensures
        key_kind(a) == key_kind(b),
        1 <= key_kind(a) <= 6 ==> letter_index(key_letter(a)) == letter_index(key_letter(b)),
{
}

// ===== mouse =====

#[derive(Clone, Copy, PartialEq, Eq, Structural, Debug)]
pub enum MouseAction {
    Move,
    LeftDown,
    MiddleDown,
    RightDown,
    ScrollDown,
    Side1Down,
    Side2Down,
    Button8Down,
    Button9Down,
    Button10Down,
    Button11Down,
    LeftUp,
    MiddleUp,
    RightUp,
    ScrollUp,
    Side1Up,
    Side2Up,
    Button8Up,
    Button9Up,
    Button10Up,
    Button11Up,
}

pub open spec fn spec_to_up(a: MouseAction) -> MouseAction {
    match a {
        MouseAction::LeftDown => MouseAction::LeftUp,
        MouseAction::MiddleDown => MouseAction::MiddleUp,
        MouseAction::RightDown => MouseAction::RightUp,
        MouseAction::Side1Down => MouseAction::Side1Up,
        MouseAction::Side2Down => MouseAction::Side2Up,
        MouseAction::Button8Down => MouseAction::Button8Up,
        MouseAction::Button9Down => MouseAction::Button9Up,
        MouseAction::Button10Down => MouseAction::Button10Up,
        MouseAction::Button11Down => MouseAction::Button11Up,
        _ => a,
    }
}

pub open spec fn spec_to_down(a: MouseAction) -> MouseAction {
    match a {
        MouseAction::LeftUp => MouseAction::LeftDown,
        MouseAction::MiddleUp => MouseAction::MiddleDown,
        MouseAction::RightUp => MouseAction::RightDown,
        MouseAction::Side1Up => MouseAction::Side1Down,
        MouseAction::Side2Up => MouseAction::Side2Down,
        MouseAction::Button8Up => MouseAction::Button8Down,
        MouseAction::Button9Up => MouseAction::Button9Down,
        MouseAction::Button10Up => MouseAction::Button10Down,
        MouseAction::Button11Up => MouseAction::Button11Down,
        _ => a,
    }
}

impl MouseAction {
    /// The release that matches a press; other actions stay as they are.
    pub fn to_up(self) -> (r: MouseAction)
        ensures
            r == spec_to_up(self),
    {
        match self {
            MouseAction::LeftDown => MouseAction::LeftUp,
            MouseAction::MiddleDown => MouseAction::MiddleUp,
            MouseAction::RightDown => MouseAction::RightUp,
            MouseAction::Side1Down => MouseAction::Side1Up,
            MouseAction::Side2Down => MouseAction::Side2Up,
            MouseAction::Button8Down => MouseAction::Button8Up,
            MouseAction::Button9Down => MouseAction::Button9Up,
            MouseAction::Button10Down => MouseAction::Button10Up,
            MouseAction::Button11Down => MouseAction::Button11Up,
            _ => self,
        }
    }

    /// The press that matches a release; other actions stay as they are.
    pub fn to_down(self) -> (r: MouseAction)
        ensures
            r == spec_to_down(self),
    {
        match self {
            MouseAction::LeftUp => MouseAction::LeftDown,
            MouseAction::MiddleUp => MouseAction::MiddleDown,
            MouseAction::RightUp => MouseAction::RightDown,
            MouseAction::Side1Up => MouseAction::Side1Down,
            MouseAction::Side2Up => MouseAction::Side2Down,
            MouseAction::Button8Up => MouseAction::Button8Down,
            MouseAction::Button9Up => MouseAction::Button9Down,
            MouseAction::Button10Up => MouseAction::Button10Down,
            MouseAction::Button11Up => MouseAction::Button11Down,
            _ => self,
        }
    }

    pub fn to(self, up: bool) -> (r: MouseAction)
        ensures
            r == (if up {
                spec_to_up(self)
            } else {
                spec_to_down(self)
            }),
    {
        if up {
            self.to_up()
        } else {
            self.to_down()
        }
    }
}

/// Turning a press into a release and back gives the press again, and the
/// other way round.
pub proof fn lemma_up_down_roundtrip(a: MouseAction)
    ensures
        spec_to_up(a) != a ==> spec_to_down(spec_to_up(a)) == a,
        spec_to_down(a) != a ==> spec_to_up(spec_to_down(a)) == a,
        spec_to_up(spec_to_up(a)) == spec_to_up(a),
        spec_to_down(spec_to_down(a)) == spec_to_down(a),
{
}

/// The state of the mouse: where it is, the last action and which buttons and
/// modifiers are held.
#[derive(Clone, Copy, PartialEq, Eq, Debug)]
pub struct Mouse {
    pub pos: (i32, i32),
    pub action: MouseAction,
    pub left: bool,
    pub middle: bool,
    pub right: bool,
    pub side1: bool,
    pub side2: bool,
    pub button8: bool,
    pub button9: bool,
    pub button10: bool,
    pub button11: bool,
    pub ctrl: bool,
    pub alt: bool,
    pub shift: bool,
}

pub open spec fn mouse_initial() -> Mouse {
    Mouse {
        pos: (0, 0),
        action: MouseAction::Move,
        left: false,
        middle: false,
        right: false,
        side1: false,
        side2: false,
        button8: false,
        button9: false,
        button10: false,
        button11: false,
        ctrl: false,
        alt: false,
        shift: false,
    }
}

/// The mouse after `action` at `pos` with the modifiers `keys` (ctrl, alt,
/// shift): presses and releases set and clear the button they name.
pub open spec fn mouse_after(m: Mouse, pos: (i32, i32), action: MouseAction, keys: (bool, bool, bool)) -> Mouse {
    let m1 = Mouse { pos, action, ctrl: keys.0, alt: keys.1, shift: keys.2, ..m };
    match action {
        MouseAction::LeftDown => Mouse { left: true, ..m1 },
        MouseAction::LeftUp => Mouse { left: false, ..m1 },
        MouseAction::MiddleDown => Mouse { middle: true, ..m1 },
        MouseAction::MiddleUp => Mouse { middle: false, ..m1 },
        MouseAction::RightDown => Mouse { right: true, ..m1 },
        MouseAction::RightUp => Mouse { right: false, ..m1 },
        MouseAction::Side1Down => Mouse { side1: true, ..m1 },
        MouseAction::Side1Up => Mouse { side1: false, ..m1 },
        MouseAction::Side2Down => Mouse { side2: true, ..m1 },
        MouseAction::Side2Up => Mouse { side2: false, ..m1 },
        MouseAction::Button8Down => Mouse { button8: true, ..m1 },
        MouseAction::Button8Up => Mouse { button8: false, ..m1 },
        MouseAction::Button9Down => Mouse { button9: true, ..m1 },
        MouseAction::Button9Up => Mouse { button9: false, ..m1 },
        MouseAction::Button10Down => Mouse { button10: true, ..m1 },
        MouseAction::Button10Up => Mouse { button10: false, ..m1 },
        MouseAction::Button11Down => Mouse { button11: true, ..m1 },
        MouseAction::Button11Up => Mouse { button11: false, ..m1 },
        _ => m1,
    }
}

impl Mouse {
    pub fn new() -> (m: Mouse)
        ensures
            m == mouse_initial(),
    {
        Mouse {
            pos: (0, 0),
            action: MouseAction::Move,
            left: false,
            middle: false,
            right: false,
            side1: false,
            side2: false,
            button8: false,
            button9: false,
            button10: false,
            button11: false,
            ctrl: false,
            alt: false,
            shift: false,
        }
    }

    /// Records an event and returns the new state.
    pub fn update(&mut self, pos: (i32, i32), action: MouseAction, keys: (bool, bool, bool)) -> (r: Mouse)
        ensures
            *final(self) == mouse_after(*old(self), pos, action, keys),
            r == *final(self),
    {
        let m1 = Mouse { pos, action, ctrl: keys.0, alt: keys.1, shift: keys.2, ..*self };
        let m2 = match action {
            MouseAction::LeftDown => Mouse { left: true, ..m1 },
            MouseAction::LeftUp => Mouse { left: false, ..m1 },
            MouseAction::MiddleDown => Mouse { middle: true, ..m1 },
            MouseAction::MiddleUp => Mouse { middle: false, ..m1 },
            MouseAction::RightDown => Mouse { right: true, ..m1 },
            MouseAction::RightUp => Mouse { right: false, ..m1 },
            MouseAction::Side1Down => Mouse { side1: true, ..m1 },
            MouseAction::Side1Up => Mouse { side1: false, ..m1 },
            MouseAction::Side2Down => Mouse { side2: true, ..m1 },
            MouseAction::Side2Up => Mouse { side2: false, ..m1 },
            MouseAction::Button8Down => Mouse { button8: true, ..m1 },
            MouseAction::Button8Up => Mouse { button8: false, ..m1 },
            MouseAction::Button9Down => Mouse { button9: true, ..m1 },
            MouseAction::Button9Up => Mouse { button9: false, ..m1 },
            MouseAction::Button10Down => Mouse { button10: true, ..m1 },
            MouseAction::Button10Up => Mouse { button10: false, ..m1 },
            MouseAction::Button11Down => Mouse { button11: true, ..m1 },
            MouseAction::Button11Up => Mouse { button11: false, ..m1 },
            _ => m1,
        };
        *self = m2;
        *self
    }
}

/// Once a press is released, the mouse is as if only the release had
/// happened: the press leaves no trace.
pub proof fn lemma_press_release(m: Mouse, p1: (i32, i32), p2: (i32, i32), a: MouseAction, k1: (bool, bool, bool), k2: (bool, bool, bool))
    requires
        spec_to_up(a) != a,
    ensures
        mouse_after(mouse_after(m, p1, a, k1), p2, spec_to_up(a), k2) == mouse_after(m, p2, spec_to_up(a), k2),
{
}

} // verus!

verus! {

// ===== input decoding =====

/// The part of an escape sequence that the decoder is in.
#[derive(Clone, Copy, PartialEq, Eq, Structural, Debug)]
pub enum InputMode {
    /// Between sequences.
    Ground,
    /// After ESC, waiting (briefly) for the next byte.
    Escape,
    /// After ESC [.
    Csi,
    /// Inside the number of ESC [ <number> ~.
    CsiNumber,
    /// Inside bracketed paste data.
    Paste,
    /// Inside the parameters of an SGR mouse report, ESC [ < ...
    SgrMouse,
    /// Inside the three bytes of an X10 mouse report, ESC [ M ...
    X10Mouse,
}

/// Input that the decoder could not take as a key or a mouse event.
#[derive(Clone, Copy, PartialEq, Eq, Structural, Debug)]
pub enum InputIssue {
    /// A NUL byte (reported as a warning).
    NulKey,
    /// A byte of 128 or more outside a sequence (reported as a warning).
    UnhandledByte(u8),
    /// ESC followed by this byte.
    UnknownEscape(u8),
    /// ESC [ followed by this byte.
    UnknownCsi(u8),
    /// ESC [ <digits> followed by something other than a digit or `~`.
    BadNumber,
    /// ESC [ <number> ~ with a number in 11..=24 that names no function key.
    UnknownFunctionNumber(i64),
    /// ESC [ <number> ~ with any other unknown number.
    UnknownTilde(i64),
    /// Bracketed paste data that is not UTF-8.
    InvalidPaste,
    /// A malformed SGR mouse report.
    InvalidMouse,
    /// An SGR mouse report with an unknown button code.
    UnknownMouseAction(i32, bool),
    /// An X10 mouse report with a position below the offset.
    InvalidX10Mouse(i32, i32, i32),
    /// An X10 mouse report with an unknown button code.
    UnknownX10Action(i32),
}

/// What the decoder reports for the callbacks.
pub enum InputEvent {
    Key(Key),
    Mouse(Mouse),
    Paste(String),
    Issue(InputIssue),
}

/// The mathematical view of an event.
pub enum InputEventView {
    Key(Key),
    Mouse(Mouse),
    Paste(Seq<char>),
    Issue(InputIssue),
}

impl View for InputEvent {
    type V = InputEventView;

    open spec fn view(&self) -> InputEventView {
        match self {
            InputEvent::Key(k) => InputEventView::Key(*k),
            InputEvent::Mouse(m) => InputEventView::Mouse(*m),
            InputEvent::Paste(s) => InputEventView::Paste(s@),
            InputEvent::Issue(i) => InputEventView::Issue(*i),
        }
    }
}

pub open spec fn events_view(v: Seq<InputEvent>) -> Seq<InputEventView> {
    v.map_values(|e: InputEvent| e@)
}

/// The decoder of terminal input for one terminal: it turns bytes into key,
/// mouse and paste events. `buf` holds the paste data, the SGR mouse
/// parameters or the X10 mouse bytes read so far; each report format keeps
/// its own mouse state.
pub struct InputDecoder {
    pub id: i32,
    pub mode: InputMode,
    pub number: i64,
    pub buf: Vec<u8>,
    pub sgr_mouse: Mouse,
    pub x10_mouse: Mouse,
}

/// The mathematical state of the decoder.
#[verifier::ext_equal]
pub struct DecoderState {
    pub mode: InputMode,
    pub number: i64,
    pub buf: Seq<u8>,
    pub sgr_mouse: Mouse,
    pub x10_mouse: Mouse,
}

impl View for InputDecoder {
    type V = DecoderState;

    open spec fn view(&self) -> DecoderState {
        DecoderState {
            mode: self.mode,
            number: self.number,
            buf: self.buf@,
            sgr_mouse: self.sgr_mouse,
            x10_mouse: self.x10_mouse,
        }
    }
}

pub open spec fn ground(s: DecoderState) -> DecoderState {
    DecoderState { mode: InputMode::Ground, buf: Seq::empty(), ..s }
}

pub open spec fn key_ev(k: Key) -> InputEventView {
    InputEventView::Key(k)
}

pub open spec fn issue_ev(i: InputIssue) -> InputEventView {
    InputEventView::Issue(i)
}

/// A byte between sequences.
pub open spec fn ground_byte(s: DecoderState, b: u8) -> (DecoderState, Seq<InputEventView>) {
    if b == 0 {
        (s, seq![issue_ev(InputIssue::NulKey)])
    } else if b == 0x1b {
        (DecoderState { mode: InputMode::Escape, ..s }, Seq::empty())
    } else if b == 0x20 {
        (s, seq![key_ev(Key::Normal(' '))])
    } else if b == 0x7f {
        (s, seq![key_ev(Key::Backspace)])
    } else if b == 10 || b == 13 {
        (s, seq![key_ev(Key::Normal('\n'))])
    } else if 97 <= b <= 122 {
        (s, seq![key_ev(Key::Lower(b as char)), key_ev(Key::Normal(b as char))])
    } else if 65 <= b <= 90 {
        (s, seq![key_ev(Key::Upper(b as char)), key_ev(Key::Normal(b as char))])
    } else if 1 <= b <= 26 {
        (s, seq![key_ev(Key::Ctrl((b - 1 + 97) as char))])
    } else if b == 0x1c {
        (s, seq![key_ev(Key::FileSeparator)])
    } else if b == 0x1d {
        (s, seq![key_ev(Key::GroupSeparator)])
    } else if b == 0x1e {
        (s, seq![key_ev(Key::RecordSeparator)])
    } else if b == 0x1f {
        (s, seq![key_ev(Key::UnitSeparator)])
    } else if 33 <= b <= 126 {
        (s, seq![key_ev(Key::Normal(b as char))])
    } else {
        (s, seq![issue_ev(InputIssue::UnhandledByte(b))])
    }
}

/// A byte right after ESC.
pub open spec fn escape_byte(s: DecoderState, b: u8) -> (DecoderState, Seq<InputEventView>) {
    if 1 <= b <= 26 {
        (ground(s), seq![key_ev(Key::CtrlAlt((b - 1 + 97) as char))])
    } else if 97 <= b <= 122 {
        (ground(s), seq![key_ev(Key::Alt(b as char))])
    } else if 65 <= b <= 90 {
        (ground(s), seq![key_ev(Key::AltShift((b + 32) as char))])
    } else if b == 91 {
        (DecoderState { mode: InputMode::Csi, ..s }, Seq::empty())
    } else {
        (ground(s), seq![issue_ev(InputIssue::UnknownEscape(b))])
    }
}

/// A byte right after ESC [.
pub open spec fn csi_byte(s: DecoderState, b: u8) -> (DecoderState, Seq<InputEventView>) {
    if b == 65 {
        (ground(s), seq![key_ev(Key::Up)])
    } else if b == 66 {
        (ground(s), seq![key_ev(Key::Down)])
    } else if b == 67 {
        (ground(s), seq![key_ev(Key::Right)])
    } else if b == 68 {
        (ground(s), seq![key_ev(Key::Left)])
    } else if b == 72 {
        (ground(s), seq![key_ev(Key::Home)])
    } else if b == 70 {
        (ground(s), seq![key_ev(Key::End)])
    } else if b == 90 {
        (ground(s), seq![key_ev(Key::ShiftTab)])
    } else if 48 <= b <= 57 {
        (DecoderState { mode: InputMode::CsiNumber, number: (b - 48) as i64, ..s }, Seq::empty())
    } else if b == 60 {
        (DecoderState { mode: InputMode::SgrMouse, buf: Seq::empty(), ..s }, Seq::empty())
    } else if b == 77 {
        (DecoderState { mode: InputMode::X10Mouse, buf: Seq::empty(), ..s }, Seq::empty())
    } else {
        (ground(s), seq![issue_ev(InputIssue::UnknownCsi(b))])
    }
}

/// Appends a decimal digit to a number; a number too large for `i64` stays
/// at `i64::MAX`.
pub open spec fn push_digit(n: i64, d: int) -> i64 {
    if i64::MIN <= n * 10 <= i64::MAX && n * 10 + d <= i64::MAX {
        (n * 10 + d) as i64
    } else {
        i64::MAX
    }
}

/// The function key that ESC [ <n> ~ stands for.
pub open spec fn function_key_number(n: i64) -> Option<i32> {
    if n == 11 {
        Some(1i32)
    } else if n == 12 {
        Some(2i32)
    } else if n == 13 {
        Some(3i32)
    } else if n == 14 {
        Some(4i32)
    } else if n == 15 {
        Some(5i32)
    } else if n == 17 {
        Some(6i32)
    } else if n == 18 {
        Some(7i32)
    } else if n == 19 {
        Some(8i32)
    } else if n == 20 {
        Some(9i32)
    } else if n == 21 {
        Some(10i32)
    } else if n == 23 {
        Some(11i32)
    } else if n == 24 {
        Some(12i32)
    } else {
        None
    }
}

/// What ESC [ <n> ~ stands for.
pub open spec fn tilde_number(s: DecoderState, n: i64) -> (DecoderState, Seq<InputEventView>) {
    if n == 1 || n == 7 {
        (ground(s), seq![key_ev(Key::Home)])
    } else if n == 2 {
        (ground(s), seq![key_ev(Key::Insert)])
    } else if n == 3 {
        (ground(s), seq![key_ev(Key::Delete)])
    } else if n == 4 || n == 8 {
        (ground(s), seq![key_ev(Key::End)])
    } else if n == 5 {
        (ground(s), seq![key_ev(Key::PageUp)])
    } else if n == 6 {
        (ground(s), seq![key_ev(Key::PageDown)])
    } else if 11 <= n <= 24 {
        match function_key_number(n) {
            Some(f) => (ground(s), seq![key_ev(Key::Fn(f))]),
            None => (ground(s), seq![issue_ev(InputIssue::UnknownFunctionNumber(n))]),
        }
    } else if n == 200 {
        (DecoderState { mode: InputMode::Paste, buf: Seq::empty(), ..s }, Seq::empty())
    } else {
        (ground(s), seq![issue_ev(InputIssue::UnknownTilde(n))])
    }
}

/// A byte inside the number of ESC [ <number> ~.
pub open spec fn number_byte(s: DecoderState, b: u8) -> (DecoderState, Seq<InputEventView>) {
    if b == 126 {
        tilde_number(s, s.number)
    } else if 48 <= b <= 57 {
        (DecoderState { number: push_digit(s.number, b - 48), ..s }, Seq::empty())
    } else {
        (ground(s), seq![issue_ev(InputIssue::BadNumber)])
    }
}

/// The end marker of bracketed paste: ESC [ 2 0 1 ~.
pub open spec fn paste_end() -> Seq<u8> {
    seq![0x1bu8, 91u8, 50u8, 48u8, 49u8, 126u8]
}

pub open spec fn ends_with_paste_end(s: Seq<u8>) -> bool {
    s.len() >= 6 && s.subrange(s.len() - 6, s.len() as int) == paste_end()
}

/// A byte of bracketed paste data: the data ends at the end marker and is
/// reported as text when it is UTF-8.
pub open spec fn paste_byte(s: DecoderState, b: u8) -> (DecoderState, Seq<InputEventView>) {
    let data = s.buf.push(b);
    if ends_with_paste_end(data) {
        let text = data.subrange(0, data.len() - 6);
        if valid_utf8(text) {
            (ground(s), seq![InputEventView::Paste(decode_utf8(text))])
        } else {
            (ground(s), seq![issue_ev(InputIssue::InvalidPaste)])
        }
    } else {
        (DecoderState { buf: data, ..s }, Seq::empty())
    }
}

/// The fields of `s` separated by `;`.
pub open spec fn split_semicolons(s: Seq<u8>) -> Seq<Seq<u8>>
    decreases s.len(),
{
    if s.len() == 0 {
        seq![Seq::empty()]
    } else {
        let rest = split_semicolons(s.drop_last());
        if s.last() == 59 {
            rest.push(Seq::empty())
        } else {
            rest.update(rest.len() - 1, rest.last().push(s.last()))
        }
    }
}

/// The value of a non-empty string of decimal digits.
pub open spec fn digits_value(s: Seq<u8>) -> int
    decreases s.len(),
{
    if s.len() == 0 {
        0
    } else {
        digits_value(s.drop_last()) * 10 + (s.last() - 48)
    }
}

pub open spec fn all_digits(s: Seq<u8>) -> bool {
    forall|i: int| 0 <= i < s.len() ==> 48 <= #[trigger] s[i] <= 57
}

/// What `str::parse::<i32>` gives for a string of digits.
pub open spec fn parse_digits_i32(s: Seq<u8>) -> Option<i32> {
    if s.len() > 0 && all_digits(s) && digits_value(s) <= i32::MAX {
        Some(digits_value(s) as i32)
    } else {
        None
    }
}

/// The three numbers of an SGR mouse report (button code, column, row), when
/// the parameters are exactly three fields that each parse as an `i32`.
pub open spec fn sgr_params(buf: Seq<u8>) -> Option<(i32, i32, i32)> {
    let fields = split_semicolons(buf);
    if fields.len() == 3 && parse_digits_i32(fields[0]) is Some && parse_digits_i32(fields[1]) is Some
        && parse_digits_i32(fields[2]) is Some {
        Some((parse_digits_i32(fields[0])->0, parse_digits_i32(fields[1])->0, parse_digits_i32(fields[2])->0))
    } else {
        None
    }
}

/// The press that an SGR mouse button code stands for.
pub open spec fn sgr_action(code: i32) -> Option<MouseAction> {
    if code == 0 {
        Some(MouseAction::LeftDown)
    } else if code == 1 {
        Some(MouseAction::MiddleDown)
    } else if code == 2 {
        Some(MouseAction::RightDown)
    } else if 32 <= code <= 35 {
        Some(MouseAction::Move)
    } else if code == 64 {
        Some(MouseAction::ScrollUp)
    } else if code == 65 {
        Some(MouseAction::ScrollDown)
    } else if code == 128 {
        Some(MouseAction::Side1Down)
    } else if code == 129 {
        Some(MouseAction::Side2Down)
    } else if code == 256 {
        Some(MouseAction::Button8Down)
    } else if code == 257 {
        Some(MouseAction::Button9Down)
    } else if code == 258 {
        Some(MouseAction::Button10Down)
    } else if code == 259 {
        Some(MouseAction::Button11Down)
    } else {
        None
    }
}

/// Each button press of an SGR report comes from one button code only: the
/// low bits 0, 1, 2 are the left, middle and right buttons, 64 and 65 the
/// wheel turned up and down, 128 and 129 the side buttons, 256 to 259 the
/// extra buttons, and 32 to 35 (the motion bit) a move.
pub proof fn lemma_sgr_button_codes(c: i32)
    ensures
        sgr_action(c) == Some(MouseAction::LeftDown) <==> c == 0,
        sgr_action(c) == Some(MouseAction::MiddleDown) <==> c == 1,
        sgr_action(c) == Some(MouseAction::RightDown) <==> c == 2,
        sgr_action(c) == Some(MouseAction::ScrollUp) <==> c == 64,
        sgr_action(c) == Some(MouseAction::ScrollDown) <==> c == 65,
        sgr_action(c) == Some(MouseAction::Side1Down) <==> c == 128,
        sgr_action(c) == Some(MouseAction::Side2Down) <==> c == 129,
        sgr_action(c) == Some(MouseAction::Button8Down) <==> c == 256,
        sgr_action(c) == Some(MouseAction::Button9Down) <==> c == 257,
        sgr_action(c) == Some(MouseAction::Button10Down) <==> c == 258,
        sgr_action(c) == Some(MouseAction::Button11Down) <==> c == 259,
        sgr_action(c) == Some(MouseAction::Move) <==> 32 <= c <= 35,
{
}

/// Two different SGR button codes never report the same press: only the
/// motion codes share an action (a move).
pub proof fn lemma_sgr_presses_distinct(c1: i32, c2: i32)
    requires
        sgr_action(c1) is Some,
        sgr_action(c1) != Some(MouseAction::Move),
        sgr_action(c1) == sgr_action(c2),
    ensures
        c1 == c2,
{
    lemma_sgr_button_codes(c1);
    lemma_sgr_button_codes(c2);
}

/// The modifier bits of a mouse button code: ctrl, alt, shift.
pub open spec fn mouse_keys(b: i32) -> (bool, bool, bool) {
    ((b & 16) != 0, (b & 8) != 0, (b & 4) != 0)
}

/// The end of an SGR mouse report, `up` telling a release (`m`) from a press
/// (`M`).
pub open spec fn sgr_finish(s: DecoderState, up: bool) -> (DecoderState, Seq<InputEventView>) {
    match sgr_params(s.buf) {
        None => (ground(s), seq![issue_ev(InputIssue::InvalidMouse)]),
        Some((b, x, y)) => match sgr_action(b & 483) {
            None => (ground(s), seq![issue_ev(InputIssue::UnknownMouseAction(b, up))]),
            Some(a) => {
                let act = if up {
                    spec_to_up(a)
                } else {
                    spec_to_down(a)
                };
                let m = mouse_after(s.sgr_mouse, ((x - 1) as i32, (y - 1) as i32), act, mouse_keys(b));
                (DecoderState { sgr_mouse: m, ..ground(s) }, seq![InputEventView::Mouse(m)])
            },
        },
    }
}

/// A byte inside an SGR mouse report.
pub open spec fn sgr_byte(s: DecoderState, b: u8) -> (DecoderState, Seq<InputEventView>) {
    if (48 <= b <= 57) || b == 59 {
        (DecoderState { buf: s.buf.push(b), ..s }, Seq::empty())
    } else if b == 77 {
        sgr_finish(s, false)
    } else if b == 109 {
        sgr_finish(s, true)
    } else {
        (ground(s), seq![issue_ev(InputIssue::InvalidMouse)])
    }
}

/// The press that an X10 mouse button code stands for.
pub open spec fn x10_action(code: i32) -> Option<MouseAction> {
    if 0 <= code <= 3 || code == 35 {
        Some(MouseAction::Move)
    } else if code == 32 {
        Some(MouseAction::LeftDown)
    } else if code == 33 {
        Some(MouseAction::MiddleDown)
    } else if code == 34 {
        Some(MouseAction::RightDown)
    } else if code == 64 {
        Some(MouseAction::ScrollUp)
    } else if code == 65 {
        Some(MouseAction::ScrollDown)
    } else if code == 128 {
        Some(MouseAction::Side1Down)
    } else if code == 129 {
        Some(MouseAction::Side2Down)
    } else {
        None
    }
}

/// Each press of an X10 report comes from one button code only: 32, 33 and
/// 34 (the button offset 32 plus 0, 1, 2) are the left, middle and right
/// buttons, 64 and 65 the wheel up and down, 128 and 129 the side buttons,
/// and 0 to 3 or 35 a move.
pub proof fn lemma_x10_button_codes(c: i32)
    ensures
        x10_action(c) == Some(MouseAction::LeftDown) <==> c == 32,
        x10_action(c) == Some(MouseAction::MiddleDown) <==> c == 33,
        x10_action(c) == Some(MouseAction::RightDown) <==> c == 34,
        x10_action(c) == Some(MouseAction::ScrollUp) <==> c == 64,
        x10_action(c) == Some(MouseAction::ScrollDown) <==> c == 65,
        x10_action(c) == Some(MouseAction::Side1Down) <==> c == 128,
        x10_action(c) == Some(MouseAction::Side2Down) <==> c == 129,
        x10_action(c) == Some(MouseAction::Move) <==> (0 <= c <= 3 || c == 35),
{
}

/// Two different X10 button codes never report the same press, except the
/// codes of a move.
pub proof fn lemma_x10_presses_distinct(c1: i32, c2: i32)
    requires
        x10_action(c1) is Some,
        x10_action(c1) != Some(MouseAction::Move),
        x10_action(c1) == x10_action(c2),
    ensures
        c1 == c2,
{
    lemma_x10_button_codes(c1);
    lemma_x10_button_codes(c2);
}

/// The two report formats agree on the buttons: an X10 code is the SGR code
/// of the same button plus 32 for the three main buttons, and the same code
/// for the wheel and the side buttons.
pub proof fn lemma_x10_sgr_agree(c: i32)
    ensures
        0 <= c <= 2 ==> x10_action((c + 32) as i32) == sgr_action(c),
        (c == 64 || c == 65 || c == 128 || c == 129) ==> x10_action(c) == sgr_action(c),
{
}

/// Releases the buttons (left, middle, right, side 1, side 2 in turn) that
/// are held, reporting the mouse after each release.
pub open spec fn x10_releases(m: Mouse, pos: (i32, i32), keys: (bool, bool, bool)) -> (Mouse, Seq<Mouse>) {
    let (m1, e1) = if m.left {
        let n = mouse_after(m, pos, MouseAction::LeftUp, keys);
        (n, seq![n])
    } else {
        (m, Seq::empty())
    };
    let (m2, e2) = if m1.middle {
        let n = mouse_after(m1, pos, MouseAction::MiddleUp, keys);
        (n, e1.push(n))
    } else {
        (m1, e1)
    };
    let (m3, e3) = if m2.right {
        let n = mouse_after(m2, pos, MouseAction::RightUp, keys);
        (n, e2.push(n))
    } else {
        (m2, e2)
    };
    let (m4, e4) = if m3.side1 {
        let n = mouse_after(m3, pos, MouseAction::Side1Up, keys);
        (n, e3.push(n))
    } else {
        (m3, e3)
    };
    if m4.side2 {
        let n = mouse_after(m4, pos, MouseAction::Side2Up, keys);
        (n, e4.push(n))
    } else {
        (m4, e4)
    }
}

pub open spec fn mouse_events(ms: Seq<Mouse>) -> Seq<InputEventView> {
    ms.map_values(|m: Mouse| InputEventView::Mouse(m))
}

/// The three bytes of an X10 mouse report.
pub open spec fn x10_finish(s: DecoderState, b1: i32, b2: i32, b3: i32) -> (DecoderState, Seq<InputEventView>) {
    let x = b2 - 32;
    let y = b3 - 32;
    if x < 0 || y < 0 {
        (ground(s), seq![issue_ev(InputIssue::InvalidX10Mouse(b1, x as i32, y as i32))])
    } else {
        match x10_action(b1 & 227) {
            None => (ground(s), seq![issue_ev(InputIssue::UnknownX10Action(b1))]),
            Some(a) => {
                let pos = ((x - 1) as i32, (y - 1) as i32);
                let keys = mouse_keys(b1);
                if (b1 & 3) == 3 {
                    let (m, ms) = x10_releases(s.x10_mouse, pos, keys);
                    (DecoderState { x10_mouse: m, ..ground(s) }, mouse_events(ms))
                } else {
                    let m = mouse_after(s.x10_mouse, pos, a, keys);
                    (DecoderState { x10_mouse: m, ..ground(s) }, seq![InputEventView::Mouse(m)])
                }
            },
        }
    }
}

/// A byte of an X10 mouse report.
pub open spec fn x10_byte(s: DecoderState, b: u8) -> (DecoderState, Seq<InputEventView>) {
    let data = s.buf.push(b);
    if data.len() >= 3 {
        x10_finish(s, data[0] as i32, data[1] as i32, data[2] as i32)
    } else {
        (DecoderState { buf: data, ..s }, Seq::empty())
    }
}

/// What the decoder does with one byte of input.
pub open spec fn decode_byte(s: DecoderState, b: u8) -> (DecoderState, Seq<InputEventView>) {
    match s.mode {
        InputMode::Ground => ground_byte(s, b),
        InputMode::Escape => escape_byte(s, b),
        InputMode::Csi => csi_byte(s, b),
        InputMode::CsiNumber => number_byte(s, b),
        InputMode::Paste => paste_byte(s, b),
        InputMode::SgrMouse => sgr_byte(s, b),
        InputMode::X10Mouse => x10_byte(s, b),
    }
}

/// What the decoder does when no byte follows a lone ESC in time: the user
/// pressed Escape.
pub open spec fn decode_timeout(s: DecoderState) -> (DecoderState, Seq<InputEventView>) {
    if s.mode == InputMode::Escape {
        (ground(s), seq![key_ev(Key::Escape)])
    } else {
        (s, Seq::empty())
    }
}

/// What the decoder does with a sequence of bytes.
pub open spec fn decode_bytes(s: DecoderState, bytes: Seq<u8>) -> (DecoderState, Seq<InputEventView>)
    decreases bytes.len(),
{
    if bytes.len() == 0 {
        (s, Seq::empty())
    } else {
        let (s1, e1) = decode_bytes(s, bytes.drop_last());
        let (s2, e2) = decode_byte(s1, bytes.last());
        (s2, e1 + e2)
    }
}

// ===== decoding, executable =====

#[verifier::external_type_specification]
#[verifier::external_body]
pub struct ExUtf8Error(core::str::Utf8Error);

/// `core::str::from_utf8` accepts exactly the valid UTF-8 byte strings and
/// hands back the string whose encoding they are.
pub assume_specification[ core::str::from_utf8 ](v: &[u8]) -> (r: Result<&str, core::str::Utf8Error>)
    ensures
        match r {
            Ok(s) => encode_utf8(s@) == v@,
            Err(_) => !valid_utf8(v@),
        },
;

pub open spec fn decoder_initial() -> DecoderState {
    DecoderState {
        mode: InputMode::Ground,
        number: 0,
        buf: Seq::empty(),
        sgr_mouse: mouse_initial(),
        x10_mouse: mouse_initial(),
    }
}

fn no_events() -> (v: Vec<InputEvent>)
    ensures
        events_view(v@) == Seq::<InputEventView>::empty(),
{
    let v: Vec<InputEvent> = Vec::new();
    assert(events_view(v@) =~= Seq::<InputEventView>::empty());
    v
}

fn one_event(e: InputEvent) -> (v: Vec<InputEvent>)
    ensures
        events_view(v@) == seq![e@],
{
    let ghost g = e@;
    let mut v: Vec<InputEvent> = Vec::new();
    v.push(e);
    assert(events_view(v@) =~= seq![g]);
    v
}

fn two_events(a: InputEvent, b: InputEvent) -> (v: Vec<InputEvent>)
    ensures
        events_view(v@) == seq![a@, b@],
{
    let ghost ga = a@;
    let ghost gb = b@;
    let mut v: Vec<InputEvent> = Vec::new();
    v.push(a);
    v.push(b);
    assert(events_view(v@) =~= seq![ga, gb]);
    v
}

fn key_event(k: Key) -> (v: Vec<InputEvent>)
    ensures
        events_view(v@) == seq![key_ev(k)],
{
    one_event(InputEvent::Key(k))
}

fn issue_event(i: InputIssue) -> (v: Vec<InputEvent>)
    ensures
        events_view(v@) == seq![issue_ev(i)],
{
    one_event(InputEvent::Issue(i))
}

fn push_digit_exec(n: i64, d: u8) -> (r: i64)
    requires
        d < 10,
    ensures
        r == push_digit(n, d as int),
{
    match n.checked_mul(10) {
        Some(m) => match m.checked_add(d as i64) {
            Some(r) => r,
            None => i64::MAX,
        },
        None => i64::MAX,
    }
}

fn function_key_exec(n: i64) -> (r: Option<i32>)
    ensures
        r == function_key_number(n),
{
    if n == 11 {
        Some(1)
    } else if n == 12 {
        Some(2)
    } else if n == 13 {
        Some(3)
    } else if n == 14 {
        Some(4)
    } else if n == 15 {
        Some(5)
    } else if n == 17 {
        Some(6)
    } else if n == 18 {
        Some(7)
    } else if n == 19 {
        Some(8)
    } else if n == 20 {
        Some(9)
    } else if n == 21 {
        Some(10)
    } else if n == 23 {
        Some(11)
    } else if n == 24 {
        Some(12)
    } else {
        None
    }
}

impl InputDecoder {
    /// A decoder for the terminal `id`, between sequences, with no button held.
    pub fn new(id: i32) -> (r: InputDecoder)
        ensures
            r.id == id,
            r@ == decoder_initial(),
    {
        InputDecoder {
            id,
            mode: InputMode::Ground,
            number: 0,
            buf: Vec::new(),
            sgr_mouse: Mouse::new(),
            x10_mouse: Mouse::new(),
        }
    }

    /// Whether the decoder is after a lone ESC, so that the reader should wait
    /// for the next byte only briefly and call `timeout` if none comes.
    pub fn waits_with_timeout(&self) -> (r: bool)
        ensures
            r == (self.mode == InputMode::Escape),
    {
        self.mode == InputMode::Escape
    }

    fn go_ground(&mut self)
        ensures
            final(self).id == old(self).id,
            final(self)@ == ground(old(self)@),
    {
        self.mode = InputMode::Ground;
        self.buf.clear();
    }

    fn feed_ground(&mut self, b: u8) -> (events: Vec<InputEvent>)
        ensures
            final(self).id == old(self).id,
            final(self)@ == ground_byte(old(self)@, b).0,
            events_view(events@) == ground_byte(old(self)@, b).1,
    {
        if b == 0 {
            issue_event(InputIssue::NulKey)
        } else if b == 0x1b {
            self.mode = InputMode::Escape;
            no_events()
        } else if b == 0x20 {
            key_event(Key::Normal(' '))
        } else if b == 0x7f {
            key_event(Key::Backspace)
        } else if b == 10 || b == 13 {
            key_event(Key::Normal('\n'))
        } else if 97 <= b && b <= 122 {
            two_events(InputEvent::Key(Key::Lower(b as char)), InputEvent::Key(Key::Normal(b as char)))
        } else if 65 <= b && b <= 90 {
            two_events(InputEvent::Key(Key::Upper(b as char)), InputEvent::Key(Key::Normal(b as char)))
        } else if 1 <= b && b <= 26 {
            key_event(Key::Ctrl((b - 1 + 97) as char))
        } else if b == 0x1c {
            key_event(Key::FileSeparator)
        } else if b == 0x1d {
            key_event(Key::GroupSeparator)
        } else if b == 0x1e {
            key_event(Key::RecordSeparator)
        } else if b == 0x1f {
            key_event(Key::UnitSeparator)
        } else if 33 <= b && b <= 126 {
            key_event(Key::Normal(b as char))
        } else {
            issue_event(InputIssue::UnhandledByte(b))
        }
    }

    fn feed_escape(&mut self, b: u8) -> (events: Vec<InputEvent>)
        ensures
            final(self).id == old(self).id,
            final(self)@ == escape_byte(old(self)@, b).0,
            events_view(events@) == escape_byte(old(self)@, b).1,
    {
        if 1 <= b && b <= 26 {
            self.go_ground();
            key_event(Key::CtrlAlt((b - 1 + 97) as char))
        } else if 97 <= b && b <= 122 {
            self.go_ground();
            key_event(Key::Alt(b as char))
        } else if 65 <= b && b <= 90 {
            self.go_ground();
            key_event(Key::AltShift((b + 32) as char))
        } else if b == 91 {
            self.mode = InputMode::Csi;
            no_events()
        } else {
            self.go_ground();
            issue_event(InputIssue::UnknownEscape(b))
        }
    }

    fn feed_csi(&mut self, b: u8) -> (events: Vec<InputEvent>)
        ensures
            final(self).id == old(self).id,
            final(self)@ == csi_byte(old(self)@, b).0,
            events_view(events@) == csi_byte(old(self)@, b).1,
    {
        if b == 65 {
            self.go_ground();
            key_event(Key::Up)
        } else if b == 66 {
            self.go_ground();
            key_event(Key::Down)
        } else if b == 67 {
            self.go_ground();
            key_event(Key::Right)
        } else if b == 68 {
            self.go_ground();
            key_event(Key::Left)
        } else if b == 72 {
            self.go_ground();
            key_event(Key::Home)
        } else if b == 70 {
            self.go_ground();
            key_event(Key::End)
        } else if b == 90 {
            self.go_ground();
            key_event(Key::ShiftTab)
        } else if 48 <= b && b <= 57 {
            self.mode = InputMode::CsiNumber;
            self.number = (b - 48) as i64;
            no_events()
        } else if b == 60 {
            self.mode = InputMode::SgrMouse;
            self.buf.clear();
            no_events()
        } else if b == 77 {
            self.mode = InputMode::X10Mouse;
            self.buf.clear();
            no_events()
        } else {
            self.go_ground();
            issue_event(InputIssue::UnknownCsi(b))
        }
    }

    fn finish_tilde(&mut self, n: i64) -> (events: Vec<InputEvent>)
        ensures
            final(self).id == old(self).id,
            final(self)@ == tilde_number(old(self)@, n).0,
            events_view(events@) == tilde_number(old(self)@, n).1,
    {
        if n == 1 || n == 7 {
            self.go_ground();
            key_event(Key::Home)
        } else if n == 2 {
            self.go_ground();
            key_event(Key::Insert)
        } else if n == 3 {
            self.go_ground();
            key_event(Key::Delete)
        } else if n == 4 || n == 8 {
            self.go_ground();
            key_event(Key::End)
        } else if n == 5 {
            self.go_ground();
            key_event(Key::PageUp)
        } else if n == 6 {
            self.go_ground();
            key_event(Key::PageDown)
        } else if 11 <= n && n <= 24 {
            self.go_ground();
            match function_key_exec(n) {
                Some(f) => key_event(Key::Fn(f)),
                None => issue_event(InputIssue::UnknownFunctionNumber(n)),
            }
        } else if n == 200 {
            self.mode = InputMode::Paste;
            self.buf.clear();
            no_events()
        } else {
            self.go_ground();
            issue_event(InputIssue::UnknownTilde(n))
        }
    }

    fn feed_number(&mut self, b: u8) -> (events: Vec<InputEvent>)
        ensures
            final(self).id == old(self).id,
            final(self)@ == number_byte(old(self)@, b).0,
            events_view(events@) == number_byte(old(self)@, b).1,
    {
        if b == 126 {
            let n = self.number;
            self.finish_tilde(n)
        } else if 48 <= b && b <= 57 {
            self.number = push_digit_exec(self.number, b - 48);
            no_events()
        } else {
            self.go_ground();
            issue_event(InputIssue::BadNumber)
        }
    }
}

proof fn lemma_split_len(s: Seq<u8>)
    ensures
        split_semicolons(s).len() >= 1,
    decreases s.len(),
{
    if s.len() > 0 {
        lemma_split_len(s.drop_last());
    }
}

proof fn lemma_split_push(s: Seq<u8>, c: u8)
    ensures
        split_semicolons(s.push(c)) == (if c == 59 {
            split_semicolons(s).push(Seq::empty())
        } else {
            split_semicolons(s).update(
                split_semicolons(s).len() - 1,
                split_semicolons(s).last().push(c),
            )
        }),
{
    assert(s.push(c).drop_last() =~= s);
}

proof fn lemma_digits_push(f: Seq<u8>, c: u8)
    ensures
        digits_value(f.push(c)) == digits_value(f) * 10 + (c - 48),
        all_digits(f.push(c)) == (all_digits(f) && 48 <= c <= 57),
{
    assert(f.push(c).drop_last() =~= f);
    if all_digits(f) && 48 <= c <= 57 {
        assert forall|i: int| 0 <= i < f.push(c).len() implies 48 <= #[trigger] f.push(c)[i] <= 57 by {
            if i < f.len() {
                assert(f.push(c)[i] == f[i]);
            }
        }
    }
    if all_digits(f.push(c)) {
        assert forall|i: int| 0 <= i < f.len() implies 48 <= #[trigger] f[i] <= 57 by {
            assert(f.push(c)[i] == f[i]);
        }
        assert(f.push(c)[f.len() as int] == c);
    }
}

proof fn lemma_digits_nonneg(f: Seq<u8>)
    requires
        all_digits(f),
    ensures
        digits_value(f) >= 0,
    decreases f.len(),
{
    if f.len() > 0 {
        assert(all_digits(f.drop_last()));
        lemma_digits_nonneg(f.drop_last());
        assert(f.drop_last().push(f.last()) =~= f);
        lemma_digits_push(f.drop_last(), f.last());
        assert(f[f.len() - 1] == f.last());
    }
}

/// What is known of the field of SGR parameters being read.
spec fn field_state(f: Seq<u8>, len: usize, digits: bool, big: bool, val: i32) -> bool {
    &&& f.len() == len
    &&& digits == all_digits(f)
    &&& digits ==> (big == (digits_value(f) > i32::MAX))
    &&& (digits && !big) ==> val == digits_value(f)
}

fn field_result(len: usize, digits: bool, big: bool, val: i32, Ghost(f): Ghost<Seq<u8>>) -> (r: Option<i32>)
    requires
        field_state(f, len, digits, big, val),
    ensures
        r == parse_digits_i32(f),
{
    if digits {
        proof {
            lemma_digits_nonneg(f);
        }
    }
    if len > 0 && digits && !big {
        Some(val)
    } else {
        None
    }
}

fn parse_sgr_params(buf: &Vec<u8>) -> (r: Option<(i32, i32, i32)>)
    ensures
        r == sgr_params(buf@),
{
    let mut k: usize = 0;
    let mut v0: Option<i32> = None;
    let mut v1: Option<i32> = None;
    let mut v2: Option<i32> = None;
    let mut cur_len: usize = 0;
    let mut cur_digits = true;
    let mut cur_big = false;
    let mut cur_val: i32 = 0;
    let mut i: usize = 0;
    proof {
        assert(buf@.take(0) =~= Seq::<u8>::empty());
        assert(all_digits(Seq::<u8>::empty()));
    }
    while i < buf.len()
        invariant
            0 <= i <= buf.len(),
            k <= i,
            cur_len <= i,
            split_semicolons(buf@.take(i as int)).len() == k + 1,
            field_state(split_semicolons(buf@.take(i as int))[k as int], cur_len, cur_digits, cur_big, cur_val),
            k > 0 ==> v0 == parse_digits_i32(split_semicolons(buf@.take(i as int))[0]),
            k > 1 ==> v1 == parse_digits_i32(split_semicolons(buf@.take(i as int))[1]),
            k > 2 ==> v2 == parse_digits_i32(split_semicolons(buf@.take(i as int))[2]),
        decreases buf.len() - i,
    {
        let c = buf[i];
        let ghost pre = buf@.take(i as int);
        let ghost fs = split_semicolons(pre);
        let ghost f = fs[k as int];
        proof {
            assert(buf@.take(i + 1) =~= pre.push(c));
            lemma_split_push(pre, c);
        }
        if c == 59 {
            let p = field_result(cur_len, cur_digits, cur_big, cur_val, Ghost(f));
            if k == 0 {
                v0 = p;
            } else if k == 1 {
                v1 = p;
            } else if k == 2 {
                v2 = p;
            }
            k = k + 1;
            cur_len = 0;
            cur_digits = true;
            cur_big = false;
            cur_val = 0;
            proof {
                assert(all_digits(Seq::<u8>::empty()));
            }
        } else {
            proof {
                lemma_digits_push(f, c);
                if cur_digits {
                    lemma_digits_nonneg(f);
                }
            }
            cur_len = cur_len + 1;
            if 48 <= c && c <= 57 {
                if cur_digits && !cur_big {
                    let d = (c - 48) as i32;
                    if cur_val <= (i32::MAX - d) / 10 {
                        cur_val = cur_val * 10 + d;
                    } else {
                        cur_big = true;
                    }
                }
            } else {
                cur_digits = false;
            }
        }
        i = i + 1;
    }
    proof {
        assert(buf@.take(i as int) =~= buf@);
    }
    let p = field_result(cur_len, cur_digits, cur_big, cur_val, Ghost(split_semicolons(buf@)[k as int]));
    if k == 2 {
        match (v0, v1, p) {
            (Some(a), Some(b), Some(c)) => Some((a, b, c)),
            _ => None,
        }
    } else {
        None
    }
}

fn sgr_action_exec(code: i32) -> (r: Option<MouseAction>)
    ensures
        r == sgr_action(code),
{
    if code == 0 {
        Some(MouseAction::LeftDown)
    } else if code == 1 {
        Some(MouseAction::MiddleDown)
    } else if code == 2 {
        Some(MouseAction::RightDown)
    } else if 32 <= code && code <= 35 {
        Some(MouseAction::Move)
    } else if code == 64 {
        Some(MouseAction::ScrollUp)
    } else if code == 65 {
        Some(MouseAction::ScrollDown)
    } else if code == 128 {
        Some(MouseAction::Side1Down)
    } else if code == 129 {
        Some(MouseAction::Side2Down)
    } else if code == 256 {
        Some(MouseAction::Button8Down)
    } else if code == 257 {
        Some(MouseAction::Button9Down)
    } else if code == 258 {
        Some(MouseAction::Button10Down)
    } else if code == 259 {
        Some(MouseAction::Button11Down)
    } else {
        None
    }
}

fn x10_action_exec(code: i32) -> (r: Option<MouseAction>)
    ensures
        r == x10_action(code),
{
    if (0 <= code && code <= 3) || code == 35 {
        Some(MouseAction::Move)
    } else if code == 32 {
        Some(MouseAction::LeftDown)
    } else if code == 33 {
        Some(MouseAction::MiddleDown)
    } else if code == 34 {
        Some(MouseAction::RightDown)
    } else if code == 64 {
        Some(MouseAction::ScrollUp)
    } else if code == 65 {
        Some(MouseAction::ScrollDown)
    } else if code == 128 {
        Some(MouseAction::Side1Down)
    } else if code == 129 {
        Some(MouseAction::Side2Down)
    } else {
        None
    }
}

fn mouse_keys_exec(b: i32) -> (r: (bool, bool, bool))
    ensures
        r == mouse_keys(b),
{
    ((b & 16) != 0, (b & 8) != 0, (b & 4) != 0)
}

/// Releases the held buttons of an X10 mouse, as `x10_releases` says.
fn x10_release_all(m: &mut Mouse, pos: (i32, i32), keys: (bool, bool, bool)) -> (events: Vec<InputEvent>)
    ensures
        *final(m) == x10_releases(*old(m), pos, keys).0,
        events_view(events@) == mouse_events(x10_releases(*old(m), pos, keys).1),
{
    let ghost m0 = *m;
    let ghost r = x10_releases(m0, pos, keys);
    let mut events: Vec<InputEvent> = Vec::new();
    let ghost mut ms: Seq<Mouse> = Seq::empty();
    if m.left {
        let n = m.update(pos, MouseAction::LeftUp, keys);
        events.push(InputEvent::Mouse(n));
        proof { ms = ms.push(n); }
    }
    if m.middle {
        let n = m.update(pos, MouseAction::MiddleUp, keys);
        events.push(InputEvent::Mouse(n));
        proof { ms = ms.push(n); }
    }
    if m.right {
        let n = m.update(pos, MouseAction::RightUp, keys);
        events.push(InputEvent::Mouse(n));
        proof { ms = ms.push(n); }
    }
    if m.side1 {
        let n = m.update(pos, MouseAction::Side1Up, keys);
        events.push(InputEvent::Mouse(n));
        proof { ms = ms.push(n); }
    }
    if m.side2 {
        let n = m.update(pos, MouseAction::Side2Up, keys);
        events.push(InputEvent::Mouse(n));
        proof { ms = ms.push(n); }
    }
    assert(ms =~= r.1);
    assert(events_view(events@) =~= mouse_events(ms));
    events
}

impl InputDecoder {
    fn feed_paste(&mut self, b: u8) -> (events: Vec<InputEvent>)
        ensures
            final(self).id == old(self).id,
            final(self)@ == paste_byte(old(self)@, b).0,
            events_view(events@) == paste_byte(old(self)@, b).1,
    {
        self.buf.push(b);
        let ghost data = self.buf@;
        let len = self.buf.len();
        if len >= 6 && self.buf[len - 6] == 0x1b && self.buf[len - 5] == 91 && self.buf[len - 4] == 50
            && self.buf[len - 3] == 48 && self.buf[len - 2] == 49 && self.buf[len - 1] == 126 {
            assert(data.subrange(len - 6, len as int) =~= paste_end());
            self.buf.truncate(len - 6);
            let text: Option<String> = match core::str::from_utf8(self.buf.as_slice()) {
                Ok(t) => Some(t.to_owned()),
                Err(_) => None,
            };
            proof {
                broadcast use vstd::utf8::encode_utf8_decode_utf8, vstd::utf8::encode_utf8_valid_utf8;
            }
            self.go_ground();
            match text {
                Some(t) => one_event(InputEvent::Paste(t)),
                None => issue_event(InputIssue::InvalidPaste),
            }
        } else {
            proof {
                if ends_with_paste_end(data) {
                    let tail = data.subrange(len - 6, len as int);
                    assert(tail[0] == data[len - 6]);
                    assert(tail[1] == data[len - 5]);
                    assert(tail[2] == data[len - 4]);
                    assert(tail[3] == data[len - 3]);
                    assert(tail[4] == data[len - 2]);
                    assert(tail[5] == data[len - 1]);
                }
            }
            no_events()
        }
    }

    fn finish_sgr(&mut self, up: bool) -> (events: Vec<InputEvent>)
        ensures
            final(self).id == old(self).id,
            final(self)@ == sgr_finish(old(self)@, up).0,
            events_view(events@) == sgr_finish(old(self)@, up).1,
    {
        match parse_sgr_params(&self.buf) {
            None => {
                self.go_ground();
                issue_event(InputIssue::InvalidMouse)
            },
            Some((b, x, y)) => {
                proof {
                    let fields = split_semicolons(old(self)@.buf);
                    lemma_digits_nonneg(fields[1]);
                    lemma_digits_nonneg(fields[2]);
                }
                match sgr_action_exec(b & 483) {
                    None => {
                        self.go_ground();
                        issue_event(InputIssue::UnknownMouseAction(b, up))
                    },
                    Some(a) => {
                        let act = a.to(up);
                        let keys = mouse_keys_exec(b);
                        self.go_ground();
                        let m = self.sgr_mouse.update((x - 1, y - 1), act, keys);
                        one_event(InputEvent::Mouse(m))
                    },
                }
            },
        }
    }

    fn feed_sgr(&mut self, b: u8) -> (events: Vec<InputEvent>)
        ensures
            final(self).id == old(self).id,
            final(self)@ == sgr_byte(old(self)@, b).0,
            events_view(events@) == sgr_byte(old(self)@, b).1,
    {
        if (48 <= b && b <= 57) || b == 59 {
            self.buf.push(b);
            no_events()
        } else if b == 77 {
            self.finish_sgr(false)
        } else if b == 109 {
            self.finish_sgr(true)
        } else {
            self.go_ground();
            issue_event(InputIssue::InvalidMouse)
        }
    }

    fn finish_x10(&mut self, b1: i32, b2: i32, b3: i32) -> (events: Vec<InputEvent>)
        requires
            0 <= b1 < 256,
            0 <= b2 < 256,
            0 <= b3 < 256,
        ensures
            final(self).id == old(self).id,
            final(self)@ == x10_finish(old(self)@, b1, b2, b3).0,
            events_view(events@) == x10_finish(old(self)@, b1, b2, b3).1,
    {
        let x = b2 - 32;
        let y = b3 - 32;
        if x < 0 || y < 0 {
            self.go_ground();
            issue_event(InputIssue::InvalidX10Mouse(b1, x, y))
        } else {
            match x10_action_exec(b1 & 227) {
                None => {
                    self.go_ground();
                    issue_event(InputIssue::UnknownX10Action(b1))
                },
                Some(a) => {
                    let pos = (x - 1, y - 1);
                    let keys = mouse_keys_exec(b1);
                    self.go_ground();
                    if (b1 & 3) == 3 {
                        x10_release_all(&mut self.x10_mouse, pos, keys)
                    } else {
                        let m = self.x10_mouse.update(pos, a, keys);
                        one_event(InputEvent::Mouse(m))
                    }
                },
            }
        }
    }

    fn feed_x10(&mut self, b: u8) -> (events: Vec<InputEvent>)
        ensures
            final(self).id == old(self).id,
            final(self)@ == x10_byte(old(self)@, b).0,
            events_view(events@) == x10_byte(old(self)@, b).1,
    {
        let ghost s0 = self@;
        self.buf.push(b);
        if self.buf.len() >= 3 {
            let b1 = self.buf[0] as i32;
            let b2 = self.buf[1] as i32;
            let b3 = self.buf[2] as i32;
            assert(ground(self@) == ground(s0));
            self.finish_x10(b1, b2, b3)
        } else {
            no_events()
        }
    }

    /// Takes one byte of input: the state moves on as `decode_byte` says and
    /// the events it completes come back in order.
    pub fn feed(&mut self, b: u8) -> (events: Vec<InputEvent>)
        ensures
            final(self).id == old(self).id,
            final(self)@ == decode_byte(old(self)@, b).0,
            events_view(events@) == decode_byte(old(self)@, b).1,
    {
        match self.mode {
            InputMode::Ground => self.feed_ground(b),
            InputMode::Escape => self.feed_escape(b),
            InputMode::Csi => self.feed_csi(b),
            InputMode::CsiNumber => self.feed_number(b),
            InputMode::Paste => self.feed_paste(b),
            InputMode::SgrMouse => self.feed_sgr(b),
            InputMode::X10Mouse => self.feed_x10(b),
        }
    }

    /// No byte came in time after a lone ESC: the user pressed Escape.
    pub fn timeout(&mut self) -> (events: Vec<InputEvent>)
        ensures
            final(self).id == old(self).id,
            final(self)@ == decode_timeout(old(self)@).0,
            events_view(events@) == decode_timeout(old(self)@).1,
    {
        if self.mode == InputMode::Escape {
            self.go_ground();
            key_event(Key::Escape)
        } else {
            no_events()
        }
    }

    /// Takes a run of bytes, as `feed` on each in turn.
    pub fn feed_all(&mut self, bytes: &[u8]) -> (events: Vec<InputEvent>)
        ensures
            final(self).id == old(self).id,
            final(self)@ == decode_bytes(old(self)@, bytes@).0,
            events_view(events@) == decode_bytes(old(self)@, bytes@).1,
    {
        let mut events: Vec<InputEvent> = Vec::new();
        let mut i: usize = 0;
        proof {
            assert(bytes@.take(0) =~= Seq::<u8>::empty());
            assert(events_view(events@) =~= Seq::<InputEventView>::empty());
        }
        while i < bytes.len()
            invariant
                0 <= i <= bytes.len(),
                self.id == old(self).id,
                self@ == decode_bytes(old(self)@, bytes@.take(i as int)).0,
                events_view(events@) == decode_bytes(old(self)@, bytes@.take(i as int)).1,
            decreases bytes.len() - i,
        {
            let ghost before = events@;
            let mut more = self.feed(bytes[i]);
            let ghost added = more@;
            events.append(&mut more);
            proof {
                assert(bytes@.take(i + 1).drop_last() =~= bytes@.take(i as int));
                assert(bytes@.take(i + 1).last() == bytes@[i as int]);
                assert(events@ =~= before + added);
                assert(events_view(before + added) =~= events_view(before) + events_view(added));
            }
            i = i + 1;
        }
        proof {
            assert(bytes@.take(i as int) =~= bytes@);
        }
        events
    }
}

// ===== laws of the decoder =====

/// How input is split into reads does not matter: decoding `a` and then `b`
/// leaves the decoder as decoding `a + b` does, with the same events in the
/// same order.
pub proof fn lemma_decode_concat(s: DecoderState, a: Seq<u8>, b: Seq<u8>)
    ensures
        decode_bytes(s, a + b).0 == decode_bytes(decode_bytes(s, a).0, b).0,
        decode_bytes(s, a + b).1 == decode_bytes(s, a).1 + decode_bytes(decode_bytes(s, a).0, b).1,
    decreases b.len(),
{
    if b.len() == 0 {
        assert(a + b =~= a);
        assert(decode_bytes(s, a).1 + Seq::<InputEventView>::empty() =~= decode_bytes(s, a).1);
    } else {
        lemma_decode_concat(s, a, b.drop_last());
        assert((a + b).drop_last() =~= a + b.drop_last());
        assert((a + b).last() == b.last());
        let mid = decode_bytes(s, a);
        let rest = decode_bytes(mid.0, b.drop_last());
        let last = decode_byte(rest.0, b.last());
        assert(mid.1 + rest.1 + last.1 =~= mid.1 + (rest.1 + last.1));
    }
}

/// The start marker of bracketed paste: ESC [ 2 0 0 ~.
pub open spec fn paste_start() -> Seq<u8> {
    seq![0x1bu8, 91u8, 50u8, 48u8, 48u8, 126u8]
}

/// The end marker does not occur in `d` before its very end.
pub open spec fn ends_only_at_end(d: Seq<u8>) -> bool {
    forall|j: int| 1 <= j < d.len() ==> !ends_with_paste_end(#[trigger] d.take(j))
}

proof fn lemma_paste_accumulate(s: DecoderState, d: Seq<u8>, k: int)
    requires
        s.mode == InputMode::Paste,
        s.buf == Seq::<u8>::empty(),
        0 <= k < d.len(),
        ends_only_at_end(d),
    ensures
        decode_bytes(s, d.take(k)).0 == (DecoderState { buf: d.take(k), ..s }),
        decode_bytes(s, d.take(k)).1 == Seq::<InputEventView>::empty(),
    decreases k,
{
    if k == 0 {
        assert(d.take(0) =~= Seq::<u8>::empty());
    } else {
        lemma_paste_accumulate(s, d, k - 1);
        assert(d.take(k).drop_last() =~= d.take(k - 1));
        assert(d.take(k - 1).push(d[k - 1]) =~= d.take(k));
        assert(!ends_with_paste_end(d.take(k)));
        assert(Seq::<InputEventView>::empty() + Seq::<InputEventView>::empty() =~= Seq::<InputEventView>::empty());
    }
}

proof fn lemma_paste_start(s: DecoderState)
    requires
        s.mode == InputMode::Ground,
    ensures
        decode_bytes(s, paste_start()).0 == (DecoderState { mode: InputMode::Paste, number: 200, buf: Seq::empty(), ..s }),
        decode_bytes(s, paste_start()).1 == Seq::<InputEventView>::empty(),
{
    let start = paste_start();
    let e = Seq::<InputEventView>::empty();
    assert(e + e =~= e);
    let t0 = start.take(0);
    let t1 = start.take(1);
    let t2 = start.take(2);
    let t3 = start.take(3);
    let t4 = start.take(4);
    let t5 = start.take(5);
    assert(t0 =~= Seq::<u8>::empty());
    assert(decode_bytes(s, t0) == (s, e));
    assert(t1.drop_last() =~= t0 && t1.last() == 0x1bu8);
    let s1 = DecoderState { mode: InputMode::Escape, ..s };
    assert(decode_bytes(s, t1) == (s1, e));
    assert(t2.drop_last() =~= t1 && t2.last() == 91u8);
    let s2 = DecoderState { mode: InputMode::Csi, ..s };
    assert(decode_bytes(s, t2) == (s2, e));
    assert(t3.drop_last() =~= t2 && t3.last() == 50u8);
    let s3 = DecoderState { mode: InputMode::CsiNumber, number: 2, ..s };
    assert(decode_bytes(s, t3) == (s3, e));
    assert(t4.drop_last() =~= t3 && t4.last() == 48u8);
    let s4 = DecoderState { mode: InputMode::CsiNumber, number: 20, ..s };
    assert(decode_bytes(s, t4) == (s4, e));
    assert(t5.drop_last() =~= t4 && t5.last() == 48u8);
    let s5 = DecoderState { mode: InputMode::CsiNumber, number: 200, ..s };
    assert(decode_bytes(s, t5) == (s5, e));
    assert(start.drop_last() =~= t5 && start.last() == 126u8);
}

/// What bracketed paste gives back: text whose encoding, followed by the end
/// marker, holds the end marker only at its end, arrives between the start
/// and end markers as one paste event of exactly that text, and the decoder
/// is back between sequences with its mouse state untouched (the number
/// field keeps the 200 of the start marker).
pub proof fn lemma_paste_roundtrip(s: DecoderState, text: Seq<char>)
    requires
        s.mode == InputMode::Ground,
        ends_only_at_end(encode_utf8(text) + paste_end()),
    ensures
        decode_bytes(s, paste_start() + encode_utf8(text) + paste_end()).0 == (DecoderState {
            number: 200,
            ..ground(s)
        }),
        decode_bytes(s, paste_start() + encode_utf8(text) + paste_end()).1 == seq![
            InputEventView::Paste(text),
        ],
{
    broadcast use vstd::utf8::encode_utf8_decode_utf8, vstd::utf8::encode_utf8_valid_utf8;

    let d = encode_utf8(text) + paste_end();
    let start = paste_start();
    assert(start + encode_utf8(text) + paste_end() =~= start + d);
    lemma_decode_concat(s, start, d);
    lemma_paste_start(s);
    let s1 = DecoderState { mode: InputMode::Paste, number: 200, buf: Seq::empty(), ..s };
    let n = d.len() - 1;
    lemma_paste_accumulate(s1, d, n);
    assert(d.drop_last() =~= d.take(n));
    let data = d.take(n).push(d.last());
    assert(data =~= d);
    assert(data.subrange(data.len() - 6, data.len() as int) =~= paste_end());
    assert(data.subrange(0, data.len() - 6) =~= encode_utf8(text));
    let e = Seq::<InputEventView>::empty();
    assert(e + seq![InputEventView::Paste(text)] =~= seq![InputEventView::Paste(text)]);
    assert(e + (e + seq![InputEventView::Paste(text)]) =~= seq![InputEventView::Paste(text)]);
}

} // verus!
