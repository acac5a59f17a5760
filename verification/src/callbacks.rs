//! The tables of input handlers: the handlers registered for each key slot,
//! for mouse events and for pastes. An event goes to the handlers newest
//! first, until one takes it; keys that share a slot share their handlers.
use vstd::prelude::*;
use crate::stdin::{Key, key_valid, key_code};

verus! {

/// The number of key slots.
pub const KEY_SLOTS: usize = 512;

/// A key that has a slot in the table.
pub open spec fn key_registrable(k: Key) -> bool {
    key_valid(k) && key_code(k) < KEY_SLOTS
}

/// The handlers registered for slot `code`, newest first.
pub open spec fn newest_first<H>(e: Seq<(u16, H)>, code: int) -> Seq<H>
    decreases e.len(),
{
    if e.len() == 0 {
        seq![]
    } else if e.last().0 == code {
        seq![e.last().1] + newest_first(e.drop_last(), code)
    } else {
        newest_first(e.drop_last(), code)
    }
}

/// Registrations of handlers for keys, as slot entries.
pub open spec fn slot_entries<H>(list: Seq<(Key, H)>) -> Seq<(u16, H)> {
    list.map_values(|p: (Key, H)| (key_code(p.0) as u16, p.1))
}

/// The handlers of one kind of event, in the order they were registered.
pub struct Callbacks<H> {
    list: Vec<H>,
}

impl<H: Copy> Callbacks<H> {
    pub closed spec fn registered(&self) -> Seq<H> {
        self.list@
    }

    pub fn new() -> (r: Callbacks<H>)
        ensures
            r.registered() =~= Seq::<H>::empty(),
    {
        Callbacks { list: Vec::new() }
    }

    /// Registers a handler; it is tried before the ones registered so far.
    pub fn push(&mut self, h: H)
        ensures
            final(self).registered() == old(self).registered().push(h),
    {
        self.list.push(h);
    }

    /// The handlers in the order they are tried: the newest first.
    pub fn call_order(&self) -> (r: Vec<H>)
        ensures
            r@ == self.registered().reverse(),
    {
        let mut r: Vec<H> = Vec::new();
        let mut i: usize = 0;
        while i < self.list.len()
            invariant
                i <= self.list@.len(),
                r@ == self.list@.take(i as int).reverse(),
            decreases self.list@.len() - i,
        {
            let h = self.list[i];
            r.insert(0, h);
            proof {
                let t = self.list@.take(i + 1);
                assert(t.reverse() =~= seq![h] + self.list@.take(i as int).reverse());
            }
            i = i + 1;
        }
        assert(self.list@.take(self.list@.len() as int) =~= self.list@);
        r
    }
}

/// The handlers of keys: every registration with the slot of its key, in
/// the order they were made.
pub struct KeypressCallbacks<H> {
    table: Vec<(u16, H)>,
}

impl<H: Copy> KeypressCallbacks<H> {
    pub closed spec fn registered(&self) -> Seq<(u16, H)> {
        self.table@
    }

    pub fn new() -> (r: KeypressCallbacks<H>)
        ensures
            r.registered() =~= Seq::<(u16, H)>::empty(),
    {
        KeypressCallbacks { table: Vec::new() }
    }

    /// Registers a handler for the slot of `k`.
    pub fn register(&mut self, k: Key, h: H)
        requires
            key_registrable(k),
        ensures
            final(self).registered() == old(self).registered().push((key_code(k) as u16, h)),
    {
        let code = k.to_u16();
        self.table.push((code, h));
    }

    /// Registers the handlers of a list, in its order.
    pub fn register_all(&mut self, list: &Vec<(Key, H)>)
        requires
            forall|i: int| 0 <= i < list@.len() ==> key_registrable(#[trigger] list@[i].0),
        ensures
            final(self).registered() == old(self).registered() + slot_entries(list@),
    {
        let mut i: usize = 0;
        while i < list.len()
            invariant
                i <= list@.len(),
                forall|j: int| 0 <= j < list@.len() ==> key_registrable(#[trigger] list@[j].0),
                self.table@ == old(self).table@ + slot_entries(list@.take(i as int)),
            decreases list@.len() - i,
        {
            let (k, h) = list[i];
            assert(key_registrable(list@[i as int].0));
            self.register(k, h);
            proof {
                assert(slot_entries(list@.take(i + 1)) =~= slot_entries(list@.take(i as int)).push(
                    (key_code(k) as u16, h),
                ));
            }
            i = i + 1;
        }
        assert(list@.take(list@.len() as int) =~= list@);
    }

    /// The handlers of the slot of `k`, in the order they are tried: the
    /// newest first.
    pub fn call_order(&self, k: Key) -> (r: Vec<H>)
        requires
            key_registrable(k),
        ensures
            r@ == newest_first(self.registered(), key_code(k)),
    {
        let code = k.to_u16();
        let mut r: Vec<H> = Vec::new();
        let mut i: usize = 0;
        while i < self.table.len()
            invariant
                i <= self.table@.len(),
                code == key_code(k),
                r@ == newest_first(self.table@.take(i as int), code as int),
            decreases self.table@.len() - i,
        {
            let (c, h) = self.table[i];
            proof {
                let t = self.table@.take(i + 1);
                assert(t.drop_last() =~= self.table@.take(i as int));
                assert(t.last() == (c, h));
            }
            if c == code {
                r.insert(0, h);
                assert(r@ =~= seq![h] + newest_first(self.table@.take(i as int), code as int));
            }
            i = i + 1;
        }
        assert(self.table@.take(self.table@.len() as int) =~= self.table@);
        r
    }
}

/// A handler registered later for a key is tried first; registering for
/// another slot leaves a key's handlers as they were.
pub proof fn lemma_newest_tried_first<H>(e: Seq<(u16, H)>, slot: u16, h: H, code: int)
    ensures
        newest_first(e.push((slot, h)), code) == (if slot == code {
            seq![h] + newest_first(e, code)
        } else {
            newest_first(e, code)
        }),
{
    assert(e.push((slot, h)).drop_last() =~= e);
}

/// Who takes a key.
#[derive(PartialEq, Eq, Structural, Clone, Copy, Debug)]
pub enum KeyHandler {
    /// The player: pause, skip, seek, the panels' toggles, the color mode.
    Player,
    /// The playlist overlay.
    Playlist,
    /// The help, quit confirmation, overlay text and chroma key.
    Panels,
    /// The file selector.
    FileSelect,
    /// The command line.
    CommandLine,
}

/// Who takes a mouse event.
#[derive(PartialEq, Eq, Structural, Clone, Copy, Debug)]
pub enum MouseHandler {
    /// Clicking and dragging on the progress bar seeks.
    ProgressBar,
    /// The wheel sets the volume.
    Volume,
}

/// Who takes a paste.
#[derive(PartialEq, Eq, Structural, Clone, Copy, Debug)]
pub enum PasteHandler {
    /// The command line, while it is open.
    CommandLine,
}

/// The same handler for each key of a list.
pub open spec fn for_keys<H>(keys: Seq<Key>, h: H) -> Seq<(Key, H)> {
    keys.map_values(|k: Key| (k, h))
}

/// The player's own keys: Escape, space, `q`, `n`, `l`, `m`, `f`, `w`, `c`
/// and `C`, and the arrows.
pub open spec fn player_keys() -> Seq<Key> {
    seq![
        Key::Escape,
        Key::Normal(' '),
        Key::Normal('q'),
        Key::Normal('n'),
        Key::Normal('l'),
        Key::Normal('m'),
        Key::Normal('f'),
        Key::Normal('w'),
        Key::Lower('c'),
        Key::Upper('c'),
        Key::Up,
        Key::Down,
        Key::Left,
        Key::Right,
    ]
}

/// Registers the player's own keys.
pub fn register_player_keys(keys: &mut KeypressCallbacks<KeyHandler>)
    ensures
        final(keys).registered() == old(keys).registered() + slot_entries(for_keys(player_keys(), KeyHandler::Player)),
{
    let list = vec![
        (Key::Escape, KeyHandler::Player),
        (Key::Normal(' '), KeyHandler::Player),
        (Key::Normal('q'), KeyHandler::Player),
        (Key::Normal('n'), KeyHandler::Player),
        (Key::Normal('l'), KeyHandler::Player),
        (Key::Normal('m'), KeyHandler::Player),
        (Key::Normal('f'), KeyHandler::Player),
        (Key::Normal('w'), KeyHandler::Player),
        (Key::Lower('c'), KeyHandler::Player),
        (Key::Upper('c'), KeyHandler::Player),
        (Key::Up, KeyHandler::Player),
        (Key::Down, KeyHandler::Player),
        (Key::Left, KeyHandler::Player),
        (Key::Right, KeyHandler::Player),
    ];
    assert(list@ =~= for_keys(player_keys(), KeyHandler::Player));
    keys.register_all(&list);
}

/// Registers every handler of the player, in the order that decides who is
/// asked first: the player's keys, the playlist's, the panels' and the file
/// selector's, then the command line's (asked first of all).
pub fn register_handlers(
    keys: &mut KeypressCallbacks<KeyHandler>,
    mice: &mut Callbacks<MouseHandler>,
    pastes: &mut Callbacks<PasteHandler>,
)
    ensures
        final(keys).registered() == old(keys).registered() + slot_entries(for_keys(player_keys(), KeyHandler::Player))
            + slot_entries(for_keys(crate::playlist::playlist_keys(), KeyHandler::Playlist))
            + slot_entries(for_keys(crate::ui::panel_keys(), KeyHandler::Panels))
            + slot_entries(for_keys(crate::ui::file_select_keys(), KeyHandler::FileSelect))
            + slot_entries(for_keys(crate::command::command_keys(), KeyHandler::CommandLine)),
        final(mice).registered() == old(mice).registered().push(MouseHandler::ProgressBar).push(MouseHandler::Volume),
        final(pastes).registered() == old(pastes).registered().push(PasteHandler::CommandLine),
{
    register_player_keys(keys);
    crate::playlist::register_keypress_callbacks(keys);
    crate::ui::register_input_callbacks(keys, mice);
    crate::command::register_input_callbacks(keys, pastes);
}

/// Every registration of the player, as `register_handlers` makes them from
/// empty tables.
pub open spec fn all_key_registrations() -> Seq<(u16, KeyHandler)> {
    slot_entries(for_keys(player_keys(), KeyHandler::Player)) + slot_entries(
        for_keys(crate::playlist::playlist_keys(), KeyHandler::Playlist),
    ) + slot_entries(for_keys(crate::ui::panel_keys(), KeyHandler::Panels)) + slot_entries(
        for_keys(crate::ui::file_select_keys(), KeyHandler::FileSelect),
    ) + slot_entries(for_keys(crate::command::command_keys(), KeyHandler::CommandLine))
}

/// Who is asked earlier: the command line, the file selector, the panels,
/// the playlist, then the player.
pub open spec fn priority(h: KeyHandler) -> int {
    match h {
        KeyHandler::CommandLine => 0,
        KeyHandler::FileSelect => 1,
        KeyHandler::Panels => 2,
        KeyHandler::Playlist => 3,
        KeyHandler::Player => 4,
    }
}

proof fn lemma_newest_first_concat<H>(a: Seq<(u16, H)>, b: Seq<(u16, H)>, code: int)
    ensures
        newest_first(a + b, code) == newest_first(b, code) + newest_first(a, code),
    decreases b.len(),
{
    if b.len() == 0 {
        assert(a + b =~= a);
        assert(Seq::<H>::empty() + newest_first(a, code) =~= newest_first(a, code));
    } else {
        lemma_newest_first_concat(a, b.drop_last(), code);
        assert((a + b).drop_last() =~= a + b.drop_last());
        assert((a + b).last() == b.last());
        if b.last().0 == code {
            assert(seq![b.last().1] + (newest_first(b.drop_last(), code) + newest_first(a, code)) =~= (seq![b.last().1]
                + newest_first(b.drop_last(), code)) + newest_first(a, code));
        }
    }
}

proof fn lemma_newest_first_one_handler(keys: Seq<Key>, h: KeyHandler, code: int)
    ensures
        forall|i: int|
            0 <= i < newest_first(slot_entries(for_keys(keys, h)), code).len() ==> #[trigger] newest_first(
                slot_entries(for_keys(keys, h)),
                code,
            )[i] == h,
    decreases keys.len(),
{
    if keys.len() > 0 {
        let e = slot_entries(for_keys(keys, h));
        lemma_newest_first_one_handler(keys.drop_last(), h, code);
        assert(e.drop_last() =~= slot_entries(for_keys(keys.drop_last(), h)));
        assert(e.last().1 == h);
    }
}

/// For every key, the handlers are asked in order of priority: the command
/// line before the file selector, before the panels, before the playlist,
/// before the player.
pub proof fn lemma_handler_priority(k: Key)
    ensures
        ({
            let order = newest_first(all_key_registrations(), key_code(k));
            forall|i: int, j: int| 0 <= i < j < order.len() ==> priority(#[trigger] order[i]) <= priority(#[trigger] order[j])
        }),
{
    let code = key_code(k);
    let p = slot_entries(for_keys(player_keys(), KeyHandler::Player));
    let l = slot_entries(for_keys(crate::playlist::playlist_keys(), KeyHandler::Playlist));
    let u = slot_entries(for_keys(crate::ui::panel_keys(), KeyHandler::Panels));
    let f = slot_entries(for_keys(crate::ui::file_select_keys(), KeyHandler::FileSelect));
    let c = slot_entries(for_keys(crate::command::command_keys(), KeyHandler::CommandLine));
    lemma_newest_first_concat(p + l + u + f, c, code);
    lemma_newest_first_concat(p + l + u, f, code);
    lemma_newest_first_concat(p + l, u, code);
    lemma_newest_first_concat(p, l, code);
    lemma_newest_first_one_handler(player_keys(), KeyHandler::Player, code);
    lemma_newest_first_one_handler(crate::playlist::playlist_keys(), KeyHandler::Playlist, code);
    lemma_newest_first_one_handler(crate::ui::panel_keys(), KeyHandler::Panels, code);
    lemma_newest_first_one_handler(crate::ui::file_select_keys(), KeyHandler::FileSelect, code);
    lemma_newest_first_one_handler(crate::command::command_keys(), KeyHandler::CommandLine, code);
    let (nc, nf, nu, nl, np) = (
        newest_first(c, code),
        newest_first(f, code),
        newest_first(u, code),
        newest_first(l, code),
        newest_first(p, code),
    );
    let order = newest_first(all_key_registrations(), code);
    assert(order =~= nc + nf + nu + nl + np);
    assert forall|i: int| 0 <= i < order.len() implies #[trigger] priority(order[i]) == (if i < nc.len() {
        0int
    } else if i < nc.len() + nf.len() {
        1int
    } else if i < nc.len() + nf.len() + nu.len() {
        2int
    } else if i < nc.len() + nf.len() + nu.len() + nl.len() {
        3int
    } else {
        4int
    }) by {
        if i < nc.len() {
            assert(order[i] == nc[i]);
        } else if i < nc.len() + nf.len() {
            assert(order[i] == nf[i - nc.len()]);
        } else if i < nc.len() + nf.len() + nu.len() {
            assert(order[i] == nu[i - nc.len() - nf.len()]);
        } else if i < nc.len() + nf.len() + nu.len() + nl.len() {
            assert(order[i] == nl[i - nc.len() - nf.len() - nu.len()]);
        } else {
            assert(order[i] == np[i - nc.len() - nf.len() - nu.len() - nl.len()]);
        }
    }
}

// ===== what the handlers do with a key =====

/// Two keys share a slot, and so the handlers of either.
pub open spec fn same_slot(k: Key, other: Key) -> bool {
    key_code(k) == key_code(other)
}

fn slot_is(code: u16, other: Key) -> (r: bool)
    requires
        key_valid(other),
    ensures
        r == (code == key_code(other)),
{
    code == other.to_u16()
}

/// What the player does with a key.
#[derive(PartialEq, Eq, Structural, Clone, Copy, Debug)]
pub enum PlayerAction {
    /// Escape: a reminder that `q` quits.
    QuitHint,
    /// Space: pause or resume.
    TogglePause,
    /// `q`: ask to confirm quitting (the local terminal only).
    AskQuit,
    /// `n`: skip to the next item.
    Next,
    /// `l`: show or hide the playlist.
    TogglePlaylist,
    /// `m`: taken, nothing done.
    Nothing,
    /// `f`: show or hide the file selector.
    ToggleFiles,
    /// `w`: show or hide the audio visualizer.
    ToggleVisualizer,
    /// `c`: the next color mode.
    NextColorMode,
    /// `C`: the previous color mode.
    PrevColorMode,
    /// Up: seek back by the large step.
    SeekBackLarge,
    /// Down: seek forward by the large step.
    SeekForwardLarge,
    /// Left: seek back by the small step.
    SeekBackSmall,
    /// Right: seek forward by the small step.
    SeekForwardSmall,
}

/// The player's action for a key of its slots.
pub open spec fn player_action_spec(k: Key) -> Option<PlayerAction> {
    if same_slot(k, Key::Escape) {
        Some(PlayerAction::QuitHint)
    } else if same_slot(k, Key::Normal(' ')) {
        Some(PlayerAction::TogglePause)
    } else if same_slot(k, Key::Normal('q')) {
        Some(PlayerAction::AskQuit)
    } else if same_slot(k, Key::Normal('n')) {
        Some(PlayerAction::Next)
    } else if same_slot(k, Key::Normal('l')) {
        Some(PlayerAction::TogglePlaylist)
    } else if same_slot(k, Key::Normal('m')) {
        Some(PlayerAction::Nothing)
    } else if same_slot(k, Key::Normal('f')) {
        Some(PlayerAction::ToggleFiles)
    } else if same_slot(k, Key::Normal('w')) {
        Some(PlayerAction::ToggleVisualizer)
    } else if same_slot(k, Key::Lower('c')) {
        Some(PlayerAction::NextColorMode)
    } else if same_slot(k, Key::Upper('c')) {
        Some(PlayerAction::PrevColorMode)
    } else if same_slot(k, Key::Up) {
        Some(PlayerAction::SeekBackLarge)
    } else if same_slot(k, Key::Down) {
        Some(PlayerAction::SeekForwardLarge)
    } else if same_slot(k, Key::Left) {
        Some(PlayerAction::SeekBackSmall)
    } else if same_slot(k, Key::Right) {
        Some(PlayerAction::SeekForwardSmall)
    } else {
        None
    }
}

/// The player's action for a key; every key of the player's slots has one.
pub fn player_action(k: Key) -> (r: Option<PlayerAction>)
    requires
        key_valid(k),
    ensures
        r == player_action_spec(k),
        (exists|i: int| 0 <= i < player_keys().len() && same_slot(k, #[trigger] player_keys()[i])) ==> r is Some,
{
    let c = k.to_u16();
    if slot_is(c, Key::Escape) {
        Some(PlayerAction::QuitHint)
    } else if slot_is(c, Key::Normal(' ')) {
        Some(PlayerAction::TogglePause)
    } else if slot_is(c, Key::Normal('q')) {
        Some(PlayerAction::AskQuit)
    } else if slot_is(c, Key::Normal('n')) {
        Some(PlayerAction::Next)
    } else if slot_is(c, Key::Normal('l')) {
        Some(PlayerAction::TogglePlaylist)
    } else if slot_is(c, Key::Normal('m')) {
        Some(PlayerAction::Nothing)
    } else if slot_is(c, Key::Normal('f')) {
        Some(PlayerAction::ToggleFiles)
    } else if slot_is(c, Key::Normal('w')) {
        Some(PlayerAction::ToggleVisualizer)
    } else if slot_is(c, Key::Lower('c')) {
        Some(PlayerAction::NextColorMode)
    } else if slot_is(c, Key::Upper('c')) {
        Some(PlayerAction::PrevColorMode)
    } else if slot_is(c, Key::Up) {
        Some(PlayerAction::SeekBackLarge)
    } else if slot_is(c, Key::Down) {
        Some(PlayerAction::SeekForwardLarge)
    } else if slot_is(c, Key::Left) {
        Some(PlayerAction::SeekBackSmall)
    } else if slot_is(c, Key::Right) {
        Some(PlayerAction::SeekForwardSmall)
    } else {
        None
    }
}

/// What the file selector does with a key, while it is open.
#[derive(PartialEq, Eq, Structural, Clone, Copy, Debug)]
pub enum FileKey {
    /// `q`: close the selector.
    Close,
    /// Space or Enter: open the selected entry.
    Select,
    /// `w` or Up.
    Up,
    /// `s` or Down.
    Down,
    /// `a` or Left: the parent directory.
    Parent,
    /// `d` or Right: into the selected directory.
    Into,
}

/// The file selector's action for a key of its slots.
pub open spec fn file_key_spec(k: Key) -> Option<FileKey> {
    if same_slot(k, Key::Normal('q')) {
        Some(FileKey::Close)
    } else if same_slot(k, Key::Normal(' ')) || same_slot(k, Key::Enter) || same_slot(k, Key::Normal('\n')) {
        Some(FileKey::Select)
    } else if same_slot(k, Key::Normal('w')) || same_slot(k, Key::Up) {
        Some(FileKey::Up)
    } else if same_slot(k, Key::Normal('s')) || same_slot(k, Key::Down) {
        Some(FileKey::Down)
    } else if same_slot(k, Key::Normal('a')) || same_slot(k, Key::Left) {
        Some(FileKey::Parent)
    } else if same_slot(k, Key::Normal('d')) || same_slot(k, Key::Right) {
        Some(FileKey::Into)
    } else {
        None
    }
}

/// The file selector's action for a key.
pub fn file_key(k: Key) -> (r: Option<FileKey>)
    requires
        key_valid(k),
    ensures
        r == file_key_spec(k),
{
    let c = k.to_u16();
    if slot_is(c, Key::Normal('q')) {
        Some(FileKey::Close)
    } else if slot_is(c, Key::Normal(' ')) || slot_is(c, Key::Enter) || slot_is(c, Key::Normal('\n')) {
        Some(FileKey::Select)
    } else if slot_is(c, Key::Normal('w')) || slot_is(c, Key::Up) {
        Some(FileKey::Up)
    } else if slot_is(c, Key::Normal('s')) || slot_is(c, Key::Down) {
        Some(FileKey::Down)
    } else if slot_is(c, Key::Normal('a')) || slot_is(c, Key::Left) {
        Some(FileKey::Parent)
    } else if slot_is(c, Key::Normal('d')) || slot_is(c, Key::Right) {
        Some(FileKey::Into)
    } else {
        None
    }
}

/// What the panels do with a key.
#[derive(PartialEq, Eq, Structural, Clone, Copy, Debug)]
pub enum PanelKey {
    /// `h`: show or hide the help.
    Help,
    /// `q`: quit, while quitting waits for confirmation.
    ConfirmQuit,
    /// `c`: cancel quitting, while it waits for confirmation.
    CancelQuit,
    /// `x`: the next chroma key.
    NextChroma,
    /// `X`: the previous chroma key.
    PrevChroma,
    /// `o`: show or hide the statistics.
    OverlayText,
    /// `t`: a test message of each level.
    TestMessages,
}

/// The panels' action for a key of their slots.
pub open spec fn panel_key_spec(k: Key) -> Option<PanelKey> {
    if same_slot(k, Key::Normal('h')) {
        Some(PanelKey::Help)
    } else if same_slot(k, Key::Normal('q')) {
        Some(PanelKey::ConfirmQuit)
    } else if same_slot(k, Key::Normal('c')) {
        Some(PanelKey::CancelQuit)
    } else if same_slot(k, Key::Lower('x')) {
        Some(PanelKey::NextChroma)
    } else if same_slot(k, Key::Upper('x')) {
        Some(PanelKey::PrevChroma)
    } else if same_slot(k, Key::Normal('o')) {
        Some(PanelKey::OverlayText)
    } else if same_slot(k, Key::Normal('t')) {
        Some(PanelKey::TestMessages)
    } else {
        None
    }
}

/// The panels' action for a key.
pub fn panel_key(k: Key) -> (r: Option<PanelKey>)
    requires
        key_valid(k),
    ensures
        r == panel_key_spec(k),
{
    let c = k.to_u16();
    if slot_is(c, Key::Normal('h')) {
        Some(PanelKey::Help)
    } else if slot_is(c, Key::Normal('q')) {
        Some(PanelKey::ConfirmQuit)
    } else if slot_is(c, Key::Normal('c')) {
        Some(PanelKey::CancelQuit)
    } else if slot_is(c, Key::Lower('x')) {
        Some(PanelKey::NextChroma)
    } else if slot_is(c, Key::Upper('x')) {
        Some(PanelKey::PrevChroma)
    } else if slot_is(c, Key::Normal('o')) {
        Some(PanelKey::OverlayText)
    } else if slot_is(c, Key::Normal('t')) {
        Some(PanelKey::TestMessages)
    } else {
        None
    }
}

// ===== dispatching =====

/// Handler `i` of `order` takes the event and every one before it leaves
/// it: the dispatch stops at `i`.
pub open spec fn first_taker<H, F: Fn(H) -> bool>(order: Seq<H>, f: F, i: int) -> bool {
    &&& 0 <= i < order.len()
    &&& call_ensures(f, (order[i],), true)
    &&& forall|j: int| 0 <= j < i ==> call_ensures(f, (#[trigger] order[j],), false)
}

/// Offers an event to the handlers of `order`, in order, until one takes it
/// (`run` answers `true`); none after it is asked. When the result is `true`,
/// a handler took it after every one before it left it; when it is `false`,
/// every handler was asked and left it.
pub fn call_in_order<H: Copy, F: Fn(H) -> bool>(order: &Vec<H>, run: F) -> (r: bool)
    requires
        forall|h: H| run.requires((h,)),
    ensures
        r ==> exists|i: int| first_taker(order@, run, i),
        !r ==> forall|j: int| 0 <= j < order@.len() ==> call_ensures(run, (#[trigger] order@[j],), false),
{
    let mut i: usize = 0;
    while i < order.len()
        invariant
            i <= order@.len(),
            forall|h: H| run.requires((h,)),
            forall|j: int| 0 <= j < i ==> call_ensures(run, (#[trigger] order@[j],), false),
        decreases order@.len() - i,
    {
        let h = order[i];
        let taken = run(h);
        if taken {
            assert(first_taker(order@, run, i as int));
            return true;
        }
        i = i + 1;
    }
    false
}

impl<H: Copy> KeypressCallbacks<H> {
    /// Offers key `k` to the handlers of its slot, newest first, until one
    /// takes it; the result says whether one did.
    pub fn call<F: Fn(H) -> bool>(&self, k: Key, run: F) -> (r: bool)
        requires
            key_registrable(k),
            forall|h: H| run.requires((h,)),
        ensures
            r ==> exists|i: int| first_taker(newest_first(self.registered(), key_code(k)), run, i),
            !r ==> forall|j: int|
                0 <= j < newest_first(self.registered(), key_code(k)).len() ==> call_ensures(
                    run,
                    (#[trigger] newest_first(self.registered(), key_code(k))[j],),
                    false,
                ),
    {
        let order = self.call_order(k);
        call_in_order(&order, run)
    }
}

impl<H: Copy> Callbacks<H> {
    /// Offers an event to the handlers, newest first, until one takes it;
    /// the result says whether one did.
    pub fn call<F: Fn(H) -> bool>(&self, run: F) -> (r: bool)
        requires
            forall|h: H| run.requires((h,)),
        ensures
            r ==> exists|i: int| first_taker(self.registered().reverse(), run, i),
            !r ==> forall|j: int|
                0 <= j < self.registered().len() ==> call_ensures(run, (#[trigger] self.registered().reverse()[j],), false),
    {
        let order = self.call_order();
        call_in_order(&order, run)
    }
}

} // verus!
