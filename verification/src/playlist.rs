//! The playlist: the files to play, the position in it, looping, and a
//! chosen next item; and the state of the playlist overlay.
use vstd::prelude::*;
use crate::stdin::Key;
use crate::avsync::{AVSyncState, spec_set_pause};
use crate::callbacks::{KeypressCallbacks, KeyHandler, for_keys, slot_entries};

verus! {

pub struct Playlist {
    items: Vec<String>,
    pos: usize,
    looping: bool,
    setnext: Option<usize>,
}

/// The mathematical playlist.
pub struct PlaylistView {
    pub items: Seq<Seq<char>>,
    pub pos: int,
    pub looping: bool,
    pub setnext: Option<int>,
}

pub open spec fn strings_view(v: Seq<String>) -> Seq<Seq<char>> {
    v.map_values(|s: String| s@)
}

pub open spec fn opt_int(o: Option<usize>) -> Option<int> {
    match o {
        Some(i) => Some(i as int),
        None => None,
    }
}

impl View for Playlist {
    type V = PlaylistView;

    closed spec fn view(&self) -> PlaylistView {
        PlaylistView {
            items: strings_view(self.items@),
            pos: self.pos as int,
            looping: self.looping,
            setnext: opt_int(self.setnext),
        }
    }
}

/// A chosen next item, if any, is an item of the list, unless the list is
/// empty (then it is not looked at).
pub open spec fn setnext_in_range(p: PlaylistView) -> bool {
    p.items.len() > 0 ==> (p.setnext matches Some(n) ==> 0 <= n < p.items.len())
}

/// Moving forward: to the chosen next item if there is one, else to the
/// following item, wrapping round when looping and running off the end
/// otherwise.
pub open spec fn spec_next(p: PlaylistView) -> (PlaylistView, Option<Seq<char>>) {
    if p.items.len() == 0 {
        (p, None)
    } else if p.setnext is Some {
        let n = p.setnext->0;
        (PlaylistView { pos: n, setnext: None, ..p }, Some(p.items[n]))
    } else if p.pos + 1 >= p.items.len() {
        if p.looping {
            (PlaylistView { pos: 0, ..p }, Some(p.items[0]))
        } else {
            (PlaylistView { pos: p.items.len() as int, ..p }, None)
        }
    } else {
        (PlaylistView { pos: p.pos + 1, ..p }, Some(p.items[p.pos + 1]))
    }
}

/// Moving back: to the chosen next item if there is one, else to the
/// previous item, wrapping round from the first when looping and staying
/// there otherwise.
pub open spec fn spec_prev(p: PlaylistView) -> (PlaylistView, Option<Seq<char>>) {
    if p.items.len() == 0 {
        (p, None)
    } else if p.setnext is Some {
        let n = p.setnext->0;
        (PlaylistView { pos: n, setnext: None, ..p }, Some(p.items[n]))
    } else if p.pos == 0 {
        if p.looping {
            (PlaylistView { pos: p.items.len() - 1, ..p }, Some(p.items[p.items.len() - 1]))
        } else {
            (p, Some(p.items[0]))
        }
    } else {
        (PlaylistView { pos: p.pos - 1, ..p }, Some(p.items[p.pos - 1]))
    }
}

impl Playlist {
    /// The position is inside the list or just past its end.
    pub closed spec fn wf(&self) -> bool {
        self.pos <= self.items.len()
    }

    /// An empty playlist that starts with its first item.
    pub fn new() -> (r: Playlist)
        ensures
            r@ == (PlaylistView { items: Seq::empty(), pos: 0, looping: false, setnext: Some(0) }),
            r.wf(),
    {
        let r = Playlist { items: Vec::new(), pos: 0, looping: false, setnext: Some(0) };
        assert(strings_view(r.items@) =~= Seq::<Seq<char>>::empty());
        r
    }

    /// Removes every item and goes back to the start; the chosen next item
    /// stays.
    pub fn clear(&mut self) -> (r: &mut Self)
        requires
            old(self).wf(),
        ensures
            r.wf(),
            r@ == (PlaylistView { items: Seq::empty(), pos: 0, ..old(self)@ }),
            *final(self) == *final(r),
    {
        self.items.clear();
        self.pos = 0;
        assert(strings_view(self.items@) =~= Seq::<Seq<char>>::empty());
        self
    }

    /// Appends one item.
    pub fn push(&mut self, path: &str) -> (r: &mut Self)
        requires
            old(self).wf(),
        ensures
            r.wf(),
            r@ == (PlaylistView { items: old(self)@.items.push(path@), ..old(self)@ }),
            *final(self) == *final(r),
    {
        let ghost before = self.items@;
        self.items.push(path.to_owned());
        assert(strings_view(self.items@) =~= strings_view(before).push(path@));
        self
    }

    /// Appends the items in order.
    pub fn extend(&mut self, paths: Vec<String>) -> (r: &mut Self)
        requires
            old(self).wf(),
        ensures
            r.wf(),
            r@ == (PlaylistView { items: old(self)@.items + strings_view(paths@), ..old(self)@ }),
            *final(self) == *final(r),
    {
        let ghost before = self.items@;
        let ghost added = paths@;
        let mut more = paths;
        self.items.append(&mut more);
        assert(strings_view(self.items@) =~= strings_view(before) + strings_view(added));
        self
    }

    /// Appends one item and makes it the next to play.
    pub fn push_and_setnext(&mut self, path: &str) -> (r: &mut Self)
        requires
            old(self).wf(),
        ensures
            r.wf(),
            r@ == (PlaylistView {
                items: old(self)@.items.push(path@),
                setnext: Some(old(self)@.items.len() as int),
                ..old(self)@
            }),
            *final(self) == *final(r),
    {
        let ghost before = self.items@;
        self.items.push(path.to_owned());
        assert(strings_view(self.items@) =~= strings_view(before).push(path@));
        self.setnext = Some(self.items.len() - 1);
        self
    }

    pub fn get_items(&self) -> (r: &Vec<String>)
        ensures
            strings_view(r@) == self@.items,
    {
        &self.items
    }

    pub fn get_pos(&self) -> (r: usize)
        requires
            self.wf(),
        ensures
            r == self@.pos,
            r <= self@.items.len(),
    {
        self.pos
    }

    pub fn len(&self) -> (r: usize)
        ensures
            r == self@.items.len(),
    {
        self.items.len()
    }

    pub fn get_looping(&self) -> (r: bool)
        ensures
            r == self@.looping,
    {
        self.looping
    }

    pub fn set_looping(&mut self, looping: bool) -> (r: &mut Self)
        requires
            old(self).wf(),
        ensures
            r.wf(),
            r@ == (PlaylistView { looping, ..old(self)@ }),
            *final(self) == *final(r),
    {
        self.looping = looping;
        self
    }

    /// Chooses the item at `index` as the next one; an index past the end is
    /// ignored.
    pub fn setnext(&mut self, index: usize) -> (r: &mut Self)
        requires
            old(self).wf(),
        ensures
            r.wf(),
            r@ == (if index < old(self)@.items.len() {
                PlaylistView { setnext: Some(index as int), ..old(self)@ }
            } else {
                old(self)@
            }),
            *final(self) == *final(r),
    {
        if index < self.items.len() {
            self.setnext = Some(index);
        }
        self
    }

    /// Whether a chosen next item, if any, is an item of the list, or the
    /// list is empty (what `next` and `prev` need).
    pub fn setnext_ok(&self) -> (r: bool)
        ensures
            r == setnext_in_range(self@),
    {
        if self.items.len() == 0 {
            return true;
        }
        match self.setnext {
            Some(n) => n < self.items.len(),
            None => true,
        }
    }

    /// The item at the position, if the position is inside the list.
    pub fn current(&self) -> (r: Option<&String>)
        ensures
            match r {
                Some(s) => 0 <= self@.pos < self@.items.len() && s@ == self@.items[self@.pos],
                None => !(0 <= self@.pos < self@.items.len()),
            },
    {
        if self.items.len() == 0 || self.pos >= self.items.len() {
            return None;
        }
        Some(&self.items[self.pos])
    }

    /// Moves forward and returns the item moved to, as `spec_next` says.
    pub fn next(&mut self) -> (r: Option<&String>)
        requires
            old(self).wf(),
            setnext_in_range(old(self)@),
        ensures
            final(self).wf(),
            final(self)@ == spec_next(old(self)@).0,
            match r {
                Some(s) => spec_next(old(self)@).1 == Some(s@),
                None => spec_next(old(self)@).1 is None,
            },
    {
        let len = self.items.len();
        if len == 0 {
            return None;
        }
        if let Some(next) = self.setnext {
            self.setnext = None;
            self.pos = next;
            return Some(&self.items[self.pos]);
        }
        if self.pos >= len - 1 {
            if self.looping {
                self.pos = 0;
            } else {
                self.pos = len;
                return None;
            }
        } else {
            self.pos = self.pos + 1;
        }
        Some(&self.items[self.pos])
    }

    /// Moves back and returns the item moved to, as `spec_prev` says.
    pub fn prev(&mut self) -> (r: Option<&String>)
        requires
            old(self).wf(),
            setnext_in_range(old(self)@),
        ensures
            final(self).wf(),
            final(self)@ == spec_prev(old(self)@).0,
            match r {
                Some(s) => spec_prev(old(self)@).1 == Some(s@),
                None => spec_prev(old(self)@).1 is None,
            },
    {
        let len = self.items.len();
        if len == 0 {
            return None;
        }
        if let Some(next) = self.setnext {
            self.setnext = None;
            self.pos = next;
            return Some(&self.items[self.pos]);
        }
        if self.pos == 0 {
            if self.looping {
                self.pos = len - 1;
            }
        } else {
            self.pos = self.pos - 1;
        }
        Some(&self.items[self.pos])
    }
}

// ===== laws =====

/// In a looping list, moving back undoes moving forward, and moving forward
/// undoes moving back; without looping the same holds away from the ends.
pub proof fn lemma_prev_undoes_next(p: PlaylistView)
    requires
        p.setnext is None,
        0 <= p.pos < p.items.len(),
        p.looping || p.pos + 1 < p.items.len(),
    ensures
        spec_prev(spec_next(p).0).0 == p,
        spec_next(p).1 == Some(p.items[spec_next(p).0.pos]),
{
}

/// ... and the other way round.
pub proof fn lemma_next_undoes_prev(p: PlaylistView)
    requires
        p.setnext is None,
        0 <= p.pos < p.items.len(),
        p.looping || p.pos > 0,
    ensures
        spec_next(spec_prev(p).0).0 == p,
{
}

/// A looping, non-empty list never runs out, and the position stays inside
/// it.
pub proof fn lemma_looping_never_ends(p: PlaylistView)
    requires
        p.looping,
        p.items.len() > 0,
        0 <= p.pos <= p.items.len(),
        setnext_in_range(p),
    ensures
        spec_next(p).1 is Some,
        0 <= spec_next(p).0.pos < p.items.len(),
        spec_prev(p).1 is Some,
{
}

/// The item chosen with `setnext` is the one that plays next, whichever way
/// the list moves, and the choice is used up.
pub proof fn lemma_setnext_then_next(p: PlaylistView, i: int)
    requires
        0 <= i < p.items.len(),
    ensures
        spec_next(PlaylistView { setnext: Some(i), ..p }).1 == Some(p.items[i]),
        spec_prev(PlaylistView { setnext: Some(i), ..p }).1 == Some(p.items[i]),
        spec_next(PlaylistView { setnext: Some(i), ..p }).0.setnext is None,
{
}

// ===== the playlist overlay =====

/// Whether the playlist overlay is shown, and the selected item (`-1`: none).
#[derive(Clone, Copy, PartialEq, Eq, Structural, Debug)]
pub struct PlaylistOverlay {
    pub show: bool,
    pub selected: isize,
}

/// What a key did to the overlay.
#[derive(Clone, Copy, PartialEq, Eq, Structural, Debug)]
pub enum OverlayAction {
    /// The overlay did not take the key.
    Ignored,
    /// The overlay took the key.
    Handled,
    /// The selected item was chosen to play next: the current playback should
    /// stop.
    PlaySelected,
}

impl PlaylistOverlay {
    pub fn new() -> (r: PlaylistOverlay)
        ensures
            r == (PlaylistOverlay { show: false, selected: -1isize }),
    {
        PlaylistOverlay { show: false, selected: -1 }
    }
}

/// Shows the overlay if hidden and hides it if shown, dropping the selection.
pub fn toggle_show_playlist(o: &mut PlaylistOverlay)
    ensures
        *final(o) == (PlaylistOverlay { show: !old(o).show, selected: -1isize }),
{
    o.show = !o.show;
    o.selected = -1;
}

/// `x` brought into `lo..=hi`.
pub open spec fn clamp(x: int, lo: int, hi: int) -> int {
    if x < lo {
        lo
    } else if x > hi {
        hi
    } else {
        x
    }
}

/// The keys that move the selection up.
pub open spec fn is_up_key(k: Key) -> bool {
    k == Key::Normal('w') || k == Key::Up
}

/// The keys that move the selection down.
pub open spec fn is_down_key(k: Key) -> bool {
    k == Key::Normal('s') || k == Key::Down
}

/// The keys that play the selected item: space and Enter (which the
/// terminal sends as a newline or as the Enter key).
pub open spec fn is_confirm_key(k: Key) -> bool {
    k == Key::Normal(' ') || k == Key::Enter || k == Key::Normal('\n')
}

/// The keys that the overlay swallows while shown.
pub open spec fn is_swallowed_key(k: Key) -> bool {
    k == Key::Normal('a') || k == Key::Left || k == Key::Normal('d') || k == Key::Right
}

/// The selection after moving by `step` (1 or -1): from the selected item,
/// or from the playing one when none is selected, kept inside the list.
pub open spec fn moved_selection(selected: int, pos: int, len: int, step: int) -> int {
    if selected >= 0 {
        clamp(selected + step, 0, len - 1)
    } else {
        clamp(pos + step, 0, len - 1)
    }
}

fn clamp_exec(x: isize, lo: isize, hi: isize) -> (r: isize)
    requires
        lo <= hi,
    ensures
        r == clamp(x as int, lo as int, hi as int),
{
    if x < lo {
        lo
    } else if x > hi {
        hi
    } else {
        x
    }
}

/// What the overlay does with key `k`, from overlay `o0` and playlist `p0`
/// to `o1` and `p1`, answering `r`.
pub open spec fn overlay_effect(o0: PlaylistOverlay, p0: PlaylistView, k: Key, o1: PlaylistOverlay, p1: PlaylistView, r: OverlayAction) -> bool {
    &&& !o0.show ==> r == OverlayAction::Ignored && o1 == o0 && p1 == p0
    &&& o0.show ==> {
            if k == Key::Normal('q') {
                r == OverlayAction::Handled && o1 == (PlaylistOverlay { show: false, ..o0 })
                    && p1 == p0
            } else if is_confirm_key(k) {
                if o0.selected >= 0 {
                    r == OverlayAction::PlaySelected && o1 == (PlaylistOverlay { show: false, ..o0 })
                        && p1 == (if o0.selected < p0.items.len() {
                        PlaylistView { setnext: Some(o0.selected as int), ..p0 }
                    } else {
                        p0
                    })
                } else {
                    r == OverlayAction::Handled && o1 == o0 && p1 == p0
                }
            } else if is_up_key(k) || is_down_key(k) {
                r == OverlayAction::Handled && p1 == p0 && o1.show
                    && o1.selected == moved_selection(
                    o0.selected as int,
                    p0.pos,
                    p0.items.len() as int,
                    if is_up_key(k) {
                        -1
                    } else {
                        1
                    },
                )
            } else if is_swallowed_key(k) {
                r == OverlayAction::Handled && o1 == o0 && p1 == p0
            } else {
                r == OverlayAction::Ignored && o1 == o0 && p1 == p0
            }
        }
}

/// With nothing selected, moving the selection starts from the item that
/// is playing: up selects the item above it, down the item below it, kept
/// inside the list.
pub proof fn lemma_overlay_moves_from_playing(
    o0: PlaylistOverlay,
    p0: PlaylistView,
    k: Key,
    o1: PlaylistOverlay,
    p1: PlaylistView,
    r: OverlayAction,
)
    requires
        overlay_effect(o0, p0, k, o1, p1, r),
        o0.show,
        o0.selected < 0,
        p0.items.len() >= 1,
        0 <= p0.pos <= p0.items.len(),
    ensures
        is_up_key(k) ==> o1.selected == (if p0.pos >= 1 {
            p0.pos - 1
        } else {
            0
        }),
        is_down_key(k) ==> o1.selected == (if p0.pos + 1 < p0.items.len() {
            p0.pos + 1
        } else {
            p0.items.len() - 1
        }),
        (is_up_key(k) || is_down_key(k)) ==> r == OverlayAction::Handled && p1 == p0,
{
}

/// With an item selected, up and down move the selection one item, and
/// stop at the ends of the list.
pub proof fn lemma_overlay_moves_selection(
    o0: PlaylistOverlay,
    p0: PlaylistView,
    k: Key,
    o1: PlaylistOverlay,
    p1: PlaylistView,
    r: OverlayAction,
)
    requires
        overlay_effect(o0, p0, k, o1, p1, r),
        o0.show,
        0 <= o0.selected < p0.items.len(),
    ensures
        is_up_key(k) ==> o1.selected == (if o0.selected >= 1 {
            o0.selected - 1
        } else {
            0
        }),
        is_down_key(k) ==> o1.selected == (if o0.selected + 1 < p0.items.len() {
            o0.selected + 1
        } else {
            o0.selected as int
        }),
{
}

/// What the overlay does with a key: `q` hides it,
/// space and Enter choose the selected item, `w`/Up and `s`/Down move the
/// selection, and `a`, `d`, Left and Right are swallowed while it is shown.
pub fn overlay_key(o: &mut PlaylistOverlay, p: &mut Playlist, k: Key) -> (r: OverlayAction)
    requires
        old(p).wf(),
        old(p)@.items.len() < isize::MAX,
        old(o).show && (is_up_key(k) || is_down_key(k)) ==> old(p)@.items.len() >= 1,
        old(o).show && is_down_key(k) ==> old(o).selected < isize::MAX,
    ensures
        final(p).wf(),
        overlay_effect(*old(o), old(p)@, k, *final(o), final(p)@, r),
{
    if !o.show {
        return OverlayAction::Ignored;
    }
    if k == Key::Normal('q') {
        o.show = false;
        OverlayAction::Handled
    } else if k == Key::Normal(' ') || k == Key::Enter || k == Key::Normal('\n') {
        let index = o.selected;
        if index >= 0 {
            p.setnext(index as usize);
            o.show = false;
            OverlayAction::PlaySelected
        } else {
            OverlayAction::Handled
        }
    } else if k == Key::Normal('w') || k == Key::Up || k == Key::Normal('s') || k == Key::Down {
        let step: isize = if k == Key::Normal('w') || k == Key::Up {
            -1
        } else {
            1
        };
        let len = p.len() as isize;
        if o.selected >= 0 {
            o.selected = clamp_exec(o.selected + step, 0, len - 1);
        } else {
            let pos = p.get_pos() as isize;
            o.selected = clamp_exec(pos + step, 0, len - 1);
        }
        OverlayAction::Handled
    } else if k == Key::Normal('a') || k == Key::Left || k == Key::Normal('d') || k == Key::Right {
        OverlayAction::Handled
    } else {
        OverlayAction::Ignored
    }
}

/// The keys of the playlist overlay: `q` closes it, space and Enter (either
/// form) play
/// the selected item, `w`/Up and `s`/Down move the selection, and `a`,
/// Left, `d` and Right are taken while it is open.
pub open spec fn playlist_keys() -> Seq<Key> {
    seq![
        Key::Normal('q'),
        Key::Normal(' '),
        Key::Enter,
        Key::Normal('\n'),
        Key::Normal('w'),
        Key::Up,
        Key::Normal('s'),
        Key::Down,
        Key::Normal('a'),
        Key::Left,
        Key::Normal('d'),
        Key::Right,
    ]
}

/// Registers the playlist overlay's keys.
pub fn register_keypress_callbacks(keys: &mut KeypressCallbacks<KeyHandler>)
    ensures
        final(keys).registered() == old(keys).registered() + slot_entries(for_keys(playlist_keys(), KeyHandler::Playlist)),
{
    let list = vec![
        (Key::Normal('q'), KeyHandler::Playlist),
        (Key::Normal(' '), KeyHandler::Playlist),
        (Key::Enter, KeyHandler::Playlist),
        (Key::Normal('\n'), KeyHandler::Playlist),
        (Key::Normal('w'), KeyHandler::Playlist),
        (Key::Up, KeyHandler::Playlist),
        (Key::Normal('s'), KeyHandler::Playlist),
        (Key::Down, KeyHandler::Playlist),
        (Key::Normal('a'), KeyHandler::Playlist),
        (Key::Left, KeyHandler::Playlist),
        (Key::Normal('d'), KeyHandler::Playlist),
        (Key::Right, KeyHandler::Playlist),
    ];
    assert(list@ =~= for_keys(playlist_keys(), KeyHandler::Playlist));
    keys.register_all(&list);
}

/// The playlist's key handler: the overlay acts on the key as
/// `overlay_effect` says, and playing the selected item ends the decoding
/// of the current one (decoding marked as ended, playback resumed). The key
/// is taken unless the overlay ignored it.
pub fn playlist_handler(
    o: &mut PlaylistOverlay,
    p: &mut Playlist,
    sync: &mut AVSyncState,
    k: Key,
    now: u64,
) -> (r: (bool, OverlayAction))
    requires
        old(p).wf(),
        old(p)@.items.len() < isize::MAX,
        old(o).show && (is_up_key(k) || is_down_key(k)) ==> old(p)@.items.len() >= 1,
        old(o).show && is_down_key(k) ==> old(o).selected < isize::MAX,
        old(sync).wf(now),
    ensures
        final(p).wf(),
        overlay_effect(*old(o), old(p)@, k, *final(o), final(p)@, r.1),
        r.0 == (r.1 != OverlayAction::Ignored),
        r.1 == OverlayAction::PlaySelected ==> *final(sync) == spec_set_pause(
            AVSyncState { decode_end: true, ..*old(sync) },
            false,
            now,
        ),
        r.1 != OverlayAction::PlaySelected ==> *final(sync) == *old(sync),
        final(sync).wf(now),
{
    let action = overlay_key(o, p, k);
    if action == OverlayAction::PlaySelected {
        crate::playback::notify_quit(sync, now);
    }
    (action != OverlayAction::Ignored, action)
}

} // verus!
