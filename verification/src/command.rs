//! The command line: typing a command after `/`, completion, history, and
//! turning the line into a command to run.
use vstd::prelude::*;
use crate::stdin::Key;
use crate::callbacks::{Callbacks, KeypressCallbacks, KeyHandler, PasteHandler, for_keys, slot_entries, key_registrable};
use crate::text::{chars_of, is_whitespace, is_ws, same_text, string_of, trim_range, trim_spec};
use crate::subtitle::{lowercase, to_lowercase_of};
use crate::util::{Cell, CellGrid, Color, TextBoxInfo};
use crate::ui::{TextBox, box_fits, put, put_in_box_cells, textbox, textbox_default_color};

verus! {

// ===== words =====

/// The whitespace-separated words of `s`, as `str::split_whitespace` gives
/// them.
pub open spec fn tokens(s: Seq<char>) -> Seq<Seq<char>>
    decreases s.len(),
{
    if s.len() == 0 {
        Seq::empty()
    } else {
        let t = tokens(s.drop_last());
        let c = s.last();
        if is_ws(c) {
            t
        } else if s.len() >= 2 && !is_ws(s[s.len() - 2]) && t.len() > 0 {
            t.update(t.len() - 1, t.last().push(c))
        } else {
            t.push(seq![c])
        }
    }
}

/// `s` ends with whitespace.
pub open spec fn ends_ws(s: Seq<char>) -> bool {
    s.len() > 0 && is_ws(s.last())
}

pub open spec fn starts_with(s: Seq<char>, p: Seq<char>) -> bool {
    p.len() <= s.len() && s.subrange(0, p.len() as int) == p
}

/// The items that start with `prefix`, in order.
pub open spec fn filter_prefix(items: Seq<Seq<char>>, prefix: Seq<char>) -> Seq<Seq<char>>
    decreases items.len(),
{
    if items.len() == 0 {
        Seq::empty()
    } else {
        let rest = filter_prefix(items.drop_last(), prefix);
        if starts_with(items.last(), prefix) {
            rest.push(items.last())
        } else {
            rest
        }
    }
}

/// `p` shortened until `s` starts with it.
pub open spec fn common_prefix(p: Seq<char>, s: Seq<char>) -> Seq<char>
    decreases p.len(),
{
    if starts_with(s, p) || p.len() == 0 {
        p
    } else {
        common_prefix(p.drop_last(), s)
    }
}

/// The longest prefix that all items share (empty for no items).
pub open spec fn lcp(list: Seq<Seq<char>>) -> Seq<char>
    decreases list.len(),
{
    if list.len() == 0 {
        Seq::empty()
    } else if list.len() == 1 {
        list[0]
    } else {
        common_prefix(lcp(list.drop_last()), list.last())
    }
}

/// The number of bytes that UTF-8 takes for a character.
pub open spec fn char_utf8_len(c: char) -> int {
    if (c as u32) < 0x80 {
        1
    } else if (c as u32) < 0x800 {
        2
    } else if (c as u32) < 0x10000 {
        3
    } else {
        4
    }
}

/// The length in bytes of the UTF-8 encoding of `s`, which `str::len` gives.
pub open spec fn utf8_len(s: Seq<char>) -> int
    decreases s.len(),
{
    if s.len() == 0 {
        0
    } else {
        utf8_len(s.drop_last()) + char_utf8_len(s.last())
    }
}

proof fn lemma_utf8_len_bound(s: Seq<char>)
    ensures
        s.len() <= utf8_len(s) <= 4 * s.len(),
    decreases s.len(),
{
    if s.len() > 0 {
        lemma_utf8_len_bound(s.drop_last());
    }
}

/// The bounds of the words of `v`.
fn token_ranges(v: &Vec<char>) -> (r: Vec<(usize, usize)>)
    ensures
        r@.len() == tokens(v@).len(),
        forall|i: int|
            0 <= i < r@.len() ==> (#[trigger] r@[i]).0 <= r@[i].1 <= v@.len() && v@.subrange(
                r@[i].0 as int,
                r@[i].1 as int,
            ) == tokens(v@)[i],
{
    let mut r: Vec<(usize, usize)> = Vec::new();
    let n = v.len();
    let mut i: usize = 0;
    assert(v@.take(0) =~= Seq::<char>::empty());
    while i < n
        invariant
            n == v@.len(),
            i <= n,
            r@.len() == tokens(v@.take(i as int)).len(),
            forall|k: int|
                0 <= k < r@.len() ==> (#[trigger] r@[k]).0 <= r@[k].1 <= i && v@.subrange(
                    r@[k].0 as int,
                    r@[k].1 as int,
                ) == tokens(v@.take(i as int))[k],
            i > 0 && !is_ws(v@[i - 1]) ==> r@.len() > 0 && r@.last().1 == i,
        decreases n - i,
    {
        let c = v[i];
        let ghost pre = v@.take(i as int);
        let ghost t = tokens(pre);
        let ghost r0 = r@;
        proof {
            assert(v@.take(i + 1).drop_last() =~= pre);
            assert(v@.take(i + 1).last() == c);
            if i > 0 {
                assert(v@.take(i + 1)[i - 1] == v@[i - 1]);
            }
        }
        if is_whitespace(c) {
        } else if i > 0 && !is_whitespace(v[i - 1]) {
            let last = r.len() - 1;
            let (a, _) = r[last];
            r.set(last, (a, i + 1));
            proof {
                assert(v@.subrange(a as int, i + 1) =~= v@.subrange(a as int, i as int).push(c));
                let t2 = tokens(v@.take(i + 1));
                assert(t2 == t.update(t.len() - 1, t.last().push(c)));
                assert forall|k: int| 0 <= k < r@.len() implies (#[trigger] r@[k]).0 <= r@[k].1 <= i + 1
                    && v@.subrange(r@[k].0 as int, r@[k].1 as int) == t2[k] by {
                    if k < last {
                        assert(r@[k] == r0[k]);
                    }
                }
            }
        } else {
            r.push((i, i + 1));
            proof {
                let t2 = tokens(v@.take(i + 1));
                assert(v@.subrange(i as int, i + 1) =~= seq![c]);
                assert forall|k: int| 0 <= k < r@.len() implies (#[trigger] r@[k]).0 <= r@[k].1 <= i + 1
                    && v@.subrange(r@[k].0 as int, r@[k].1 as int) == t2[k] by {
                    if k < r0.len() {
                        assert(r@[k] == r0[k]);
                    }
                }
            }
        }
        i = i + 1;
    }
    assert(v@.take(n as int) =~= v@);
    r
}

/// The words of `v`.
pub fn split_tokens(v: &Vec<char>) -> (r: Vec<Vec<char>>)
    ensures
        r@.len() == tokens(v@).len(),
        forall|i: int| 0 <= i < r@.len() ==> (#[trigger] r@[i])@ == tokens(v@)[i],
{
    let ranges = token_ranges(v);
    let mut r: Vec<Vec<char>> = Vec::new();
    let mut i: usize = 0;
    while i < ranges.len()
        invariant
            i <= ranges@.len(),
            ranges@.len() == tokens(v@).len(),
            forall|k: int|
                0 <= k < ranges@.len() ==> (#[trigger] ranges@[k]).0 <= ranges@[k].1 <= v@.len() && v@.subrange(
                    ranges@[k].0 as int,
                    ranges@[k].1 as int,
                ) == tokens(v@)[k],
            r@.len() == i,
            forall|k: int| 0 <= k < i ==> (#[trigger] r@[k])@ == tokens(v@)[k],
        decreases ranges@.len() - i,
    {
        let (a, b) = ranges[i];
        r.push(slice_chars(v, a, b));
        i = i + 1;
    }
    r
}

/// `v[from..to]`.
pub fn slice_chars(v: &Vec<char>, from: usize, to: usize) -> (r: Vec<char>)
    requires
        from <= to <= v@.len(),
    ensures
        r@ == v@.subrange(from as int, to as int),
{
    let mut r: Vec<char> = Vec::new();
    let mut i = from;
    while i < to
        invariant
            from <= i <= to <= v@.len(),
            r@ == v@.subrange(from as int, i as int),
        decreases to - i,
    {
        r.push(v[i]);
        i = i + 1;
        assert(r@ =~= v@.subrange(from as int, i as int));
    }
    r
}

pub fn starts_with_exec(s: &Vec<char>, p: &Vec<char>) -> (r: bool)
    ensures
        r == starts_with(s@, p@),
{
    if p.len() > s.len() {
        return false;
    }
    let mut i: usize = 0;
    while i < p.len()
        invariant
            p@.len() <= s@.len(),
            i <= p@.len(),
            forall|k: int| 0 <= k < i ==> s@[k] == p@[k],
        decreases p@.len() - i,
    {
        if s[i] != p[i] {
            assert(s@.subrange(0, p@.len() as int)[i as int] != p@[i as int]);
            return false;
        }
        i = i + 1;
    }
    assert(s@.subrange(0, p@.len() as int) =~= p@);
    true
}

pub fn chars_eq(a: &Vec<char>, b: &Vec<char>) -> (r: bool)
    ensures
        r == (a@ == b@),
{
    if a.len() != b.len() {
        return false;
    }
    let r = starts_with_exec(a, b);
    proof {
        assert(a@.subrange(0, b@.len() as int) =~= a@);
    }
    r
}

/// The items that start with `prefix`, in order.
pub fn filter_suggestions(prefix: &Vec<char>, items: &Vec<Vec<char>>) -> (r: Vec<Vec<char>>)
    ensures
        views(r@) == filter_prefix(views(items@), prefix@),
{
    let mut r: Vec<Vec<char>> = Vec::new();
    let mut i: usize = 0;
    assert(views(items@).take(0) =~= Seq::<Seq<char>>::empty());
    assert(views(r@) =~= Seq::<Seq<char>>::empty());
    while i < items.len()
        invariant
            i <= items@.len(),
            views(r@) == filter_prefix(views(items@).take(i as int), prefix@),
        decreases items@.len() - i,
    {
        let ghost before = r@;
        proof {
            assert(views(items@).take(i + 1).drop_last() =~= views(items@).take(i as int));
            assert(views(items@).take(i + 1).last() == items@[i as int]@);
        }
        if starts_with_exec(&items[i], prefix) {
            r.push(copy_chars(&items[i]));
            assert(views(r@) =~= views(before).push(items@[i as int]@));
        }
        i = i + 1;
    }
    assert(views(items@).take(i as int) =~= views(items@));
    r
}

pub open spec fn views(v: Seq<Vec<char>>) -> Seq<Seq<char>> {
    v.map_values(|x: Vec<char>| x@)
}

pub fn copy_chars(v: &Vec<char>) -> (r: Vec<char>)
    ensures
        r@ == v@,
{
    slice_chars(v, 0, v.len())
}

/// The longest prefix shared by all items.
pub fn longest_common_prefix(list: &Vec<Vec<char>>) -> (r: Vec<char>)
    ensures
        r@ == lcp(views(list@)),
{
    if list.len() == 0 {
        return Vec::new();
    }
    let mut prefix = copy_chars(&list[0]);
    let mut i: usize = 1;
    proof {
        assert(views(list@).take(1) =~= seq![list@[0]@]);
    }
    while i < list.len()
        invariant
            1 <= i <= list@.len(),
            prefix@ == lcp(views(list@).take(i as int)),
        decreases list@.len() - i,
    {
        proof {
            assert(views(list@).take(i + 1).drop_last() =~= views(list@).take(i as int));
            assert(views(list@).take(i + 1).last() == list@[i as int]@);
        }
        let ghost p0 = prefix@;
        while !starts_with_exec(&list[i], &prefix) && prefix.len() > 0
            invariant
                i < list@.len(),
                common_prefix(p0, list@[i as int]@) == common_prefix(prefix@, list@[i as int]@),
            decreases prefix@.len(),
        {
            let ghost pp = prefix@;
            prefix.pop();
            assert(prefix@ =~= pp.drop_last());
        }
        i = i + 1;
    }
    assert(views(list@).take(i as int) =~= views(list@));
    prefix
}

/// The byte length of the UTF-8 encoding of `v`.
pub fn utf8_len_of(v: &Vec<char>) -> (r: u128)
    ensures
        r == utf8_len(v@),
        r <= 4 * usize::MAX,
{
    let mut n: u128 = 0;
    let mut i: usize = 0;
    assert(v@.take(0) =~= Seq::<char>::empty());
    while i < v.len()
        invariant
            i <= v@.len(),
            n == utf8_len(v@.take(i as int)),
            n <= 4 * i,
        decreases v@.len() - i,
    {
        let c = v[i];
        proof {
            assert(v@.take(i + 1).drop_last() =~= v@.take(i as int));
        }
        let w: u128 = if (c as u32) < 0x80 {
            1
        } else if (c as u32) < 0x800 {
            2
        } else if (c as u32) < 0x10000 {
            3
        } else {
            4
        };
        n = n + w;
        i = i + 1;
    }
    assert(v@.take(i as int) =~= v@);
    n
}

// ===== the command line =====

/// Which suggestions a command's argument completes from.
#[derive(Clone, Copy, PartialEq, Eq, Structural, Debug)]
pub enum CompleterKind {
    Lang,
    Seek,
    Volume,
}

/// A registered command: its name and how its argument completes.
pub struct CommandSpec {
    pub name: Vec<char>,
    pub completer: Option<CompleterKind>,
}

/// The state of the command line.
pub struct CommandLine {
    /// Whether the command line is open.
    pub mode: bool,
    pub buffer: Vec<char>,
    /// The completions on offer.
    pub candidates: Vec<Vec<char>>,
    /// Submitted commands, oldest first.
    pub history: Vec<Vec<char>>,
    /// The history entry being shown, while browsing the history.
    pub hist_index: Option<usize>,
    /// The line being typed before browsing the history began.
    pub snapshot: Vec<char>,
    pub commands: Vec<CommandSpec>,
}

pub struct CommandLineView {
    pub mode: bool,
    pub buffer: Seq<char>,
    pub candidates: Seq<Seq<char>>,
    pub history: Seq<Seq<char>>,
    pub hist_index: Option<int>,
    pub snapshot: Seq<char>,
    pub commands: Seq<(Seq<char>, Option<CompleterKind>)>,
}

pub open spec fn cmds_view(v: Seq<CommandSpec>) -> Seq<(Seq<char>, Option<CompleterKind>)> {
    v.map_values(|c: CommandSpec| (c.name@, c.completer))
}

impl View for CommandLine {
    type V = CommandLineView;

    open spec fn view(&self) -> CommandLineView {
        CommandLineView {
            mode: self.mode,
            buffer: self.buffer@,
            candidates: views(self.candidates@),
            history: views(self.history@),
            hist_index: match self.hist_index {
                Some(i) => Some(i as int),
                None => None,
            },
            snapshot: self.snapshot@,
            commands: cmds_view(self.commands@),
        }
    }
}

/// What submitting a line asks for.
pub enum CommandRun {
    /// Nothing to run.
    Nothing,
    /// Run the command with these arguments.
    Run { name: Vec<char>, args: Vec<Vec<char>> },
    /// No command has this name.
    Unknown(Vec<char>),
}

pub enum CommandRunView {
    Nothing,
    Run(Seq<char>, Seq<Seq<char>>),
    Unknown(Seq<char>),
}

impl View for CommandRun {
    type V = CommandRunView;

    open spec fn view(&self) -> CommandRunView {
        match self {
            CommandRun::Nothing => CommandRunView::Nothing,
            CommandRun::Run { name, args } => CommandRunView::Run(name@, views(args@)),
            CommandRun::Unknown(n) => CommandRunView::Unknown(n@),
        }
    }
}

/// The suggestions of each completer.
pub open spec fn suggestions(k: CompleterKind) -> Seq<Seq<char>> {
    match k {
        CompleterKind::Seek => seq!["-30"@, "-5"@, "+5"@, "+30"@, "0"@, "60"@, "120"@],
        CompleterKind::Volume => seq!["0"@, "25"@, "50"@, "75"@, "100"@, "150"@, "200"@],
        CompleterKind::Lang => seq![
            "en-us"@,
            "zh-cn"@,
            "zh-tw"@,
            "ja-jp"@,
            "fr-fr"@,
            "de-de"@,
            "es-es"@,
            "ko-kr"@,
            "pt-br"@,
            "ru-ru"@,
            "it-it"@,
            "tr-tr"@,
            "vi-vn"@,
        ],
    }
}

pub open spec fn names(cmds: Seq<(Seq<char>, Option<CompleterKind>)>) -> Seq<Seq<char>> {
    cmds.map_values(|c: (Seq<char>, Option<CompleterKind>)| c.0)
}

/// The index of the first command named `name` at or after `i`.
pub open spec fn find_command(cmds: Seq<(Seq<char>, Option<CompleterKind>)>, name: Seq<char>, i: int) -> Option<int>
    decreases cmds.len() - i,
{
    if i < 0 || i >= cmds.len() {
        None
    } else if cmds[i].0 == name {
        Some(i)
    } else {
        find_command(cmds, name, i + 1)
    }
}

pub open spec fn completer_of(cmds: Seq<(Seq<char>, Option<CompleterKind>)>, name: Seq<char>) -> Option<CompleterKind> {
    match find_command(cmds, name, 0) {
        Some(i) => cmds[i].1,
        None => None,
    }
}

/// The completions on offer for a line: command names while the first word
/// is typed, then the suggestions of the command's completer for the word
/// being typed.
pub open spec fn candidates_for(cmds: Seq<(Seq<char>, Option<CompleterKind>)>, buf: Seq<char>) -> Seq<Seq<char>> {
    let t = tokens(buf);
    if t.len() == 0 {
        names(cmds)
    } else if t.len() == 1 && !ends_ws(buf) {
        filter_prefix(names(cmds), t[0])
    } else {
        let prefix = if ends_ws(buf) {
            Seq::empty()
        } else {
            t.last()
        };
        match completer_of(cmds, t[0]) {
            Some(k) => filter_prefix(suggestions(k), prefix),
            None => Seq::empty(),
        }
    }
}

/// The completions brought up to date with the line.
pub open spec fn refresh(v: CommandLineView) -> CommandLineView {
    CommandLineView {
        candidates: if v.mode {
            candidates_for(v.commands, v.buffer)
        } else {
            Seq::empty()
        },
        ..v
    }
}

pub open spec fn with_buffer(v: CommandLineView, b: Seq<char>) -> CommandLineView {
    refresh(CommandLineView { buffer: b, ..v })
}

/// The index of the last whitespace character of `s`.
pub open spec fn last_ws(s: Seq<char>) -> Option<int>
    decreases s.len(),
{
    if s.len() == 0 {
        None
    } else if is_ws(s.last()) {
        Some(s.len() - 1)
    } else {
        last_ws(s.drop_last())
    }
}

/// What a completion puts in: the common prefix of the matches when it is
/// longer (in bytes) than what was typed, else the only match; `None` when
/// the matches are only offered.
pub open spec fn completion_text(prefix: Seq<char>, matches: Seq<Seq<char>>) -> Option<Seq<char>> {
    if matches.len() == 0 {
        None
    } else if utf8_len(lcp(matches)) > utf8_len(prefix) {
        Some(lcp(matches))
    } else if matches.len() == 1 {
        Some(matches[0])
    } else {
        None
    }
}

/// The line with its last word replaced by `completion` (or `completion`
/// appended), and a space after a single match.
pub open spec fn completed_line(buf: Seq<char>, completion: Seq<char>, single: bool, replace_last: bool) -> Seq<char> {
    let base = if replace_last {
        match last_ws(buf) {
            Some(i) => buf.take(i + 1),
            None => Seq::empty(),
        }
    } else {
        buf
    };
    let b1 = base + completion;
    if single && !(completion.len() > 0 && completion.last() == ' ') {
        b1.push(' ')
    } else {
        b1
    }
}

/// Completing with `matches` for the typed `prefix`.
pub open spec fn apply_completion_spec(v: CommandLineView, prefix: Seq<char>, matches: Seq<Seq<char>>, replace_last: bool) -> CommandLineView {
    if matches.len() == 0 {
        CommandLineView { candidates: Seq::empty(), ..v }
    } else {
        match completion_text(prefix, matches) {
            None => CommandLineView { candidates: matches, ..v },
            Some(c) => with_buffer(
                CommandLineView { candidates: Seq::empty(), ..v },
                completed_line(v.buffer, c, matches.len() == 1, replace_last),
            ),
        }
    }
}

/// Replacing the last word slices the line right after its last whitespace
/// character, counting one byte for it: that is only a character boundary
/// when the character is one byte long.
pub open spec fn apply_slices_badly(v: CommandLineView, prefix: Seq<char>, matches: Seq<Seq<char>>, replace_last: bool) -> bool {
    &&& replace_last
    &&& completion_text(prefix, matches) is Some
    &&& last_ws(v.buffer) matches Some(i) && char_utf8_len(v.buffer[i]) != 1
}

/// What Tab completes: command names for the first word, the completer's
/// suggestions for the word being typed after it.
pub open spec fn complete_args(v: CommandLineView) -> Option<(Seq<char>, Seq<Seq<char>>, bool)> {
    let t = tokens(v.buffer);
    let ew = ends_ws(v.buffer);
    if t.len() == 0 {
        Some((Seq::empty(), names(v.commands), false))
    } else if t.len() == 1 && !ew {
        Some((t[0], filter_prefix(names(v.commands), t[0]), true))
    } else {
        let prefix = if ew {
            Seq::empty()
        } else {
            t.last()
        };
        match completer_of(v.commands, t[0]) {
            Some(k) => Some((prefix, filter_prefix(suggestions(k), prefix), !ew)),
            None => None,
        }
    }
}

pub open spec fn complete_spec(v: CommandLineView) -> CommandLineView {
    match complete_args(v) {
        Some((p, m, r)) => apply_completion_spec(v, p, m, r),
        None => v,
    }
}

/// Tab on this line would slice it badly (see `apply_slices_badly`).
pub open spec fn complete_slices_badly(v: CommandLineView) -> bool {
    match complete_args(v) {
        Some((p, m, r)) => apply_slices_badly(v, p, m, r),
        None => false,
    }
}

pub open spec fn exit_spec(v: CommandLineView) -> CommandLineView {
    if v.mode {
        CommandLineView {
            mode: false,
            buffer: Seq::empty(),
            candidates: Seq::empty(),
            hist_index: None,
            snapshot: Seq::empty(),
            ..v
        }
    } else {
        v
    }
}

pub open spec fn enter_spec(v: CommandLineView) -> CommandLineView {
    if v.mode {
        v
    } else {
        refresh(CommandLineView { mode: true, buffer: Seq::empty(), ..v })
    }
}

/// What a line asks to run: its first word names the command and the other
/// words are its arguments.
pub open spec fn execute_spec(cmds: Seq<(Seq<char>, Option<CompleterKind>)>, line: Seq<char>) -> CommandRunView {
    let t = tokens(line);
    if t.len() == 0 {
        CommandRunView::Nothing
    } else if find_command(cmds, t[0], 0) is Some {
        CommandRunView::Run(t[0], t.drop_first())
    } else {
        CommandRunView::Unknown(t[0])
    }
}

/// Enter: the trimmed line closes the command line, joins the history
/// unless it repeats the last entry, and runs.
pub open spec fn submit_spec(v: CommandLineView) -> (CommandLineView, CommandRunView) {
    let cmd = trim_spec(v.buffer);
    let v1 = exit_spec(v);
    if cmd.len() == 0 {
        (v1, CommandRunView::Nothing)
    } else {
        let h = if v1.history.len() > 0 && v1.history.last() == cmd {
            v1.history
        } else {
            v1.history.push(cmd)
        };
        (CommandLineView { history: h, ..v1 }, execute_spec(v1.commands, cmd))
    }
}

/// Up: the previous history entry (the newest first), remembering the line
/// being typed.
pub open spec fn history_prev_spec(v: CommandLineView) -> CommandLineView {
    if v.history.len() == 0 {
        v
    } else {
        let (idx, snap) = match v.hist_index {
            None => (v.history.len() - 1, v.buffer),
            Some(i) => (if i > 0 {
                i - 1
            } else {
                0
            }, v.snapshot),
        };
        with_buffer(CommandLineView { hist_index: Some(idx), snapshot: snap, ..v }, v.history[idx])
    }
}

/// Down: the next history entry, and past the newest the line that was
/// being typed.
pub open spec fn history_next_spec(v: CommandLineView) -> CommandLineView {
    if v.history.len() == 0 {
        v
    } else {
        match v.hist_index {
            None => v,
            Some(i) => if i + 1 >= v.history.len() {
                with_buffer(CommandLineView { hist_index: None, ..v }, v.snapshot)
            } else {
                with_buffer(CommandLineView { hist_index: Some(i + 1), ..v }, v.history[i + 1])
            },
        }
    }
}

/// A key while the command line is open.
pub open spec fn command_key_spec(v: CommandLineView, k: Key) -> (CommandLineView, CommandRunView) {
    match k {
        Key::Tab => (complete_spec(v), CommandRunView::Nothing),
        Key::Backspace => (with_buffer(
            v,
            if v.buffer.len() > 0 {
                v.buffer.drop_last()
            } else {
                v.buffer
            },
        ), CommandRunView::Nothing),
        Key::Up => (history_prev_spec(v), CommandRunView::Nothing),
        Key::Down => (history_next_spec(v), CommandRunView::Nothing),
        Key::Escape => (exit_spec(v), CommandRunView::Nothing),
        Key::Normal(c) => if c == '\n' {
            submit_spec(v)
        } else {
            (with_buffer(v, v.buffer.push(c)), CommandRunView::Nothing)
        },
        _ => (v, CommandRunView::Nothing),
    }
}

/// The keys that the command line listens to.
pub open spec fn routed_key(k: Key) -> bool {
    match k {
        Key::Backspace | Key::Escape | Key::Tab | Key::Up | Key::Down => true,
        Key::Normal(c) => c == '\n' || (' ' <= c <= '~'),
        _ => false,
    }
}

/// The keys that the command line swallows while open.
pub open spec fn swallowed_key(k: Key) -> bool {
    match k {
        Key::Lower(c) | Key::Upper(c) | Key::Ctrl(c) => 'a' <= c <= 'z',
        Key::Left | Key::Right | Key::Enter => true,
        _ => false,
    }
}

/// What the command line does with a key: `/` opens it; while it is open
/// it edits the line, and it swallows the letter keys and arrows.
pub open spec fn on_key_spec(v: CommandLineView, k: Key) -> (CommandLineView, bool, CommandRunView) {
    if k == Key::Normal('/') && !v.mode {
        (enter_spec(v), true, CommandRunView::Nothing)
    } else if routed_key(k) {
        if v.mode {
            let (v1, run) = command_key_spec(v, k);
            (v1, true, run)
        } else {
            (v, false, CommandRunView::Nothing)
        }
    } else if swallowed_key(k) {
        (v, v.mode, CommandRunView::Nothing)
    } else {
        (v, false, CommandRunView::Nothing)
    }
}

fn suggestions_exec(k: CompleterKind) -> (r: Vec<Vec<char>>)
    ensures
        views(r@) == suggestions(k),
{
    let r = match k {
        CompleterKind::Seek => vec![
            chars_of("-30"),
            chars_of("-5"),
            chars_of("+5"),
            chars_of("+30"),
            chars_of("0"),
            chars_of("60"),
            chars_of("120"),
        ],
        CompleterKind::Volume => vec![
            chars_of("0"),
            chars_of("25"),
            chars_of("50"),
            chars_of("75"),
            chars_of("100"),
            chars_of("150"),
            chars_of("200"),
        ],
        CompleterKind::Lang => vec![
            chars_of("en-us"),
            chars_of("zh-cn"),
            chars_of("zh-tw"),
            chars_of("ja-jp"),
            chars_of("fr-fr"),
            chars_of("de-de"),
            chars_of("es-es"),
            chars_of("ko-kr"),
            chars_of("pt-br"),
            chars_of("ru-ru"),
            chars_of("it-it"),
            chars_of("tr-tr"),
            chars_of("vi-vn"),
        ],
    };
    assert(views(r@) =~= suggestions(k));
    r
}

/// The suggestions of a completer that start with `prefix`.
pub fn complete_with(k: CompleterKind, prefix: &Vec<char>) -> (r: Vec<Vec<char>>)
    ensures
        views(r@) == filter_prefix(suggestions(k), prefix@),
{
    let all = suggestions_exec(k);
    filter_suggestions(prefix, &all)
}

fn last_ws_exec(v: &Vec<char>) -> (r: Option<usize>)
    ensures
        match r {
            Some(i) => last_ws(v@) == Some(i as int) && i < v@.len(),
            None => last_ws(v@) is None,
        },
{
    let mut j = v.len();
    assert(v@.take(j as int) =~= v@);
    while j > 0 && !is_whitespace(v[j - 1])
        invariant
            j <= v@.len(),
            last_ws(v@) == last_ws(v@.take(j as int)),
        decreases j,
    {
        assert(v@.take(j as int).drop_last() =~= v@.take(j - 1));
        j = j - 1;
    }
    if j == 0 {
        assert(v@.take(0) =~= Seq::<char>::empty());
        None
    } else {
        assert(v@.take(j as int).last() == v@[j - 1]);
        Some(j - 1)
    }
}

fn append_chars(a: &mut Vec<char>, b: &Vec<char>)
    ensures
        final(a)@ == old(a)@ + b@,
{
    let mut i: usize = 0;
    let ghost a0 = a@;
    while i < b.len()
        invariant
            i <= b@.len(),
            a@ == a0 + b@.take(i as int),
        decreases b@.len() - i,
    {
        a.push(b[i]);
        i = i + 1;
        assert(a@ =~= a0 + b@.take(i as int));
    }
    assert(b@.take(i as int) =~= b@);
}

impl CommandLine {
    /// A closed, empty command line with no commands.
    pub fn new() -> (r: CommandLine)
        ensures
            r@ == (CommandLineView {
                mode: false,
                buffer: Seq::empty(),
                candidates: Seq::empty(),
                history: Seq::empty(),
                hist_index: None,
                snapshot: Seq::empty(),
                commands: Seq::empty(),
            }),
            r.wf(),
    {
        let r = CommandLine {
            mode: false,
            buffer: Vec::new(),
            candidates: Vec::new(),
            history: Vec::new(),
            hist_index: None,
            snapshot: Vec::new(),
            commands: Vec::new(),
        };
        assert(views(r.candidates@) =~= Seq::<Seq<char>>::empty());
        assert(views(r.history@) =~= Seq::<Seq<char>>::empty());
        assert(cmds_view(r.commands@) =~= Seq::<(Seq<char>, Option<CompleterKind>)>::empty());
        r
    }

    /// The history entry being shown is an entry of the history.
    pub open spec fn wf(&self) -> bool {
        self.hist_index matches Some(i) ==> i < self.history@.len()
    }

    fn names_exec(&self) -> (r: Vec<Vec<char>>)
        ensures
            views(r@) == names(self@.commands),
    {
        let mut r: Vec<Vec<char>> = Vec::new();
        let mut i: usize = 0;
        while i < self.commands.len()
            invariant
                i <= self.commands@.len(),
                views(r@) == names(cmds_view(self.commands@)).take(i as int),
            decreases self.commands@.len() - i,
        {
            let ghost before = r@;
            let c = copy_chars(&self.commands[i].name);
            assert(names(cmds_view(self.commands@))[i as int] == self.commands@[i as int].name@);
            r.push(c);
            assert(views(r@) =~= views(before).push(c@));
            assert(views(r@) =~= names(cmds_view(self.commands@)).take(i + 1));
            i = i + 1;
        }
        assert(names(cmds_view(self.commands@)).take(i as int) =~= names(self@.commands));
        r
    }

    fn find_command_exec(&self, name: &Vec<char>) -> (r: Option<usize>)
        ensures
            match r {
                Some(i) => find_command(self@.commands, name@, 0) == Some(i as int) && i < self.commands@.len(),
                None => find_command(self@.commands, name@, 0) is None,
            },
    {
        let mut i: usize = 0;
        while i < self.commands.len()
            invariant
                i <= self.commands@.len(),
                find_command(self@.commands, name@, 0) == find_command(self@.commands, name@, i as int),
            decreases self.commands@.len() - i,
        {
            if chars_eq(&self.commands[i].name, name) {
                return Some(i);
            }
            i = i + 1;
        }
        None
    }

    fn completer_exec(&self, name: &Vec<char>) -> (r: Option<CompleterKind>)
        ensures
            r == completer_of(self@.commands, name@),
    {
        match self.find_command_exec(name) {
            Some(i) => self.commands[i].completer,
            None => None,
        }
    }

    fn candidates_exec(&self) -> (r: Vec<Vec<char>>)
        ensures
            views(r@) == candidates_for(self@.commands, self@.buffer),
    {
        let t = split_tokens(&self.buffer);
        let ew = self.buffer.len() > 0 && is_whitespace(self.buffer[self.buffer.len() - 1]);
        if t.len() == 0 {
            self.names_exec()
        } else if t.len() == 1 && !ew {
            let all = self.names_exec();
            filter_suggestions(&t[0], &all)
        } else {
            let empty: Vec<char> = Vec::new();
            let prefix = if ew {
                &empty
            } else {
                &t[t.len() - 1]
            };
            match self.completer_exec(&t[0]) {
                Some(k) => complete_with(k, prefix),
                None => {
                    let r: Vec<Vec<char>> = Vec::new();
                    assert(views(r@) =~= Seq::<Seq<char>>::empty());
                    r
                },
            }
        }
    }

    /// Brings the completions up to date with the line.
    pub fn refresh_candidates(&mut self)
        ensures
            final(self)@ == refresh(old(self)@),
            final(self).history@ == old(self).history@,
            final(self).hist_index == old(self).hist_index,
    {
        if !self.mode {
            self.candidates.clear();
            assert(views(self.candidates@) =~= Seq::<Seq<char>>::empty());
            return;
        }
        self.candidates = self.candidates_exec();
    }

    /// Replaces the line.
    pub fn set_buffer(&mut self, value: Vec<char>)
        ensures
            final(self)@ == with_buffer(old(self)@, value@),
            final(self).history@ == old(self).history@,
            final(self).hist_index == old(self).hist_index,
    {
        self.buffer = value;
        self.refresh_candidates();
    }

    /// Empties the line.
    pub fn clear_buffer(&mut self)
        ensures
            final(self)@ == with_buffer(old(self)@, Seq::empty()),
            final(self).history@ == old(self).history@,
            final(self).hist_index == old(self).hist_index,
    {
        self.set_buffer(Vec::new());
    }

    /// Appends text to the line.
    pub fn push_str(&mut self, s: &str)
        ensures
            final(self)@ == with_buffer(old(self)@, old(self)@.buffer + s@),
            final(self).history@ == old(self).history@,
            final(self).hist_index == old(self).hist_index,
    {
        let extra = chars_of(s);
        let mut b = copy_chars(&self.buffer);
        append_chars(&mut b, &extra);
        self.set_buffer(b);
    }

    /// Removes the last character of the line.
    pub fn pop_char(&mut self)
        ensures
            final(self)@ == with_buffer(
                old(self)@,
                if old(self)@.buffer.len() > 0 {
                    old(self)@.buffer.drop_last()
                } else {
                    old(self)@.buffer
                },
            ),
            final(self).history@ == old(self).history@,
            final(self).hist_index == old(self).hist_index,
    {
        let mut b = copy_chars(&self.buffer);
        let ghost b0 = b@;
        b.pop();
        assert(b0.len() > 0 ==> b@ =~= b0.drop_last());
        self.set_buffer(b);
    }

    /// Opens the command line with an empty line.
    pub fn enter_mode(&mut self)
        ensures
            final(self)@ == enter_spec(old(self)@),
            final(self).history@ == old(self).history@,
            final(self).hist_index == old(self).hist_index,
    {
        if !self.mode {
            self.mode = true;
            self.clear_buffer();
        }
    }

    /// Closes the command line, forgetting the line, the completions and the
    /// history browsing.
    pub fn exit_mode(&mut self)
        ensures
            final(self)@ == exit_spec(old(self)@),
            final(self).history@ == old(self).history@,
            old(self).mode ==> final(self).hist_index is None,
            !old(self).mode ==> final(self).hist_index == old(self).hist_index,
    {
        if self.mode {
            self.mode = false;
            self.buffer.clear();
            self.candidates.clear();
            self.hist_index = None;
            self.snapshot.clear();
            assert(views(self.candidates@) =~= Seq::<Seq<char>>::empty());
        }
    }

    /// Completes with `matches` for the typed `prefix`, as
    /// `apply_completion_spec` says.
    pub fn apply_completion(&mut self, prefix: &Vec<char>, matches: Vec<Vec<char>>, replace_last: bool)
        requires
            !apply_slices_badly(old(self)@, prefix@, views(matches@), replace_last),
        ensures
            final(self)@ == apply_completion_spec(old(self)@, prefix@, views(matches@), replace_last),
            final(self).history@ == old(self).history@,
            final(self).hist_index == old(self).hist_index,
    {
        let ghost v0 = self@;
        let ghost m = views(matches@);
        if matches.len() == 0 {
            self.candidates.clear();
            assert(views(self.candidates@) =~= Seq::<Seq<char>>::empty());
            return;
        }
        let l = longest_common_prefix(&matches);
        let single = matches.len() == 1;
        let completion = if utf8_len_of(&l) > utf8_len_of(prefix) {
            l
        } else if single {
            copy_chars(&matches[0])
        } else {
            self.candidates = matches;
            return;
        };
        assert(completion_text(prefix@, m) == Some(completion@));
        self.candidates.clear();
        assert(views(self.candidates@) =~= Seq::<Seq<char>>::empty());
        let blen = self.buffer.len();
        let mut b: Vec<char> = if replace_last {
            match last_ws_exec(&self.buffer) {
                Some(i) => slice_chars(&self.buffer, 0, i + 1),
                None => Vec::new(),
            }
        } else {
            copy_chars(&self.buffer)
        };
        append_chars(&mut b, &completion);
        let ends_space = completion.len() > 0 && completion[completion.len() - 1] == ' ';
        if single && !ends_space {
            b.push(' ');
        }
        assert(b@ =~= completed_line(v0.buffer, completion@, single, replace_last));
        self.set_buffer(b);
    }

    /// Tab: completes the word being typed.
    pub fn complete_current(&mut self)
        requires
            !complete_slices_badly(old(self)@),
        ensures
            final(self)@ == complete_spec(old(self)@),
            final(self).history@ == old(self).history@,
            final(self).hist_index == old(self).hist_index,
    {
        let t = split_tokens(&self.buffer);
        let ew = self.buffer.len() > 0 && is_whitespace(self.buffer[self.buffer.len() - 1]);
        if t.len() == 0 {
            let all = self.names_exec();
            let empty: Vec<char> = Vec::new();
            self.apply_completion(&empty, all, false);
            return;
        }
        if t.len() == 1 && !ew {
            let all = self.names_exec();
            let m = filter_suggestions(&t[0], &all);
            self.apply_completion(&t[0], m, true);
            return;
        }
        let empty: Vec<char> = Vec::new();
        let prefix = if ew {
            copy_chars(&empty)
        } else {
            copy_chars(&t[t.len() - 1])
        };
        match self.completer_exec(&t[0]) {
            Some(k) => {
                let m = complete_with(k, &prefix);
                self.apply_completion(&prefix, m, !ew);
            },
            None => {},
        }
    }

    /// Whether Tab would cut the line inside a character
    /// (`complete_slices_badly`): the caller tests this before handing Tab
    /// over.
    pub fn tab_slices_badly(&self) -> (r: bool)
        ensures
            r == complete_slices_badly(self@),
    {
        let t = split_tokens(&self.buffer);
        let ew = self.buffer.len() > 0 && is_whitespace(self.buffer[self.buffer.len() - 1]);
        if t.len() == 0 || ew {
            return false;
        }
        let prefix = copy_chars(&t[t.len() - 1]);
        let m = if t.len() == 1 {
            let all = self.names_exec();
            filter_suggestions(&t[0], &all)
        } else {
            match self.completer_exec(&t[0]) {
                Some(k) => complete_with(k, &prefix),
                None => {
                    return false;
                },
            }
        };
        if m.len() == 0 {
            return false;
        }
        let l = longest_common_prefix(&m);
        if !(utf8_len_of(&l) > utf8_len_of(&prefix) || m.len() == 1) {
            return false;
        }
        match last_ws_exec(&self.buffer) {
            Some(i) => (self.buffer[i] as u32) >= 0x80,
            None => false,
        }
    }

    /// What `line` asks to run.
    pub fn execute_command(&self, line: &Vec<char>) -> (r: CommandRun)
        ensures
            r@ == execute_spec(self@.commands, line@),
    {
        let mut t = split_tokens(line);
        if t.len() == 0 {
            return CommandRun::Nothing;
        }
        assert(views(t@) =~= tokens(line@));
        let ghost tv = views(t@);
        let name = t.remove(0);
        assert(name@ == tv[0]);
        assert(views(t@) =~= tv.drop_first());
        match self.find_command_exec(&name) {
            Some(_) => CommandRun::Run { name, args: t },
            None => CommandRun::Unknown(name),
        }
    }

    /// Enter: runs the line, as `submit_spec` says.
    pub fn submit_command(&mut self) -> (r: CommandRun)
        requires
            old(self).wf(),
        ensures
            final(self)@ == submit_spec(old(self)@).0,
            r@ == submit_spec(old(self)@).1,
            final(self).wf(),
    {
        let (a, b) = trim_range(&self.buffer, 0, self.buffer.len());
        assert(self.buffer@.subrange(0, self.buffer@.len() as int) =~= self.buffer@);
        let cmd = slice_chars(&self.buffer, a, b);
        self.exit_mode();
        if cmd.len() == 0 {
            return CommandRun::Nothing;
        }
        let n = self.history.len();
        let repeat = n > 0 && chars_eq(&self.history[n - 1], &cmd);
        if !repeat {
            let ghost h0 = self.history@;
            self.history.push(copy_chars(&cmd));
            assert(views(self.history@) =~= views(h0).push(cmd@));
        }
        self.execute_command(&cmd)
    }

    /// Up: the previous history entry.
    pub fn history_prev(&mut self)
        requires
            old(self).wf(),
        ensures
            final(self)@ == history_prev_spec(old(self)@),
            final(self).wf(),
    {
        let n = self.history.len();
        if n == 0 {
            return;
        }
        let next = match self.hist_index {
            None => {
                self.snapshot = copy_chars(&self.buffer);
                n - 1
            },
            Some(i) => if i > 0 {
                i - 1
            } else {
                0
            },
        };
        self.hist_index = Some(next);
        let value = copy_chars(&self.history[next]);
        self.set_buffer(value);
    }

    /// Down: the next history entry, or the line typed before browsing.
    pub fn history_next(&mut self)
        requires
            old(self).wf(),
        ensures
            final(self)@ == history_next_spec(old(self)@),
            final(self).wf(),
    {
        let n = self.history.len();
        if n == 0 {
            return;
        }
        let i = match self.hist_index {
            None => {
                return;
            },
            Some(i) => i,
        };
        if i + 1 >= n {
            self.hist_index = None;
            let value = copy_chars(&self.snapshot);
            self.set_buffer(value);
        } else {
            self.hist_index = Some(i + 1);
            let value = copy_chars(&self.history[i + 1]);
            self.set_buffer(value);
        }
    }

    /// A key while the command line is open, as `command_key_spec` says;
    /// `false` when it is closed.
    pub fn handle_command_key(&mut self, k: Key) -> (r: (bool, CommandRun))
        requires
            old(self).wf(),
            old(self).mode && k == Key::Tab ==> !complete_slices_badly(old(self)@),
        ensures
            final(self).wf(),
            !old(self).mode ==> !r.0 && final(self)@ == old(self)@ && r.1@ == CommandRunView::Nothing,
            old(self).mode ==> r.0 && final(self)@ == command_key_spec(old(self)@, k).0 && r.1@
                == command_key_spec(old(self)@, k).1,
    {
        if !self.mode {
            return (false, CommandRun::Nothing);
        }
        match k {
            Key::Tab => self.complete_current(),
            Key::Backspace => self.pop_char(),
            Key::Up => self.history_prev(),
            Key::Down => self.history_next(),
            Key::Escape => self.exit_mode(),
            Key::Normal(c) => {
                if c == '\n' {
                    let run = self.submit_command();
                    return (true, run);
                }
                let mut b = copy_chars(&self.buffer);
                b.push(c);
                self.set_buffer(b);
            },
            _ => {},
        }
        (true, CommandRun::Nothing)
    }

    /// What the command line does with a key, as `on_key_spec` says: whether
    /// it took the key, and what to run.
    pub fn on_key(&mut self, k: Key) -> (r: (bool, CommandRun))
        requires
            old(self).wf(),
            old(self).mode && k == Key::Tab ==> !complete_slices_badly(old(self)@),
        ensures
            final(self).wf(),
            final(self)@ == on_key_spec(old(self)@, k).0,
            r.0 == on_key_spec(old(self)@, k).1,
            r.1@ == on_key_spec(old(self)@, k).2,
    {
        let routed = match k {
            Key::Backspace | Key::Escape | Key::Tab | Key::Up | Key::Down => true,
            Key::Normal(c) => c == '\n' || (' ' <= c && c <= '~'),
            _ => false,
        };
        let swallowed = match k {
            Key::Lower(c) | Key::Upper(c) | Key::Ctrl(c) => 'a' <= c && c <= 'z',
            Key::Left | Key::Right | Key::Enter => true,
            _ => false,
        };
        if k == Key::Normal('/') && !self.mode {
            self.enter_mode();
            (true, CommandRun::Nothing)
        } else if routed {
            self.handle_command_key(k)
        } else if swallowed {
            (self.mode, CommandRun::Nothing)
        } else {
            (false, CommandRun::Nothing)
        }
    }

    /// Pasted text goes into the open command line.
    pub fn on_paste(&mut self, data: &str) -> (r: bool)
        requires
            old(self).wf(),
        ensures
            final(self).wf(),
            r == old(self).mode,
            old(self).mode ==> final(self)@ == with_buffer(old(self)@, old(self)@.buffer + data@),
            !old(self).mode ==> final(self)@ == old(self)@,
    {
        if !self.mode {
            return false;
        }
        self.push_str(data);
        true
    }

    /// Registers a command, or changes the completer of the command of that
    /// name.
    pub fn register_command(&mut self, name: &str, completer: Option<CompleterKind>)
        requires
            old(self).wf(),
        ensures
            final(self).wf(),
            final(self)@ == (CommandLineView {
                commands: register_spec(old(self)@.commands, name@, completer),
                ..old(self)@
            }),
    {
        let n = chars_of(name);
        let ghost c0 = self.commands@;
        match self.find_command_exec(&n) {
            Some(i) => {
                proof {
                    lemma_find_command_found(cmds_view(c0), n@, 0);
                }
                self.commands.set(i, CommandSpec { name: n, completer });
                assert(cmds_view(self.commands@) =~= cmds_view(c0).update(i as int, (name@, completer)));
            },
            None => {
                self.commands.push(CommandSpec { name: n, completer });
                assert(cmds_view(self.commands@) =~= cmds_view(c0).push((name@, completer)));
            },
        }
    }

    /// Registers the built-in commands.
    pub fn register_commands(&mut self)
        requires
            old(self).wf(),
        ensures
            final(self).wf(),
            final(self)@ == (CommandLineView { commands: builtin_registered(old(self)@.commands), ..old(self)@ }),
    {
        self.register_command("help", None);
        self.register_command("lang", Some(CompleterKind::Lang));
        self.register_command("seek", Some(CompleterKind::Seek));
        self.register_command("volume", Some(CompleterKind::Volume));
        self.register_command("pause", None);
        self.register_command("resume", None);
        self.register_command("toggle", None);
        self.register_command("next", None);
        self.register_command("quit", None);
        self.register_command("exit", None);
    }
}

/// The commands after registering `name` with `completer`: the command of
/// that name changes its completer, or the command is added at the end.
pub open spec fn register_spec(cmds: Seq<(Seq<char>, Option<CompleterKind>)>, name: Seq<char>, completer: Option<CompleterKind>) -> Seq<(Seq<char>, Option<CompleterKind>)> {
    match find_command(cmds, name, 0) {
        Some(i) => cmds.update(i, (name, completer)),
        None => cmds.push((name, completer)),
    }
}

/// The commands after registering the built-in ones in turn.
pub open spec fn builtin_registered(c: Seq<(Seq<char>, Option<CompleterKind>)>) -> Seq<(Seq<char>, Option<CompleterKind>)> {
    let c1 = register_spec(c, "help"@, None);
    let c2 = register_spec(c1, "lang"@, Some(CompleterKind::Lang));
    let c3 = register_spec(c2, "seek"@, Some(CompleterKind::Seek));
    let c4 = register_spec(c3, "volume"@, Some(CompleterKind::Volume));
    let c5 = register_spec(c4, "pause"@, None);
    let c6 = register_spec(c5, "resume"@, None);
    let c7 = register_spec(c6, "toggle"@, None);
    let c8 = register_spec(c7, "next"@, None);
    let c9 = register_spec(c8, "quit"@, None);
    register_spec(c9, "exit"@, None)
}

pub open spec fn builtin_names() -> Seq<Seq<char>> {
    seq!["help"@, "lang"@, "seek"@, "volume"@, "pause"@, "resume"@, "toggle"@, "next"@, "quit"@, "exit"@]
}

proof fn lemma_find_command_found(cmds: Seq<(Seq<char>, Option<CompleterKind>)>, name: Seq<char>, i: int)
    requires
        0 <= i,
        find_command(cmds, name, i) is Some,
    ensures
        find_command(cmds, name, i) matches Some(k) ==> i <= k < cmds.len() && cmds[k].0 == name,
    decreases cmds.len() - i,
{
    if i < cmds.len() && cmds[i].0 != name {
        lemma_find_command_found(cmds, name, i + 1);
    }
}

// ===== help and candidate lines =====

/// `a` sorts before or with `b` in the order of `str`: character by
/// character (UTF-8 byte order is code point order), a prefix first.
pub open spec fn lex_le(a: Seq<char>, b: Seq<char>) -> bool
    decreases a.len(),
{
    if a.len() == 0 {
        true
    } else if b.len() == 0 {
        false
    } else if a[0] != b[0] {
        a[0] < b[0]
    } else {
        lex_le(a.drop_first(), b.drop_first())
    }
}

proof fn lemma_lex_total(a: Seq<char>, b: Seq<char>)
    ensures
        lex_le(a, b) || lex_le(b, a),
        lex_le(a, b) && lex_le(b, a) ==> a == b,
    decreases a.len(),
{
    if a.len() > 0 && b.len() > 0 && a[0] == b[0] {
        lemma_lex_total(a.drop_first(), b.drop_first());
        if a.drop_first() == b.drop_first() {
            assert(a =~= seq![a[0]] + a.drop_first());
            assert(b =~= seq![b[0]] + b.drop_first());
        }
    }
    if a.len() == 0 && b.len() == 0 {
        assert(a =~= b);
    }
}

proof fn lemma_lex_trans(a: Seq<char>, b: Seq<char>, c: Seq<char>)
    requires
        lex_le(a, b),
        lex_le(b, c),
    ensures
        lex_le(a, c),
    decreases a.len(),
{
    if a.len() > 0 && b.len() > 0 && c.len() > 0 && a[0] == b[0] && b[0] == c[0] {
        lemma_lex_trans(a.drop_first(), b.drop_first(), c.drop_first());
    }
}

pub open spec fn lex_sorted(s: Seq<Seq<char>>) -> bool {
    forall|i: int, j: int| 0 <= i < j < s.len() ==> lex_le(#[trigger] s[i], #[trigger] s[j])
}

fn lex_le_exec(a: &Vec<char>, b: &Vec<char>) -> (r: bool)
    ensures
        r == lex_le(a@, b@),
{
    let mut i: usize = 0;
    assert(a@.skip(0) =~= a@);
    assert(b@.skip(0) =~= b@);
    while i < a.len() && i < b.len() && a[i] == b[i]
        invariant
            i <= a@.len(),
            i <= b@.len(),
            lex_le(a@, b@) == lex_le(a@.skip(i as int), b@.skip(i as int)),
        decreases a@.len() - i,
    {
        assert(a@.skip(i as int).drop_first() =~= a@.skip(i + 1));
        assert(b@.skip(i as int).drop_first() =~= b@.skip(i + 1));
        i = i + 1;
    }
    if i == a.len() {
        true
    } else if i == b.len() {
        false
    } else {
        a[i] < b[i]
    }
}

/// Sorts words in the order of `str`.
pub fn sort_words(v: Vec<Vec<char>>) -> (r: Vec<Vec<char>>)
    ensures
        lex_sorted(views(r@)),
        views(r@).to_multiset() == views(v@).to_multiset(),
{
    broadcast use vstd::seq_lib::group_to_multiset_ensures;

    let mut out: Vec<Vec<char>> = Vec::new();
    let mut src = v;
    let ghost all = views(src@);
    assert(views(out@).to_multiset().add(views(src@).to_multiset()) =~= all.to_multiset()) by {
        broadcast use vstd::multiset::group_multiset_axioms;

        assert(views(out@) =~= Seq::<Seq<char>>::empty());
    }
    while src.len() > 0
        invariant
            lex_sorted(views(out@)),
            views(out@).to_multiset().add(views(src@).to_multiset()) == all.to_multiset(),
        decreases src@.len(),
    {
        let ghost s0 = views(src@);
        let x = src.pop().unwrap();
        proof {
            assert(s0 =~= views(src@).push(x@));
        }
        let mut j = out.len();
        let mut go = j > 0 && !lex_le_exec(&out[j - 1], &x);
        while go
            invariant
                j <= out@.len(),
                forall|i: int| j <= i < out@.len() ==> !lex_le(#[trigger] views(out@)[i], x@),
                go ==> j > 0 && !lex_le(views(out@)[j - 1], x@),
                !go ==> j == 0 || lex_le(views(out@)[j - 1], x@),
            decreases j,
        {
            j = j - 1;
            go = j > 0 && !lex_le_exec(&out[j - 1], &x);
        }
        let ghost o0 = views(out@);
        let ghost xv = x@;
        out.insert(j, x);
        proof {
            assert(views(out@) =~= o0.insert(j as int, xv));
            vstd::seq_lib::to_multiset_insert(o0, j as int, xv);
            broadcast use vstd::multiset::group_multiset_axioms;

            vstd::seq_lib::to_multiset_build(views(src@), xv);
            assert(s0.to_multiset() == views(src@).to_multiset().insert(xv));
            assert(views(out@).to_multiset().add(views(src@).to_multiset()) =~= o0.to_multiset().add(
                s0.to_multiset(),
            ));
            let o = views(out@);
            assert forall|a: int, b: int| 0 <= a < b < o.len() implies lex_le(#[trigger] o[a], #[trigger] o[b]) by {
                if a < j && b < j {
                    assert(o[a] == o0[a] && o[b] == o0[b]);
                } else if a < j && b == j {
                    assert(o[a] == o0[a]);
                    assert(lex_le(o0[j - 1], xv));
                    if a < j - 1 {
                        assert(lex_le(o0[a], o0[j - 1]));
                        lemma_lex_trans(o0[a], o0[j - 1], xv);
                    }
                } else if a < j && b > j {
                    assert(o[a] == o0[a] && o[b] == o0[b - 1]);
                } else if a == j {
                    assert(o[b] == o0[b - 1]);
                    assert(!lex_le(o0[b - 1], xv));
                    lemma_lex_total(o0[b - 1], xv);
                } else {
                    assert(o[a] == o0[a - 1] && o[b] == o0[b - 1]);
                }
            }
        }
    }
    assert(views(src@).to_multiset() =~= vstd::multiset::Multiset::<Seq<char>>::empty());
    out
}

/// The words joined with single spaces.
pub open spec fn join_words(w: Seq<Seq<char>>) -> Seq<char>
    decreases w.len(),
{
    if w.len() == 0 {
        Seq::empty()
    } else if w.len() == 1 {
        w[0]
    } else {
        join_words(w.drop_last()) + seq![' '] + w.last()
    }
}

fn join_exec(w: &Vec<Vec<char>>) -> (r: Vec<char>)
    ensures
        r@ == join_words(views(w@)),
{
    let mut r: Vec<char> = Vec::new();
    let mut i: usize = 0;
    assert(views(w@).take(0) =~= Seq::<Seq<char>>::empty());
    while i < w.len()
        invariant
            i <= w@.len(),
            r@ == join_words(views(w@).take(i as int)),
        decreases w@.len() - i,
    {
        proof {
            assert(views(w@).take(i + 1).drop_last() =~= views(w@).take(i as int));
            assert(views(w@).take(i + 1).last() == w@[i as int]@);
        }
        if i > 0 {
            r.push(' ');
        } else {
            assert(views(w@).take(1) =~= seq![w@[0]@]);
        }
        append_chars(&mut r, &w[i]);
        i = i + 1;
    }
    assert(views(w@).take(i as int) =~= views(w@));
    r
}

impl CommandLine {
    /// The command names in order, separated by spaces, for `help`.
    pub fn help_text(&self) -> (r: String)
        ensures
            exists|sorted: Seq<Seq<char>>|
                lex_sorted(sorted) && sorted.to_multiset() == names(self@.commands).to_multiset() && r@
                    == join_words(sorted),
    {
        let n = self.names_exec();
        let sorted = sort_words(n);
        let j = join_exec(&sorted);
        let r = string_of(&j);
        assert(lex_sorted(views(sorted@)) && views(sorted@).to_multiset() == names(self@.commands).to_multiset()
            && r@ == join_words(views(sorted@)));
        r
    }
}

/// Sorting the names by `lex_le` leaves exactly one possible order: two
/// sorted arrangements of the same names are equal.
pub proof fn lemma_sorted_unique(a: Seq<Seq<char>>, b: Seq<Seq<char>>)
    requires
        lex_sorted(a),
        lex_sorted(b),
        a.to_multiset() == b.to_multiset(),
    ensures
        a == b,
    decreases a.len(),
{
    broadcast use vstd::seq_lib::group_to_multiset_ensures;

    if a.len() == 0 {
        assert(b.len() == 0) by {
            vstd::seq_lib::to_multiset_len(a);
            vstd::seq_lib::to_multiset_len(b);
        }
        assert(a =~= b);
    } else {
        vstd::seq_lib::to_multiset_len(a);
        vstd::seq_lib::to_multiset_len(b);
        let x = a.last();
        let y = b.last();
        assert(a.to_multiset().count(y) > 0) by {
            vstd::seq_lib::to_multiset_contains(b, y);
            assert(b.contains(y)) by {
                assert(b[b.len() - 1] == y);
            }
        }
        assert(b.to_multiset().count(x) > 0) by {
            vstd::seq_lib::to_multiset_contains(a, x);
            assert(a.contains(x)) by {
                assert(a[a.len() - 1] == x);
            }
        }
        let ia = choose|i: int| 0 <= i < a.len() && a[i] == y;
        let ib = choose|i: int| 0 <= i < b.len() && b[i] == x;
        if ia < a.len() - 1 {
            assert(lex_le(a[ia], a[a.len() - 1]));
        }
        if ib < b.len() - 1 {
            assert(lex_le(b[ib], b[b.len() - 1]));
        }
        lemma_lex_total(x, y);
        assert(x == y);
        assert(a.drop_last().push(x) =~= a);
        assert(b.drop_last().push(y) =~= b);
        assert(a.drop_last().to_multiset() =~= a.to_multiset().remove(x));
        assert(b.drop_last().to_multiset() =~= b.to_multiset().remove(y));
        lemma_sorted_unique(a.drop_last(), b.drop_last());
    }
}

/// The state of laying candidates out in lines: the lines so far, the line
/// being filled, and whether the last line was reached.
pub open spec fn lines_step(st: (Seq<Seq<char>>, Seq<char>, bool), cand: Seq<char>, width: int, max_lines: int) -> (Seq<Seq<char>>, Seq<char>, bool) {
    let (lines, current, done) = st;
    if done {
        st
    } else {
        let extra = if current.len() == 0 {
            0int
        } else {
            1int
        };
        if utf8_len(current) + utf8_len(cand) + extra > width {
            let l2 = lines.push(current);
            if l2.len() >= max_lines {
                (l2, current, true)
            } else {
                (l2, cand, false)
            }
        } else if current.len() == 0 {
            (lines, current + cand, false)
        } else {
            (lines, current.push(' ') + cand, false)
        }
    }
}

pub open spec fn lines_fold(cands: Seq<Seq<char>>, width: int, max_lines: int) -> (Seq<Seq<char>>, Seq<char>, bool)
    decreases cands.len(),
{
    if cands.len() == 0 {
        (Seq::empty(), Seq::empty(), false)
    } else {
        lines_step(lines_fold(cands.drop_last(), width, max_lines), cands.last(), width, max_lines)
    }
}

/// The candidates laid out in lines of at most `width` bytes (a candidate
/// longer than the width gets a line of its own), at most `max_lines` of
/// them.
pub open spec fn candidate_lines(cands: Seq<Seq<char>>, width: int, max_lines: int) -> Seq<Seq<char>> {
    let (lines, current, done) = lines_fold(cands, width, max_lines);
    if done {
        lines
    } else if current.len() > 0 && lines.len() < max_lines {
        lines.push(current)
    } else {
        lines
    }
}

proof fn lemma_lines_done(c: Seq<Seq<char>>, k: int, width: int, max_lines: int)
    requires
        0 <= k <= c.len(),
        lines_fold(c.take(k), width, max_lines).2,
    ensures
        lines_fold(c, width, max_lines) == lines_fold(c.take(k), width, max_lines),
    decreases c.len() - k,
{
    if k < c.len() {
        assert(c.take(k + 1).drop_last() =~= c.take(k));
        lemma_lines_done(c, k + 1, width, max_lines);
    } else {
        assert(c.take(k) =~= c);
    }
}

/// Lays the candidates out in lines, as `candidate_lines` says.
pub fn format_candidates_lines(width: usize, candidates: &Vec<Vec<char>>, max_lines: usize) -> (r: Vec<Vec<char>>)
    ensures
        views(r@) == candidate_lines(views(candidates@), width as int, max_lines as int),
{
    let mut lines: Vec<Vec<char>> = Vec::new();
    let mut current: Vec<char> = Vec::new();
    let mut i: usize = 0;
    let ghost c = views(candidates@);
    assert(c.take(0) =~= Seq::<Seq<char>>::empty());
    assert(views(lines@) =~= Seq::<Seq<char>>::empty());
    while i < candidates.len()
        invariant
            i <= candidates@.len(),
            c == views(candidates@),
            lines_fold(c.take(i as int), width as int, max_lines as int) == (views(lines@), current@, false),
        decreases candidates@.len() - i,
    {
        proof {
            assert(c.take(i + 1).drop_last() =~= c.take(i as int));
            assert(c.take(i + 1).last() == candidates@[i as int]@);
        }
        let cand = &candidates[i];
        let extra: u128 = if current.len() == 0 {
            0
        } else {
            1
        };
        if utf8_len_of(&current) + utf8_len_of(cand) + extra > width as u128 {
            let ghost l0 = views(lines@);
            let cur = current;
            let ghost cv = cur@;
            lines.push(cur);
            assert(views(lines@) =~= l0.push(cv));
            if lines.len() >= max_lines {
                proof {
                    lemma_lines_done(c, i + 1, width as int, max_lines as int);
                }
                return lines;
            }
            current = copy_chars(cand);
        } else {
            let ghost cur0 = current@;
            if current.len() > 0 {
                current.push(' ');
            }
            append_chars(&mut current, cand);
            assert(current@ =~= if cur0.len() == 0 {
                cur0 + cand@
            } else {
                cur0.push(' ') + cand@
            });
        }
        i = i + 1;
    }
    assert(c.take(i as int) =~= c);
    if current.len() > 0 && lines.len() < max_lines {
        let ghost l0 = views(lines@);
        let ghost cv = current@;
        lines.push(current);
        assert(views(lines@) =~= l0.push(cv));
    }
    lines
}

// ===== laws =====

/// Browsing the history up and then down again gives back the line that was
/// being typed, and leaves the history.
pub proof fn lemma_history_up_down(v: CommandLineView)
    requires
        v.history.len() > 0,
        v.hist_index is None,
    ensures
        history_next_spec(history_prev_spec(v)).buffer == v.buffer,
        history_next_spec(history_prev_spec(v)).hist_index is None,
        history_next_spec(history_prev_spec(v)).history == v.history,
{
}

/// No two neighbouring entries of the history are equal.
pub open spec fn no_repeats(h: Seq<Seq<char>>) -> bool {
    forall|i: int| 0 <= i < h.len() - 1 ==> #[trigger] h[i] != h[i + 1]
}

/// Submitting keeps the history free of repeats and puts the trimmed line
/// last; the command line is closed afterwards.
pub proof fn lemma_submit_history(v: CommandLineView)
    requires
        no_repeats(v.history),
    ensures
        no_repeats(submit_spec(v).0.history),
        !submit_spec(v).0.mode,
        trim_spec(v.buffer).len() > 0 ==> submit_spec(v).0.history.last() == trim_spec(v.buffer),
        trim_spec(v.buffer).len() == 0 ==> submit_spec(v).0.history == v.history,
{
    let h = submit_spec(v).0.history;
    let cmd = trim_spec(v.buffer);
    if cmd.len() > 0 && !(v.history.len() > 0 && v.history.last() == cmd) {
        assert forall|i: int| 0 <= i < h.len() - 1 implies #[trigger] h[i] != h[i + 1] by {
            if i < v.history.len() - 1 {
                assert(h[i] == v.history[i] && h[i + 1] == v.history[i + 1]);
            } else {
                assert(h[i] == v.history.last());
            }
        }
    }
}

/// Every completion on offer starts with what was typed, and comes from the
/// list it was filtered from.
pub proof fn lemma_filter_prefix(items: Seq<Seq<char>>, p: Seq<char>)
    ensures
        forall|i: int| 0 <= i < filter_prefix(items, p).len() ==> starts_with(#[trigger] filter_prefix(items, p)[i], p)
            && items.contains(filter_prefix(items, p)[i]),
        filter_prefix(items, p).len() <= items.len(),
    decreases items.len(),
{
    if items.len() > 0 {
        lemma_filter_prefix(items.drop_last(), p);
        let rest = filter_prefix(items.drop_last(), p);
        let r = filter_prefix(items, p);
        assert forall|i: int| 0 <= i < r.len() implies starts_with(#[trigger] r[i], p) && items.contains(r[i]) by {
            if i < rest.len() {
                assert(r[i] == rest[i]);
                let k = choose|k: int| 0 <= k < items.drop_last().len() && items.drop_last()[k] == rest[i];
                assert(items[k] == rest[i]);
            } else {
                assert(r[i] == items.last());
                assert(items[items.len() - 1] == items.last());
            }
        }
    }
}

proof fn lemma_common_prefix(p: Seq<char>, s: Seq<char>)
    ensures
        starts_with(s, common_prefix(p, s)),
        starts_with(p, common_prefix(p, s)),
    decreases p.len(),
{
    if !(starts_with(s, p) || p.len() == 0) {
        lemma_common_prefix(p.drop_last(), s);
        let c = common_prefix(p.drop_last(), s);
        assert(p.subrange(0, c.len() as int) =~= p.drop_last().subrange(0, c.len() as int));
    } else {
        assert(p.subrange(0, p.len() as int) =~= p);
        if p.len() == 0 {
            assert(s.subrange(0, 0) =~= p);
        }
    }
}

proof fn lemma_starts_with_trans(a: Seq<char>, b: Seq<char>, c: Seq<char>)
    requires
        starts_with(a, b),
        starts_with(b, c),
    ensures
        starts_with(a, c),
{
    assert(a.subrange(0, c.len() as int) =~= b.subrange(0, c.len() as int));
}

/// The common prefix used for completion is a prefix of every match.
pub proof fn lemma_lcp_prefix(list: Seq<Seq<char>>)
    ensures
        forall|i: int| 0 <= i < list.len() ==> starts_with(#[trigger] list[i], lcp(list)),
    decreases list.len(),
{
    if list.len() == 1 {
        assert(list[0].subrange(0, list[0].len() as int) =~= list[0]);
    } else if list.len() > 1 {
        let d = list.drop_last();
        lemma_lcp_prefix(d);
        lemma_common_prefix(lcp(d), list.last());
        assert forall|i: int| 0 <= i < list.len() implies starts_with(#[trigger] list[i], lcp(list)) by {
            if i < list.len() - 1 {
                assert(list[i] == d[i]);
                lemma_starts_with_trans(list[i], lcp(d), lcp(list));
            }
        }
    }
}

/// Escape closes an open command line and forgets the line.
pub proof fn lemma_escape_closes(v: CommandLineView)
    requires
        v.mode,
    ensures
        !on_key_spec(v, Key::Escape).0.mode,
        on_key_spec(v, Key::Escape).0.buffer == Seq::<char>::empty(),
        on_key_spec(v, Key::Escape).1,
        on_key_spec(v, Key::Escape).0.history == v.history,
{
}


// ===== the `lang` command =====

/// The language that the name `s` (lower case) selects: a full tag such as
/// `pt-br`, or its first two letters (`zh` is `zh-cn`).
pub open spec fn language_of(s: Seq<char>) -> Option<Seq<char>> {
    if s == "en-us"@ || s == "en"@ {
        Some("en-us"@)
    } else if s == "zh-cn"@ || s == "zh"@ {
        Some("zh-cn"@)
    } else if s == "zh-tw"@ {
        Some("zh-tw"@)
    } else if s == "ko-kr"@ || s == "ko"@ {
        Some("ko-kr"@)
    } else if s == "pt-br"@ || s == "pt"@ {
        Some("pt-br"@)
    } else if s == "ru-ru"@ || s == "ru"@ {
        Some("ru-ru"@)
    } else if s == "it-it"@ || s == "it"@ {
        Some("it-it"@)
    } else if s == "tr-tr"@ || s == "tr"@ {
        Some("tr-tr"@)
    } else if s == "vi-vn"@ || s == "vi"@ {
        Some("vi-vn"@)
    } else if s == "ja-jp"@ || s == "ja"@ {
        Some("ja-jp"@)
    } else if s == "fr-fr"@ || s == "fr"@ {
        Some("fr-fr"@)
    } else if s == "de-de"@ || s == "de"@ {
        Some("de-de"@)
    } else if s == "es-es"@ || s == "es"@ {
        Some("es-es"@)
    } else {
        None
    }
}

/// The language tag that the lower-case name `s` selects.
pub fn language_for(s: &str) -> (r: Option<&'static str>)
    ensures
        match language_of(s@) {
            Some(t) => r matches Some(x) && x@ == t,
            None => r is None,
        },
{
    if same_text(s, "en-us") || same_text(s, "en") {
        Some("en-us")
    } else if same_text(s, "zh-cn") || same_text(s, "zh") {
        Some("zh-cn")
    } else if same_text(s, "zh-tw") {
        Some("zh-tw")
    } else if same_text(s, "ko-kr") || same_text(s, "ko") {
        Some("ko-kr")
    } else if same_text(s, "pt-br") || same_text(s, "pt") {
        Some("pt-br")
    } else if same_text(s, "ru-ru") || same_text(s, "ru") {
        Some("ru-ru")
    } else if same_text(s, "it-it") || same_text(s, "it") {
        Some("it-it")
    } else if same_text(s, "tr-tr") || same_text(s, "tr") {
        Some("tr-tr")
    } else if same_text(s, "vi-vn") || same_text(s, "vi") {
        Some("vi-vn")
    } else if same_text(s, "ja-jp") || same_text(s, "ja") {
        Some("ja-jp")
    } else if same_text(s, "fr-fr") || same_text(s, "fr") {
        Some("fr-fr")
    } else if same_text(s, "de-de") || same_text(s, "de") {
        Some("de-de")
    } else if same_text(s, "es-es") || same_text(s, "es") {
        Some("es-es")
    } else {
        None
    }
}

/// What the `lang` command does.
pub enum LangCommand {
    /// No language was given.
    MissingArgument,
    /// The language (in lower case) is not one of those known.
    Unsupported(String),
    /// The language with this tag is to be used.
    Selected(&'static str),
}

/// The `lang` command: its first argument, in lower case, names the
/// language.
pub fn cmd_lang(args: &Vec<String>) -> (r: LangCommand)
    ensures
        args@.len() == 0 ==> r is MissingArgument,
        args@.len() > 0 ==> match language_of(lowercase(args@[0]@)) {
            Some(t) => r matches LangCommand::Selected(x) && x@ == t,
            None => r matches LangCommand::Unsupported(l) && l@ == lowercase(args@[0]@),
        },
{
    if args.len() == 0 {
        return LangCommand::MissingArgument;
    }
    let lower = to_lowercase_of(args[0].as_str());
    match language_for(lower.as_str()) {
        Some(t) => LangCommand::Selected(t),
        None => LangCommand::Unsupported(lower),
    }
}


// ===== drawing the command line =====

/// The command line as shown: `/`, the line and a `_` cursor, cut to its
/// last `cw` characters.
pub open spec fn prompt_text(buf: Seq<char>, cw: int) -> Seq<char> {
    let t = seq!['/'] + buf + seq!['_'];
    if t.len() > cw {
        t.subrange(t.len() - cw, t.len() as int)
    } else {
        t
    }
}

/// The length of the longest line.
pub open spec fn max_len(s: Seq<Seq<char>>) -> int
    decreases s.len(),
{
    if s.len() == 0 {
        0
    } else if s.last().len() > max_len(s.drop_last()) {
        s.last().len() as int
    } else {
        max_len(s.drop_last())
    }
}

pub open spec fn min_int(a: int, b: int) -> int {
    if a < b {
        a
    } else {
        b
    }
}

/// Where the command line and its completions go on a terminal of `cw` x
/// `ch` cells.
pub struct CommandLayout {
    /// The text of the command line.
    pub text: String,
    /// The left edge and the width of the completion rows.
    pub popup_x: isize,
    pub popup_w: usize,
    /// Each completion and its row.
    pub rows: Vec<(isize, String)>,
    /// The top row of the 3-row bar of the command line.
    pub bar_y: isize,
}

pub struct CommandLayoutView {
    pub text: Seq<char>,
    pub popup_x: int,
    pub popup_w: int,
    pub rows: Seq<(int, Seq<char>)>,
    pub bar_y: int,
}

impl View for CommandLayout {
    type V = CommandLayoutView;

    open spec fn view(&self) -> CommandLayoutView {
        CommandLayoutView {
            text: self.text@,
            popup_x: self.popup_x as int,
            popup_w: self.popup_w as int,
            rows: self.rows@.map_values(|r: (isize, String)| (r.0 as int, r.1@)),
            bar_y: self.bar_y as int,
        }
    }
}

/// The bar of the command line sits 3 rows above the bottom; up to 6
/// completions (fewer on a low terminal) stand just above it, starting
/// under the cursor but kept on screen, as wide as the longest; the bar
/// moves down by as many rows as fit above it.
pub open spec fn command_layout_spec(cw: int, ch: int, buf: Seq<char>, cands: Seq<Seq<char>>) -> CommandLayoutView {
    let text = prompt_text(buf, cw);
    let cursor_x = 2 + (if text.len() > 0 { text.len() - 1 } else { 0 });
    let y = ch - 3;
    let max_lines = min_int(ch - 1, 6);
    if cands.len() > 0 {
        let lines = cands.take(min_int(cands.len() as int, max_lines));
        let line_count = min_int(lines.len() as int, y);
        let start_y = y - line_count;
        let pw = min_int(max_len(lines), cw);
        let px = min_int(cursor_x, cw - pw);
        CommandLayoutView {
            text,
            popup_x: px,
            popup_w: if pw > 1 { pw } else { 1 },
            rows: Seq::new(lines.len(), |i: int| (start_y + i, lines[i])),
            bar_y: start_y + line_count,
        }
    } else {
        CommandLayoutView { text, popup_x: 0, popup_w: 0, rows: seq![], bar_y: y }
    }
}

proof fn lemma_max_len_push(s: Seq<Seq<char>>, x: Seq<char>)
    ensures
        max_len(s.push(x)) == (if x.len() > max_len(s) { x.len() as int } else { max_len(s) }),
{
    assert(s.push(x).drop_last() =~= s);
}

proof fn lemma_max_len_bound(s: Seq<Seq<char>>)
    ensures
        max_len(s) >= 0,
        forall|i: int| 0 <= i < s.len() ==> s[i].len() <= max_len(s),
    decreases s.len(),
{
    if s.len() > 0 {
        lemma_max_len_bound(s.drop_last());
        assert forall|i: int| 0 <= i < s.len() implies s[i].len() <= max_len(s) by {
            if i < s.len() - 1 {
                assert(s[i] == s.drop_last()[i]);
            }
        }
    }
}

/// Where the command line and its completions go.
pub fn command_layout(cw: usize, ch: usize, buf: &Vec<char>, cands: &Vec<Vec<char>>) -> (r: CommandLayout)
    requires
        4 <= cw <= 0x3fff_ffff,
        4 <= ch <= 0x3fff_ffff,
        buf@.len() + 2 <= usize::MAX,
    ensures
        r@ == command_layout_spec(cw as int, ch as int, buf@, views(cands@)),
        0 <= r.popup_x <= cw,
        r.popup_w <= cw,
        0 <= r.bar_y <= ch,
        forall|i: int| 0 <= i < r.rows@.len() ==> 0 <= (#[trigger] r.rows@[i]).0 <= ch,
{
    let ghost full = seq!['/'] + buf@ + seq!['_'];
    let total = buf.len() + 2;
    let skip: usize = if total > cw {
        total - cw
    } else {
        0
    };
    let mut text = String::new();
    let mut k: usize = 0;
    while k < total
        invariant
            total == full.len(),
            full == seq!['/'] + buf@ + seq!['_'],
            skip <= total,
            k <= total,
            total == buf@.len() + 2,
            text@ == full.subrange(skip as int, if k > skip { k as int } else { skip as int }),
        decreases total - k,
    {
        let c = if k == 0 {
            '/'
        } else if k == total - 1 {
            '_'
        } else {
            buf[k - 1]
        };
        proof {
            assert(full[k as int] == c);
        }
        if k >= skip {
            let ghost t0 = text@;
            text.push(c);
            proof {
                assert(text@ =~= full.subrange(skip as int, k + 1));
            }
        }
        k = k + 1;
    }
    proof {
        if total <= cw {
            assert(full.subrange(0, total as int) =~= full);
        }
        assert(text@ =~= prompt_text(buf@, cw as int));
    }
    let tlen = total - skip;
    assert(tlen <= cw);
    let cursor_x: isize = 2 + (if tlen > 0 { tlen - 1 } else { 0 }) as isize;
    let y: isize = ch as isize - 3;
    let max_lines: usize = if ch - 1 < 6 {
        ch - 1
    } else {
        6
    };
    let ghost cv = views(cands@);
    if cands.len() == 0 {
        let r = CommandLayout { text, popup_x: 0, popup_w: 0, rows: Vec::new(), bar_y: y };
        proof {
            assert(r@.rows =~= Seq::<(int, Seq<char>)>::empty());
        }
        return r;
    }
    let n = if cands.len() < max_lines {
        cands.len()
    } else {
        max_lines
    };
    let ghost lines = cv.take(n as int);
    let line_count: usize = if n < y as usize {
        n
    } else {
        y as usize
    };
    assert(line_count <= ch - 3);
    let start_y: isize = y - line_count as isize;
    let mut longest: usize = 0;
    let mut i: usize = 0;
    while i < n
        invariant
            n <= cands@.len(),
            cv == views(cands@),
            lines == cv.take(n as int),
            i <= n,
            longest == max_len(lines.take(i as int)),
        decreases n - i,
    {
        proof {
            assert(lines.take(i + 1) =~= lines.take(i as int).push(lines[i as int]));
            lemma_max_len_push(lines.take(i as int), lines[i as int]);
            assert(lines[i as int] == cands@[i as int]@);
        }
        if cands[i].len() > longest {
            longest = cands[i].len();
        }
        i = i + 1;
    }
    proof {
        assert(lines.take(n as int) =~= lines);
    }
    let pw = if longest < cw {
        longest
    } else {
        cw
    };
    let px: isize = if cursor_x < (cw - pw) as isize {
        cursor_x
    } else {
        (cw - pw) as isize
    };
    let mut rows: Vec<(isize, String)> = Vec::new();
    let mut j: usize = 0;
    while j < n
        invariant
            n <= cands@.len(),
            n <= 6,
            cv == views(cands@),
            lines == cv.take(n as int),
            0 <= start_y <= ch - 3,
            ch <= 0x3fff_ffff,
            j <= n,
            rows@.len() == j,
            forall|t: int|
                0 <= t < j ==> (#[trigger] rows@[t]).0 == start_y + t && rows@[t].1@ == lines[t],
            start_y + n <= ch,
        decreases n - j,
    {
        let s = crate::text::string_of(&cands[j]);
        proof {
            assert(lines[j as int] == cands@[j as int]@);
        }
        rows.push((start_y + j as isize, s));
        j = j + 1;
    }
    let r = CommandLayout {
        text,
        popup_x: px,
        popup_w: if pw > 1 {
            pw
        } else {
            1
        },
        rows,
        bar_y: start_y + line_count as isize,
    };
    proof {
        let spec_r = command_layout_spec(cw as int, ch as int, buf@, cv);
        assert(r@.rows =~= spec_r.rows);
    }
    r
}

/// The cells after drawing `text` from the corner of a one-row box at
/// `(x, y)`, `w` wide, in color `fg`.
pub open spec fn put_row_cells(
    width: int,
    height: int,
    pitch: int,
    cells: Seq<Cell>,
    halves: Seq<Color>,
    x: int,
    y: int,
    w: int,
    fg: Color,
    text: Seq<char>,
) -> Seq<Cell> {
    let tb = TextBox {
        info: TextBoxInfo { x: x as isize, y: y as isize, w: w as usize, h: 1, i: x as isize, j: y as isize, autowrap: false },
        default_fg: Some(fg),
        default_bg: None,
    };
    if w == 0 {
        cells
    } else {
        put_in_box_cells(width, height, pitch, cells, halves, tb, text, None, None).cells
    }
}

/// The cells after drawing the completion rows, the first `n` of them.
pub open spec fn popup_cells(
    width: int,
    height: int,
    pitch: int,
    cells: Seq<Cell>,
    halves: Seq<Color>,
    l: CommandLayoutView,
    fg: Color,
    n: int,
) -> Seq<Cell>
    decreases n,
{
    if n <= 0 {
        cells
    } else {
        let c = popup_cells(width, height, pitch, cells, halves, l, fg, n - 1);
        put_row_cells(width, height, pitch, c, halves, l.popup_x, l.rows[n - 1].0, l.popup_w, fg, l.rows[n - 1].1)
    }
}

/// Draws the command line and its completions, when it is open, in color
/// `fg` (the shading below them is drawn first, by the caller).
pub fn render_command(cl: &CommandLine, grid: &mut CellGrid, halves: &Vec<Color>, tb: &mut TextBox, fg: Color)
    requires
        old(grid).wf(),
        halves@.len() == old(grid).cells@.len(),
        4 <= old(grid).width <= 0x3fff_ffff,
        4 <= old(grid).height <= 0x3fff_ffff,
        cl.buffer@.len() + 2 <= usize::MAX,
    ensures
        final(grid).wf(),
        final(grid).width == old(grid).width,
        final(grid).height == old(grid).height,
        final(grid).pitch == old(grid).pitch,
        !cl.mode ==> final(grid).cells@ == old(grid).cells@,
        cl.mode ==> ({
            let l = command_layout_spec(old(grid).width as int, old(grid).height as int, cl.buffer@, views(cl.candidates@));
            let (w, h, p) = (old(grid).width as int, old(grid).height as int, old(grid).pitch as int);
            let c = popup_cells(w, h, p, old(grid).cells@, halves@, l, fg, l.rows.len() as int);
            final(grid).cells@ == put_row_cells(w, h, p, c, halves@, 2, l.bar_y + 1, w - 4, fg, l.text)
        }),
{
    if !cl.mode {
        return;
    }
    let ghost g0 = *grid;
    let l = command_layout(grid.width, grid.height, &cl.buffer, &cl.candidates);
    let ghost lv = l@;
    let mut i: usize = 0;
    while i < l.rows.len()
        invariant
            grid.wf(),
            grid.width == g0.width,
            grid.height == g0.height,
            grid.pitch == g0.pitch,
            halves@.len() == grid.cells@.len(),
            lv == l@,
            lv == command_layout_spec(g0.width as int, g0.height as int, cl.buffer@, views(cl.candidates@)),
            4 <= g0.width <= 0x3fff_ffff,
            4 <= g0.height <= 0x3fff_ffff,
            0 <= l.popup_x <= g0.width,
            l.popup_w <= g0.width,
            0 <= l.bar_y <= g0.height,
            forall|t: int| 0 <= t < l.rows@.len() ==> 0 <= (#[trigger] l.rows@[t]).0 <= g0.height,
            i <= l.rows@.len(),
            grid.cells@ == popup_cells(
                g0.width as int,
                g0.height as int,
                g0.pitch as int,
                g0.cells@,
                halves@,
                lv,
                fg,
                i as int,
            ),
        decreases l.rows@.len() - i,
    {
        proof {
            assert(lv.rows[i as int] == (l.rows@[i as int].0 as int, l.rows@[i as int].1@));
        }
        let row_y = l.rows[i].0;
        textbox(tb, l.popup_x, row_y, l.popup_w, 1, false);
        textbox_default_color(tb, Some(fg), None);
        put(grid, halves, tb, l.rows[i].1.as_str(), None, None);
        i = i + 1;
    }
    textbox(tb, 2, l.bar_y + 1, grid.width - 4, 1, false);
    textbox_default_color(tb, Some(fg), None);
    put(grid, halves, tb, l.text.as_str(), None, None);
}

// ===== the keys of the command line =====

/// The printable characters from space to `~`, as keys.
pub open spec fn printable_keys() -> Seq<Key> {
    Seq::new(95, |i: int| Key::Normal((32 + i) as char))
}

/// Every letter as a lower-case, an upper-case and a Ctrl key, letter by
/// letter.
pub open spec fn letter_keys() -> Seq<Key> {
    Seq::new(
        78,
        |i: int|
            {
                let c = (97 + i / 3) as char;
                if i % 3 == 0 {
                    Key::Lower(c)
                } else if i % 3 == 1 {
                    Key::Upper(c)
                } else {
                    Key::Ctrl(c)
                }
            },
    )
}

/// The keys the command line listens to: `/` (open), Backspace, Escape,
/// newline, Tab, Up and Down, every printable character, every letter with
/// a modifier, Left, Right and Enter.
pub open spec fn command_keys() -> Seq<Key> {
    seq![Key::Normal('/'), Key::Backspace, Key::Escape, Key::Normal('\n'), Key::Tab, Key::Up, Key::Down]
        + printable_keys() + letter_keys() + seq![Key::Left, Key::Right, Key::Enter]
}

/// Registers the command line's keys and its paste handler.
pub fn register_input_callbacks(keys: &mut KeypressCallbacks<KeyHandler>, pastes: &mut Callbacks<PasteHandler>)
    ensures
        final(keys).registered() == old(keys).registered() + slot_entries(for_keys(command_keys(), KeyHandler::CommandLine)),
        final(pastes).registered() == old(pastes).registered().push(PasteHandler::CommandLine),
{
    let h = KeyHandler::CommandLine;
    let mut list: Vec<(Key, KeyHandler)> = vec![
        (Key::Normal('/'), h),
        (Key::Backspace, h),
        (Key::Escape, h),
        (Key::Normal('\n'), h),
        (Key::Tab, h),
        (Key::Up, h),
        (Key::Down, h),
    ];
    let ghost head = list@;
    let mut c: u8 = 32;
    while c <= 126
        invariant
            32 <= c <= 127,
            h == KeyHandler::CommandLine,
            list@ == head + for_keys(printable_keys().take(c - 32), h),
        decreases 127 - c,
    {
        list.push((Key::Normal(c as char), h));
        proof {
            assert(printable_keys()[c - 32] == Key::Normal(c as char));
            assert(for_keys(printable_keys().take(c + 1 - 32), h) =~= for_keys(printable_keys().take(c - 32), h).push(
                (Key::Normal(c as char), h),
            ));
        }
        c = c + 1;
    }
    assert(printable_keys().take(95) =~= printable_keys());
    let ghost mid = list@;
    let mut i: u8 = 0;
    while i < 26
        invariant
            i <= 26,
            h == KeyHandler::CommandLine,
            mid == head + for_keys(printable_keys(), h),
            list@ == mid + for_keys(letter_keys().take(3 * i), h),
        decreases 26 - i,
    {
        let ch = (97 + i) as char;
        list.push((Key::Lower(ch), h));
        list.push((Key::Upper(ch), h));
        list.push((Key::Ctrl(ch), h));
        proof {
            let n: int = 3 * i;
            assert(letter_keys()[n] == Key::Lower(ch));
            assert(letter_keys()[n + 1] == Key::Upper(ch));
            assert(letter_keys()[n + 2] == Key::Ctrl(ch));
            assert(for_keys(letter_keys().take(n + 3), h) =~= for_keys(letter_keys().take(n), h).push((Key::Lower(ch), h)).push(
                (Key::Upper(ch), h),
            ).push((Key::Ctrl(ch), h)));
        }
        i = i + 1;
    }
    assert(letter_keys().take(78) =~= letter_keys());
    list.push((Key::Left, h));
    list.push((Key::Right, h));
    list.push((Key::Enter, h));
    assert(list@ =~= for_keys(command_keys(), h));
    assert forall|j: int| 0 <= j < list@.len() implies key_registrable(#[trigger] list@[j].0) by {
        if 7 <= j < 102 {
            assert(list@[j].0 == printable_keys()[j - 7]);
        } else if 102 <= j < 180 {
            assert(list@[j].0 == letter_keys()[j - 102]);
        }
    }
    keys.register_all(&list);
    pastes.push(PasteHandler::CommandLine);
}

} // verus!
