//! Subtitles: parsing ASS dialogue lines and timestamps, and the queue of
//! dialogues that decides which are on screen. Times are nanoseconds.
use std::collections::VecDeque;
use vstd::prelude::*;
use crate::text::{
    chars_of, parse_i32_range, parse_signed, parse_unsigned, parse_unsigned_range, string_of,
    trim_range, trim_spec,
};
use crate::util::{Color, rgb};
use vstd::utf8::encode_utf8;

verus! {

broadcast use vstd::std_specs::vecdeque::group_vec_dequeue_axioms;

// ===== splitting =====

/// The index of the first `sep` in `s`, if any.
pub open spec fn first_index(s: Seq<char>, sep: char) -> Option<int> {
    if exists|k: int| 0 <= k < s.len() && s[k] == sep {
        Some(choose|k: int| 0 <= k < s.len() && s[k] == sep && forall|j: int| 0 <= j < k ==> s[j] != sep)
    } else {
        None
    }
}

/// `s` split at `sep` into at most `n` pieces, the last piece holding the
/// rest, as `str::splitn` gives them.
#[verifier::opaque]
pub open spec fn splitn_spec(s: Seq<char>, n: nat, sep: char) -> Seq<Seq<char>>
    decreases s.len(),
{
    if n <= 1 {
        seq![s]
    } else {
        match first_index(s, sep) {
            None => seq![s],
            Some(k) => if 0 <= k < s.len() {
                seq![s.subrange(0, k)] + splitn_spec(s.subrange(k + 1, s.len() as int), (n - 1) as nat, sep)
            } else {
                seq![s]
            },
        }
    }
}

/// `s` split at every `sep`, as `str::split` gives the pieces.
pub open spec fn split_spec(s: Seq<char>, sep: char) -> Seq<Seq<char>> {
    splitn_spec(s, s.len() + 1, sep)
}

proof fn lemma_first_index(s: Seq<char>, sep: char, k: int)
    requires
        0 <= k < s.len(),
        s[k] == sep,
        forall|j: int| 0 <= j < k ==> s[j] != sep,
    ensures
        first_index(s, sep) == Some(k),
{
    let c = choose|i: int| 0 <= i < s.len() && s[i] == sep && forall|j: int| 0 <= j < i ==> s[j] != sep;
    assert(0 <= k < s.len() && s[k] == sep && forall|j: int| 0 <= j < k ==> s[j] != sep);
    if c < k {
        assert(s[c] != sep);
    }
    if c > k {
        assert(s[k] != sep);
    }
}

proof fn lemma_splitn_more(s: Seq<char>, n: nat, sep: char)
    requires
        n >= s.len() + 1,
    ensures
        splitn_spec(s, n, sep) == splitn_spec(s, (n + 1) as nat, sep),
    decreases s.len(),
{
    reveal(splitn_spec);
    if n > 1 {
        match first_index(s, sep) {
            None => {},
            Some(k) => {
                if 0 <= k < s.len() {
                    lemma_splitn_more(s.subrange(k + 1, s.len() as int), (n - 1) as nat, sep);
                }
            },
        }
    }
}

proof fn lemma_splitn_step(s: Seq<char>, n: nat, sep: char, k: int)
    requires
        n > 1,
        0 <= k < s.len(),
        s[k] == sep,
        forall|j: int| 0 <= j < k ==> s[j] != sep,
    ensures
        splitn_spec(s, n, sep) == seq![s.subrange(0, k)] + splitn_spec(s.subrange(k + 1, s.len() as int), (n - 1) as nat, sep),
{
    reveal(splitn_spec);
    lemma_first_index(s, sep, k);
}

proof fn lemma_splitn_last(s: Seq<char>, n: nat, sep: char)
    requires
        n == 1 || forall|j: int| 0 <= j < s.len() ==> s[j] != sep,
    ensures
        splitn_spec(s, n, sep) == seq![s],
{
    reveal(splitn_spec);
    if n > 1 {
        assert(first_index(s, sep) is None);
    }
}

/// Splitting into at most `n` pieces, for `n` past the length, splits at
/// every separator.
proof fn lemma_splitn_ge(s: Seq<char>, n: nat, sep: char)
    requires
        n >= s.len() + 1,
    ensures
        splitn_spec(s, n, sep) == split_spec(s, sep),
    decreases n - (s.len() + 1),
{
    if n > s.len() + 1 {
        lemma_splitn_ge(s, (n - 1) as nat, sep);
        lemma_splitn_more(s, (n - 1) as nat, sep);
    }
}

/// A sequence holding `sep` has a first one.
proof fn lemma_first_sep(s: Seq<char>, sep: char, i: int) -> (k: int)
    requires
        0 <= i < s.len(),
        s[i] == sep,
    ensures
        0 <= k <= i,
        s[k] == sep,
        forall|j: int| 0 <= j < k ==> s[j] != sep,
    decreases i,
{
    if exists|j: int| 0 <= j < i && s[j] == sep {
        let j = choose|j: int| 0 <= j < i && s[j] == sep;
        lemma_first_sep(s, sep, j)
    } else {
        i
    }
}

/// A text whose last character is `sep`, followed by more: its pieces but
/// the empty last one, then the pieces of the rest.
pub(crate) proof fn lemma_split_concat(a: Seq<char>, b: Seq<char>, sep: char)
    requires
        a.len() > 0,
        a.last() == sep,
    ensures
        split_spec(a + b, sep) == split_spec(a, sep).drop_last() + split_spec(b, sep),
    decreases a.len(),
{
    let k = lemma_first_sep(a, sep, a.len() - 1);
    let ab = a + b;
    assert(ab[k] == sep);
    assert forall|j: int| 0 <= j < k implies ab[j] != sep by {
        assert(ab[j] == a[j]);
    }
    lemma_splitn_step(ab, ab.len() + 1, sep, k);
    let rest = ab.subrange(k + 1, ab.len() as int);
    lemma_splitn_ge(rest, ab.len() as nat, sep);
    lemma_splitn_step(a, a.len() + 1, sep, k);
    let a2 = a.subrange(k + 1, a.len() as int);
    lemma_splitn_ge(a2, a.len() as nat, sep);
    assert(ab.subrange(0, k) =~= a.subrange(0, k));
    if k == a.len() - 1 {
        assert(a2 =~= Seq::<char>::empty());
        lemma_splitn_last(a2, 1, sep);
        assert(rest =~= b);
        assert(split_spec(a, sep) =~= seq![a.subrange(0, k)] + seq![a2]);
        assert(split_spec(a, sep).drop_last() =~= seq![a.subrange(0, k)]);
    } else {
        assert(a2.last() == a.last());
        lemma_split_concat(a2, b, sep);
        lemma_splitn_nonempty(a2, a2.len() + 1, sep);
        assert(rest =~= a2 + b);
        assert((seq![a.subrange(0, k)] + split_spec(a2, sep)).drop_last() =~= seq![a.subrange(0, k)] + split_spec(a2, sep).drop_last());
    }
}

/// The empty text splits into one empty piece.
pub(crate) proof fn lemma_split_empty(sep: char)
    ensures
        split_spec(Seq::<char>::empty(), sep) == seq![Seq::<char>::empty()],
{
    lemma_splitn_last(Seq::<char>::empty(), 1, sep);
}

/// A piece without `sep` followed by `sep` splits into the piece and an
/// empty one.
pub(crate) proof fn lemma_split_line(x: Seq<char>, sep: char)
    requires
        forall|j: int| 0 <= j < x.len() ==> x[j] != sep,
    ensures
        split_spec(x.push(sep), sep) == seq![x, Seq::<char>::empty()],
{
    let s = x.push(sep);
    lemma_splitn_step(s, s.len() + 1, sep, x.len() as int);
    let rest = s.subrange(x.len() as int + 1, s.len() as int);
    assert(rest =~= Seq::<char>::empty());
    lemma_splitn_last(rest, s.len() as nat, sep);
    assert(s.subrange(0, x.len() as int) =~= x);
    assert(split_spec(s, sep) =~= seq![x, Seq::<char>::empty()]);
}

/// The first `sep` in `v[start..to]`, or `to`.
fn find_sep(v: &Vec<char>, start: usize, to: usize, sep: char) -> (k: usize)
    requires
        start <= to <= v@.len(),
    ensures
        start <= k <= to,
        k < to ==> v@[k as int] == sep,
        forall|j: int| start <= j < k ==> v@[j] != sep,
{
    let mut k = start;
    while k < to && v[k] != sep
        invariant
            start <= k <= to <= v@.len(),
            forall|j: int| start <= j < k ==> v@[j] != sep,
        decreases to - k,
    {
        k = k + 1;
    }
    k
}

/// The bounds of the pieces of `v[from..to]` split at `sep`, at most `n`
/// of them.
#[verifier::rlimit(40)]
pub fn splitn_ranges(v: &Vec<char>, from: usize, to: usize, n: usize, sep: char) -> (r: Vec<(usize, usize)>)
    requires
        from <= to <= v@.len(),
        n >= 1,
    ensures
        r@.len() == splitn_spec(v@.subrange(from as int, to as int), n as nat, sep).len(),
        forall|i: int|
            0 <= i < r@.len() ==> from <= (#[trigger] r@[i]).0 <= r@[i].1 <= to && v@.subrange(
                r@[i].0 as int,
                r@[i].1 as int,
            ) == splitn_spec(v@.subrange(from as int, to as int), n as nat, sep)[i],
{
    let ghost whole = splitn_spec(v@.subrange(from as int, to as int), n as nat, sep);
    let ghost mut done: Seq<Seq<char>> = Seq::empty();
    let mut r: Vec<(usize, usize)> = Vec::new();
    let mut start = from;
    let mut left = n;
    assert(whole =~= done + splitn_spec(v@.subrange(start as int, to as int), left as nat, sep));
    loop
        invariant
            from <= start <= to <= v@.len(),
            1 <= left,
            whole == splitn_spec(v@.subrange(from as int, to as int), n as nat, sep),
            done.len() == r@.len(),
            forall|i: int|
                0 <= i < r@.len() ==> from <= (#[trigger] r@[i]).0 <= r@[i].1 <= to && v@.subrange(
                    r@[i].0 as int,
                    r@[i].1 as int,
                ) == done[i],
            whole == done + splitn_spec(v@.subrange(start as int, to as int), left as nat, sep),
        decreases to - start, left,
    {
        let ghost rest = v@.subrange(start as int, to as int);
        let k = find_sep(v, start, to, sep);
        if left == 1 || k == to {
            proof {
                assert forall|j: int| 0 <= j < rest.len() && k == to implies rest[j] != sep by {
                    assert(rest[j] == v@[start + j]);
                }
                lemma_splitn_last(rest, left as nat, sep);
            }
            let ghost r0 = r@;
            r.push((start, to));
            proof {
                done = done.push(rest);
                assert(whole =~= done);
                assert forall|i: int| 0 <= i < r@.len() implies from <= (#[trigger] r@[i]).0 <= r@[i].1 <= to
                    && v@.subrange(r@[i].0 as int, r@[i].1 as int) == whole[i] by {
                    if i < r0.len() {
                        assert(r@[i] == r0[i]);
                    }
                }
            }
            return r;
        }
        proof {
            let kk = k - start;
            assert forall|j: int| 0 <= j < kk implies rest[j] != sep by {
                assert(rest[j] == v@[start + j]);
            }
            lemma_splitn_step(rest, left as nat, sep, kk);
            assert(rest.subrange(0, kk) =~= v@.subrange(start as int, k as int));
            assert(rest.subrange(kk + 1, rest.len() as int) =~= v@.subrange(k + 1, to as int));
            let tail = splitn_spec(v@.subrange(k + 1, to as int), (left - 1) as nat, sep);
            assert(done + (seq![v@.subrange(start as int, k as int)] + tail) =~= done.push(
                v@.subrange(start as int, k as int),
            ) + tail);
        }
        let ghost r0 = r@;
        let ghost d0 = done;
        r.push((start, k));
        proof {
            done = done.push(v@.subrange(start as int, k as int));
            assert forall|i: int| 0 <= i < r@.len() implies from <= (#[trigger] r@[i]).0 <= r@[i].1 <= to
                && v@.subrange(r@[i].0 as int, r@[i].1 as int) == done[i] by {
                if i < r0.len() {
                    assert(r@[i] == r0[i]);
                    assert(done[i] == d0[i]);
                }
            }
        }
        start = k + 1;
        left = left - 1;
    }
}

// ===== timestamps =====

/// A field read as a `u64`, zero when it is not one (`parse().unwrap_or(0)`).
pub open spec fn u64_or_zero(s: Seq<char>) -> int {
    match parse_unsigned(s, u64::MAX as int) {
        Some(x) => x,
        None => 0,
    }
}

/// The whole seconds and the milliseconds of an `H:M:S.ms` timestamp:
/// anything but three `:`-separated fields is zero, and an unreadable field
/// counts as zero.
pub open spec fn duration_parts(s: Seq<char>) -> (int, int) {
    let parts = split_spec(s, ':');
    if parts.len() != 3 {
        (0, 0)
    } else {
        let sec_parts = split_spec(parts[2], '.');
        let millis = if sec_parts.len() > 1 {
            u64_or_zero(sec_parts[1])
        } else {
            0
        };
        (u64_or_zero(parts[0]) * 3600 + u64_or_zero(parts[1]) * 60 + u64_or_zero(sec_parts[0]), millis)
    }
}

/// The timestamp in nanoseconds.
pub open spec fn parse_duration_spec(s: Seq<char>) -> int {
    duration_parts(s).0 * 1_000_000_000 + duration_parts(s).1 * 1_000_000
}

/// The timestamp's seconds fit a `Duration`: the arithmetic on them does not
/// overflow.
pub open spec fn duration_fits(s: Seq<char>) -> bool {
    duration_parts(s).0 + duration_parts(s).1 / 1000 <= u64::MAX
}

fn u64_field(v: &Vec<char>, from: usize, to: usize) -> (r: u64)
    requires
        from <= to <= v@.len(),
    ensures
        r == u64_or_zero(v@.subrange(from as int, to as int)),
{
    match parse_unsigned_range(v, from, to, u64::MAX) {
        Some(x) => x,
        None => 0,
    }
}

/// Reads an `H:M:S.ms` timestamp, in nanoseconds.
pub fn parse_duration(s: &str) -> (r: u128)
    requires
        duration_fits(s@),
        s@.len() < usize::MAX,
    ensures
        r == parse_duration_spec(s@),
{
    let v = chars_of(s);
    assert(v@.subrange(0, v@.len() as int) =~= v@);
    let parts = splitn_ranges(&v, 0, v.len(), v.len() + 1, ':');
    if parts.len() != 3 {
        return 0;
    }
    let hours = u64_field(&v, parts[0].0, parts[0].1);
    let minutes = u64_field(&v, parts[1].0, parts[1].1);
    let (a, b) = parts[2];
    let ghost p2 = v@.subrange(a as int, b as int);
    let sec_parts = splitn_ranges(&v, a, b, b - a + 1, '.');
    proof {
        assert(p2.len() == b - a);
        assert(sec_parts@.len() >= 1) by {
            lemma_splitn_nonempty(p2, (b - a + 1) as nat, '.');
        }
    }
    let seconds = u64_field(&v, sec_parts[0].0, sec_parts[0].1);
    let millis = if sec_parts.len() > 1 {
        u64_field(&v, sec_parts[1].0, sec_parts[1].1)
    } else {
        0
    };
    let total = (hours as u128) * 3600 + (minutes as u128) * 60 + (seconds as u128);
    total * 1_000_000_000 + (millis as u128) * 1_000_000
}

pub(crate) proof fn lemma_splitn_nonempty(s: Seq<char>, n: nat, sep: char)
    ensures
        splitn_spec(s, n, sep).len() >= 1,
    decreases s.len(),
{
    reveal(splitn_spec);
    if n > 1 {
        match first_index(s, sep) {
            None => {},
            Some(k) => {
                if 0 <= k < s.len() {
                    lemma_splitn_nonempty(s.subrange(k + 1, s.len() as int), (n - 1) as nat, sep);
                }
            },
        }
    }
}

// ===== dialogues =====

/// One subtitle dialogue, with the fields of an ASS `Dialogue:` line.
pub struct AssDialogue {
    /// When it should appear.
    pub start: u128,
    /// When it should disappear; zero while its end is not known.
    pub end: u128,
    pub id: u32,
    pub layer: i32,
    pub style: String,
    pub name: String,
    pub margin_l: String,
    pub margin_r: String,
    pub margin_v: String,
    pub effect: String,
    pub text: String,
    /// The time at which the dialogue was first shown (the first
    /// `get_subtitles` that found it on screen); zero until then.
    pub display_time: u128,
}

/// The mathematical dialogue.
pub struct DialogueView {
    pub start: int,
    pub end: int,
    pub id: u32,
    pub layer: i32,
    pub style: Seq<char>,
    pub name: Seq<char>,
    pub margin_l: Seq<char>,
    pub margin_r: Seq<char>,
    pub margin_v: Seq<char>,
    pub effect: Seq<char>,
    pub text: Seq<char>,
    pub display_time: int,
}

impl View for AssDialogue {
    type V = DialogueView;

    open spec fn view(&self) -> DialogueView {
        DialogueView {
            start: self.start as int,
            end: self.end as int,
            id: self.id,
            layer: self.layer,
            style: self.style@,
            name: self.name@,
            margin_l: self.margin_l@,
            margin_r: self.margin_r@,
            margin_v: self.margin_v@,
            effect: self.effect@,
            text: self.text@,
            display_time: self.display_time as int,
        }
    }
}

impl AssDialogue {
    /// A plain-text dialogue.
    pub fn new(start: u128, end: u128, text: &str) -> (r: AssDialogue)
        ensures
            r@ == (DialogueView {
                start: start as int,
                end: end as int,
                id: 0,
                layer: 0,
                style: Seq::empty(),
                name: Seq::empty(),
                margin_l: Seq::empty(),
                margin_r: Seq::empty(),
                margin_v: Seq::empty(),
                effect: Seq::empty(),
                text: text@,
                display_time: 0,
            }),
    {
        AssDialogue {
            start,
            end,
            id: 0,
            layer: 0,
            style: String::new(),
            name: String::new(),
            margin_l: String::new(),
            margin_r: String::new(),
            margin_v: String::new(),
            effect: String::new(),
            text: text.to_owned(),
            display_time: 0,
        }
    }

    /// A copy of the dialogue.
    pub fn duplicate(&self) -> (r: AssDialogue)
        ensures
            r@ == self@,
    {
        AssDialogue {
            start: self.start,
            end: self.end,
            id: self.id,
            layer: self.layer,
            style: self.style.clone(),
            name: self.name.clone(),
            margin_l: self.margin_l.clone(),
            margin_r: self.margin_r.clone(),
            margin_v: self.margin_v.clone(),
            effect: self.effect.clone(),
            text: self.text.clone(),
            display_time: self.display_time,
        }
    }
}

/// Each piece trimmed.
pub open spec fn trim_all(s: Seq<Seq<char>>) -> Seq<Seq<char>> {
    s.map_values(|p: Seq<char>| trim_spec(p))
}

/// The dialogue of the event part of an ASS line (`ReadOrder, Layer, Style,
/// Name, MarginL, MarginR, MarginV, Effect, Text`): the line is trimmed,
/// split at the first eight commas and each field trimmed; unreadable
/// numbers count as zero. `None` when there are fewer than nine fields.
pub open spec fn parse_ass_line_spec(start: int, end: int, line: Seq<char>) -> Option<DialogueView> {
    let parts = trim_all(splitn_spec(trim_spec(line), 9, ','));
    if parts.len() < 9 {
        None
    } else {
        Some(
            DialogueView {
                start,
                end,
                id: match parse_unsigned(parts[0], u32::MAX as int) {
                    Some(x) => x as u32,
                    None => 0,
                },
                layer: match parse_signed(parts[1], i32::MIN as int, i32::MAX as int) {
                    Some(x) => x as i32,
                    None => 0,
                },
                style: parts[2],
                name: parts[3],
                margin_l: parts[4],
                margin_r: parts[5],
                margin_v: parts[6],
                effect: parts[7],
                text: parts[8],
                display_time: 0,
            },
        )
    }
}

pub open spec fn opt_view(d: Option<AssDialogue>) -> Option<DialogueView> {
    match d {
        Some(x) => Some(x@),
        None => None,
    }
}

fn trimmed_field(v: &Vec<char>, from: usize, to: usize) -> (r: (usize, usize))
    requires
        from <= to <= v@.len(),
    ensures
        from <= r.0 <= r.1 <= to,
        v@.subrange(r.0 as int, r.1 as int) == trim_spec(v@.subrange(from as int, to as int)),
{
    trim_range(v, from, to)
}

fn field_string(v: &Vec<char>, from: usize, to: usize) -> (r: String)
    requires
        from <= to <= v@.len(),
    ensures
        r@ == v@.subrange(from as int, to as int),
{
    let mut s = String::new();
    crate::text::push_chars(&mut s, v, from, to);
    s
}

/// Reads the event part of an ASS dialogue line.
pub fn parse_ass_line(start: u128, end: u128, line: &str) -> (r: Option<AssDialogue>)
    ensures
        opt_view(r) == parse_ass_line_spec(start as int, end as int, line@),
{
    let v = chars_of(line);
    let (a, b) = trim_range(&v, 0, v.len());
    assert(v@.subrange(0, v@.len() as int) =~= v@);
    let ghost t = v@.subrange(a as int, b as int);
    let ranges = splitn_ranges(&v, a, b, 9, ',');
    let ghost pieces = splitn_spec(t, 9, ',');
    let ghost parts = trim_all(pieces);
    if ranges.len() < 9 {
        return None;
    }
    let mut f: Vec<(usize, usize)> = Vec::new();
    let mut i: usize = 0;
    while i < 9
        invariant
            ranges@.len() == pieces.len(),
            ranges@.len() >= 9,
            parts == trim_all(pieces),
            i <= 9,
            f@.len() == i,
            forall|j: int|
                0 <= j < ranges@.len() ==> a <= (#[trigger] ranges@[j]).0 <= ranges@[j].1 <= b && v@.subrange(
                    ranges@[j].0 as int,
                    ranges@[j].1 as int,
                ) == pieces[j],
            b <= v@.len(),
            forall|j: int|
                0 <= j < i ==> (#[trigger] f@[j]).0 <= f@[j].1 <= v@.len() && v@.subrange(
                    f@[j].0 as int,
                    f@[j].1 as int,
                ) == parts[j],
        decreases 9 - i,
    {
        let (x, y) = ranges[i];
        let p = trimmed_field(&v, x, y);
        assert(parts[i as int] == trim_spec(pieces[i as int]));
        f.push(p);
        i = i + 1;
    }
    let id = match parse_unsigned_range(&v, f[0].0, f[0].1, 4294967295) {
        Some(x) => x as u32,
        None => 0,
    };
    let layer = match parse_i32_range(&v, f[1].0, f[1].1) {
        Some(x) => x,
        None => 0,
    };
    Some(
        AssDialogue {
            start,
            end,
            id,
            layer,
            style: field_string(&v, f[2].0, f[2].1),
            name: field_string(&v, f[3].0, f[3].1),
            margin_l: field_string(&v, f[4].0, f[4].1),
            margin_r: field_string(&v, f[5].0, f[5].1),
            margin_v: field_string(&v, f[6].0, f[6].1),
            effect: field_string(&v, f[7].0, f[7].1),
            text: field_string(&v, f[8].0, f[8].1),
            display_time: 0,
        },
    )
}

// ===== the queue of dialogues =====

/// How long a dialogue stays on screen after its end, in nanoseconds.
pub const SUBTITLE_EXTRA_DISPLAY_TIME: u128 = 500_000_000;

pub open spec fn opt_views(q: Seq<Option<AssDialogue>>) -> Seq<Option<DialogueView>> {
    q.map_values(|d: Option<AssDialogue>| opt_view(d))
}

pub open spec fn dialogue_views(q: Seq<AssDialogue>) -> Seq<DialogueView> {
    q.map_values(|d: AssDialogue| d@)
}

/// A dialogue whose end is not known yet ends at `played`.
pub open spec fn close_one(d: Option<DialogueView>, played: int) -> Option<DialogueView> {
    match d {
        Some(x) => if x.end == 0 {
            Some(DialogueView { end: played, ..x })
        } else {
            d
        },
        None => None,
    }
}

/// Every dialogue whose end is not known yet ends at `played`: a new
/// dialogue (or nothing) follows them.
pub open spec fn close_open(q: Seq<Option<DialogueView>>, played: int) -> Seq<Option<DialogueView>> {
    q.map_values(|d: Option<DialogueView>| close_one(d, played))
}

/// A slot that can go: emptied, or past its end and the extra time.
pub open spec fn expired(d: Option<DialogueView>, time: int) -> bool {
    match d {
        None => true,
        Some(x) => x.end != 0 && x.end + SUBTITLE_EXTRA_DISPLAY_TIME <= time,
    }
}

/// The queue without the slots at its front that can go.
pub open spec fn drop_expired(q: Seq<Option<DialogueView>>, time: int) -> Seq<Option<DialogueView>>
    decreases q.len(),
{
    if q.len() > 0 && expired(q[0], time) {
        drop_expired(q.drop_first(), time)
    } else {
        q
    }
}

/// A dialogue is on screen at `time`: its end is not known yet, or `time` is
/// between its start and its end plus the extra time.
pub open spec fn visible(x: DialogueView, time: int) -> bool {
    x.end == 0 || (x.start <= time && time <= x.end + SUBTITLE_EXTRA_DISPLAY_TIME)
}

/// A dialogue on screen at `time` for the first time takes `time` as its
/// display time; any other slot stays as it is.
pub open spec fn stamp_one(d: Option<DialogueView>, time: int) -> Option<DialogueView> {
    match d {
        Some(x) => if x.display_time == 0 && visible(x, time) {
            Some(DialogueView { display_time: time, ..x })
        } else {
            d
        },
        None => None,
    }
}

/// The queue with every dialogue on screen at `time` for the first time
/// stamped with `time`.
pub open spec fn stamp_visible(q: Seq<Option<DialogueView>>, time: int) -> Seq<Option<DialogueView>> {
    q.map_values(|d: Option<DialogueView>| stamp_one(d, time))
}

/// The dialogues of the queue that are on screen, in queue order.
pub open spec fn on_screen(q: Seq<Option<DialogueView>>, time: int) -> Seq<DialogueView>
    decreases q.len(),
{
    if q.len() == 0 {
        Seq::empty()
    } else {
        let rest = on_screen(q.drop_last(), time);
        match q.last() {
            Some(x) => if visible(x, time) {
                rest.push(x)
            } else {
                rest
            },
            None => rest,
        }
    }
}

/// The display order: dialogues with no known end first, then by end,
/// latest first.
pub open spec fn before(a: DialogueView, b: DialogueView) -> bool {
    (a.end == 0 && b.end != 0) || (a.end != 0 && b.end != 0 && a.end > b.end)
}

/// `x` put into the ordered `s` after every element it does not come
/// before.
pub open spec fn insert_ordered(s: Seq<DialogueView>, x: DialogueView) -> Seq<DialogueView>
    decreases s.len(),
{
    if s.len() > 0 && before(x, s.last()) {
        insert_ordered(s.drop_last(), x).push(s.last())
    } else {
        s.push(x)
    }
}

/// `s` in display order; dialogues that neither comes before the other keep
/// their order (a stable sort).
pub open spec fn display_sort(s: Seq<DialogueView>) -> Seq<DialogueView>
    decreases s.len(),
{
    if s.len() == 0 {
        Seq::empty()
    } else {
        insert_ordered(display_sort(s.drop_last()), s.last())
    }
}

/// The queue after `get_subtitles(time)`, and what it returns.
pub open spec fn get_subtitles_spec(q: Seq<Option<DialogueView>>, time: int) -> (Seq<Option<DialogueView>>, Seq<DialogueView>) {
    let q1 = stamp_visible(drop_expired(q, time), time);
    (q1, display_sort(on_screen(q1, time)))
}

/// The dialogues of a stream, oldest first; an emptied slot stays as `None`
/// until it reaches the front.
pub struct SubtitleQueue {
    items: VecDeque<Option<AssDialogue>>,
}

impl View for SubtitleQueue {
    type V = Seq<Option<DialogueView>>;

    closed spec fn view(&self) -> Seq<Option<DialogueView>> {
        opt_views(self.items@)
    }
}

fn close_one_exec(d: Option<AssDialogue>, played: u128) -> (r: Option<AssDialogue>)
    ensures
        opt_view(r) == close_one(opt_view(d), played as int),
{
    match d {
        Some(mut x) => {
            if x.end == 0 {
                x.end = played;
            }
            Some(x)
        },
        None => None,
    }
}

fn stamp_one_exec(d: Option<AssDialogue>, time: u128) -> (r: Option<AssDialogue>)
    ensures
        opt_view(r) == stamp_one(opt_view(d), time as int),
{
    match d {
        Some(mut x) => {
            if x.display_time == 0 && visible_exec(&x, time) {
                x.display_time = time;
            }
            Some(x)
        },
        None => None,
    }
}

fn expired_exec(d: &Option<AssDialogue>, time: u128) -> (r: bool)
    ensures
        r == expired(opt_view(*d), time as int),
{
    match d {
        None => true,
        Some(x) => x.end != 0 && x.end <= time && time - x.end >= SUBTITLE_EXTRA_DISPLAY_TIME,
    }
}

fn visible_exec(d: &AssDialogue, time: u128) -> (r: bool)
    ensures
        r == visible(d@, time as int),
{
    d.end == 0 || (d.start <= time && (time < SUBTITLE_EXTRA_DISPLAY_TIME || time - SUBTITLE_EXTRA_DISPLAY_TIME
        <= d.end))
}

fn before_exec(a: &AssDialogue, b: &AssDialogue) -> (r: bool)
    ensures
        r == before(a@, b@),
{
    (a.end == 0 && b.end != 0) || (a.end != 0 && b.end != 0 && a.end > b.end)
}

proof fn lemma_insert_ordered_at(s: Seq<DialogueView>, x: DialogueView, j: int)
    requires
        0 <= j <= s.len(),
        forall|i: int| j <= i < s.len() ==> before(x, #[trigger] s[i]),
        j > 0 ==> !before(x, s[j - 1]),
    ensures
        insert_ordered(s, x) == s.insert(j, x),
    decreases s.len(),
{
    if s.len() > 0 && before(x, s.last()) {
        assert(j < s.len());
        lemma_insert_ordered_at(s.drop_last(), x, j);
        assert(s.drop_last().insert(j, x).push(s.last()) =~= s.insert(j, x));
    } else {
        if j < s.len() {
            assert(before(x, s[s.len() - 1]));
        }
        assert(s.push(x) =~= s.insert(j, x));
    }
}

impl SubtitleQueue {
    pub fn new() -> (r: SubtitleQueue)
        ensures
            r@ == Seq::<Option<DialogueView>>::empty(),
    {
        let r = SubtitleQueue { items: VecDeque::new() };
        assert(opt_views(r.items@) =~= Seq::<Option<DialogueView>>::empty());
        r
    }

    /// Forgets every dialogue.
    pub fn clear(&mut self)
        ensures
            final(self)@ == Seq::<Option<DialogueView>>::empty(),
    {
        self.items.clear();
        assert(opt_views(self.items@) =~= Seq::<Option<DialogueView>>::empty());
    }

    fn close_all(&mut self, played: u128)
        ensures
            final(self)@ == close_open(old(self)@, played as int),
    {
        let ghost orig = opt_views(self.items@);
        let n = self.items.len();
        let mut i: usize = 0;
        while i < n
            invariant
                i <= n,
                n == orig.len(),
                opt_views(self.items@) == orig.subrange(i as int, n as int) + close_open(orig.take(i as int), played as int),
            decreases n - i,
        {
            let ghost cur = opt_views(self.items@);
            let ghost cur = self.items@;
            assert(opt_views(cur).len() == n - i + i);
            assert(opt_views(cur)[0] == orig[i as int]);
            let front = self.items.pop_front();
            match front {
                Some(d) => {
                    let ghost dv = opt_view(d);
                    let e = close_one_exec(d, played);
                    let ghost ev = opt_view(e);
                    self.items.push_back(e);
                    proof {
                        assert(dv == opt_views(cur)[0]);
                        assert(opt_views(self.items@) =~= opt_views(cur).drop_first().push(ev));
                        assert(dv == orig[i as int]);
                        assert(close_open(orig.take(i + 1), played as int) =~= close_open(orig.take(i as int), played as int).push(close_one(dv, played as int)));
                        assert(opt_views(self.items@) =~= orig.subrange(i + 1, n as int) + close_open(orig.take(i + 1), played as int));
                    }
                },
                None => {
                    assert(false);
                },
            }
            i = i + 1;
        }
        assert(orig.subrange(n as int, n as int) + close_open(orig.take(n as int), played as int) =~= close_open(orig, played as int));
    }

    /// A new ASS dialogue line arrives: the dialogues without a known end end
    /// at `played`, and the line is queued if it reads as a dialogue.
    pub fn push_ass(&mut self, start: u128, end: u128, ass: &str, played: u128)
        ensures
            final(self)@ == match parse_ass_line_spec(start as int, end as int, ass@) {
                Some(d) => close_open(old(self)@, played as int).push(Some(d)),
                None => close_open(old(self)@, played as int),
            },
    {
        self.close_all(played);
        match parse_ass_line(start, end, ass) {
            Some(d) => {
                let ghost before = self.items@;
                let ghost dv = d@;
                self.items.push_back(Some(d));
                assert(opt_views(self.items@) =~= opt_views(before).push(Some(dv)));
            },
            None => {},
        }
    }

    /// A new plain-text subtitle arrives.
    pub fn push_text(&mut self, start: u128, end: u128, text: &str, played: u128)
        ensures
            final(self)@ == close_open(old(self)@, played as int).push(
                Some(
                    DialogueView {
                        start: start as int,
                        end: end as int,
                        id: 0,
                        layer: 0,
                        style: Seq::empty(),
                        name: Seq::empty(),
                        margin_l: Seq::empty(),
                        margin_r: Seq::empty(),
                        margin_v: Seq::empty(),
                        effect: Seq::empty(),
                        text: text@,
                        display_time: 0,
                    },
                ),
            ),
    {
        self.close_all(played);
        let d = AssDialogue::new(start, end, text);
        let ghost before = self.items@;
        let ghost dv = d@;
        self.items.push_back(Some(d));
        assert(opt_views(self.items@) =~= opt_views(before).push(Some(dv)));
    }

    /// An empty subtitle arrives: the dialogues without a known end end at
    /// `played`.
    pub fn push_nothing(&mut self, played: u128)
        ensures
            final(self)@ == close_open(old(self)@, played as int),
    {
        self.close_all(played);
    }

    fn drop_front_expired(&mut self, time: u128)
        ensures
            final(self)@ == drop_expired(old(self)@, time as int),
    {
        while self.items.len() > 0 && expired_exec(&self.items[0], time)
            invariant
                drop_expired(opt_views(self.items@), time as int) == drop_expired(old(self)@, time as int),
            decreases self.items@.len(),
        {
            let ghost cur = opt_views(self.items@);
            let _ = self.items.pop_front();
            assert(opt_views(self.items@) =~= cur.drop_first());
        }
    }

    fn stamp_all_visible(&mut self, time: u128)
        ensures
            final(self)@ == stamp_visible(old(self)@, time as int),
    {
        let ghost orig = opt_views(self.items@);
        let n = self.items.len();
        let mut i: usize = 0;
        while i < n
            invariant
                i <= n,
                n == orig.len(),
                opt_views(self.items@) == orig.subrange(i as int, n as int) + stamp_visible(orig.take(i as int), time as int),
            decreases n - i,
        {
            let ghost cur = self.items@;
            assert(opt_views(cur).len() == n - i + i);
            assert(opt_views(cur)[0] == orig[i as int]);
            let front = self.items.pop_front();
            match front {
                Some(d) => {
                    let ghost dv = opt_view(d);
                    let e = stamp_one_exec(d, time);
                    let ghost ev = opt_view(e);
                    self.items.push_back(e);
                    proof {
                        assert(dv == opt_views(cur)[0]);
                        assert(opt_views(self.items@) =~= opt_views(cur).drop_first().push(ev));
                        assert(dv == orig[i as int]);
                        assert(stamp_visible(orig.take(i + 1), time as int) =~= stamp_visible(orig.take(i as int), time as int).push(stamp_one(dv, time as int)));
                        assert(opt_views(self.items@) =~= orig.subrange(i + 1, n as int) + stamp_visible(orig.take(i + 1), time as int));
                    }
                },
                None => {
                    assert(false);
                },
            }
            i = i + 1;
        }
        assert(orig.subrange(n as int, n as int) + stamp_visible(orig.take(n as int), time as int) =~= stamp_visible(orig, time as int));
    }

    fn collect_on_screen(&self, time: u128) -> (r: Vec<AssDialogue>)
        ensures
            dialogue_views(r@) == on_screen(self@, time as int),
    {
        let n = self.items.len();
        let mut r: Vec<AssDialogue> = Vec::new();
        let mut i: usize = 0;
        assert(opt_views(self.items@).take(0) =~= Seq::<Option<DialogueView>>::empty());
        assert(dialogue_views(r@) =~= Seq::<DialogueView>::empty());
        while i < n
            invariant
                i <= n,
                n == self.items@.len(),
                dialogue_views(r@) == on_screen(opt_views(self.items@).take(i as int), time as int),
            decreases n - i,
        {
            let ghost before = r@;
            let ghost q = opt_views(self.items@);
            assert(q.take(i + 1).drop_last() =~= q.take(i as int));
            assert(q.take(i + 1).last() == q[i as int]);
            match &self.items[i] {
                Some(d) => {
                    if visible_exec(d, time) {
                        let c = d.duplicate();
                        r.push(c);
                        assert(dialogue_views(r@) =~= dialogue_views(before).push(d@));
                    }
                },
                None => {},
            }
            i = i + 1;
        }
        assert(opt_views(self.items@).take(n as int) =~= opt_views(self.items@));
        r
    }

    /// The dialogues on screen at `time`, in display order: the slots at the
    /// front that can go are dropped first, and every dialogue on screen at
    /// `time` that had not been shown before records `time` as when it was
    /// first shown.
    pub fn get_subtitles(&mut self, time: u128) -> (r: Vec<AssDialogue>)
        ensures
            final(self)@ == get_subtitles_spec(old(self)@, time as int).0,
            dialogue_views(r@) == get_subtitles_spec(old(self)@, time as int).1,
    {
        self.drop_front_expired(time);
        self.stamp_all_visible(time);
        let shown = self.collect_on_screen(time);
        sort_for_display(shown)
    }
}

/// Sorts dialogues into display order, stably.
pub fn sort_for_display(v: Vec<AssDialogue>) -> (r: Vec<AssDialogue>)
    ensures
        dialogue_views(r@) == display_sort(dialogue_views(v@)),
{
    let mut src = v;
    let mut out: Vec<AssDialogue> = Vec::new();
    let ghost all = dialogue_views(src@);
    let mut taken: usize = 0;
    let n = src.len();
    let mut rev: Vec<AssDialogue> = Vec::new();
    while src.len() > 0
        invariant
            dialogue_views(src@) + dialogue_views(rev@).reverse() == all,
            all.len() == n,
        decreases src@.len(),
    {
        let ghost s0 = src@;
        let ghost r0 = rev@;
        let x = src.pop().unwrap();
        rev.push(x);
        proof {
            assert(dialogue_views(src@) =~= dialogue_views(s0).drop_last());
            assert(dialogue_views(rev@).reverse() =~= seq![x@] + dialogue_views(r0).reverse());
            assert(dialogue_views(s0) =~= dialogue_views(src@).push(x@));
            assert(dialogue_views(src@) + dialogue_views(rev@).reverse() =~= dialogue_views(s0) + dialogue_views(r0).reverse());
        }
    }
    assert(dialogue_views(rev@).reverse() =~= all);
    assert(dialogue_views(out@) =~= display_sort(all.take(0)));
    while rev.len() > 0
        invariant
            all.len() == n,
            all.len() == taken + rev@.len(),
            dialogue_views(rev@).reverse() == all.subrange(taken as int, all.len() as int),
            dialogue_views(out@) == display_sort(all.take(taken as int)),
        decreases rev@.len(),
    {
        let ghost r0 = rev@;
        let x = rev.pop().unwrap();
        proof {
            let rv = dialogue_views(r0).reverse();
            assert(dialogue_views(rev@) =~= dialogue_views(r0).drop_last());
            assert(dialogue_views(r0).drop_last().reverse() =~= rv.drop_first());
            assert(rv[0] == x@);
            assert(all[taken as int] == x@);
            assert(dialogue_views(rev@).reverse() =~= all.subrange(taken + 1, all.len() as int));
            assert(all.take(taken + 1).drop_last() =~= all.take(taken as int));
            assert(all.take(taken + 1).last() == x@);
        }
        let mut j = out.len();
        while j > 0 && before_exec(&x, &out[j - 1])
            invariant
                j <= out@.len(),
                forall|i: int| j <= i < out@.len() ==> before(x@, #[trigger] dialogue_views(out@)[i]),
            decreases j,
        {
            j = j - 1;
        }
        let ghost o0 = dialogue_views(out@);
        proof {
            lemma_insert_ordered_at(o0, x@, j as int);
        }
        let ghost xv = x@;
        out.insert(j, x);
        assert(dialogue_views(out@) =~= o0.insert(j as int, xv));
        taken = taken + 1;
    }
    assert(all.take(taken as int) =~= all);
    out
}

// ===== colour override tags =====

/// What `str::to_lowercase` gives: the Unicode lowercase mapping of each
/// character.
pub uninterp spec fn lowercase(s: Seq<char>) -> Seq<char>;

/// Calls `str::to_lowercase`. Its result is named `lowercase`; nothing more
/// is claimed of it.
#[verifier::external_body]
pub(crate) fn to_lowercase_of(s: &str) -> (r: String)
    ensures
        r@ == lowercase(s@),
{
    s.to_lowercase()
}

pub open spec fn is_hex_byte(b: u8) -> bool {
    (48 <= b <= 57) || (97 <= b <= 102) || (65 <= b <= 70)
}

pub open spec fn hex_digit_value(b: u8) -> int {
    if 48 <= b <= 57 {
        b - 48
    } else if 97 <= b <= 102 {
        b - 87
    } else {
        b - 55
    }
}

/// The value of a string of hexadecimal digits.
pub open spec fn hex_value(h: Seq<u8>) -> int
    decreases h.len(),
{
    if h.len() == 0 {
        0
    } else {
        hex_value(h.drop_last()) * 16 + hex_digit_value(h.last())
    }
}

/// The colour of an ASS hex colour `BBGGRR` (the low six digits count): red
/// in the low byte, blue in the high one.
pub open spec fn hex_color(h: Seq<u8>) -> Color {
    let v = hex_value(h) % 0x1000000;
    rgb((v % 256) as u8, ((v / 256) % 256) as u8, (v / 65536) as u8)
}

proof fn lemma_hex_step(h: Seq<u8>, b: u8)
    ensures
        hex_value(h.push(b)) % 0x1000000 == ((hex_value(h) % 0x1000000) * 16 + hex_digit_value(b)) % 0x1000000,
{
    assert(h.push(b).drop_last() =~= h);
    let a = hex_value(h);
    let m = 0x1000000int;
    vstd::arithmetic::div_mod::lemma_mul_mod_noop_left(a, 16, m);
    vstd::arithmetic::div_mod::lemma_add_mod_noop(a * 16, hex_digit_value(b), m);
    vstd::arithmetic::div_mod::lemma_add_mod_noop((a % m) * 16, hex_digit_value(b), m);
    vstd::arithmetic::div_mod::lemma_mod_twice((a % m) * 16, m);
    vstd::arithmetic::div_mod::lemma_mod_twice(a * 16, m);
}

/// The colour of hexadecimal digits `h[from..to]`: leading zeros do not
/// count, a short number is padded with zeros, and the last six digits give
/// `BBGGRR`.
fn hex_to_color(h: &[u8], from: usize, to: usize) -> (c: Color)
    requires
        from <= to <= h@.len(),
        forall|i: int| from <= i < to ==> is_hex_byte(#[trigger] h@[i]),
    ensures
        c == hex_color(h@.subrange(from as int, to as int)),
{
    let mut v: u32 = 0;
    let mut i = from;
    assert(h@.subrange(from as int, from as int) =~= Seq::<u8>::empty());
    while i < to
        invariant
            from <= i <= to <= h@.len(),
            forall|k: int| from <= k < to ==> is_hex_byte(#[trigger] h@[k]),
            v == hex_value(h@.subrange(from as int, i as int)) % 0x1000000,
        decreases to - i,
    {
        let b = h[i];
        assert(is_hex_byte(h@[i as int]));
        let d: u32 = if 48 <= b && b <= 57 {
            (b - 48) as u32
        } else if 97 <= b && b <= 102 {
            (b - 87) as u32
        } else {
            (b - 55) as u32
        };
        proof {
            lemma_hex_step(h@.subrange(from as int, i as int), b);
            assert(h@.subrange(from as int, i + 1) =~= h@.subrange(from as int, i as int).push(b));
        }
        v = (v * 16 + d) % 0x1000000;
        i = i + 1;
    }
    assert(v & 0xff == v % 256 && (v >> 8) & 0xff == (v / 256) % 256 && (v >> 16) & 0xff == v / 65536)
        by (bit_vector)
        requires
            v < 0x1000000,
    ;
    Color::new((v & 0xff) as u8, ((v >> 8) & 0xff) as u8, ((v >> 16) & 0xff) as u8)
}

/// The byte offset of the first `c&h` in `b` at or after `from`.
pub open spec fn find_cah(b: Seq<u8>, from: int) -> Option<int>
    decreases b.len() - from,
{
    if from < 0 || from + 3 > b.len() {
        None
    } else if b[from] == 99 && b[from + 1] == 38 && b[from + 2] == 104 {
        Some(from)
    } else {
        find_cah(b, from + 1)
    }
}

/// The number of hexadecimal digit bytes of `b` from `q` on.
pub open spec fn hex_run(b: Seq<u8>, q: int) -> int
    decreases b.len() - q,
{
    if q < 0 || q >= b.len() || !is_hex_byte(b[q]) {
        0
    } else {
        1 + hex_run(b, q + 1)
    }
}

/// Where the colour digits of a tag start: right after the first `c&h` of
/// the lowercased tag, counted in bytes; the offset is then used on the tag
/// itself.
pub open spec fn tag_digits_start(tag: Seq<char>, lower: Seq<char>) -> Option<int> {
    match find_cah(encode_utf8(lower), 0) {
        Some(p) => Some(p + 3),
        None => None,
    }
}

/// The offset can be used to slice the tag: it falls on a character
/// boundary (slicing there is what the tag parser does).
pub open spec fn tag_slice_ok(tag: Seq<char>, lower: Seq<char>) -> bool {
    match tag_digits_start(tag, lower) {
        Some(q) => vstd::utf8::is_char_boundary(encode_utf8(tag), q),
        None => true,
    }
}

/// The colour that a tag sets, given its lowercase form: the hexadecimal
/// digits after `c&h` (found in the lowercase form), if there are any.
pub open spec fn tag_color_spec(tag: Seq<char>, lower: Seq<char>) -> Option<Color> {
    match tag_digits_start(tag, lower) {
        None => None,
        Some(q) => {
            let b = encode_utf8(tag);
            let n = hex_run(b, q);
            if n == 0 {
                None
            } else {
                Some(hex_color(b.subrange(q, q + n)))
            }
        },
    }
}

/// The colour that a tag sets, as the tag parser reads it: `None` also where
/// the offset found in the lowercase form cannot slice the tag.
pub open spec fn tag_color(tag: Seq<char>) -> Option<Color> {
    if tag_slice_ok(tag, lowercase(tag)) {
        tag_color_spec(tag, lowercase(tag))
    } else {
        None
    }
}

proof fn lemma_hex_run_bound(b: Seq<u8>, q: int)
    requires
        0 <= q,
    ensures
        0 <= hex_run(b, q),
        q + hex_run(b, q) <= b.len() || hex_run(b, q) == 0,
        forall|i: int| q <= i < q + hex_run(b, q) ==> is_hex_byte(#[trigger] b[i]),
        q + hex_run(b, q) < b.len() ==> !is_hex_byte(b[q + hex_run(b, q)]),
    decreases b.len() - q,
{
    if q < b.len() && is_hex_byte(b[q]) {
        lemma_hex_run_bound(b, q + 1);
    }
}

/// The colour of a tag, given the lowercase form of the tag.
pub fn parse_color_from_lowered(tag: &str, lower: &str) -> (r: Option<Color>)
    requires
        tag_slice_ok(tag@, lower@),
    ensures
        r == tag_color_spec(tag@, lower@),
{
    let lb = lower.as_bytes();
    let n = lb.len();
    let mut p: usize = 0;
    while n >= 3 && p <= n - 3 && !(lb[p] == 99 && lb[p + 1] == 38 && lb[p + 2] == 104)
        invariant
            n == lb@.len(),
            lb@ == encode_utf8(lower@),
            find_cah(lb@, 0) == find_cah(lb@, p as int),
        decreases n - p,
    {
        p = p + 1;
    }
    if !(n >= 3 && p <= n - 3) {
        return None;
    }
    assert(find_cah(lb@, 0) == Some(p as int));
    let q = p + 3;
    let tb = tag.as_bytes();
    let m = tb.len();
    let mut e = q;
    while e < m && ((48 <= tb[e] && tb[e] <= 57) || (97 <= tb[e] && tb[e] <= 102) || (65 <= tb[e] && tb[e] <= 70))
        invariant
            q <= e,
            m == tb@.len(),
            e <= m || e == q,
            forall|i: int| q <= i < e ==> is_hex_byte(#[trigger] tb@[i]),
            hex_run(tb@, q as int) == (e - q) + hex_run(tb@, e as int),
        decreases m - e,
    {
        e = e + 1;
    }
    proof {
        lemma_hex_run_bound(tb@, q as int);
    }
    if e == q {
        None
    } else {
        Some(hex_to_color(tb, q, e))
    }
}

/// The colour that an override tag (the text between `{` and `}`) sets:
/// the hexadecimal digits after `c&h` or `1c&h`, any case.
pub fn parse_color_from_tag(tag: &str) -> (r: Option<Color>)
    ensures
        r == tag_color(tag@),
{
    let lower = to_lowercase_of(tag);
    let lb = lower.as_str().as_bytes();
    let n = lb.len();
    let mut p: usize = 0;
    while n >= 3 && p <= n - 3 && !(lb[p] == 99 && lb[p + 1] == 38 && lb[p + 2] == 104)
        invariant
            n == lb@.len(),
            lb@ == encode_utf8(lower@),
            find_cah(lb@, 0) == find_cah(lb@, p as int),
        decreases n - p,
    {
        p = p + 1;
    }
    if n >= 3 && p <= n - 3 {
        assert(find_cah(lb@, 0) == Some(p as int));
        if !tag.is_char_boundary(p + 3) {
            return None;
        }
    }
    parse_color_from_lowered(tag, lower.as_str())
}

/// A character of subtitle text and the colour it is drawn in (`None`: the
/// default).
pub type ColoredChar = (char, Option<Color>);

/// The characters of ASS text with the colour each is drawn in, from
/// position `i` on with `cur` as the current colour: `{...}` override tags
/// are read for colours and dropped (an unclosed `{` is text), `\N` and `\n`
/// are line breaks, and other characters stay.
pub open spec fn color_spans(t: Seq<char>, i: int, cur: Option<Color>) -> Seq<ColoredChar>
    decreases t.len() - i,
{
    if i < 0 || i >= t.len() {
        Seq::empty()
    } else if t[i] == '{' && close_brace(t, i + 1) is Some {
        let j = close_brace(t, i + 1)->0;
        let next = match tag_color(t.subrange(i + 1, j)) {
            Some(c) => Some(c),
            None => cur,
        };
        if i < j + 1 <= t.len() {
            color_spans(t, j + 1, next)
        } else {
            Seq::empty()
        }
    } else if t[i] == '\\' && i + 1 < t.len() && (t[i + 1] == 'N' || t[i + 1] == 'n') {
        seq![('\n', None::<Color>)] + color_spans(t, i + 2, cur)
    } else {
        seq![(t[i], cur)] + color_spans(t, i + 1, cur)
    }
}

/// An override tag that names no colour (such as `{\\i1}` or `{\\b1}`)
/// leaves the colour in force: what follows it is read with the colour
/// from before it.
pub proof fn lemma_colorless_tag_keeps_color(t: Seq<char>, i: int, cur: Option<Color>)
    requires
        0 <= i < t.len(),
        t[i] == '{',
        close_brace(t, i + 1) is Some,
        tag_color(t.subrange(i + 1, close_brace(t, i + 1)->0)) is None,
    ensures
        color_spans(t, i, cur) == color_spans(t, close_brace(t, i + 1)->0 + 1, cur),
{
    lemma_close_brace(t, i + 1);
}

/// An override tag that names a colour makes it the colour of what
/// follows, whatever colour was in force before.
pub proof fn lemma_color_tag_sets_color(t: Seq<char>, i: int, cur: Option<Color>)
    requires
        0 <= i < t.len(),
        t[i] == '{',
        close_brace(t, i + 1) is Some,
        tag_color(t.subrange(i + 1, close_brace(t, i + 1)->0)) is Some,
    ensures
        color_spans(t, i, cur) == color_spans(
            t,
            close_brace(t, i + 1)->0 + 1,
            tag_color(t.subrange(i + 1, close_brace(t, i + 1)->0)),
        ),
{
    lemma_close_brace(t, i + 1);
}

/// A character of plain text (not a tag, not a line break) is drawn in the
/// colour in force.
pub proof fn lemma_plain_char_colored(t: Seq<char>, i: int, cur: Option<Color>)
    requires
        0 <= i < t.len(),
        t[i] != '{',
        t[i] != '\\',
    ensures
        color_spans(t, i, cur).len() > 0,
        color_spans(t, i, cur)[0] == (t[i], cur),
{
}

/// The position of the first `}` of `t` at or after `from`.
pub open spec fn close_brace(t: Seq<char>, from: int) -> Option<int>
    decreases t.len() - from,
{
    if from < 0 || from >= t.len() {
        None
    } else if t[from] == '}' {
        Some(from)
    } else {
        close_brace(t, from + 1)
    }
}

proof fn lemma_close_brace(t: Seq<char>, from: int)
    requires
        0 <= from,
    ensures
        close_brace(t, from) matches Some(j) ==> from <= j < t.len() && t[j] == '}',
    decreases t.len() - from,
{
    if from < t.len() && t[from] != '}' {
        lemma_close_brace(t, from + 1);
    }
}

/// Reads the colour override tags of ASS text, as `color_spans` says.
pub fn parse_ass_color_tags(text: &str) -> (r: Vec<ColoredChar>)
    ensures
        r@ == color_spans(text@, 0, None),
{
    let chars = chars_of(text);
    let n = chars.len();
    let mut out: Vec<ColoredChar> = Vec::new();
    let mut cur: Option<Color> = None;
    let mut i: usize = 0;
    while i < n
        invariant
            n == chars@.len(),
            chars@ == text@,
            i <= n,
            out@ + color_spans(chars@, i as int, cur) == color_spans(chars@, 0, None),
        decreases n - i,
    {
        let c = chars[i];
        let ghost t = chars@;
        let ghost before = out@;
        if c == '{' {
            let mut j = i + 1;
            while j < n && chars[j] != '}'
                invariant
                    i < j <= n,
                    n == chars@.len(),
                    close_brace(chars@, i + 1) == close_brace(chars@, j as int),
                decreases n - j,
            {
                j = j + 1;
            }
            if j < n {
                proof {
                    lemma_close_brace(t, i + 1);
                }
                let tag = string_of_range(&chars, i + 1, j);
                let col = parse_color_from_tag(tag.as_str());
                let ghost old_cur = cur;
                if let Some(cc) = col {
                    cur = Some(cc);
                }
                assert(color_spans(t, i as int, old_cur) == color_spans(t, j + 1, cur));
                i = j + 1;
                continue;
            } else {
                out.push((c, cur));
                proof {
                    assert(close_brace(t, i + 1) is None);
                    assert(before + color_spans(t, i as int, cur) =~= out@ + color_spans(t, i + 1, cur));
                }
                i = i + 1;
                continue;
            }
        }
        if c == '\\' && i + 1 < n && (chars[i + 1] == 'N' || chars[i + 1] == 'n') {
            out.push(('\n', None));
            proof {
                assert(before + color_spans(t, i as int, cur) =~= out@ + color_spans(t, i + 2, cur));
            }
            i = i + 2;
            continue;
        }
        out.push((c, cur));
        proof {
            assert(before + color_spans(t, i as int, cur) =~= out@ + color_spans(t, i + 1, cur));
        }
        i = i + 1;
    }
    assert(color_spans(chars@, i as int, cur) =~= Seq::<ColoredChar>::empty());
    assert(out@ =~= out@ + Seq::<ColoredChar>::empty());
    out
}

fn string_of_range(v: &Vec<char>, from: usize, to: usize) -> (s: String)
    requires
        from <= to <= v@.len(),
    ensures
        s@ == v@.subrange(from as int, to as int),
{
    let mut s = String::new();
    crate::text::push_chars(&mut s, v, from, to);
    s
}

// ===== laws =====

/// No dialogue of `s` comes before an earlier one.
pub open spec fn display_ordered(s: Seq<DialogueView>) -> bool {
    forall|i: int, j: int| 0 <= i < j < s.len() ==> !before(#[trigger] s[j], #[trigger] s[i])
}

proof fn lemma_before_order(a: DialogueView, b: DialogueView, c: DialogueView)
    ensures
        before(a, b) ==> !before(b, a),
        before(a, c) ==> before(a, b) || before(b, c),
{
}

proof fn lemma_insert_ordered(s: Seq<DialogueView>, x: DialogueView)
    requires
        display_ordered(s),
    ensures
        display_ordered(insert_ordered(s, x)),
        insert_ordered(s, x).len() == s.len() + 1,
        forall|i: int| 0 <= i < insert_ordered(s, x).len() ==> #[trigger] insert_ordered(s, x)[i] == x || s.contains(insert_ordered(s, x)[i]),
        insert_ordered(s, x).to_multiset() == s.to_multiset().insert(x),
    decreases s.len(),
{
    broadcast use vstd::seq_lib::group_to_multiset_ensures;

    if s.len() > 0 && before(x, s.last()) {
        let last = s.last();
        let d = s.drop_last();
        assert(display_ordered(d));
        lemma_insert_ordered(d, x);
        let t = insert_ordered(d, x);
        let r = t.push(last);
        assert forall|i: int| 0 <= i < r.len() implies #[trigger] r[i] == x || s.contains(r[i]) by {
            if i < t.len() {
                if t[i] != x {
                    let k = choose|k: int| 0 <= k < d.len() && d[k] == t[i];
                    assert(s[k] == t[i]);
                }
            } else {
                assert(s[s.len() - 1] == last);
            }
        }
        assert forall|i: int, j: int| 0 <= i < j < r.len() implies !before(#[trigger] r[j], #[trigger] r[i]) by {
            if j == r.len() - 1 {
                assert(r[j] == last);
                if t[i] == x {
                    lemma_before_order(x, last, x);
                } else {
                    let k = choose|k: int| 0 <= k < d.len() && d[k] == t[i];
                    assert(s[k] == t[i]);
                    assert(s[s.len() - 1] == last);
                }
            } else {
                assert(r[i] == t[i] && r[j] == t[j]);
            }
        }
        assert(s.to_multiset() == d.to_multiset().insert(last)) by {
            assert(d.push(last) =~= s);
        }
        assert(r.to_multiset() =~= s.to_multiset().insert(x));
    } else {
        let r = s.push(x);
        assert forall|i: int, j: int| 0 <= i < j < r.len() implies !before(#[trigger] r[j], #[trigger] r[i]) by {
            if j == r.len() - 1 {
                assert(r[j] == x);
                if before(x, r[i]) {
                    lemma_before_order(x, s.last(), r[i]);
                    assert(s[s.len() - 1] == s.last());
                    if i < s.len() - 1 {
                        assert(!before(s[s.len() - 1], s[i]));
                    }
                }
            } else {
                assert(r[i] == s[i] && r[j] == s[j]);
            }
        }
        assert forall|i: int| 0 <= i < r.len() implies #[trigger] r[i] == x || s.contains(r[i]) by {
            if i < s.len() {
                assert(r[i] == s[i]);
            }
        }
    }
}

/// What `get_subtitles` returns is in display order: dialogues with no
/// known end first, then the latest end first; and it holds exactly the
/// dialogues on screen, none lost and none repeated.
pub proof fn lemma_display_sort(s: Seq<DialogueView>)
    ensures
        display_ordered(display_sort(s)),
        display_sort(s).to_multiset() == s.to_multiset(),
        display_sort(s).len() == s.len(),
    decreases s.len(),
{
    broadcast use vstd::seq_lib::group_to_multiset_ensures;

    if s.len() > 0 {
        lemma_display_sort(s.drop_last());
        lemma_insert_ordered(display_sort(s.drop_last()), s.last());
        assert(s.drop_last().push(s.last()) =~= s);
    }
}

/// Every dialogue that `get_subtitles` returns is on screen at the time
/// asked about.
pub proof fn lemma_on_screen_visible(q: Seq<Option<DialogueView>>, time: int)
    ensures
        forall|i: int| 0 <= i < on_screen(q, time).len() ==> visible(#[trigger] on_screen(q, time)[i], time),
    decreases q.len(),
{
    if q.len() > 0 {
        lemma_on_screen_visible(q.drop_last(), time);
        let rest = on_screen(q.drop_last(), time);
        let r = on_screen(q, time);
        assert forall|i: int| 0 <= i < r.len() implies visible(#[trigger] r[i], time) by {
            if i < rest.len() {
                assert(r[i] == rest[i]);
            }
        }
    }
}

} // verus!
