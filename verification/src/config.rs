//! The settings that are kept between runs, and the text of the playlist
//! file.
use vstd::prelude::*;
use crate::text::{chars_of, parse_unsigned, parse_unsigned_range, push_chars, same_text, trim_range, trim_spec, trim_start_spec, trim_end_spec};
use crate::subtitle::{splitn_ranges, split_spec, lemma_split_concat, lemma_split_line};
use crate::playlist::strings_view;

verus! {

/// The settings.
#[derive(Clone, Copy, PartialEq, Eq, Structural, Debug)]
pub struct Config {
    /// The volume in percent, from 0 to 200.
    pub volume: u32,
    /// Whether the playlist starts over after its last item.
    pub looping: bool,
}

/// Why a setting could not be changed.
#[derive(Clone, Copy, PartialEq, Eq, Structural, Debug)]
pub enum ConfigError {
    /// The volume is not a `u32`.
    InvalidNumber,
    /// The volume is above 200.
    VolumeOutOfRange,
    /// The value of `looping` is neither `true` nor `false`.
    InvalidBool,
    /// No setting has this name.
    UnknownKey,
}

pub open spec fn default_config() -> Config {
    Config { volume: 100, looping: false }
}

/// What `bool::from_str` gives.
pub open spec fn parse_bool(s: Seq<char>) -> Option<bool> {
    if s == seq!['t', 'r', 'u', 'e'] {
        Some(true)
    } else if s == seq!['f', 'a', 'l', 's', 'e'] {
        Some(false)
    } else {
        None
    }
}

/// The settings after setting `key` to `value`, or why that fails.
pub open spec fn entry_result(c: Config, key: Seq<char>, value: Seq<char>) -> Result<Config, ConfigError> {
    if key == seq!['v', 'o', 'l', 'u', 'm', 'e'] {
        match parse_unsigned(value, u32::MAX as int) {
            None => Err(ConfigError::InvalidNumber),
            Some(v) => if v <= 200 {
                Ok(Config { volume: v as u32, looping: c.looping })
            } else {
                Err(ConfigError::VolumeOutOfRange)
            },
        }
    } else if key == seq!['l', 'o', 'o', 'p', 'i', 'n', 'g'] {
        match parse_bool(value) {
            Some(b) => Ok(Config { volume: c.volume, looping: b }),
            None => Err(ConfigError::InvalidBool),
        }
    } else {
        Err(ConfigError::UnknownKey)
    }
}

impl Default for Config {
    fn default() -> (r: Config)
        ensures
            r == default_config(),
    {
        Config::new()
    }
}

impl Config {
    /// Volume 100, no looping.
    pub fn new() -> (r: Config)
        ensures
            r == default_config(),
    {
        Config { volume: 100, looping: false }
    }

    /// Sets the setting `key` from its text `value`; on failure nothing
    /// changes.
    pub fn set_entry(&mut self, key: &str, value: &str) -> (r: Result<(), ConfigError>)
        ensures
            match entry_result(*old(self), key@, value@) {
                Ok(c) => r is Ok && *final(self) == c,
                Err(e) => r == Err::<(), ConfigError>(e) && *final(self) == *old(self),
            },
    {
        proof {
            reveal_strlit("volume");
            reveal_strlit("looping");
            reveal_strlit("true");
            reveal_strlit("false");
            assert("volume"@ =~= seq!['v', 'o', 'l', 'u', 'm', 'e']);
            assert("looping"@ =~= seq!['l', 'o', 'o', 'p', 'i', 'n', 'g']);
            assert("true"@ =~= seq!['t', 'r', 'u', 'e']);
            assert("false"@ =~= seq!['f', 'a', 'l', 's', 'e']);
        }
        let old_config = *self;
        let res: Result<Config, ConfigError> = if same_text(key, "volume") {
            let v = chars_of(value);
            assert(v@.subrange(0, v@.len() as int) =~= v@);
            match parse_unsigned_range(&v, 0, v.len(), 4294967295u64) {
                None => Err(ConfigError::InvalidNumber),
                Some(n) => {
                    assert(parse_unsigned(value@, u32::MAX as int) == Some(n as int));
                    if n <= 200 {
                        assert((n as int) as u32 == n as u32);
                        Ok(Config { volume: n as u32, looping: old_config.looping })
                    } else {
                        Err(ConfigError::VolumeOutOfRange)
                    }
                },
            }
        } else if same_text(key, "looping") {
            if same_text(value, "true") {
                Ok(Config { volume: old_config.volume, looping: true })
            } else if same_text(value, "false") {
                Ok(Config { volume: old_config.volume, looping: false })
            } else {
                Err(ConfigError::InvalidBool)
            }
        } else {
            Err(ConfigError::UnknownKey)
        };
        assert(res == entry_result(old_config, key@, value@));
        match res {
            Ok(c) => {
                *self = c;
                Ok(())
            },
            Err(e) => Err(e),
        }
    }
}

// ===== the playlist file =====

/// Whether a line of the playlist file names an item: not blank and not a
/// comment.
pub open spec fn is_entry_line(line: Seq<char>) -> bool {
    trim_spec(line).len() > 0 && trim_spec(line)[0] != '#'
}

/// The items that the lines name, trimmed, in order.
pub open spec fn entries_of(lines: Seq<Seq<char>>) -> Seq<Seq<char>>
    decreases lines.len(),
{
    if lines.len() == 0 {
        seq![]
    } else if is_entry_line(lines.last()) {
        entries_of(lines.drop_last()).push(trim_spec(lines.last()))
    } else {
        entries_of(lines.drop_last())
    }
}

/// The items of a playlist file: each line trimmed, blank lines and lines
/// that start with `#` left out. (`str::lines` also drops a `\r` before
/// each `\n`, which the trimming drops anyway, and a last empty line, which
/// is blank.)
pub open spec fn playlist_entries(text: Seq<char>) -> Seq<Seq<char>> {
    entries_of(split_spec(text, '\n'))
}

/// The items named by the text of a playlist file.
pub fn parse_playlist(text: &str) -> (r: Vec<String>)
    requires
        text@.len() < usize::MAX,
    ensures
        strings_view(r@) == playlist_entries(text@),
{
    let v = chars_of(text);
    let n = v.len();
    let ranges = splitn_ranges(&v, 0, n, n + 1, '\n');
    let ghost lines = split_spec(v@, '\n');
    proof {
        assert(v@.subrange(0, n as int) =~= v@);
    }
    let mut r: Vec<String> = Vec::new();
    let mut i: usize = 0;
    while i < ranges.len()
        invariant
            v@ == text@,
            n == v@.len(),
            lines == split_spec(v@, '\n'),
            ranges@.len() == lines.len(),
            forall|k: int|
                0 <= k < ranges@.len() ==> 0 <= (#[trigger] ranges@[k]).0 <= ranges@[k].1 <= n && v@.subrange(
                    ranges@[k].0 as int,
                    ranges@[k].1 as int,
                ) == lines[k],
            i <= ranges@.len(),
            strings_view(r@) == entries_of(lines.take(i as int)),
        decreases ranges@.len() - i,
    {
        let (a, b) = ranges[i];
        let (ta, tb) = trim_range(&v, a, b);
        proof {
            assert(lines.take(i + 1).drop_last() =~= lines.take(i as int));
            assert(lines.take(i + 1).last() == lines[i as int]);
        }
        if ta < tb && v[ta] != '#' {
            let mut s = String::new();
            push_chars(&mut s, &v, ta, tb);
            proof {
                assert(s@ =~= v@.subrange(ta as int, tb as int));
                assert(trim_spec(lines[i as int])[0] == v@[ta as int]);
            }
            let ghost r0 = r@;
            r.push(s);
            proof {
                assert(strings_view(r@) =~= strings_view(r0).push(s@));
            }
        } else {
            proof {
                if ta < tb {
                    assert(trim_spec(lines[i as int])[0] == v@[ta as int]);
                }
            }
        }
        i = i + 1;
    }
    assert(lines.take(ranges@.len() as int) =~= lines);
    r
}

/// The lines `items` each followed by a newline.
pub open spec fn lines_text(items: Seq<Seq<char>>) -> Seq<char>
    decreases items.len(),
{
    if items.len() == 0 {
        seq![]
    } else {
        lines_text(items.drop_last()) + items.last().push('\n')
    }
}

/// The text of a playlist file: `header`, then one item per line.
pub fn playlist_file_text(header: &str, items: &Vec<String>) -> (r: String)
    ensures
        r@ == header@ + lines_text(strings_view(items@)),
{
    let mut s = String::new();
    let hv = chars_of(header);
    push_chars(&mut s, &hv, 0, hv.len());
    assert(hv@.subrange(0, hv@.len() as int) =~= header@);
    let mut i: usize = 0;
    while i < items.len()
        invariant
            i <= items@.len(),
            s@ == header@ + lines_text(strings_view(items@).take(i as int)),
        decreases items@.len() - i,
    {
        let iv = chars_of(items[i].as_str());
        push_chars(&mut s, &iv, 0, iv.len());
        s.push('\n');
        proof {
            let t = strings_view(items@).take(i + 1);
            assert(t.drop_last() =~= strings_view(items@).take(i as int));
            assert(t.last() == items@[i as int]@);
            assert(iv@.subrange(0, iv@.len() as int) =~= iv@);
            assert(s@ =~= header@ + lines_text(t));
        }
        i = i + 1;
    }
    assert(strings_view(items@).take(items@.len() as int) =~= strings_view(items@));
    s
}

/// An item that the playlist file holds on one line and gives back: no line
/// break in it, not blank, not a comment, and no whitespace at its ends.
pub open spec fn storable_item(item: Seq<char>) -> bool {
    &&& forall|j: int| 0 <= j < item.len() ==> item[j] != '\n'
    &&& is_entry_line(item)
    &&& trim_spec(item) == item
}

/// A header of whole lines that names no item (or no header at all).
pub open spec fn comment_header(h: Seq<char>) -> bool {
    h.len() == 0 || (h.last() == '\n' && forall|i: int|
        0 <= i < split_spec(h, '\n').len() ==> !is_entry_line(#[trigger] split_spec(h, '\n')[i]))
}

proof fn lemma_entries_concat(a: Seq<Seq<char>>, b: Seq<Seq<char>>)
    ensures
        entries_of(a + b) == entries_of(a) + entries_of(b),
    decreases b.len(),
{
    if b.len() == 0 {
        assert(a + b =~= a);
        assert(entries_of(a) + seq![] =~= entries_of(a));
    } else {
        lemma_entries_concat(a, b.drop_last());
        assert((a + b).drop_last() =~= a + b.drop_last());
        assert((a + b).last() == b.last());
        if is_entry_line(b.last()) {
            assert((entries_of(a) + entries_of(b.drop_last())).push(trim_spec(b.last())) =~= entries_of(a) + entries_of(
                b.drop_last(),
            ).push(trim_spec(b.last())));
        }
    }
}

proof fn lemma_entries_none(a: Seq<Seq<char>>)
    requires
        forall|i: int| 0 <= i < a.len() ==> !is_entry_line(#[trigger] a[i]),
    ensures
        entries_of(a) =~= Seq::<Seq<char>>::empty(),
    decreases a.len(),
{
    if a.len() > 0 {
        assert(a.last() == a[a.len() - 1]);
        lemma_entries_none(a.drop_last());
    }
}

proof fn lemma_entries_all(its: Seq<Seq<char>>)
    requires
        forall|i: int| 0 <= i < its.len() ==> storable_item(#[trigger] its[i]),
    ensures
        entries_of(its) =~= its,
    decreases its.len(),
{
    if its.len() > 0 {
        assert(its.last() == its[its.len() - 1]);
        lemma_entries_all(its.drop_last());
        assert(its.drop_last().push(its.last()) =~= its);
    }
}

proof fn lemma_empty_not_entry()
    ensures
        !is_entry_line(Seq::<char>::empty()),
{
    assert(trim_start_spec(Seq::<char>::empty()) =~= Seq::<char>::empty());
    assert(trim_end_spec(Seq::<char>::empty()) =~= Seq::<char>::empty());
}

proof fn lemma_split_lines_text(its: Seq<Seq<char>>)
    requires
        forall|i: int| 0 <= i < its.len() ==> storable_item(#[trigger] its[i]),
    ensures
        split_spec(lines_text(its), '\n') == its.push(Seq::<char>::empty()),
    decreases its.len(),
{
    if its.len() == 0 {
        crate::subtitle::lemma_split_empty('\n');
        assert(lines_text(its) =~= Seq::<char>::empty());
    } else {
        let last = its.last();
        assert(last == its[its.len() - 1]);
        lemma_split_line(last, '\n');
        if its.len() == 1 {
            assert(its.drop_last() =~= Seq::<Seq<char>>::empty());
            assert(lines_text(its.drop_last()) =~= Seq::<char>::empty());
            assert(lines_text(its) =~= last.push('\n'));
            assert(its.push(Seq::<char>::empty()) =~= seq![last, Seq::<char>::empty()]);
        } else {
            let init = its.drop_last();
            lemma_split_lines_text(init);
            let a = lines_text(init);
            assert(init.last() == init[init.len() - 1]);
            assert(a == lines_text(init.drop_last()) + init.last().push('\n'));
            assert(a.last() == '\n');
            lemma_split_concat(a, last.push('\n'), '\n');
            assert(init.push(Seq::<char>::empty()).drop_last() =~= init);
            assert(init + seq![last, Seq::<char>::empty()] =~= its.push(Seq::<char>::empty()));
        }
    }
}

/// Writing a playlist file and reading it back gives the items written:
/// with a header that names no item, and items that fit on a line as they
/// are (no line break, not blank, not a comment, no whitespace at the ends).
pub proof fn lemma_playlist_file_round_trip(header: Seq<char>, items: Seq<Seq<char>>)
    requires
        comment_header(header),
        forall|i: int| 0 <= i < items.len() ==> storable_item(#[trigger] items[i]),
    ensures
        playlist_entries(header + lines_text(items)) == items,
{
    let t = lines_text(items);
    lemma_split_lines_text(items);
    lemma_empty_not_entry();
    lemma_entries_all(items);
    assert(entries_of(items.push(Seq::<char>::empty())) =~= items) by {
        assert(items.push(Seq::<char>::empty()).drop_last() =~= items);
    }
    if header.len() == 0 {
        assert(header + t =~= t);
    } else {
        let hs = split_spec(header, '\n');
        crate::subtitle::lemma_splitn_nonempty(header, header.len() + 1, '\n');
        lemma_split_concat(header, t, '\n');
        assert forall|i: int| 0 <= i < hs.drop_last().len() implies !is_entry_line(#[trigger] hs.drop_last()[i]) by {
            assert(hs.drop_last()[i] == hs[i]);
        }
        lemma_entries_none(hs.drop_last());
        lemma_entries_concat(hs.drop_last(), items.push(Seq::<char>::empty()));
    }
}

// ===== the settings file =====

/// The text that `toml_edit` gives for `source` parsed as a TOML document
/// with its top-level key `int_key` set to the integer `int_value` and then
/// `bool_key` set to the boolean `bool_value`, or `None` where `source` is
/// not TOML.
pub uninterp spec fn toml_with(
    source: Seq<char>,
    int_key: Seq<char>,
    int_value: int,
    bool_key: Seq<char>,
    bool_value: bool,
) -> Option<Seq<char>>;

/// Parses `source` with `str::parse::<toml_edit::DocumentMut>`, sets the two
/// top-level keys with `doc[key] = toml_edit::value(..)` (the index inserts
/// a missing key and does not fail) and prints the document with its
/// `Display`. The contract claims only that the outcome is named by
/// `toml_with` of the arguments: a fresh document is parsed from the text
/// each time, so nothing else goes in. Which texts parse and how the edit
/// lays out the text are left to that name.
#[verifier::external_body]
fn edit_toml(source: &str, int_key: &str, int_value: i64, bool_key: &str, bool_value: bool) -> (r: Option<String>)
    ensures
        r is Some <==> toml_with(source@, int_key@, int_value as int, bool_key@, bool_value) is Some,
        r matches Some(t) ==> toml_with(source@, int_key@, int_value as int, bool_key@, bool_value) == Some(t@),
{
    match source.parse::<toml_edit::DocumentMut>() {
        Ok(mut doc) => {
            doc[int_key] = toml_edit::value(int_value);
            doc[bool_key] = toml_edit::value(bool_value);
            Some(doc.to_string())
        },
        Err(_) => None,
    }
}

/// The settings file written from `source`, the text it was read from (so
/// that its comments and layout stay): `volume` and `looping` set to the
/// settings, or nothing where `source` is not TOML.
pub open spec fn config_text_spec(source: Seq<char>, volume: u32, looping: bool) -> Option<Seq<char>> {
    toml_with(source, "volume"@, volume as int, "looping"@, looping)
}

/// The text of the settings file for `volume` and `looping`, kept in the
/// layout of `source`; `None` where `source` is not TOML.
pub fn config_text(source: &str, volume: u32, looping: bool) -> (r: Option<String>)
    ensures
        r is Some <==> config_text_spec(source@, volume, looping) is Some,
        r matches Some(t) ==> config_text_spec(source@, volume, looping) == Some(t@),
{
    edit_toml(source, "volume", volume as i64, "looping", looping)
}

} // verus!
