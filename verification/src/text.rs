use unicode_width::UnicodeWidthChar;
use vstd::prelude::*;

verus! {

/// `String::push` appends one character.
pub assume_specification[ String::push ](s: &mut String, ch: char)
    ensures
        final(s)@ == old(s)@.push(ch),
;

/// The display width that `unicode_width` gives a character, `None` for a
/// control character.
pub uninterp spec fn char_width(c: char) -> Option<usize>;

/// Calls `UnicodeWidthChar::width` of `unicode_width`. Its result is named
/// `char_width`; the source of the crate also shows that printable ASCII is
/// one column wide, that the C0 and C1 control ranges have no width, and that
/// no width is larger than 3.
#[verifier::external_body]
pub(crate) fn width_of(c: char) -> (r: Option<usize>)
    ensures
        r == char_width(c),
        0x20 <= c as u32 && (c as u32) < 0x7F ==> r == Some(1usize),
        c == '\0' ==> r is None,
        c == ' ' ==> r == Some(1usize),
        (c as u32) < 0x20 || (0x7F <= c as u32 && (c as u32) < 0xA0) ==> r is None,
        0xA0 <= c as u32 ==> r is Some,
        r matches Some(w) ==> w <= 3,
{
    UnicodeWidthChar::width(c)
}

/// The width of a character as the layout code counts it: its display width,
/// 0 for a control character.
pub open spec fn width_or_zero(c: char) -> int {
    match char_width(c) {
        Some(w) => w as int,
        None => 0,
    }
}

/// The width of a character as the diff encoder and the subtitle layout count
/// it: at least one column.
pub open spec fn width_at_least_one(c: char) -> int {
    match char_width(c) {
        Some(w) => if w == 0 {
            1
        } else {
            w as int
        },
        None => 1,
    }
}

pub fn width_or_zero_of(c: char) -> (r: usize)
    ensures
        r == width_or_zero(c),
        r <= 3,
        c == '\0' ==> r == 0,
        c == ' ' ==> r == 1,
{
    match width_of(c) {
        Some(w) => w,
        None => 0,
    }
}

pub fn width_at_least_one_of(c: char) -> (r: usize)
    ensures
        r == width_at_least_one(c),
        1 <= r <= 3,
        c == ' ' ==> r == 1,
{
    match width_of(c) {
        Some(w) => if w == 0 {
            1
        } else {
            w
        },
        None => 1,
    }
}

/// The characters of `s`, in order.
pub fn chars_of(s: &str) -> (v: Vec<char>)
    ensures
        v@ == s@,
{
    let mut v: Vec<char> = Vec::new();
    for c in it: s.chars()
        invariant
            v@ == it.seq().take(it.index() as int),
    {
        v.push(c);
    }
    v
}

/// Appends the characters of `t` to `s`.
pub fn push_all(s: &mut String, t: &str)
    ensures
        final(s)@ == old(s)@ + t@,
{
    let v = chars_of(t);
    push_chars(s, &v, 0, v.len());
    assert(v@.subrange(0, v@.len() as int) == v@);
}

/// Appends the characters `v[from..to]` to `s`.
pub fn push_chars(s: &mut String, v: &Vec<char>, from: usize, to: usize)
    requires
        from <= to <= v@.len(),
    ensures
        final(s)@ == old(s)@ + v@.subrange(from as int, to as int),
{
    let ghost s0 = s@;
    let mut i = from;
    while i < to
        invariant
            from <= i <= to <= v@.len(),
            s@ == s0 + v@.subrange(from as int, i as int),
        decreases to - i,
    {
        s.push(v[i]);
        assert(v@.subrange(from as int, i + 1) == v@.subrange(from as int, i as int).push(v@[i as int]));
        i = i + 1;
    }
}

/// A string holding the characters of `v`.
pub fn string_of(v: &Vec<char>) -> (s: String)
    ensures
        s@ == v@,
{
    let mut s = String::new();
    push_chars(&mut s, v, 0, v.len());
    assert(v@.subrange(0, v@.len() as int) == v@);
    s
}

/// The ASCII digit for `d` (0..10).
pub open spec fn digit_char(d: int) -> char {
    (d + 48) as char
}

/// The decimal representation of `n`, without leading zeros.
pub open spec fn decimal(n: nat) -> Seq<char>
    decreases n,
{
    if n < 10 {
        seq![digit_char(n as int)]
    } else {
        decimal(n / 10).push(digit_char((n % 10) as int))
    }
}

/// The decimal representation of `n`, padded with zeros on the left to at
/// least `width` digits.
pub open spec fn decimal_padded(n: nat, width: nat) -> Seq<char> {
    if decimal(n).len() >= width {
        decimal(n)
    } else {
        Seq::new((width - decimal(n).len()) as nat, |i: int| '0') + decimal(n)
    }
}

fn digit_of(d: u64) -> (c: char)
    requires
        d < 10,
    ensures
        c == digit_char(d as int),
{
    match d {
        0 => '0',
        1 => '1',
        2 => '2',
        3 => '3',
        4 => '4',
        5 => '5',
        6 => '6',
        7 => '7',
        8 => '8',
        _ => '9',
    }
}

/// Appends the decimal representation of `n` to `s`.
pub fn push_decimal(s: &mut String, n: u64)
    ensures
        final(s)@ == old(s)@ + decimal(n as nat),
    decreases n,
{
    if n < 10 {
        s.push(digit_of(n));
        assert(old(s)@.push(digit_char(n as int)) == old(s)@ + seq![digit_char(n as int)]);
    } else {
        push_decimal(s, n / 10);
        s.push(digit_of(n % 10));
        assert(old(s)@ + decimal(n as nat) == old(s)@ + decimal((n / 10) as nat) + seq![
            digit_char((n % 10) as int),
        ]);
    }
}

/// Appends the decimal representation of `n`, zero-padded to `width` digits.
pub fn push_decimal_padded(s: &mut String, n: u64, width: usize)
    ensures
        final(s)@ == old(s)@ + decimal_padded(n as nat, width as nat),
{
    let mut digits = String::new();
    push_decimal(&mut digits, n);
    let dv = chars_of(digits.as_str());
    let ghost s0 = s@;
    if dv.len() < width {
        let mut k: usize = 0;
        let pad = width - dv.len();
        while k < pad
            invariant
                pad == width - dv@.len(),
                k <= pad,
                s@ == s0 + Seq::new(k as nat, |i: int| '0'),
            decreases pad - k,
        {
            s.push('0');
            assert(Seq::new((k + 1) as nat, |i: int| '0') == Seq::new(k as nat, |i: int| '0').push('0'));
            k = k + 1;
        }
    }
    push_chars(s, &dv, 0, dv.len());
    assert(dv@.subrange(0, dv@.len() as int) == dv@);
}

// ===== whitespace and trimming =====

/// The Unicode White_Space property, which `char::is_whitespace` tests:
/// U+0009..=U+000D, U+0020, U+0085, U+00A0, U+1680, U+2000..=U+200A,
/// U+2028, U+2029, U+202F, U+205F and U+3000.
pub open spec fn is_ws(c: char) -> bool {
    ('\t' <= c <= '\r') || c == ' ' || c == '\u{85}' || c == '\u{a0}' || c == '\u{1680}' || ('\u{2000}'
        <= c <= '\u{200a}') || c == '\u{2028}' || c == '\u{2029}' || c == '\u{202f}' || c == '\u{205f}'
        || c == '\u{3000}'
}

pub fn is_whitespace(c: char) -> (r: bool)
    ensures
        r == is_ws(c),
{
    ('\t' <= c && c <= '\r') || c == ' ' || c == '\u{85}' || c == '\u{a0}' || c == '\u{1680}' || ('\u{2000}'
        <= c && c <= '\u{200a}') || c == '\u{2028}' || c == '\u{2029}' || c == '\u{202f}' || c == '\u{205f}'
        || c == '\u{3000}'
}

/// `s` without its leading whitespace.
pub open spec fn trim_start_spec(s: Seq<char>) -> Seq<char>
    decreases s.len(),
{
    if s.len() > 0 && is_ws(s[0]) {
        trim_start_spec(s.drop_first())
    } else {
        s
    }
}

/// `s` without its trailing whitespace.
pub open spec fn trim_end_spec(s: Seq<char>) -> Seq<char>
    decreases s.len(),
{
    if s.len() > 0 && is_ws(s.last()) {
        trim_end_spec(s.drop_last())
    } else {
        s
    }
}

/// `s` without leading and trailing whitespace, as `str::trim` gives it.
pub open spec fn trim_spec(s: Seq<char>) -> Seq<char> {
    trim_end_spec(trim_start_spec(s))
}

/// The bounds of `v[from..to]` trimmed.
pub fn trim_range(v: &Vec<char>, from: usize, to: usize) -> (r: (usize, usize))
    requires
        from <= to <= v@.len(),
    ensures
        from <= r.0 <= r.1 <= to,
        v@.subrange(r.0 as int, r.1 as int) == trim_spec(v@.subrange(from as int, to as int)),
{
    let mut i = from;
    while i < to && is_whitespace(v[i])
        invariant
            from <= i <= to <= v@.len(),
            trim_start_spec(v@.subrange(from as int, to as int)) == trim_start_spec(v@.subrange(i as int, to as int)),
        decreases to - i,
    {
        assert(v@.subrange(i as int, to as int).drop_first() =~= v@.subrange(i + 1, to as int));
        i = i + 1;
    }
    let ghost ts = v@.subrange(i as int, to as int);
    assert(trim_start_spec(ts) == ts);
    let mut j = to;
    while j > i && is_whitespace(v[j - 1])
        invariant
            from <= i <= j <= to <= v@.len(),
            trim_end_spec(ts) == trim_end_spec(v@.subrange(i as int, j as int)),
        decreases j - i,
    {
        assert(v@.subrange(i as int, j as int).drop_last() =~= v@.subrange(i as int, j - 1));
        j = j - 1;
    }
    (i, j)
}

// ===== integers in text =====

pub open spec fn is_digit(c: char) -> bool {
    '0' <= c <= '9'
}

pub open spec fn all_digit_chars(s: Seq<char>) -> bool {
    forall|i: int| 0 <= i < s.len() ==> is_digit(#[trigger] s[i])
}

/// The value of a string of decimal digits.
pub open spec fn digits_num(s: Seq<char>) -> int
    decreases s.len(),
{
    if s.len() == 0 {
        0
    } else {
        digits_num(s.drop_last()) * 10 + (s.last() as int - '0' as int)
    }
}

/// What `from_str` of an unsigned integer type whose largest value is `max`
/// gives: an optional `+`, then one or more ASCII digits, for a value up to
/// `max`.
pub open spec fn parse_unsigned(s: Seq<char>, max: int) -> Option<int> {
    let d = if s.len() > 0 && s[0] == '+' {
        s.drop_first()
    } else {
        s
    };
    if d.len() > 0 && all_digit_chars(d) && digits_num(d) <= max {
        Some(digits_num(d))
    } else {
        None
    }
}

/// What `from_str` of a signed integer type with the range `min..=max`
/// gives: an optional sign, then one or more ASCII digits, for a value in
/// range.
pub open spec fn parse_signed(s: Seq<char>, min: int, max: int) -> Option<int> {
    if s.len() > 0 && s[0] == '-' {
        let d = s.drop_first();
        if d.len() > 0 && all_digit_chars(d) && -digits_num(d) >= min {
            Some(-digits_num(d))
        } else {
            None
        }
    } else {
        parse_unsigned(s, max)
    }
}

proof fn lemma_digits_num_push(s: Seq<char>, c: char)
    ensures
        digits_num(s.push(c)) == digits_num(s) * 10 + (c as int - '0' as int),
        all_digit_chars(s.push(c)) == (all_digit_chars(s) && is_digit(c)),
{
    assert(s.push(c).drop_last() =~= s);
    if all_digit_chars(s.push(c)) {
        assert forall|i: int| 0 <= i < s.len() implies is_digit(#[trigger] s[i]) by {
            assert(s.push(c)[i] == s[i]);
        }
        assert(s.push(c)[s.len() as int] == c);
    }
    if all_digit_chars(s) && is_digit(c) {
        assert forall|i: int| 0 <= i < s.push(c).len() implies is_digit(#[trigger] s.push(c)[i]) by {
            if i < s.len() {
                assert(s.push(c)[i] == s[i]);
            }
        }
    }
}

proof fn lemma_digits_num_nonneg(s: Seq<char>)
    requires
        all_digit_chars(s),
    ensures
        digits_num(s) >= 0,
    decreases s.len(),
{
    if s.len() > 0 {
        assert(s.drop_last().push(s.last()) =~= s);
        lemma_digits_num_push(s.drop_last(), s.last());
        lemma_digits_num_nonneg(s.drop_last());
    }
}

/// The value of the digits `v[from..to]` if they are all digits and the
/// value is at most `max`.
fn digits_in_range(v: &Vec<char>, from: usize, to: usize, max: u64) -> (r: Option<u64>)
    requires
        from <= to <= v@.len(),
    ensures
        r == (if all_digit_chars(v@.subrange(from as int, to as int)) && digits_num(
            v@.subrange(from as int, to as int),
        ) <= max {
            Some(digits_num(v@.subrange(from as int, to as int)) as u64)
        } else {
            None::<u64>
        }),
        r matches Some(x) ==> x as int == digits_num(v@.subrange(from as int, to as int)) && x <= max,
{
    let mut val: u64 = 0;
    let mut big = false;
    let mut digits = true;
    let mut i = from;
    assert(v@.subrange(from as int, from as int) =~= Seq::<char>::empty());
    while i < to
        invariant
            from <= i <= to <= v@.len(),
            digits == all_digit_chars(v@.subrange(from as int, i as int)),
            digits ==> digits_num(v@.subrange(from as int, i as int)) >= 0,
            digits ==> (big == (digits_num(v@.subrange(from as int, i as int)) > max)),
            digits && !big ==> val == digits_num(v@.subrange(from as int, i as int)),
        decreases to - i,
    {
        let c = v[i];
        proof {
            assert(v@.subrange(from as int, i + 1) =~= v@.subrange(from as int, i as int).push(c));
            lemma_digits_num_push(v@.subrange(from as int, i as int), c);
        }
        if '0' <= c && c <= '9' {
            if digits && !big {
                let d = (c as u32 - '0' as u32) as u64;
                if d <= max && val <= (max - d) / 10 {
                    val = val * 10 + d;
                } else {
                    big = true;
                }
            }
        } else {
            digits = false;
        }
        i = i + 1;
    }
    if digits && !big {
        Some(val)
    } else {
        None
    }
}

/// `from_str` of an unsigned type with largest value `max` on `v[from..to]`.
pub fn parse_unsigned_range(v: &Vec<char>, from: usize, to: usize, max: u64) -> (r: Option<u64>)
    requires
        from <= to <= v@.len(),
    ensures
        r == (match parse_unsigned(v@.subrange(from as int, to as int), max as int) {
            Some(x) => Some(x as u64),
            None => None::<u64>,
        }),
        r matches Some(y) ==> parse_unsigned(v@.subrange(from as int, to as int), max as int) == Some(
            y as int,
        ),
{
    let ghost s = v@.subrange(from as int, to as int);
    let start = if from < to && v[from] == '+' {
        from + 1
    } else {
        from
    };
    proof {
        if from < to && v@[from as int] == '+' {
            assert(s.drop_first() =~= v@.subrange(from + 1, to as int));
        }
    }
    if start < to {
        digits_in_range(v, start, to, max)
    } else {
        None
    }
}

/// `i32::from_str` on `v[from..to]`.
pub fn parse_i32_range(v: &Vec<char>, from: usize, to: usize) -> (r: Option<i32>)
    requires
        from <= to <= v@.len(),
    ensures
        r == (match parse_signed(v@.subrange(from as int, to as int), i32::MIN as int, i32::MAX as int) {
            Some(x) => Some(x as i32),
            None => None::<i32>,
        }),
{
    let ghost s = v@.subrange(from as int, to as int);
    if from < to && v[from] == '-' {
        assert(s.drop_first() =~= v@.subrange(from + 1, to as int));
        if from + 1 < to {
            match digits_in_range(v, from + 1, to, 2147483648) {
                Some(x) => Some((0 - (x as i64)) as i32),
                None => None,
            }
        } else {
            None
        }
    } else {
        match parse_unsigned_range(v, from, to, 2147483647) {
            Some(x) => Some(x as i32),
            None => None,
        }
    }
}


/// Whether `a` and `b` hold the same characters.
pub fn same_text(a: &str, b: &str) -> (r: bool)
    ensures
        r == (a@ == b@),
{
    let va = chars_of(a);
    let vb = chars_of(b);
    if va.len() != vb.len() {
        return false;
    }
    let mut i: usize = 0;
    while i < va.len()
        invariant
            va@ == a@,
            vb@ == b@,
            va@.len() == vb@.len(),
            i <= va@.len(),
            forall|j: int| 0 <= j < i ==> va@[j] == vb@[j],
        decreases va@.len() - i,
    {
        if va[i] != vb[i] {
            return false;
        }
        i = i + 1;
    }
    assert(va@ =~= vb@);
    true
}

} // verus!
