//! OSC 8 hyperlinks: the escape sequences that make terminal text a link.
use vstd::prelude::*;

verus! {

/// How one character of a URL is written inside the sequence: `\`, `;` and
/// `:` get a backslash in front.
pub open spec fn escape_url_char(c: char) -> Seq<char> {
    if c == '\\' || c == ';' || c == ':' {
        seq!['\\', c]
    } else {
        seq![c]
    }
}

/// A URL with its special characters escaped.
pub open spec fn escape_url(u: Seq<char>) -> Seq<char>
    decreases u.len(),
{
    if u.len() == 0 {
        Seq::empty()
    } else {
        escape_url_char(u[0]) + escape_url(u.drop_first())
    }
}

/// Reads an escaped URL back: a backslash takes the next character as it is.
pub open spec fn unescape_url(s: Seq<char>) -> Seq<char>
    decreases s.len(),
{
    if s.len() == 0 {
        Seq::empty()
    } else if s[0] == '\\' && s.len() >= 2 {
        seq![s[1]] + unescape_url(s.subrange(2, s.len() as int))
    } else {
        seq![s[0]] + unescape_url(s.drop_first())
    }
}

/// `ESC ] 8 ; ;`, which opens the sequence.
pub open spec fn osc8_open() -> Seq<char> {
    seq!['\x1b', ']', '8', ';', ';']
}

/// `ESC \`, the string terminator.
pub open spec fn string_terminator() -> Seq<char> {
    seq!['\x1b', '\\']
}

pub open spec fn begin_link_spec(url: Seq<char>) -> Seq<char> {
    osc8_open() + escape_url(url) + string_terminator()
}

pub open spec fn end_link_spec() -> Seq<char> {
    osc8_open() + string_terminator()
}

proof fn lemma_escape_push(u: Seq<char>, c: char)
    ensures
        escape_url(u.push(c)) == escape_url(u) + escape_url_char(c),
    decreases u.len(),
{
    if u.len() == 0 {
        assert(u =~= Seq::<char>::empty());
        assert(u.push(c).drop_first() =~= Seq::<char>::empty());
        assert(u.push(c)[0] == c);
        assert(escape_url(Seq::<char>::empty()) =~= Seq::<char>::empty());
        assert(escape_url(u.push(c)) =~= escape_url_char(c) + Seq::<char>::empty());
    } else {
        lemma_escape_push(u.drop_first(), c);
        assert(u.push(c).drop_first() =~= u.drop_first().push(c));
        assert(u.push(c)[0] == u[0]);
        let a = escape_url_char(u[0]);
        let b = escape_url(u.drop_first());
        assert(a + (b + escape_url_char(c)) =~= (a + b) + escape_url_char(c));
    }
}

fn push_open(s: &mut String)
    ensures
        final(s)@ == old(s)@ + osc8_open(),
{
    s.push('\x1b');
    s.push(']');
    s.push('8');
    s.push(';');
    s.push(';');
    assert(final(s)@ =~= old(s)@ + osc8_open());
}

fn push_terminator(s: &mut String)
    ensures
        final(s)@ == old(s)@ + string_terminator(),
{
    s.push('\x1b');
    s.push('\\');
    assert(final(s)@ =~= old(s)@ + string_terminator());
}

fn push_escaped_url(s: &mut String, url: &str)
    ensures
        final(s)@ == old(s)@ + escape_url(url@),
{
    let v = crate::text::chars_of(url);
    let ghost s0 = s@;
    let mut i: usize = 0;
    assert(v@.take(0) =~= Seq::<char>::empty());
    assert(escape_url(Seq::<char>::empty()) =~= Seq::<char>::empty());
    while i < v.len()
        invariant
            i <= v@.len(),
            s@ == s0 + escape_url(v@.take(i as int)),
        decreases v@.len() - i,
    {
        let c = v[i];
        proof {
            lemma_escape_push(v@.take(i as int), c);
            assert(v@.take(i + 1) =~= v@.take(i as int).push(c));
        }
        let ghost before = s@;
        if c == '\\' || c == ';' || c == ':' {
            s.push('\\');
        }
        s.push(c);
        assert(s@ =~= before + escape_url_char(c));
        i = i + 1;
    }
    assert(v@.take(i as int) =~= url@);
}

/// The sequence that starts a link to `url`.
pub fn begin_link(url: &str) -> (r: String)
    ensures
        r@ == begin_link_spec(url@),
{
    let mut s = String::new();
    push_open(&mut s);
    push_escaped_url(&mut s, url);
    push_terminator(&mut s);
    assert(s@ =~= begin_link_spec(url@));
    s
}

/// The sequence that ends a link.
pub fn end_link() -> (r: String)
    ensures
        r@ == end_link_spec(),
{
    let mut s = String::new();
    push_open(&mut s);
    push_terminator(&mut s);
    assert(s@ =~= end_link_spec());
    s
}

/// `content` as a link to `url`: the start of the link, the content as it
/// is, and the end of the link.
pub fn format_link(content: &str, url: &str) -> (r: String)
    ensures
        r@ == begin_link_spec(url@) + content@ + end_link_spec(),
{
    let mut s = String::new();
    push_open(&mut s);
    push_escaped_url(&mut s, url);
    push_terminator(&mut s);
    crate::text::push_all(&mut s, content);
    push_open(&mut s);
    push_terminator(&mut s);
    assert(s@ =~= begin_link_spec(url@) + content@ + end_link_spec());
    s
}

/// Escaping loses nothing: reading the escaped URL back gives the URL.
pub proof fn lemma_unescape_escape(u: Seq<char>)
    ensures
        unescape_url(escape_url(u)) == u,
    decreases u.len(),
{
    if u.len() > 0 {
        lemma_unescape_escape(u.drop_first());
        let c = u[0];
        let rest = escape_url(u.drop_first());
        let e = escape_url(u);
        assert(e == escape_url_char(c) + rest);
        if c == '\\' || c == ';' || c == ':' {
            assert(e[0] == '\\' && e[1] == c);
            assert(e.subrange(2, e.len() as int) =~= rest);
        } else {
            assert(e[0] == c);
            assert(e.drop_first() =~= rest);
        }
        assert(seq![c] + u.drop_first() =~= u);
    }
}

/// The escaping of a URL ends with the URL's last character, and a backslash
/// there comes out doubled, so it cannot join a following `ESC` into a
/// terminator.
pub proof fn lemma_escaped_backslashes_doubled(u: Seq<char>, c: char)
    ensures
        escape_url(u.push(c)).last() == c,
        c == '\\' ==> escape_url(u.push(c)).len() >= 2 && escape_url(u.push(c))[escape_url(u.push(c)).len() - 2] == '\\',
{
    lemma_escape_push(u, c);
}

} // verus!
