//! The error log shown on screen: recent errors, each dropped some seconds
//! after it was sent. Instants are nanoseconds on a monotonic clock.
use std::collections::VecDeque;
use vstd::prelude::*;
use crate::text::push_all;
use crate::util::{Color, escape_set_color, escape_set_color_spec};

verus! {

broadcast use vstd::std_specs::vecdeque::group_vec_dequeue_axioms;

/// How long an error stays, in nanoseconds.
pub const ERRMSG_TIMEOUT: u64 = 5_000_000_000;

/// One error message.
pub struct Error {
    pub msg: String,
    pub fg: Option<Color>,
    pub bg: Option<Color>,
    /// When it was sent.
    pub ts: u64,
}

pub struct ErrorView {
    pub msg: Seq<char>,
    pub fg: Option<Color>,
    pub bg: Option<Color>,
    pub ts: int,
}

impl View for Error {
    type V = ErrorView;

    open spec fn view(&self) -> ErrorView {
        ErrorView { msg: self.msg@, fg: self.fg, bg: self.bg, ts: self.ts as int }
    }
}

pub open spec fn errors_view(q: Seq<Error>) -> Seq<ErrorView> {
    q.map_values(|e: Error| e@)
}

/// The time from `ts` to `now`, zero when `ts` is later.
pub open spec fn since(ts: int, now: int) -> int {
    if now >= ts {
        now - ts
    } else {
        0
    }
}

/// The errors without those at the front that have been shown long enough.
pub open spec fn drop_expired_errors(q: Seq<ErrorView>, now: int) -> Seq<ErrorView>
    decreases q.len(),
{
    if q.len() > 0 && since(q[0].ts, now) >= ERRMSG_TIMEOUT {
        drop_expired_errors(q.drop_first(), now)
    } else {
        q
    }
}

/// The errors being shown, oldest first.
pub struct ErrorLog {
    pub errors: VecDeque<Error>,
}

impl ErrorLog {
    pub fn new() -> (r: ErrorLog)
        ensures
            errors_view(r.errors@) == Seq::<ErrorView>::empty(),
    {
        let r = ErrorLog { errors: VecDeque::new() };
        assert(errors_view(r.errors@) =~= Seq::<ErrorView>::empty());
        r
    }
}

fn front_expired(log: &ErrorLog, now: u64) -> (r: bool)
    ensures
        r == (errors_view(log.errors@).len() > 0 && since(errors_view(log.errors@)[0].ts, now as int) >= ERRMSG_TIMEOUT),
{
    if log.errors.len() == 0 {
        return false;
    }
    let ts = log.errors[0].ts;
    let a = if now >= ts {
        now - ts
    } else {
        0
    };
    a >= ERRMSG_TIMEOUT
}

/// Drops the errors at the front that have been shown long enough.
pub fn remove_expired_errors(log: &mut ErrorLog, now: u64)
    ensures
        errors_view(final(log).errors@) == drop_expired_errors(errors_view(old(log).errors@), now as int),
{
    while front_expired(log, now)
        invariant
            drop_expired_errors(errors_view(log.errors@), now as int) == drop_expired_errors(
                errors_view(old(log).errors@),
                now as int,
            ),
        decreases log.errors@.len(),
    {
        let ghost q0 = log.errors@;
        let _ = log.errors.pop_front();
        assert(errors_view(log.errors@) =~= errors_view(q0).drop_first());
    }
}

/// Shows an error sent at `now`.
pub fn send_error(log: &mut ErrorLog, msg: &str, fg: Option<Color>, bg: Option<Color>, now: u64)
    ensures
        errors_view(final(log).errors@) == errors_view(old(log).errors@).push(
            ErrorView { msg: msg@, fg, bg, ts: now as int },
        ),
{
    let ghost q0 = log.errors@;
    let e = Error { msg: msg.to_owned(), fg, bg, ts: now };
    let ghost ev = e@;
    log.errors.push_back(e);
    assert(errors_view(log.errors@) =~= errors_view(q0).push(ev));
}

/// How an error is printed, with `date` the text of its time: `[date] `,
/// its colors, the message, a reset when it has colors, and a new line.
pub open spec fn error_line_spec(e: ErrorView, date: Seq<char>) -> Seq<char> {
    seq!['['] + date + seq![']', ' '] + (match e.fg {
        Some(c) => escape_set_color_spec(Some(c), None),
        None => Seq::empty(),
    }) + (match e.bg {
        Some(c) => escape_set_color_spec(None, Some(c)),
        None => Seq::empty(),
    }) + e.msg + (if e.fg is Some || e.bg is Some {
        seq!['\x1b', '[', '0', 'm']
    } else {
        Seq::empty()
    }) + seq!['\n']
}

/// The printed line of an error, as `error_line_spec` says.
pub fn error_line(e: &Error, date: &str) -> (r: String)
    ensures
        r@ == error_line_spec(e@, date@),
{
    let mut s = String::new();
    s.push('[');
    push_all(&mut s, date);
    s.push(']');
    s.push(' ');
    match e.fg {
        Some(c) => {
            let t = escape_set_color(Some(c), None);
            push_all(&mut s, t.as_str());
        },
        None => {},
    }
    match e.bg {
        Some(c) => {
            let t = escape_set_color(None, Some(c));
            push_all(&mut s, t.as_str());
        },
        None => {},
    }
    push_all(&mut s, e.msg.as_str());
    if e.fg.is_some() || e.bg.is_some() {
        s.push('\x1b');
        s.push('[');
        s.push('0');
        s.push('m');
    }
    s.push('\n');
    assert(s@ =~= error_line_spec(e@, date@));
    s
}

} // verus!
