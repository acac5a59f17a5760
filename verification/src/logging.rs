//! Log messages: levels, the queue of recent messages and how a message is
//! printed. Timestamps are nanoseconds since the Unix epoch; the date text
//! is made by the caller.
use std::collections::VecDeque;
use vstd::prelude::*;
use crate::text::push_all;
use crate::util::{Color, escape_set_color, escape_set_color_spec, rgb};

verus! {

broadcast use vstd::std_specs::vecdeque::group_vec_dequeue_axioms;

#[derive(Clone, Copy, PartialEq, Eq, Structural, Debug)]
pub enum MessageLevel {
    Debug,
    Info,
    Warn,
    Error,
    Fatal,
}

pub open spec fn level_str_spec(lv: MessageLevel) -> Seq<char> {
    match lv {
        MessageLevel::Debug => "[Debug]"@,
        MessageLevel::Info => "[Info ]"@,
        MessageLevel::Warn => "[Warn ]"@,
        MessageLevel::Error => "[Error]"@,
        MessageLevel::Fatal => "[Fatal]"@,
    }
}

pub open spec fn level_color_spec(lv: MessageLevel) -> Color {
    match lv {
        MessageLevel::Debug => rgb(128, 192, 255),
        MessageLevel::Info => rgb(64, 192, 128),
        MessageLevel::Warn => rgb(255, 192, 0),
        MessageLevel::Error => rgb(255, 128, 64),
        MessageLevel::Fatal => rgb(255, 64, 64),
    }
}

impl MessageLevel {
    /// The tag of the level, all of one width.
    pub fn level_str(&self) -> (r: &'static str)
        ensures
            r@ == level_str_spec(*self),
    {
        match self {
            MessageLevel::Debug => "[Debug]",
            MessageLevel::Info => "[Info ]",
            MessageLevel::Warn => "[Warn ]",
            MessageLevel::Error => "[Error]",
            MessageLevel::Fatal => "[Fatal]",
        }
    }

    /// The color of the level.
    pub fn level_color(&self) -> (r: Color)
        ensures
            r == level_color_spec(*self),
    {
        match self {
            MessageLevel::Debug => Color::new(128, 192, 255),
            MessageLevel::Info => Color::new(64, 192, 128),
            MessageLevel::Warn => Color::new(255, 192, 0),
            MessageLevel::Error => Color::new(255, 128, 64),
            MessageLevel::Fatal => Color::new(255, 64, 64),
        }
    }
}

/// One log message.
pub struct Message {
    pub lv: MessageLevel,
    pub msg: String,
    pub fg: Option<Color>,
    pub bg: Option<Color>,
    /// When it was sent.
    pub ts: u128,
}

pub struct MessageView {
    pub lv: MessageLevel,
    pub msg: Seq<char>,
    pub fg: Option<Color>,
    pub bg: Option<Color>,
    pub ts: int,
}

impl View for Message {
    type V = MessageView;

    open spec fn view(&self) -> MessageView {
        MessageView { lv: self.lv, msg: self.msg@, fg: self.fg, bg: self.bg, ts: self.ts as int }
    }
}

/// The recent messages, oldest first, and how long a message stays.
pub struct Messages {
    pub queue: VecDeque<Message>,
    pub timeout: u128,
}

pub open spec fn messages_view(q: Seq<Message>) -> Seq<MessageView> {
    q.map_values(|m: Message| m@)
}

/// The time from `ts` to `now`, zero when `ts` is later.
pub open spec fn age(ts: int, now: int) -> int {
    if now >= ts {
        now - ts
    } else {
        0
    }
}

/// The queue without the messages at its front that are at least
/// `timeout` old.
pub open spec fn drop_old(q: Seq<MessageView>, now: int, timeout: int) -> Seq<MessageView>
    decreases q.len(),
{
    if q.len() > 0 && age(q[0].ts, now) >= timeout {
        drop_old(q.drop_first(), now, timeout)
    } else {
        q
    }
}

impl Messages {
    /// No messages; a message stays five seconds.
    pub fn new() -> (r: Messages)
        ensures
            messages_view(r.queue@) == Seq::<MessageView>::empty(),
            r.timeout == 5_000_000_000,
    {
        let r = Messages { queue: VecDeque::new(), timeout: 5_000_000_000 };
        assert(messages_view(r.queue@) =~= Seq::<MessageView>::empty());
        r
    }
}

fn front_old(m: &Messages, now: u128) -> (r: bool)
    ensures
        r == (messages_view(m.queue@).len() > 0 && age(messages_view(m.queue@)[0].ts, now as int) >= m.timeout),
{
    if m.queue.len() == 0 {
        return false;
    }
    let ts = m.queue[0].ts;
    let a = if now >= ts {
        now - ts
    } else {
        0
    };
    a >= m.timeout
}

/// Drops the messages at the front of the queue that are too old.
pub fn remove_expired_messages(m: &mut Messages, now: u128)
    ensures
        messages_view(final(m).queue@) == drop_old(messages_view(old(m).queue@), now as int, old(m).timeout as int),
        final(m).timeout == old(m).timeout,
{
    let timeout = m.timeout;
    while front_old(m, now)
        invariant
            m.timeout == timeout,
            timeout == old(m).timeout,
            drop_old(messages_view(m.queue@), now as int, timeout as int) == drop_old(
                messages_view(old(m).queue@),
                now as int,
                timeout as int,
            ),
        decreases m.queue@.len(),
    {
        let ghost q0 = m.queue@;
        let _ = m.queue.pop_front();
        assert(messages_view(m.queue@) =~= messages_view(q0).drop_first());
    }
}

/// Queues a message sent at `now`.
pub fn send_message(m: &mut Messages, lv: MessageLevel, msg: &str, fg: Option<Color>, bg: Option<Color>, now: u128)
    ensures
        messages_view(final(m).queue@) == messages_view(old(m).queue@).push(
            MessageView { lv, msg: msg@, fg, bg, ts: now as int },
        ),
        final(m).timeout == old(m).timeout,
{
    let ghost q0 = m.queue@;
    let e = Message { lv, msg: msg.to_owned(), fg, bg, ts: now };
    let ghost ev = e@;
    m.queue.push_back(e);
    assert(messages_view(m.queue@) =~= messages_view(q0).push(ev));
}

pub fn debug(m: &mut Messages, msg: &str, fg: Option<Color>, bg: Option<Color>, now: u128)
    ensures
        messages_view(final(m).queue@) == messages_view(old(m).queue@).push(
            MessageView { lv: MessageLevel::Debug, msg: msg@, fg, bg, ts: now as int },
        ),
        final(m).timeout == old(m).timeout,
{
    send_message(m, MessageLevel::Debug, msg, fg, bg, now);
}

pub fn info(m: &mut Messages, msg: &str, fg: Option<Color>, bg: Option<Color>, now: u128)
    ensures
        messages_view(final(m).queue@) == messages_view(old(m).queue@).push(
            MessageView { lv: MessageLevel::Info, msg: msg@, fg, bg, ts: now as int },
        ),
        final(m).timeout == old(m).timeout,
{
    send_message(m, MessageLevel::Info, msg, fg, bg, now);
}

pub fn warning(m: &mut Messages, msg: &str, fg: Option<Color>, bg: Option<Color>, now: u128)
    ensures
        messages_view(final(m).queue@) == messages_view(old(m).queue@).push(
            MessageView { lv: MessageLevel::Warn, msg: msg@, fg, bg, ts: now as int },
        ),
        final(m).timeout == old(m).timeout,
{
    send_message(m, MessageLevel::Warn, msg, fg, bg, now);
}

pub fn error(m: &mut Messages, msg: &str, fg: Option<Color>, bg: Option<Color>, now: u128)
    ensures
        messages_view(final(m).queue@) == messages_view(old(m).queue@).push(
            MessageView { lv: MessageLevel::Error, msg: msg@, fg, bg, ts: now as int },
        ),
        final(m).timeout == old(m).timeout,
{
    send_message(m, MessageLevel::Error, msg, fg, bg, now);
}

/// `ESC [ 0 m`, which resets the colors.
pub open spec fn reset_seq() -> Seq<char> {
    seq!['\x1b', '[', '0', 'm']
}

/// How a message is printed, with `date` the text of its time: the date in
/// the level's color, the level tag on the level's color, then the message
/// in its own colors (the level's color for text when it has none).
pub open spec fn message_line_spec(m: MessageView, date: Seq<char>) -> Seq<char> {
    let lv = level_color_spec(m.lv);
    seq!['['] + escape_set_color_spec(Some(lv), None) + date + reset_seq() + seq![']', ' '] + escape_set_color_spec(
        None,
        Some(lv),
    ) + level_str_spec(m.lv) + reset_seq() + seq![' '] + escape_set_color_spec(
        Some(
            match m.fg {
                Some(c) => c,
                None => lv,
            },
        ),
        None,
    ) + (match m.bg {
        Some(b) => escape_set_color_spec(None, Some(b)),
        None => Seq::empty(),
    }) + m.msg + reset_seq() + seq!['\n']
}

fn push_reset(s: &mut String)
    ensures
        final(s)@ == old(s)@ + reset_seq(),
{
    s.push('\x1b');
    s.push('[');
    s.push('0');
    s.push('m');
    assert(final(s)@ =~= old(s)@ + reset_seq());
}

fn push_string(s: &mut String, t: String)
    ensures
        final(s)@ == old(s)@ + t@,
{
    push_all(s, t.as_str());
}

/// The printed line of a message, as `message_line_spec` says.
pub fn message_line(m: &Message, date: &str) -> (r: String)
    ensures
        r@ == message_line_spec(m@, date@),
{
    let lv = m.lv.level_color();
    let mut s = String::new();
    s.push('[');
    push_string(&mut s, escape_set_color(Some(lv), None));
    push_all(&mut s, date);
    push_reset(&mut s);
    s.push(']');
    s.push(' ');
    push_string(&mut s, escape_set_color(None, Some(lv)));
    push_all(&mut s, m.lv.level_str());
    push_reset(&mut s);
    s.push(' ');
    let fg = match m.fg {
        Some(c) => c,
        None => lv,
    };
    push_string(&mut s, escape_set_color(Some(fg), None));
    match m.bg {
        Some(b) => push_string(&mut s, escape_set_color(None, Some(b))),
        None => {},
    }
    push_all(&mut s, m.msg.as_str());
    push_reset(&mut s);
    s.push('\n');
    assert(s@ =~= message_line_spec(m@, date@));
    s
}

/// Messages stay in the order they were sent: a sent message is the newest,
/// and dropping old messages keeps the rest in order (a suffix of the
/// queue).
pub proof fn lemma_drop_old_suffix(q: Seq<MessageView>, now: int, timeout: int)
    ensures
        exists|k: int| 0 <= k <= q.len() && drop_old(q, now, timeout) == q.subrange(k, q.len() as int),
    decreases q.len(),
{
    if q.len() > 0 && age(q[0].ts, now) >= timeout {
        lemma_drop_old_suffix(q.drop_first(), now, timeout);
        let k = choose|k: int|
            0 <= k <= q.drop_first().len() && drop_old(q.drop_first(), now, timeout) == q.drop_first().subrange(
                k,
                q.drop_first().len() as int,
            );
        assert(q.drop_first().subrange(k, q.drop_first().len() as int) =~= q.subrange(k + 1, q.len() as int));
    } else {
        assert(q.subrange(0, q.len() as int) =~= q);
    }
}

} // verus!
