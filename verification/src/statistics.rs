//! Per-terminal rendering statistics: the last few timings and sizes, and
//! running totals. Durations are nanoseconds.
use std::collections::VecDeque;
use vstd::prelude::*;

verus! {

broadcast use vstd::std_specs::vecdeque::group_vec_dequeue_axioms;

/// A queue that keeps only its last `SIZE` items.
pub struct MaxSizedQueue<T, const SIZE: usize> {
    queue: VecDeque<T>,
}

/// The last `n` items of `s` (all of them when there are fewer).
pub open spec fn keep_last<T>(s: Seq<T>, n: nat) -> Seq<T> {
    if s.len() > n {
        s.subrange(s.len() - n, s.len() as int)
    } else {
        s
    }
}

/// The sum of the items.
pub open spec fn seq_sum(s: Seq<u64>) -> int
    decreases s.len(),
{
    if s.len() == 0 {
        0
    } else {
        seq_sum(s.drop_last()) + s.last()
    }
}

impl<T, const SIZE: usize> View for MaxSizedQueue<T, SIZE> {
    type V = Seq<T>;

    closed spec fn view(&self) -> Seq<T> {
        self.queue@
    }
}

impl<T, const SIZE: usize> MaxSizedQueue<T, SIZE> {
    pub fn new() -> (r: Self)
        ensures
            r@ == Seq::<T>::empty(),
    {
        MaxSizedQueue { queue: VecDeque::new() }
    }

    /// Appends an item and drops the oldest ones beyond `SIZE`.
    pub fn push_back(&mut self, item: T)
        ensures
            final(self)@ == keep_last(old(self)@.push(item), SIZE as nat),
    {
        let ghost all = self.queue@.push(item);
        self.queue.push_back(item);
        while self.queue.len() > SIZE
            invariant
                self.queue@.len() <= all.len(),
                self.queue@ == all.subrange(all.len() - self.queue@.len(), all.len() as int),
                all.len() > SIZE ==> self.queue@.len() >= SIZE,
                all.len() <= SIZE ==> self.queue@ == all,
            decreases self.queue@.len(),
        {
            self.queue.pop_front();
        }
    }

    pub fn len(&self) -> (r: usize)
        ensures
            r == self@.len(),
    {
        self.queue.len()
    }

    /// The items, oldest first.
    pub fn iter(&self) -> (r: Vec<T>)
        where
            T: Copy,
        ensures
            r@ == self@,
    {
        let mut r: Vec<T> = Vec::new();
        let n = self.queue.len();
        let mut i: usize = 0;
        while i < n
            invariant
                n == self.queue@.len(),
                i <= n,
                r@ == self.queue@.take(i as int),
            decreases n - i,
        {
            r.push(self.queue[i]);
            i = i + 1;
            assert(r@ =~= self.queue@.take(i as int));
        }
        assert(self.queue@.take(n as int) =~= self.queue@);
        r
    }

    /// The newest item, if any.
    pub fn last_or_none(&self) -> (r: Option<T>)
        where
            T: Copy,
        ensures
            r == (if self@.len() == 0 {
                None
            } else {
                Some(self@.last())
            }),
    {
        let n = self.queue.len();
        if n == 0 {
            None
        } else {
            Some(self.queue[n - 1])
        }
    }
}

impl<const SIZE: usize> MaxSizedQueue<u64, SIZE> {
    /// The newest item, zero when empty.
    pub fn last(&self) -> (r: u64)
        ensures
            r == (if self@.len() == 0 {
                0
            } else {
                self@.last()
            }),
    {
        match self.last_or_none() {
            Some(x) => x,
            None => 0,
        }
    }

    fn sum(&self) -> (r: u64)
        requires
            seq_sum(self@) <= u64::MAX,
        ensures
            r == seq_sum(self@),
    {
        let n = self.queue.len();
        let mut total: u64 = 0;
        let mut i: usize = 0;
        while i < n
            invariant
                n == self.queue@.len(),
                i <= n,
                total == seq_sum(self.queue@.take(i as int)),
                seq_sum(self.queue@) <= u64::MAX,
            decreases n - i,
        {
            proof {
                assert(self.queue@.take(i + 1).drop_last() =~= self.queue@.take(i as int));
                lemma_sum_prefix_bounded(self.queue@, i + 1);
            }
            total = total + self.queue[i];
            i = i + 1;
        }
        assert(self.queue@.take(n as int) =~= self.queue@);
        total
    }

    /// The mean of the items (rounded down), zero when empty.
    pub fn avg(&self) -> (r: u64)
        requires
            seq_sum(self@) <= u64::MAX,
        ensures
            r == mean(self@),
    {
        proof {
            lemma_avg_or_none_is_avg(self@);
        }
        match self.avg_or_none() {
            Some(x) => x,
            None => 0,
        }
    }

    /// The mean of the items (rounded down), if there are any.
    pub fn avg_or_none(&self) -> (r: Option<u64>)
        requires
            seq_sum(self@) <= u64::MAX,
        ensures
            r == mean_or_none(self@),
    {
        let n = self.queue.len();
        if n == 0 {
            return None;
        }
        let total = self.sum();
        Some(total / (n as u64))
    }
}

/// The mean of `s`, rounded down; zero for an empty sequence.
pub open spec fn mean(s: Seq<u64>) -> int {
    if s.len() == 0 {
        0
    } else {
        seq_sum(s) / (s.len() as int)
    }
}

/// The mean of `s`, rounded down, if `s` has items.
pub open spec fn mean_or_none(s: Seq<u64>) -> Option<u64> {
    if s.len() == 0 {
        None
    } else {
        Some(mean(s) as u64)
    }
}

/// `avg_or_none` gives nothing exactly for an empty queue, and otherwise
/// what `avg` gives (which then fits in a `u64`).
pub proof fn lemma_avg_or_none_is_avg(s: Seq<u64>)
    requires
        seq_sum(s) <= u64::MAX,
    ensures
        mean_or_none(s) is None <==> s.len() == 0,
        s.len() > 0 ==> 0 <= mean(s) <= u64::MAX && mean_or_none(s) == Some(mean(s) as u64),
{
    if s.len() > 0 {
        lemma_sum_nonneg(s);
        let t = seq_sum(s);
        let n = s.len() as int;
        assert(0 <= t / n <= t) by (nonlinear_arith)
            requires
                t >= 0,
                n >= 1,
        ;
    }
}

/// A sum of unsigned numbers is not negative.
pub proof fn lemma_sum_nonneg(s: Seq<u64>)
    ensures
        seq_sum(s) >= 0,
    decreases s.len(),
{
    if s.len() > 0 {
        lemma_sum_nonneg(s.drop_last());
    }
}

/// The sum of a prefix is at most the sum of the whole.
pub proof fn lemma_sum_prefix_bounded(s: Seq<u64>, k: int)
    requires
        0 <= k <= s.len(),
    ensures
        seq_sum(s.take(k)) <= seq_sum(s),
    decreases s.len() - k,
{
    if k < s.len() {
        lemma_sum_prefix_bounded(s, k + 1);
        assert(s.take(k + 1).drop_last() =~= s.take(k));
    } else {
        assert(s.take(k) =~= s);
    }
}

/// The statistics of one terminal.
pub struct Statistics {
    pub render_time: MaxSizedQueue<u64, 60>,
    pub escape_string_encode_time: MaxSizedQueue<u64, 60>,
    pub output_time: MaxSizedQueue<u64, 60>,
    pub output_bytes: MaxSizedQueue<u64, 60>,
    pub video_skipped_frames: usize,
    pub total_output_bytes: usize,
}

impl Statistics {
    pub fn new() -> (r: Statistics)
        ensures
            r.render_time@ == Seq::<u64>::empty(),
            r.escape_string_encode_time@ == Seq::<u64>::empty(),
            r.output_time@ == Seq::<u64>::empty(),
            r.output_bytes@ == Seq::<u64>::empty(),
            r.video_skipped_frames == 0,
            r.total_output_bytes == 0,
    {
        Statistics {
            render_time: MaxSizedQueue::new(),
            escape_string_encode_time: MaxSizedQueue::new(),
            output_time: MaxSizedQueue::new(),
            output_bytes: MaxSizedQueue::new(),
            video_skipped_frames: 0,
            total_output_bytes: 0,
        }
    }
}

pub fn set_render_time(stats: &mut Statistics, duration: u64)
    ensures
        final(stats).render_time@ == keep_last(old(stats).render_time@.push(duration), 60),
        final(stats).escape_string_encode_time@ == old(stats).escape_string_encode_time@,
        final(stats).output_time@ == old(stats).output_time@,
        final(stats).output_bytes@ == old(stats).output_bytes@,
        final(stats).video_skipped_frames == old(stats).video_skipped_frames,
        final(stats).total_output_bytes == old(stats).total_output_bytes,
{
    stats.render_time.push_back(duration);
}

pub fn set_escape_string_encode_time(stats: &mut Statistics, duration: u64)
    ensures
        final(stats).escape_string_encode_time@ == keep_last(
            old(stats).escape_string_encode_time@.push(duration),
            60,
        ),
        final(stats).render_time@ == old(stats).render_time@,
        final(stats).output_time@ == old(stats).output_time@,
        final(stats).output_bytes@ == old(stats).output_bytes@,
        final(stats).video_skipped_frames == old(stats).video_skipped_frames,
        final(stats).total_output_bytes == old(stats).total_output_bytes,
{
    stats.escape_string_encode_time.push_back(duration);
}

pub fn set_output_time(stats: &mut Statistics, duration: u64)
    ensures
        final(stats).output_time@ == keep_last(old(stats).output_time@.push(duration), 60),
        final(stats).render_time@ == old(stats).render_time@,
        final(stats).escape_string_encode_time@ == old(stats).escape_string_encode_time@,
        final(stats).output_bytes@ == old(stats).output_bytes@,
        final(stats).video_skipped_frames == old(stats).video_skipped_frames,
        final(stats).total_output_bytes == old(stats).total_output_bytes,
{
    stats.output_time.push_back(duration);
}

pub fn set_output_bytes(stats: &mut Statistics, num: u64)
    ensures
        final(stats).output_bytes@ == keep_last(old(stats).output_bytes@.push(num), 60),
        final(stats).render_time@ == old(stats).render_time@,
        final(stats).escape_string_encode_time@ == old(stats).escape_string_encode_time@,
        final(stats).output_time@ == old(stats).output_time@,
        final(stats).video_skipped_frames == old(stats).video_skipped_frames,
        final(stats).total_output_bytes == old(stats).total_output_bytes,
{
    stats.output_bytes.push_back(num);
}

pub fn increment_video_skipped_frames(stats: &mut Statistics, num: usize)
    requires
        old(stats).video_skipped_frames + num <= usize::MAX,
    ensures
        final(stats).video_skipped_frames == old(stats).video_skipped_frames + num,
        final(stats).total_output_bytes == old(stats).total_output_bytes,
        final(stats).render_time@ == old(stats).render_time@,
        final(stats).output_bytes@ == old(stats).output_bytes@,
        final(stats).escape_string_encode_time@ == old(stats).escape_string_encode_time@,
        final(stats).output_time@ == old(stats).output_time@,
{
    stats.video_skipped_frames = stats.video_skipped_frames + num;
}

pub fn increment_total_output_bytes(stats: &mut Statistics, num: usize)
    requires
        old(stats).total_output_bytes + num <= usize::MAX,
    ensures
        final(stats).total_output_bytes == old(stats).total_output_bytes + num,
        final(stats).video_skipped_frames == old(stats).video_skipped_frames,
        final(stats).render_time@ == old(stats).render_time@,
        final(stats).output_bytes@ == old(stats).output_bytes@,
        final(stats).escape_string_encode_time@ == old(stats).escape_string_encode_time@,
        final(stats).output_time@ == old(stats).output_time@,
{
    stats.total_output_bytes = stats.total_output_bytes + num;
}

/// A queue never holds more than `SIZE` items, and the newest item is the
/// one pushed last.
pub proof fn lemma_push_keeps_bound<T>(s: Seq<T>, item: T, n: nat)
    requires
        n > 0,
    ensures
        keep_last(s.push(item), n).len() <= n,
        keep_last(s.push(item), n).last() == item,
        s.len() < n ==> keep_last(s.push(item), n) == s.push(item),
{
}

} // verus!
