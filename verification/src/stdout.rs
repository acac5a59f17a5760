//! The queue of frames waiting to be written to the terminal, and the
//! bookkeeping of a write that may take several calls.
use std::collections::VecDeque;
use vstd::prelude::*;

verus! {

broadcast use vstd::std_specs::vecdeque::group_vec_dequeue_axioms;

/// Frames of output bytes, oldest first.
pub struct OutputQueue {
    frames: VecDeque<Vec<u8>>,
}

pub open spec fn frames_view(s: Seq<Vec<u8>>) -> Seq<Seq<u8>> {
    s.map_values(|v: Vec<u8>| v@)
}

impl View for OutputQueue {
    type V = Seq<Seq<u8>>;

    closed spec fn view(&self) -> Seq<Seq<u8>> {
        frames_view(self.frames@)
    }
}

impl OutputQueue {
    pub fn new() -> (r: OutputQueue)
        ensures
            r@ == Seq::<Seq<u8>>::empty(),
    {
        let r = OutputQueue { frames: VecDeque::new() };
        assert(frames_view(r.frames@) =~= Seq::<Seq<u8>>::empty());
        r
    }

    /// Queues a frame for output.
    pub fn pend_print(&mut self, data: Vec<u8>)
        ensures
            final(self)@ == old(self)@.push(data@),
    {
        let ghost before = self.frames@;
        let ghost d = data@;
        self.frames.push_back(data);
        assert(frames_view(self.frames@) =~= frames_view(before).push(d));
    }

    /// The number of frames waiting.
    pub fn pending_frames(&self) -> (r: usize)
        ensures
            r == self@.len(),
    {
        self.frames.len()
    }

    /// Drops every waiting frame.
    pub fn remove_pending_frames(&mut self)
        ensures
            final(self)@ == Seq::<Seq<u8>>::empty(),
    {
        self.frames.clear();
        assert(frames_view(self.frames@) =~= Seq::<Seq<u8>>::empty());
    }

    /// Takes the oldest frame, for the writer.
    pub fn pop_frame(&mut self) -> (r: Option<Vec<u8>>)
        ensures
            match r {
                Some(f) => old(self)@.len() > 0 && f@ == old(self)@[0] && final(self)@ == old(self)@.drop_first(),
                None => old(self)@.len() == 0 && final(self)@ == old(self)@,
            },
    {
        let ghost before = self.frames@;
        let r = self.frames.pop_front();
        proof {
            if r is Some {
                assert(frames_view(self.frames@) =~= frames_view(before).drop_first());
            }
        }
        r
    }
}

/// Frames come out in the order they were queued: a frame queued behind
/// others leaves the queue after them.
pub proof fn lemma_fifo(q: Seq<Seq<u8>>, f: Seq<u8>)
    requires
        q.len() > 0,
    ensures
        q.push(f)[0] == q[0],
        q.push(f).drop_first() == q.drop_first().push(f),
{
    assert(q.push(f).drop_first() =~= q.drop_first().push(f));
}

/// Where a write of `len` bytes stands after one more call of the writer,
/// which wrote `wrote` bytes (`None`: it failed).
#[derive(Clone, Copy, PartialEq, Eq, Structural, Debug)]
pub enum WriteProgress {
    /// Everything is written.
    Done,
    /// Bytes from this position on are still to be written.
    Continue(usize),
    /// The writer failed.
    Failed,
}

/// One step of writing `len` bytes from `pos`: the writer wrote `wrote` of
/// the remaining bytes.
pub fn print_all_step(pos: usize, len: usize, wrote: Option<usize>) -> (r: WriteProgress)
    requires
        pos < len,
        wrote matches Some(n) ==> n <= len - pos,
    ensures
        r == match wrote {
            None => WriteProgress::Failed,
            Some(n) => if pos + n >= len {
                WriteProgress::Done
            } else {
                WriteProgress::Continue((pos + n) as usize)
            },
        },
{
    match wrote {
        None => WriteProgress::Failed,
        Some(n) => {
            let next = pos + n;
            if next >= len {
                WriteProgress::Done
            } else {
                WriteProgress::Continue(next)
            }
        },
    }
}

} // verus!
