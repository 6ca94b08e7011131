//! In-memory media source and sink for tests and demos.
use crate::media::frame::MediaFrame;
use std::collections::VecDeque;
use vstd::prelude::*;

verus! {

/// What one `poll` of a source with `pending` frames returns.
pub open spec fn source_poll(pending: Seq<MediaFrame>) -> Option<MediaFrame> {
    if pending.len() == 0 {
        None
    } else {
        Some(pending[0])
    }
}

/// The frames still pending after one `poll`.
pub open spec fn source_rest(pending: Seq<MediaFrame>) -> Seq<MediaFrame> {
    if pending.len() == 0 {
        pending
    } else {
        pending.drop_first()
    }
}

/// What `k` successive polls return.
pub open spec fn source_polls(pending: Seq<MediaFrame>, k: nat) -> Seq<Option<MediaFrame>>
    decreases k,
{
    if k == 0 {
        Seq::empty()
    } else {
        seq![source_poll(pending)] + source_polls(source_rest(pending), (k - 1) as nat)
    }
}

/// The pending frames after pushing each of `more`, in order, by `push`.
pub open spec fn after_pushes(pending: Seq<MediaFrame>, more: Seq<MediaFrame>) -> Seq<MediaFrame>
    decreases more.len(),
{
    if more.len() == 0 {
        pending
    } else {
        after_pushes(pending, more.drop_last()).push(more.last())
    }
}

proof fn lemma_after_pushes_appends(pending: Seq<MediaFrame>, more: Seq<MediaFrame>)
    ensures
        after_pushes(pending, more) == pending + more,
    decreases more.len(),
{
    if more.len() > 0 {
        lemma_after_pushes_appends(pending, more.drop_last());
        assert(pending + more =~= (pending + more.drop_last()).push(more.last()));
    }
}

proof fn lemma_source_polls(pending: Seq<MediaFrame>, k: nat)
    ensures
        source_polls(pending, k).len() == k,
        forall|i: int|
            0 <= i < k ==> #[trigger] source_polls(pending, k)[i] == if i < pending.len() {
                Some(pending[i])
            } else {
                None
            },
    decreases k,
{
    if k > 0 {
        let rest = source_rest(pending);
        lemma_source_polls(rest, (k - 1) as nat);
        let all = source_polls(pending, k);
        assert(all == seq![source_poll(pending)] + source_polls(rest, (k - 1) as nat));
        assert forall|i: int| 0 <= i < k implies #[trigger] all[i] == if i < pending.len() {
            Some(pending[i])
        } else {
            None
        } by {
            if i > 0 {
                assert(all[i] == source_polls(rest, (k - 1) as nat)[i - 1]);
            }
        }
    }
}

/// A source made from `frames`, with `more` pushed after, is first in,
/// first out: successive polls give back each of `frames` and then each of
/// `more`, in order and exactly once, and `None` on every later poll.
pub proof fn lemma_source_first_in_first_out(frames: Seq<MediaFrame>, more: Seq<MediaFrame>, k: nat)
    ensures
        source_polls(after_pushes(frames, more), k).len() == k,
        forall|i: int|
            0 <= i < k ==> #[trigger] source_polls(after_pushes(frames, more), k)[i] == if i
                < frames.len() {
                Some(frames[i])
            } else if i < frames.len() + more.len() {
                Some(more[i - frames.len()])
            } else {
                None
            },
{
    lemma_after_pushes_appends(frames, more);
    lemma_source_polls(frames + more, k);
}

/// A first-in, first-out source of frames.
pub struct MockMediaSource {
    frames: VecDeque<MediaFrame>,
}

impl MockMediaSource {
    /// Frames still to be polled, in order.
    pub closed spec fn pending(&self) -> Seq<MediaFrame> {
        self.frames@
    }

    pub fn new(frames: Vec<MediaFrame>) -> (r: Self)
        ensures
            r.pending() == frames@,
    {
        let mut queue: VecDeque<MediaFrame> = VecDeque::new();
        let mut rest = frames;
        let ghost all = rest@;
        while rest.len() > 0
            invariant
                rest@ + queue@ == all,
            decreases rest.len(),
        {
            let ghost (before, tail) = (rest@, queue@);
            let frame = rest.pop().unwrap();
            queue.push_front(frame);
            proof {
                assert(before == rest@.push(frame));
                assert(rest@ + queue@ =~= before + tail);
            }
        }
        assert(rest@.len() == 0);
        assert(queue@ =~= all);
        MockMediaSource { frames: queue }
    }

    pub fn push(&mut self, frame: MediaFrame)
        ensures
            final(self).pending() == old(self).pending().push(frame),
    {
        self.frames.push_back(frame);
    }

    pub fn poll(&mut self) -> (r: Option<MediaFrame>)
        ensures
            r == source_poll(old(self).pending()),
            final(self).pending() == source_rest(old(self).pending()),
    {
        self.frames.pop_front()
    }
}

impl Default for MockMediaSource {
    fn default() -> (r: Self)
        ensures
            r.pending().len() == 0,
    {
        MockMediaSource { frames: VecDeque::new() }
    }
}

/// An append-only sink that keeps every frame pushed into it.
pub struct MockMediaSink {
    frames: Vec<MediaFrame>,
}

impl MockMediaSink {
    /// The frames received so far, in order.
    pub closed spec fn received(&self) -> Seq<MediaFrame> {
        self.frames@
    }

    pub fn push(&mut self, frame: MediaFrame)
        ensures
            final(self).received() == old(self).received().push(frame),
    {
        self.frames.push(frame);
    }

    pub fn frames(&self) -> (r: &[MediaFrame])
        ensures
            r@ == self.received(),
    {
        self.frames.as_slice()
    }

    pub fn into_frames(self) -> (r: Vec<MediaFrame>)
        ensures
            r@ == self.received(),
    {
        self.frames
    }
}

impl Default for MockMediaSink {
    fn default() -> (r: Self)
        ensures
            r.received().len() == 0,
    {
        MockMediaSink { frames: Vec::new() }
    }
}

} // verus!
