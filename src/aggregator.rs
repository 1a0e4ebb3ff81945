use std::collections::VecDeque;
use vstd::prelude::*;

verus! {

/// A comment as (user, content).
pub type CommentPair = (String, String);

/// What a platform source hands over.
pub enum SteamEvent {
    Comment { user: String, content: String },
}

/// `buf` after `c` is appended under a capacity of `max`: the oldest entry
/// goes once the buffer is over capacity.
pub open spec fn push_evict<T>(buf: Seq<T>, c: T, max: nat) -> Seq<T> {
    if buf.len() + 1 > max {
        buf.push(c).drop_first()
    } else {
        buf.push(c)
    }
}

/// `buf` after each of `cs` is appended in turn.
pub open spec fn push_all<T>(buf: Seq<T>, cs: Seq<T>, max: nat) -> Seq<T>
    decreases cs.len(),
{
    if cs.len() == 0 {
        buf
    } else {
        push_all(push_evict(buf, cs[0], max), cs.drop_first(), max)
    }
}

/// The last `n` elements of `s`, or all of them where it is shorter.
pub open spec fn last_n<T>(s: Seq<T>, n: nat) -> Seq<T> {
    if s.len() <= n {
        s
    } else {
        s.subrange(s.len() - n, s.len() as int)
    }
}

/// Comments stored with a capacity of `max` from a buffer that fits keep
/// exactly the most recent `max` of the buffer followed by the new ones.
pub proof fn lemma_keeps_most_recent<T>(buf: Seq<T>, cs: Seq<T>, max: nat)
    requires
        buf.len() <= max,
    ensures
        push_all(buf, cs, max) == last_n(buf + cs, max),
    decreases cs.len(),
{
    if cs.len() == 0 {
        assert(buf + cs =~= buf);
    } else {
        let b1 = push_evict(buf, cs[0], max);
        lemma_keeps_most_recent(b1, cs.drop_first(), max);
        let x = buf.push(cs[0]);
        let y = cs.drop_first();
        assert(buf + cs =~= x + y);
        assert(b1 == last_n(x, max));
        assert(last_n(b1 + y, max) =~= last_n(x + y, max));
    }
}

/// While nothing overflows, the buffer holds every comment delivered, in
/// arrival order: the batch that `request_batch` then hands over.
pub proof fn lemma_batch_is_arrivals<T>(buf: Seq<T>, cs: Seq<T>, max: nat)
    requires
        buf.len() + cs.len() <= max,
    ensures
        push_all(buf, cs, max) == buf + cs,
{
    lemma_keeps_most_recent(buf, cs, max);
}

/// The bounded comment buffer of one platform, with the request that waits
/// for the next comment when a batch is asked for while it is empty.
pub struct CommentStore {
    pub max_comment: usize,
    pub comments: VecDeque<CommentPair>,
    pub awaiting: bool,
}

impl CommentStore {
    pub open spec fn wf(&self) -> bool {
        &&& self.comments@.len() <= self.max_comment
        &&& self.awaiting ==> self.comments@.len() == 0
    }

    pub fn new(max_comment: usize) -> (r: Self)
        ensures
            r.wf(),
            r.max_comment == max_comment,
            r.comments@ == Seq::<CommentPair>::empty(),
            !r.awaiting,
    {
        CommentStore { max_comment, comments: VecDeque::new(), awaiting: false }
    }

    /// A batch is asked for. A non-empty buffer is handed over whole, in
    /// arrival order, and left empty; an empty one answers with the next
    /// comment that arrives.
    pub fn request_batch(&mut self) -> (r: Option<VecDeque<CommentPair>>)
        requires
            old(self).wf(),
        ensures
            final(self).wf(),
            final(self).max_comment == old(self).max_comment,
            final(self).comments@ == Seq::<CommentPair>::empty(),
            old(self).comments@.len() > 0 ==> (r matches Some(b) && b@ == old(self).comments@
                && !final(self).awaiting),
            old(self).comments@.len() == 0 ==> (r is None && final(self).awaiting),
    {
        if self.comments.len() > 0 {
            let mut batch = VecDeque::new();
            std::mem::swap(&mut batch, &mut self.comments);
            Some(batch)
        } else {
            self.awaiting = true;
            None
        }
    }

    /// A comment arrives. It answers a waiting request, as a batch of its
    /// own, or else joins the buffer, which drops its oldest comment when
    /// over capacity.
    pub fn on_comment(&mut self, user: String, content: String) -> (r: Option<VecDeque<CommentPair>>)
        requires
            old(self).wf(),
        ensures
            final(self).wf(),
            final(self).max_comment == old(self).max_comment,
            !final(self).awaiting,
            old(self).awaiting ==> (r matches Some(b) && b@ == seq![(user, content)]
                && final(self).comments@ == old(self).comments@),
            !old(self).awaiting ==> (r is None && final(self).comments@ == push_evict(
                old(self).comments@,
                (user, content),
                old(self).max_comment as nat,
            )),
    {
        if self.awaiting {
            self.awaiting = false;
            let mut batch = VecDeque::new();
            batch.push_back((user, content));
            Some(batch)
        } else {
            self.comments.push_back((user, content));
            if self.comments.len() > self.max_comment {
                self.comments.pop_front();
            }
            None
        }
    }

    /// An event from the platform source.
    pub fn on_event(&mut self, event: SteamEvent) -> (r: Option<VecDeque<CommentPair>>)
        requires
            old(self).wf(),
        ensures
            final(self).wf(),
            final(self).max_comment == old(self).max_comment,
            !final(self).awaiting,
            event matches SteamEvent::Comment { user, content } ==> {
                &&& old(self).awaiting ==> (r matches Some(b) && b@ == seq![(user, content)]
                    && final(self).comments@ == old(self).comments@)
                &&& !old(self).awaiting ==> (r is None && final(self).comments@ == push_evict(
                    old(self).comments@,
                    (user, content),
                    old(self).max_comment as nat,
                ))
            },
    {
        match event {
            SteamEvent::Comment { user, content } => self.on_comment(user, content),
        }
    }
}

} // verus!
