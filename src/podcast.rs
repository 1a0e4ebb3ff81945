use vstd::prelude::*;

verus! {

/// Seconds of silence after which the episode being collected is closed.
pub const IDLE_SECS: u64 = 15;

/// One unit for the presentation side: who speaks, what is said, a motion
/// cue and the audio, any of which but the speaker may be absent.
#[derive(Debug, Clone)]
pub struct SendMsgRequest {
    pub vtb_name: String,
    pub text: Option<String>,
    pub motion: Option<String>,
    pub voice: Option<Vec<u8>>,
}

/// A titled run of segments, closed by an idle gap.
#[derive(Debug)]
pub struct Podcast {
    pub title: String,
    pub segment: Vec<SendMsgRequest>,
}

impl Podcast {
    /// The segments to deliver once the title update has been answered:
    /// all of them, in order, when it succeeded; none when it failed.
    /// A failed segment does not stop the ones after it.
    pub fn segments_to_send(self, title_ok: bool) -> (r: Vec<SendMsgRequest>)
        ensures
            title_ok ==> r@ == self.segment@,
            !title_ok ==> r@.len() == 0,
    {
        if title_ok {
            self.segment
        } else {
            Vec::new()
        }
    }
}

pub open spec fn digit_char(d: nat) -> char {
    seq!['0', '1', '2', '3', '4', '5', '6', '7', '8', '9'][d as int]
}

/// The decimal digits of `n`.
pub open spec fn decimal(n: nat) -> Seq<char>
    decreases n,
{
    if n < 10 {
        seq![digit_char(n)]
    } else {
        decimal(n / 10).push(digit_char(n % 10))
    }
}

/// The title of the episode with index `n`: `title ` and the index in decimal.
pub open spec fn title_of(n: nat) -> Seq<char> {
    seq!['t', 'i', 't', 'l', 'e', ' '] + decimal(n)
}

fn digit_str(d: u64) -> (r: &'static str)
    requires
        d < 10,
    ensures
        r@ == seq![digit_char(d as nat)],
{
    match d {
        0 => { proof { reveal_strlit("0"); } "0" },
        1 => { proof { reveal_strlit("1"); } "1" },
        2 => { proof { reveal_strlit("2"); } "2" },
        3 => { proof { reveal_strlit("3"); } "3" },
        4 => { proof { reveal_strlit("4"); } "4" },
        5 => { proof { reveal_strlit("5"); } "5" },
        6 => { proof { reveal_strlit("6"); } "6" },
        7 => { proof { reveal_strlit("7"); } "7" },
        8 => { proof { reveal_strlit("8"); } "8" },
        _ => { proof { reveal_strlit("9"); } "9" },
    }
}

/// `n` written in decimal.
pub fn decimal_string(n: u64) -> (r: String)
    ensures
        r@ == decimal(n as nat),
    decreases n,
{
    if n < 10 {
        String::from_str(digit_str(n))
    } else {
        let mut s = decimal_string(n / 10);
        s.append(digit_str(n % 10));
        s
    }
}

/// The title of the episode with index `n`.
pub fn title_for(n: u64) -> (r: String)
    ensures
        r@ == title_of(n as nat),
{
    proof {
        reveal_strlit("title ");
    }
    let mut t = String::from_str("title ");
    let d = decimal_string(n);
    t.append(d.as_str());
    t
}

/// What the batcher asks of the loop that drives it.
#[derive(Debug)]
pub enum BatchAction {
    /// (Re)start the idle timer.
    ArmTimer,
    /// The timer is not running: wait for the next segment without it.
    WaitSegment,
    /// Hand this closed episode to the episode sink.
    Emit(Podcast),
}

/// An input to the batcher: a segment, or the idle timer running out.
pub enum BatchEvent<T> {
    Segment(T),
    Idle,
}

/// One step of the batcher from index `index` with `current` collected:
/// the next index, what is then collected, and the episode closed, if any,
/// as (index, segments).
pub open spec fn batch_step<T>(index: nat, current: Seq<T>, event: BatchEvent<T>) -> (
    nat,
    Seq<T>,
    Option<(nat, Seq<T>)>,
) {
    match event {
        BatchEvent::Segment(s) => (index, current.push(s), None),
        BatchEvent::Idle => if current.len() == 0 {
            (index, current, None)
        } else {
            (index + 1, Seq::empty(), Some((index, current)))
        },
    }
}

/// The episodes, as (index, segments), that the batcher emits on `events`
/// from index `index` with `current` collected so far.
pub open spec fn run_batches<T>(index: nat, current: Seq<T>, events: Seq<BatchEvent<T>>) -> Seq<
    (nat, Seq<T>),
>
    decreases events.len(),
{
    if events.len() == 0 {
        Seq::empty()
    } else {
        let r = batch_step(index, current, events[0]);
        match r.2 {
            Some(e) => seq![e] + run_batches(r.0, r.1, events.drop_first()),
            None => run_batches(r.0, r.1, events.drop_first()),
        }
    }
}

/// The events seen when segment `segs[i]` is followed by a gap of `gaps[i]`
/// seconds: the idle timer runs out after a segment exactly when the gap
/// that follows it reaches `IDLE_SECS`.
pub open spec fn timed_events<T>(segs: Seq<T>, gaps: Seq<nat>) -> Seq<BatchEvent<T>>
    decreases segs.len(),
{
    if segs.len() == 0 || gaps.len() == 0 {
        Seq::empty()
    } else {
        seq![BatchEvent::Segment(segs[0])] + (if gaps[0] >= IDLE_SECS {
            seq![BatchEvent::Idle]
        } else {
            Seq::empty()
        }) + timed_events(segs.drop_first(), gaps.drop_first())
    }
}

/// A burst: gaps under `IDLE_SECS` between its segments, and one of at
/// least `IDLE_SECS` after the last.
pub open spec fn is_burst<T>(segs: Seq<T>, gaps: Seq<nat>) -> bool {
    &&& segs.len() > 0
    &&& gaps.len() == segs.len()
    &&& forall|i: int| 0 <= i < gaps.len() - 1 ==> gaps[i] < IDLE_SECS
    &&& gaps.last() >= IDLE_SECS
}

proof fn lemma_burst<T>(
    index: nat,
    current: Seq<T>,
    segs: Seq<T>,
    gaps: Seq<nat>,
    rest: Seq<BatchEvent<T>>,
)
    requires
        is_burst(segs, gaps),
    ensures
        run_batches(index, current, timed_events(segs, gaps) + rest) == seq![
            (index, current + segs),
        ] + run_batches(index + 1, Seq::empty(), rest),
    decreases segs.len(),
{
    let ev = timed_events(segs, gaps) + rest;
    if segs.len() == 1 {
        assert(segs.drop_first().len() == 0);
        assert(timed_events(segs.drop_first(), gaps.drop_first()) == Seq::<BatchEvent<T>>::empty());
        assert(ev =~= seq![BatchEvent::Segment(segs[0]), BatchEvent::Idle] + rest);
        assert(ev.drop_first() =~= seq![BatchEvent::Idle] + rest);
        assert(ev.drop_first().drop_first() =~= rest);
        assert(current.push(segs[0]) =~= current + segs);
        assert(run_batches(index, current, ev) == run_batches(index, current.push(segs[0]), ev.drop_first()));
        assert(run_batches(index, current.push(segs[0]), ev.drop_first()) == seq![(index, current.push(segs[0]))] + run_batches(index + 1, Seq::empty(), rest));
    } else {
        assert(gaps[0] < IDLE_SECS);
        let segs2 = segs.drop_first();
        let gaps2 = gaps.drop_first();
        assert(is_burst(segs2, gaps2)) by {
            assert forall|i: int| 0 <= i < gaps2.len() - 1 implies gaps2[i] < IDLE_SECS by {
                assert(gaps2[i] == gaps[i + 1]);
            }
        }
        lemma_burst(index, current.push(segs[0]), segs2, gaps2, rest);
        assert(ev =~= seq![BatchEvent::Segment(segs[0])] + (timed_events(segs2, gaps2) + rest));
        assert(ev.drop_first() =~= timed_events(segs2, gaps2) + rest);
        assert(current.push(segs[0]) + segs2 =~= current + segs);
        assert(run_batches(index, current, ev) == run_batches(index, current.push(segs[0]), ev.drop_first()));
    }
}

/// A burst of segments becomes exactly one episode holding all of them in
/// order, under the current index.
pub proof fn lemma_one_burst_one_episode<T>(index: nat, segs: Seq<T>, gaps: Seq<nat>)
    requires
        is_burst(segs, gaps),
    ensures
        run_batches(index, Seq::empty(), timed_events(segs, gaps)) == seq![(index, segs)],
{
    let e = Seq::<BatchEvent<T>>::empty();
    lemma_burst(index, Seq::empty(), segs, gaps, e);
    assert(timed_events(segs, gaps) + e =~= timed_events(segs, gaps));
    assert(Seq::<T>::empty() + segs =~= segs);
    assert(seq![(index, segs)] + Seq::<(nat, Seq<T>)>::empty() =~= seq![(index, segs)]);
}

/// Two bursts become two episodes, under consecutive indices.
pub proof fn lemma_two_bursts_two_episodes<T>(
    index: nat,
    segs1: Seq<T>,
    gaps1: Seq<nat>,
    segs2: Seq<T>,
    gaps2: Seq<nat>,
)
    requires
        is_burst(segs1, gaps1),
        is_burst(segs2, gaps2),
    ensures
        run_batches(index, Seq::empty(), timed_events(segs1, gaps1) + timed_events(segs2, gaps2))
            == seq![(index, segs1), (index + 1, segs2)],
{
    lemma_burst(index, Seq::empty(), segs1, gaps1, timed_events(segs2, gaps2));
    lemma_one_burst_one_episode(index + 1, segs2, gaps2);
    assert(Seq::<T>::empty() + segs1 =~= segs1);
    assert(seq![(index, segs1)] + seq![(index + 1, segs2)] =~= seq![(index, segs1), (index + 1, segs2)]);
}

/// Groups incoming segments into episodes by idle gaps.
pub struct PodcastStore {
    pub title_index: u64,
    pub segment: Vec<SendMsgRequest>,
}

impl PodcastStore {
    pub fn new() -> (r: Self)
        ensures
            r.title_index == 0,
            r.segment@.len() == 0,
    {
        PodcastStore { title_index: 0, segment: Vec::new() }
    }

    /// A segment arrives: it joins the current episode and the idle timer
    /// starts over.
    pub fn on_segment(&mut self, seg: SendMsgRequest) -> (r: BatchAction)
        ensures
            final(self).title_index == old(self).title_index,
            final(self).segment@ == old(self).segment@.push(seg),
            r is ArmTimer,
            batch_step(
                old(self).title_index as nat,
                old(self).segment@,
                BatchEvent::Segment(seg),
            ) == (final(self).title_index as nat, final(self).segment@, None::<(nat, Seq<SendMsgRequest>)>),
    {
        self.segment.push(seg);
        BatchAction::ArmTimer
    }

    /// The idle timer ran out. A non-empty episode is closed under the title
    /// of the current index, which then moves on; an empty one is left alone
    /// and the timer stays off.
    pub fn on_idle(&mut self) -> (r: BatchAction)
        requires
            old(self).title_index < u64::MAX,
        ensures
            old(self).segment@.len() == 0 ==> (r is WaitSegment && *final(self) == *old(self)),
            old(self).segment@.len() > 0 ==> (r matches BatchAction::Emit(p) && p.title@ == title_of(
                old(self).title_index as nat,
            ) && p.segment@ == old(self).segment@ && final(self).title_index == old(
                self,
            ).title_index + 1 && final(self).segment@.len() == 0),
            ({
                let st = batch_step(
                    old(self).title_index as nat,
                    old(self).segment@,
                    BatchEvent::Idle,
                );
                &&& st.0 == final(self).title_index
                &&& st.1 == final(self).segment@
                &&& st.2 is None <==> r is WaitSegment
                &&& st.2 matches Some(e) ==> (r matches BatchAction::Emit(p) && p.title@ == title_of(
                    e.0,
                ) && p.segment@ == e.1)
            }),
    {
        if self.segment.len() == 0 {
            return BatchAction::WaitSegment;
        }
        let title = title_for(self.title_index);
        let mut segment = Vec::new();
        std::mem::swap(&mut segment, &mut self.segment);
        assert(self.segment@ =~= Seq::<SendMsgRequest>::empty());
        self.title_index = self.title_index + 1;
        BatchAction::Emit(Podcast { title, segment })
    }
}

} // verus!
