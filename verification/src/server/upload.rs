//! The upload side of a tunnel: puts frames back into order before they go to the target.
use crate::buffer;
use crate::server::constants::{MAX_EOS_WAITERS, MAX_PENDING_BYTES, MAX_PENDING_FRAMES};
use bytes::Bytes;
use std::collections::BTreeMap;
use vstd::prelude::*;

verus! {

broadcast use {
    vstd::std_specs::btree::group_btree_axioms,
    vstd::laws_cmp::group_laws_cmp,
};

/// Where an upload stands. `W` tells whoever waits for its end.
pub enum UploadPhase<W> {
    /// Frames are put into order.
    Reordering {
        next_seq: u64,
        pending: BTreeMap<u64, Bytes>,
        pending_bytes: usize,
        eos_waiters: Vec<(u64, W)>,
    },
    /// The target is closed; whoever waits is still to be told.
    Draining { eos_waiters: Vec<W> },
    /// Nothing is left to do.
    Closed,
}

/// What an upload holds.
pub enum UploadModel<W> {
    /// The number due next, the frames that came early, and the waiters with
    /// the number that each waits for.
    Reordering { next: nat, pending: Map<u64, Seq<u8>>, waiters: Seq<(u64, W)> },
    Draining { waiters: Seq<W> },
    Closed,
}

/// What becomes of a frame.
pub enum FrameVerdict {
    /// It came before: dropped.
    Stale,
    /// It already waits: dropped.
    Duplicate,
    /// There is no room for it: dropped.
    Overflow,
    /// It waits for an earlier frame.
    Stored,
    /// These are to be written to the target, in this order.
    Deliver(Vec<Bytes>),
    /// The upload takes no more frames: dropped.
    Ignored,
}

/// What becomes of a waiter.
pub enum EosVerdict<W> {
    /// All frames were delivered: tell it now.
    AckNow(W),
    /// It waits.
    Queued,
    /// Too many wait: drop it and stop the upload.
    Overflow(W),
    /// The upload is over: tell it now and stop.
    Closed(W),
}

/// The first number from `n` on that does not wait.
pub open spec fn run_end(pending: Map<u64, Seq<u8>>, n: nat) -> nat
    decreases 0x1_0000_0000_0000_0000 - n,
{
    if n <= u64::MAX && pending.contains_key(n as u64) {
        run_end(pending, n + 1)
    } else {
        n
    }
}

/// The data that waits under the numbers from `from` up to `to`.
pub open spec fn run(pending: Map<u64, Seq<u8>>, from: nat, to: nat) -> Seq<Seq<u8>> {
    Seq::new((to - from) as nat, |i: int| pending[(from + i) as u64])
}

/// What waits under the numbers from `n` on.
pub open spec fn from_on(pending: Map<u64, Seq<u8>>, n: nat) -> Map<u64, Seq<u8>> {
    pending.restrict(Set::new(|k: u64| k >= n))
}

/// How many bytes wait.
pub open spec fn total_len(pending: Map<u64, Seq<u8>>) -> nat
    decreases pending.dom().len(),
    when pending.dom().finite()
{
    if pending.dom().len() == 0 {
        0
    } else {
        let k = pending.dom().choose();
        pending[k].len() + total_len(pending.remove(k))
    }
}

/// One frame's share of what waits.
proof fn lemma_total_len_remove(pending: Map<u64, Seq<u8>>, k: u64)
    requires
        pending.dom().finite(),
        pending.contains_key(k),
    ensures
        total_len(pending) == pending[k].len() + total_len(pending.remove(k)),
    decreases pending.dom().len(),
{
    let c = pending.dom().choose();
    if c != k {
        let without_c = pending.remove(c);
        let without_k = pending.remove(k);
        lemma_total_len_remove(without_c, k);
        assert(without_k.contains_key(c));
        lemma_total_len_remove(without_k, c);
        assert(without_c.remove(k) =~= without_k.remove(c));
    }
}

/// A new frame adds its length to what waits.
proof fn lemma_total_len_insert(pending: Map<u64, Seq<u8>>, k: u64, data: Seq<u8>)
    requires
        pending.dom().finite(),
        !pending.contains_key(k),
    ensures
        total_len(pending.insert(k, data)) == total_len(pending) + data.len(),
{
    let grown = pending.insert(k, data);
    lemma_total_len_remove(grown, k);
    assert(grown.remove(k) =~= pending);
}

/// The contents of buffers kept by number.
pub open spec fn contents(pending: Map<u64, Bytes>) -> Map<u64, Seq<u8>> {
    pending.map_values(|b: Bytes| buffer::frozen(b))
}

/// The contents of buffers in order.
pub open spec fn contents_of(v: Seq<Bytes>) -> Seq<Seq<u8>> {
    v.map_values(|b: Bytes| buffer::frozen(b))
}

/// Puts the frames of one upload into order.
pub struct UploadActor<W> {
    phase: UploadPhase<W>,
}

/// What becomes of a frame, given what the upload holds.
pub open spec fn frame_step<W>(before: UploadModel<W>, seq: u64, data: Seq<u8>) -> (
    UploadModel<W>,
    Verdict,
) {
    match before {
        UploadModel::Reordering { next, pending, waiters } => if seq < next {
            (before, Verdict::Stale)
        } else if seq == next {
            let end = run_end(pending, next + 1);
            (
                UploadModel::Reordering { next: end, pending: from_on(pending, end), waiters },
                Verdict::Deliver(seq![data] + run(pending, next + 1, end)),
            )
        } else if pending.contains_key(seq) {
            (before, Verdict::Duplicate)
        } else if pending.dom().len() >= MAX_PENDING_FRAMES || total_len(pending) + data.len()
            > MAX_PENDING_BYTES {
            (before, Verdict::Overflow)
        } else {
            (
                UploadModel::Reordering { next, pending: pending.insert(seq, data), waiters },
                Verdict::Stored,
            )
        },
        _ => (before, Verdict::Ignored),
    }
}

/// A verdict with the bytes that it carries.
pub enum Verdict {
    Stale,
    Duplicate,
    Overflow,
    Stored,
    Deliver(Seq<Seq<u8>>),
    Ignored,
}

impl FrameVerdict {
    /// The verdict with the bytes that it carries.
    pub open spec fn view(&self) -> Verdict {
        match self {
            FrameVerdict::Stale => Verdict::Stale,
            FrameVerdict::Duplicate => Verdict::Duplicate,
            FrameVerdict::Overflow => Verdict::Overflow,
            FrameVerdict::Stored => Verdict::Stored,
            FrameVerdict::Deliver(v) => Verdict::Deliver(contents_of(v@)),
            FrameVerdict::Ignored => Verdict::Ignored,
        }
    }
}

proof fn lemma_run_end_step(pending: Map<u64, Seq<u8>>, from: nat, n: nat)
    requires
        from <= n <= 0x1_0000_0000_0000_0000,
        forall|k: u64| from <= k < n ==> #[trigger] pending.contains_key(k),
        n > u64::MAX || !pending.contains_key(n as u64),
    ensures
        run_end(pending, from) == n,
    decreases n - from,
{
    if from < n {
        assert(pending.contains_key(from as u64));
        lemma_run_end_step(pending, from + 1, n);
    }
}

impl<W> UploadActor<W> {
    /// What the upload holds.
    pub closed spec fn model(self) -> UploadModel<W> {
        match self.phase {
            UploadPhase::Reordering { next_seq, pending, pending_bytes: _, eos_waiters } => {
                UploadModel::Reordering {
                    next: next_seq as nat,
                    pending: contents(pending@),
                    waiters: eos_waiters@,
                }
            },
            UploadPhase::Draining { eos_waiters } => UploadModel::Draining {
                waiters: eos_waiters@,
            },
            UploadPhase::Closed => UploadModel::Closed,
        }
    }

    /// What waits came early, is counted right and stays within the limits.
    pub closed spec fn wf(self) -> bool {
        match self.phase {
            UploadPhase::Reordering { next_seq, pending, pending_bytes, eos_waiters } => {
                &&& pending@.dom().finite()
                &&& forall|k: u64| #[trigger] pending@.contains_key(k) ==> k > next_seq
                &&& pending_bytes == total_len(contents(pending@))
                &&& pending_bytes <= MAX_PENDING_BYTES
                &&& pending@.dom().len() <= MAX_PENDING_FRAMES
                &&& eos_waiters@.len() <= MAX_EOS_WAITERS
            },
            _ => true,
        }
    }

    /// There are numbers left for every frame that may wait.
    pub open spec fn has_numbers(self) -> bool {
        match self.model() {
            UploadModel::Reordering { next, .. } => next + MAX_PENDING_FRAMES < u64::MAX,
            _ => true,
        }
    }

    /// An upload that starts with the number `initial_seq`.
    pub fn new(initial_seq: u64) -> (r: Self)
        ensures
            r.wf(),
            r.model() == (UploadModel::<W>::Reordering {
                next: initial_seq as nat,
                pending: Map::empty(),
                waiters: Seq::empty(),
            }),
    {
        let pending: BTreeMap<u64, Bytes> = BTreeMap::new();
        proof {
            assert(contents(pending@) =~= Map::empty());
        }
        UploadActor {
            phase: UploadPhase::Reordering {
                next_seq: initial_seq,
                pending,
                pending_bytes: 0,
                eos_waiters: Vec::new(),
            },
        }
    }

    /// The number due next, while frames are put into order.
    pub fn next_seq(&self) -> (r: Option<u64>)
        ensures
            match self.model() {
                UploadModel::Reordering { next, .. } => r == Some(next as u64),
                _ => r is None,
            },
    {
        match &self.phase {
            UploadPhase::Reordering { next_seq, .. } => Some(*next_seq),
            _ => None,
        }
    }

    /// Whether frames or waiters wait, so that silence must end the upload.
    pub fn has_pending(&self) -> (r: bool)
        requires
            self.wf(),
        ensures
            r == (match self.model() {
                UploadModel::Reordering { pending, waiters, .. } => pending.dom().len() > 0
                    || waiters.len() > 0,
                _ => false,
            }),
    {
        match &self.phase {
            UploadPhase::Reordering { pending, eos_waiters, .. } => {
                proof {
                    assert(contents(pending@).dom() =~= pending@.dom());
                }
                pending.len() > 0 || eos_waiters.len() > 0
            },
            _ => false,
        }
    }

    /// Takes a frame. What it returns as deliverable is gone from the upload:
    /// it is to be written in order before the next frame is taken.
    pub fn handle_frame(&mut self, seq: u64, data: Bytes) -> (r: FrameVerdict)
        requires
            old(self).wf(),
            old(self).has_numbers(),
        ensures
            final(self).wf(),
            frame_step(old(self).model(), seq, buffer::frozen(data)) == (final(self).model(), r@),
    {
        match &mut self.phase {
            UploadPhase::Reordering { next_seq, pending, pending_bytes, eos_waiters } => {
                let ghost before = pending@;
                let ghost first = *next_seq as nat;
                let ghost held = contents(before);
                proof {
                    assert(held.dom() =~= before.dom());
                }
                if seq < *next_seq {
                    return FrameVerdict::Stale;
                }
                if seq == *next_seq {
                    let mut due: Vec<Bytes> = Vec::new();
                    let ghost payload = buffer::frozen(data);
                    due.push(data);
                    *next_seq = *next_seq + 1;
                    proof {
                        assert(contents_of(due@) =~= seq![payload] + run(held, first + 1, first + 1));
                        assert(from_on(held, first + 1) =~= held);
                    }
                    loop
                        invariant
                            held == contents(before),
                            before.dom().finite(),
                            held.dom() == before.dom(),
                            before.dom().len() <= MAX_PENDING_FRAMES,
                            first + MAX_PENDING_FRAMES < u64::MAX,
                            forall|k: u64| #[trigger] before.contains_key(k) ==> k > first,
                            first + 1 <= *next_seq,
                            *next_seq + pending@.dom().len() <= first + 1 + before.dom().len(),
                            pending@.dom().finite(),
                            forall|k: u64|
                                #[trigger] pending@.contains_key(k) <==> before.contains_key(k) && k
                                    >= *next_seq,
                            forall|k: u64|
                                #[trigger] pending@.contains_key(k) ==> pending@[k] == before[k],
                            forall|k: u64|
                                first + 1 <= k < *next_seq ==> #[trigger] held.contains_key(k),
                            contents_of(due@) =~= seq![payload] + run(
                                held,
                                first + 1,
                                *next_seq as nat,
                            ),
                            *pending_bytes == total_len(contents(pending@)),
                            *pending_bytes <= MAX_PENDING_BYTES,
                        ensures
                            !pending@.contains_key(*next_seq),
                        decreases pending@.dom().len(),
                    {
                        let ghost left = pending@;
                        let ghost at = *next_seq;
                        match pending.remove(&*next_seq) {
                            Some(next_data) => {
                                proof {
                                    assert(contents(left).dom() =~= left.dom());
                                    lemma_total_len_remove(contents(left), at);
                                    assert(contents(left).remove(at) =~= contents(pending@));
                                    assert(held.contains_key(at));
                                    assert(buffer::frozen(next_data) == held[at]);
                                }
                                *pending_bytes = *pending_bytes - buffer::bytes_len(&next_data);
                                let ghost due_before = contents_of(due@);
                                due.push(next_data);
                                *next_seq = *next_seq + 1;
                                proof {
                                    assert(contents_of(due@) =~= due_before.push(held[at]));
                                    assert(run(held, first + 1, at as nat + 1) =~= run(
                                        held,
                                        first + 1,
                                        at as nat,
                                    ).push(held[at]));
                                }
                            },
                            None => {
                                proof {
                                    assert(pending@ =~= left);
                                }
                                break;
                            },
                        }
                    }
                    proof {
                        let end = *next_seq as nat;
                        assert(!held.contains_key(*next_seq)) by {
                            assert(!pending@.contains_key(*next_seq));
                        }
                        lemma_run_end_step(held, first + 1, end);
                        assert(contents(pending@) =~= from_on(held, end));
                    }
                    return FrameVerdict::Deliver(due);
                }
                if pending.contains_key(&seq) {
                    return FrameVerdict::Duplicate;
                }
                let len: usize = buffer::bytes_len(&data);
                if pending.len() >= MAX_PENDING_FRAMES || *pending_bytes + len > MAX_PENDING_BYTES {
                    return FrameVerdict::Overflow;
                }
                proof {
                    lemma_total_len_insert(held, seq, buffer::frozen(data));
                    assert(contents(before.insert(seq, data)) =~= held.insert(
                        seq,
                        buffer::frozen(data),
                    ));
                }
                let _ = pending.insert(seq, data);
                *pending_bytes = *pending_bytes + len;
                FrameVerdict::Stored
            },
            _ => FrameVerdict::Ignored,
        }
    }

    /// Hands out every waiter whose frames were all delivered. To be called
    /// once what `handle_frame` returned has been written.
    pub fn take_due_waiters(&mut self) -> (r: Vec<(u64, W)>)
        requires
            old(self).wf(),
        ensures
            final(self).wf(),
            match old(self).model() {
                UploadModel::Reordering { next, pending, waiters } => {
                    &&& final(self).model() matches UploadModel::Reordering {
                        next: n,
                        pending: p,
                        waiters: left,
                    }
                    &&& n == next
                    &&& p == pending
                    &&& waiters.to_multiset() == left.to_multiset().add(r@.to_multiset())
                    &&& forall|i: int| 0 <= i < r@.len() ==> (#[trigger] r@[i]).0 < next
                    &&& forall|i: int| 0 <= i < left.len() ==> (#[trigger] left[i]).0 >= next
                },
                _ => r@.len() == 0 && final(self).model() == old(self).model(),
            },
    {
        let mut due: Vec<(u64, W)> = Vec::new();
        match &mut self.phase {
            UploadPhase::Reordering { next_seq, pending: _, pending_bytes: _, eos_waiters } => {
                let ghost all = eos_waiters@;
                let mut i: usize = 0;
                proof {
                    broadcast use vstd::seq_lib::group_to_multiset_ensures;

                    assert(all.to_multiset() =~= eos_waiters@.to_multiset().add(due@.to_multiset()));
                }
                while i < eos_waiters.len()
                    invariant
                        i <= eos_waiters@.len(),
                        eos_waiters@.len() <= all.len(),
                        all.to_multiset() =~= eos_waiters@.to_multiset().add(due@.to_multiset()),
                        forall|j: int| 0 <= j < due@.len() ==> (#[trigger] due@[j]).0 < *next_seq,
                        forall|j: int| 0 <= j < i ==> (#[trigger] eos_waiters@[j]).0 >= *next_seq,
                    decreases eos_waiters@.len() - i,
                {
                    if *next_seq > eos_waiters[i].0 {
                        let ghost left = eos_waiters@;
                        let ghost before = due@;
                        let w: (u64, W) = eos_waiters.remove(i);
                        due.push(w);
                        proof {
                            vstd::seq_lib::to_multiset_remove(left, i as int);
                            vstd::seq_lib::to_multiset_build(before, w);
                            vstd::seq_lib::to_multiset_contains(left, w);
                            assert(left.contains(w)) by {
                                assert(left[i as int] == w);
                            }
                            assert(eos_waiters@ =~= left.remove(i as int));
                        }
                    } else {
                        i = i + 1;
                    }
                }
            },
            _ => {},
        }
        due
    }

    /// Takes a waiter for the frames up to `max_seq`.
    pub fn handle_eos(&mut self, max_seq: u64, done: W) -> (r: EosVerdict<W>)
        requires
            old(self).wf(),
        ensures
            final(self).wf(),
            match old(self).model() {
                UploadModel::Reordering { next, pending, waiters } => if next > max_seq {
                    r == EosVerdict::AckNow(done) && final(self).model() == old(self).model()
                } else if waiters.len() >= MAX_EOS_WAITERS {
                    r == EosVerdict::Overflow(done) && final(self).model() == old(self).model()
                } else {
                    r == EosVerdict::<W>::Queued && final(self).model() == (
                    UploadModel::Reordering {
                        next,
                        pending,
                        waiters: waiters.push((max_seq, done)),
                    })
                },
                UploadModel::Draining { waiters } => r == EosVerdict::<W>::Queued
                    && final(self).model() == (UploadModel::Draining {
                    waiters: waiters.push(done),
                }),
                UploadModel::Closed => r == EosVerdict::Closed(done) && final(self).model()
                    == UploadModel::<W>::Closed,
            },
    {
        match &mut self.phase {
            UploadPhase::Reordering { next_seq, pending: _, pending_bytes: _, eos_waiters } => {
                if *next_seq > max_seq {
                    EosVerdict::AckNow(done)
                } else if eos_waiters.len() >= MAX_EOS_WAITERS {
                    EosVerdict::Overflow(done)
                } else {
                    eos_waiters.push((max_seq, done));
                    EosVerdict::Queued
                }
            },
            UploadPhase::Draining { eos_waiters } => {
                eos_waiters.push(done);
                EosVerdict::Queued
            },
            UploadPhase::Closed => EosVerdict::Closed(done),
        }
    }

    /// Gives up on what waits; the waiters are kept to be told.
    pub fn shutdown_and_drain(&mut self)
        requires
            old(self).wf(),
        ensures
            final(self).wf(),
            final(self).model() == (match old(self).model() {
                UploadModel::Reordering { waiters, .. } => UploadModel::Draining {
                    waiters: waiters.map_values(|w: (u64, W)| w.1),
                },
                other => other,
            }),
    {
        let mut phase: UploadPhase<W> = UploadPhase::Closed;
        std::mem::swap(&mut phase, &mut self.phase);
        match phase {
            UploadPhase::Reordering { next_seq: _, pending: _, pending_bytes: _, eos_waiters } => {
                self.phase = UploadPhase::Draining { eos_waiters: second_of_each(eos_waiters) };
            },
            other => {
                self.phase = other;
            },
        }
    }

    /// Ends the upload and hands out everyone who waits.
    pub fn ack_all_waiters(&mut self) -> (r: Vec<W>)
        requires
            old(self).wf(),
        ensures
            final(self).wf(),
            final(self).model() == UploadModel::<W>::Closed,
            r@ == (match old(self).model() {
                UploadModel::Reordering { waiters, .. } => waiters.map_values(|w: (u64, W)| w.1),
                UploadModel::Draining { waiters } => waiters,
                UploadModel::Closed => Seq::empty(),
            }),
    {
        let mut phase: UploadPhase<W> = UploadPhase::Closed;
        std::mem::swap(&mut phase, &mut self.phase);
        match phase {
            UploadPhase::Reordering { next_seq: _, pending: _, pending_bytes: _, eos_waiters } => {
                second_of_each(eos_waiters)
            },
            UploadPhase::Draining { eos_waiters } => eos_waiters,
            UploadPhase::Closed => Vec::new(),
        }
    }
}

/// The second of each pair, in order.
fn second_of_each<W>(pairs: Vec<(u64, W)>) -> (r: Vec<W>)
    ensures
        r@ == pairs@.map_values(|w: (u64, W)| w.1),
{
    let mut rest: Vec<(u64, W)> = pairs;
    let ghost all = rest@;
    let mut out: Vec<W> = Vec::new();
    while rest.len() > 0
        invariant
            out@.len() + rest@.len() == all.len(),
            rest@ =~= all.skip(out@.len() as int),
            out@ =~= all.take(out@.len() as int).map_values(|w: (u64, W)| w.1),
        decreases rest@.len(),
    {
        let (_, w): (u64, W) = rest.remove(0);
        out.push(w);
    }
    proof {
        assert(all.take(out@.len() as int) =~= all);
    }
    out
}

/// Every frame that waits holds what the sender numbered so.
pub open spec fn agrees<W>(m: UploadModel<W>, sent: spec_fn(nat) -> Seq<u8>) -> bool {
    m matches UploadModel::Reordering { pending, .. } ==> forall|k: u64| #[trigger]
        pending.contains_key(k) ==> pending[k] == sent(k as nat)
}

/// Whatever order the sender's frames arrive in, and however often, those that
/// are delivered are delivered once each and in the sender's order: the
/// numbers that a frame releases run from the number due before it up to the
/// number due after it.
pub proof fn law_in_order_delivery<W>(
    before: UploadModel<W>,
    seq: u64,
    data: Seq<u8>,
    sent: spec_fn(nat) -> Seq<u8>,
)
    requires
        agrees(before, sent),
        data == sent(seq as nat),
    ensures
        agrees(frame_step(before, seq, data).0, sent),
        before matches UploadModel::Reordering { next, .. } ==> {
            let (after, verdict) = frame_step(before, seq, data);
            &&& after matches UploadModel::Reordering { next: due, .. }
            &&& next <= due
            &&& match verdict {
                Verdict::Deliver(out) => out =~= Seq::new(
                    (due - next) as nat,
                    |i: int| sent((next + i) as nat),
                ),
                _ => due == next,
            }
        },
{
    match before {
        UploadModel::Reordering { next, pending, waiters } => {
            if seq == next {
                lemma_run_end(pending, next + 1);
                let end = run_end(pending, next + 1);
                let out = seq![data] + run(pending, next + 1, end);
                assert forall|i: int| 0 <= i < out.len() implies out[i] == sent(
                    (next + i) as nat,
                ) by {
                    if i > 0 {
                        let k = (next + i) as u64;
                        assert(pending.contains_key(k));
                        assert(out[i] == pending[k]);
                    }
                }
            }
        },
        _ => {},
    }
}

/// A frame is released at the latest when every frame before it has arrived:
/// nothing waits under the number due next.
pub proof fn law_nothing_held_back<W>(before: UploadModel<W>, seq: u64, data: Seq<u8>)
    requires
        before matches UploadModel::Reordering { next, pending, .. } ==> next <= u64::MAX && forall|
            k: u64,
        | #[trigger]
            pending.contains_key(k) ==> k > next,
    ensures
        frame_step(before, seq, data).0 matches UploadModel::Reordering { next, pending, .. }
            ==> forall|k: u64| #[trigger] pending.contains_key(k) ==> k > next,
{
    match before {
        UploadModel::Reordering { next, pending, waiters } => {
            if seq == next {
                lemma_run_end(pending, next + 1);
            }
        },
        _ => {},
    }
}

proof fn lemma_run_end(pending: Map<u64, Seq<u8>>, n: nat)
    ensures
        run_end(pending, n) >= n,
        run_end(pending, n) <= u64::MAX ==> !pending.contains_key(run_end(pending, n) as u64),
        n <= u64::MAX ==> run_end(pending, n) <= 0x1_0000_0000_0000_0000,
        forall|k: u64| n <= k < run_end(pending, n) ==> #[trigger] pending.contains_key(k),
    decreases 0x1_0000_0000_0000_0000 - n,
{
    if n <= u64::MAX && pending.contains_key(n as u64) {
        lemma_run_end(pending, n + 1);
    }
}

/// One call on an upload: a frame of the sender under a number, or a call that has
/// to do with waiters only.
pub struct UploadCall<W> {
    pub before: UploadModel<W>,
    pub frame: Option<u64>,
    pub after: UploadModel<W>,
    pub verdict: Verdict,
}

/// The upload puts the same frames into order.
pub open spec fn same_frames<W>(a: UploadModel<W>, b: UploadModel<W>) -> bool {
    match (a, b) {
        (
            UploadModel::Reordering { next: n, pending: p, .. },
            UploadModel::Reordering { next: m, pending: q, .. },
        ) => n == m && p == q,
        _ => false,
    }
}

/// The call did what such a call does, the frame holding what the sender numbered so.
pub open spec fn is_upload_call<W>(c: UploadCall<W>, sent: spec_fn(nat) -> Seq<u8>) -> bool {
    match c.frame {
        Some(seq) => frame_step(c.before, seq, sent(seq as nat)) == (c.after, c.verdict),
        None => same_frames(c.before, c.after) && c.verdict is Ignored,
    }
}

/// What an upload holds behind some calls.
pub open spec fn upload_end<W>(start: UploadModel<W>, calls: Seq<UploadCall<W>>) -> UploadModel<W> {
    if calls.len() == 0 {
        start
    } else {
        calls.last().after
    }
}

/// The calls were made one behind the other on one upload, and never did too much wait.
pub open spec fn is_upload_run<W>(
    start: UploadModel<W>,
    calls: Seq<UploadCall<W>>,
    sent: spec_fn(nat) -> Seq<u8>,
) -> bool
    decreases calls.len(),
{
    calls.len() > 0 ==> {
        &&& is_upload_run(start, calls.drop_last(), sent)
        &&& calls.last().before == upload_end(start, calls.drop_last())
        &&& is_upload_call(calls.last(), sent)
        &&& calls.last().verdict !is Overflow
    }
}

/// Whether the frame under a number was among some calls.
pub open spec fn arrived<W>(calls: Seq<UploadCall<W>>, k: u64) -> bool {
    exists|i: int| 0 <= i < calls.len() && (#[trigger] calls[i]).frame == Some(k)
}

/// What some calls delivered, joined.
pub open spec fn written<W>(calls: Seq<UploadCall<W>>) -> Seq<u8>
    decreases calls.len(),
{
    if calls.len() == 0 {
        Seq::empty()
    } else {
        match calls.last().verdict {
            Verdict::Deliver(out) => written(calls.drop_last()) + out.flatten(),
            _ => written(calls.drop_last()),
        }
    }
}

/// The sender's data under the numbers from `from` up to `to`, joined.
pub open spec fn sent_between(sent: spec_fn(nat) -> Seq<u8>, from: nat, to: nat) -> Seq<u8>
    decreases to,
{
    if to <= from {
        Seq::empty()
    } else {
        sent_between(sent, from, (to - 1) as nat) + sent((to - 1) as nat)
    }
}

/// `due` is the first number from `first` on whose frame is not there: all before it
/// were delivered in order, and those behind it that are there wait.
pub open spec fn in_order_up_to<W>(
    first: nat,
    calls: Seq<UploadCall<W>>,
    end: UploadModel<W>,
    sent: spec_fn(nat) -> Seq<u8>,
    due: nat,
) -> bool {
    &&& first <= due <= u64::MAX
    &&& forall|k: u64| first <= k < due ==> #[trigger] arrived(calls, k)
    &&& !arrived(calls, due as u64)
    &&& written(calls) == sent_between(sent, first, due)
    &&& end matches UploadModel::Reordering { next, pending, .. } && next == due && forall|k: u64| #[trigger]
        pending.contains_key(k) <==> k > due && arrived(calls, k)
    &&& agrees(end, sent)
}

proof fn lemma_sent_between(sent: spec_fn(nat) -> Seq<u8>, first: nat, from: nat, to: nat)
    requires
        first <= from <= to,
    ensures
        sent_between(sent, first, to) == sent_between(sent, first, from) + Seq::new(
            (to - from) as nat,
            |i: int| sent((from + i) as nat),
        ).flatten(),
    decreases to - from,
{
    let parts = Seq::new((to - from) as nat, |i: int| sent((from + i) as nat));
    if from == to {
        assert(parts =~= Seq::empty());
    } else {
        let less = (to - 1) as nat;
        lemma_sent_between(sent, first, from, less);
        let front = Seq::new((less - from) as nat, |i: int| sent((from + i) as nat));
        assert(parts =~= front.push(sent(less)));
        front.lemma_flatten_push(sent(less));
        assert(sent_between(sent, first, to) =~= sent_between(sent, first, from)
            + parts.flatten());
    }
}

/// What has arrived with one call more.
proof fn lemma_arrived<W>(calls: Seq<UploadCall<W>>, k: u64)
    requires
        calls.len() > 0,
    ensures
        arrived(calls, k) <==> arrived(calls.drop_last(), k) || calls.last().frame == Some(k),
{
    let earlier = calls.drop_last();
    if arrived(calls, k) {
        let i = choose|i: int| 0 <= i < calls.len() && (#[trigger] calls[i]).frame == Some(k);
        if i < earlier.len() {
            assert(earlier[i].frame == Some(k));
        }
    }
    if arrived(earlier, k) {
        let i = choose|i: int| 0 <= i < earlier.len() && (#[trigger] earlier[i]).frame == Some(k);
        assert(calls[i].frame == Some(k));
    }
    if calls.last().frame == Some(k) {
        assert(calls[calls.len() - 1].frame == Some(k));
    }
}

/// In whatever order, and however often, the sender's frames arrive, and whatever
/// waiters come and go between them: what has been delivered is the sender's data,
/// in order and once each, from the first number up to the first one that has not
/// arrived. No frame is refused.
pub proof fn law_any_order_is_put_right<W>(
    first: nat,
    waiters: Seq<(u64, W)>,
    calls: Seq<UploadCall<W>>,
    sent: spec_fn(nat) -> Seq<u8>,
) -> (due: nat)
    requires
        first < u64::MAX,
        is_upload_run(
            UploadModel::Reordering { next: first, pending: Map::empty(), waiters },
            calls,
            sent,
        ),
        !arrived(calls, u64::MAX),
    ensures
        in_order_up_to(
            first,
            calls,
            upload_end(
                UploadModel::Reordering { next: first, pending: Map::empty(), waiters },
                calls,
            ),
            sent,
            due,
        ),
        forall|i: int|
            0 <= i < calls.len() && (#[trigger] calls[i]).frame is Some ==> calls[i].verdict
                !is Overflow && calls[i].verdict !is Ignored,
    decreases calls.len(),
{
    let start = UploadModel::Reordering { next: first, pending: Map::empty(), waiters };
    if calls.len() == 0 {
        first
    } else {
        let c = calls.last();
        let earlier = calls.drop_last();
        assert forall|k: u64|
            #[trigger] arrived(calls, k) <==> arrived(earlier, k) || c.frame == Some(k) by {
            lemma_arrived(calls, k);
        }
        assert(!arrived(earlier, u64::MAX)) by {
            lemma_arrived(calls, u64::MAX);
        }
        let due = law_any_order_is_put_right(first, waiters, earlier, sent);
        assert forall|i: int|
            0 <= i < earlier.len() && (#[trigger] calls[i]).frame is Some implies calls[i].verdict
            !is Overflow && calls[i].verdict !is Ignored by {
            assert(earlier[i] == calls[i]);
        }
        let pending = c.before->pending;
        match c.frame {
            None => {
                due
            },
            Some(seq) => {
                law_in_order_delivery(c.before, seq, sent(seq as nat), sent);
                if seq == due {
                    lemma_run_end(pending, due + 1);
                    let end = run_end(pending, due + 1);
                    assert(end <= u64::MAX) by {
                        if end > u64::MAX {
                            assert(pending.contains_key(u64::MAX));
                        }
                    }
                    let out = c.verdict->Deliver_0;
                    assert(out =~= Seq::new((end - due) as nat, |i: int| sent((due + i) as nat)));
                    lemma_sent_between(sent, first, due, end);
                    assert forall|k: u64| first <= k < end implies #[trigger] arrived(calls, k) by {
                        if k > due {
                            assert(pending.contains_key(k));
                            assert(arrived(earlier, k));
                        } else if k < due {
                            assert(arrived(earlier, k));
                        }
                    }
                    assert(!arrived(calls, end as u64)) by {
                        assert(!pending.contains_key(end as u64));
                    }
                    end
                } else {
                    due
                }
            },
        }
    }
}

/// Once every frame from the first number up to `end` has arrived, and no other, all
/// of the sender's data has been delivered, in order.
pub proof fn law_everything_is_delivered<W>(
    first: nat,
    end: nat,
    waiters: Seq<(u64, W)>,
    calls: Seq<UploadCall<W>>,
    sent: spec_fn(nat) -> Seq<u8>,
)
    requires
        first <= end < u64::MAX,
        is_upload_run(
            UploadModel::Reordering { next: first, pending: Map::empty(), waiters },
            calls,
            sent,
        ),
        forall|k: u64| #[trigger] arrived(calls, k) <==> first <= k < end,
    ensures
        written(calls) == sent_between(sent, first, end),
        upload_end(
            UploadModel::Reordering { next: first, pending: Map::empty(), waiters },
            calls,
        ) matches UploadModel::Reordering { next, pending, .. } && next == end && pending
            =~= Map::<u64, Seq<u8>>::empty(),
{
    let due = law_any_order_is_put_right(first, waiters, calls, sent);
    if due < end {
        assert(arrived(calls, due as u64));
    } else if end < due {
        assert(arrived(calls, end as u64));
    }
}

/// Waiting bytes are counted frame by frame: none where none waits, and with each
/// frame that joins as many more as it holds.
pub proof fn law_waiting_bytes_add_up(pending: Map<u64, Seq<u8>>, k: u64, data: Seq<u8>)
    requires
        pending.dom().finite(),
        !pending.contains_key(k),
    ensures
        total_len(Map::<u64, Seq<u8>>::empty()) == 0,
        total_len(pending.insert(k, data)) == total_len(pending) + data.len(),
{
    lemma_total_len_insert(pending, k, data);
}

/// A frame is dropped where its number has passed or it already waits. It waits where
/// its number is to come, as long as fewer than 8192 wait and with it no more than two
/// megabytes.
pub proof fn law_early_frames_wait<W>(
    u: &mut UploadActor<W>,
    seq: u64,
    data: Bytes,
    next: nat,
    pending: Map<u64, Seq<u8>>,
    waiters: Seq<(u64, W)>,
    r: FrameVerdict,
)
    requires
        call_ensures(UploadActor::<W>::handle_frame, (u, seq, data), r),
        old(u).model() == (UploadModel::Reordering { next, pending, waiters }),
        seq != next,
    ensures
        ({
            let stays = pending.dom().len() < 8192 && total_len(pending) + buffer::frozen(data).len()
                <= 2_097_152;
            &&& r is Stale <==> seq < next
            &&& r is Duplicate <==> seq > next && pending.contains_key(seq)
            &&& r is Stored <==> seq > next && !pending.contains_key(seq) && stays
            &&& r is Overflow <==> seq > next && !pending.contains_key(seq) && !stays
            &&& r is Stored ==> final(u).model() == (UploadModel::Reordering {
                next,
                pending: pending.insert(seq, buffer::frozen(data)),
                waiters,
            })
            &&& !(r is Stored) ==> final(u).model() == old(u).model()
        }),
{
}

/// The frame that is due is delivered, and behind it every frame that waited for it
/// alone, up to the first number that is missing, which is due then.
pub proof fn law_due_frames_are_delivered<W>(
    u: &mut UploadActor<W>,
    data: Bytes,
    next: nat,
    end: nat,
    pending: Map<u64, Seq<u8>>,
    waiters: Seq<(u64, W)>,
    r: FrameVerdict,
)
    requires
        call_ensures(UploadActor::<W>::handle_frame, (u, next as u64, data), r),
        old(u).model() == (UploadModel::Reordering { next, pending, waiters }),
        next < end <= u64::MAX,
        forall|k: u64| next < k < end ==> #[trigger] pending.contains_key(k),
        !pending.contains_key(end as u64),
    ensures
        r is Deliver,
        r->Deliver_0@.len() == end - next,
        buffer::frozen(r->Deliver_0@[0]) == buffer::frozen(data),
        forall|i: int|
            0 < i < end - next ==> buffer::frozen(#[trigger] r->Deliver_0@[i]) == pending[(next
                + i) as u64],
        final(u).model() matches UploadModel::Reordering { next: n, pending: p, waiters: w } && n
            == end && w == waiters && forall|k: u64|
            {
                &&& #[trigger] p.contains_key(k) <==> k > end && pending.contains_key(k)
                &&& p.contains_key(k) ==> p[k] == pending[k]
            },
{
    lemma_run_end_step(pending, next + 1, end);
    let out = r->Deliver_0@;
    let given = seq![buffer::frozen(data)] + run(pending, next + 1, end);
    assert(r@ == Verdict::Deliver(given));
    assert(contents_of(out) == given);
    assert(contents_of(out).len() == out.len());
    assert(contents_of(out)[0] == buffer::frozen(out[0]));
    assert forall|i: int| 0 < i < end - next implies buffer::frozen(#[trigger] out[i]) == pending[(
    next + i) as u64] by {
        assert(contents_of(out)[i] == buffer::frozen(out[i]));
        assert(given[i] == run(pending, next + 1, end)[i - 1]);
    }
}

/// An upload that is over takes no frames.
pub proof fn law_closed_uploads_take_nothing<W>(
    u: &mut UploadActor<W>,
    seq: u64,
    data: Bytes,
    r: FrameVerdict,
)
    requires
        call_ensures(UploadActor::<W>::handle_frame, (u, seq, data), r),
        !(old(u).model() is Reordering),
    ensures
        r is Ignored,
        final(u).model() == old(u).model(),
{
}

/// Whoever waits for the frames up to a number is told at once where they were all
/// delivered, and waits otherwise; where 256 wait, no more may.
pub proof fn law_waiters_are_told_in_time<W>(
    u: &mut UploadActor<W>,
    max_seq: u64,
    done: W,
    next: nat,
    pending: Map<u64, Seq<u8>>,
    waiters: Seq<(u64, W)>,
    r: EosVerdict<W>,
)
    requires
        call_ensures(UploadActor::<W>::handle_eos, (u, max_seq, done), r),
        old(u).model() == (UploadModel::Reordering { next, pending, waiters }),
    ensures
        max_seq < next ==> r == EosVerdict::AckNow(done),
        max_seq >= next && waiters.len() < 256 ==> r == EosVerdict::<W>::Queued && final(u).model()
            == (UploadModel::Reordering { next, pending, waiters: waiters.push((max_seq, done)) }),
        max_seq >= next && waiters.len() >= 256 ==> r == EosVerdict::Overflow(done),
        !(r is Queued) ==> final(u).model() == old(u).model(),
{
}

/// Those whose frames were delivered are taken out, all of them, and those whose frames
/// are to come stay.
pub proof fn law_due_waiters_are_taken<W>(
    u: &mut UploadActor<W>,
    next: nat,
    pending: Map<u64, Seq<u8>>,
    waiters: Seq<(u64, W)>,
    i: int,
    r: Vec<(u64, W)>,
)
    requires
        call_ensures(UploadActor::<W>::take_due_waiters, (u,), r),
        old(u).model() == (UploadModel::Reordering { next, pending, waiters }),
        0 <= i < waiters.len(),
    ensures
        waiters[i].0 < next ==> r@.contains(waiters[i]),
        waiters[i].0 >= next ==> !r@.contains(waiters[i]),
        final(u).model() is Reordering,
        waiters[i].0 >= next ==> final(u).model()->Reordering_waiters.contains(waiters[i]),
        waiters[i].0 < next ==> !final(u).model()->Reordering_waiters.contains(waiters[i]),
{
    broadcast use vstd::seq_lib::group_to_multiset_ensures;

    let left = final(u).model()->Reordering_waiters;
    let w = waiters[i];
    assert(waiters.contains(w));
    assert(waiters.to_multiset().count(w) > 0);
    assert(left.to_multiset().count(w) + r@.to_multiset().count(w) > 0);
    if r@.contains(w) {
        let j = choose|j: int| 0 <= j < r@.len() && r@[j] == w;
        assert(r@[j].0 < next);
    }
    if left.contains(w) {
        let j = choose|j: int| 0 <= j < left.len() && left[j] == w;
        assert(left[j].0 >= next);
    }
}

/// A shut upload keeps those who wait, in their order, and telling them all closes it.
pub proof fn law_everyone_is_told<W>(
    u: &mut UploadActor<W>,
    v: &mut UploadActor<W>,
    next: nat,
    pending: Map<u64, Seq<u8>>,
    waiters: Seq<(u64, W)>,
    r: Vec<W>,
)
    requires
        call_ensures(UploadActor::<W>::shutdown_and_drain, (u,), ()),
        old(u).model() == (UploadModel::Reordering { next, pending, waiters }),
        old(v).model() == final(u).model(),
        call_ensures(UploadActor::<W>::ack_all_waiters, (v,), r),
    ensures
        r@.len() == waiters.len(),
        forall|i: int| 0 <= i < waiters.len() ==> #[trigger] r@[i] == waiters[i].1,
        final(u).model() is Draining,
        final(v).model() is Closed,
{
}

} // verus!
