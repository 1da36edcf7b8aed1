//! Uploading in bodies of bounded size: a frame that would make a body too
//! large, or would put too much in flight, waits for the next body.
use crate::buffer;
use crate::client::constants::{MAX_BATCH_BYTES, MAX_IN_FLIGHT_BYTES, UPLOAD_CONCURRENCY};
use crate::client::upload_loop;
use crate::client::upload_loop::{PostOutcome, SealOutcome, UploadError};
use crate::shaper::frame::MAX_JSON_LINE_LEN;
use bytes::{Bytes, BytesMut};
use vstd::prelude::*;

verus! {

/// What to do next for an upload.
pub enum WindowTurn {
    /// Wait for a frame or for the end of a request.
    WaitFrame,
    /// Take a frame, if one is ready.
    TryFrame,
    /// Send a request with this body.
    Send(Bytes),
    /// Wait for the end of a request.
    WaitRequest,
    /// Nothing: everything is sent and answered.
    Over,
}

/// An upload window, as far as it decides anything.
#[verifier::ext_equal]
pub struct WindowModel {
    /// The frames of the next body.
    pub batch: Seq<u8>,
    /// A frame that waits for the body after that.
    pub kept: Option<Seq<u8>>,
    /// The bytes in flight, those of the next body among them.
    pub held: nat,
    /// The requests in flight.
    pub requests: nat,
    /// Whether no frame was ready since the last one.
    pub paused: bool,
    /// Whether the last frame has come.
    pub ended: bool,
}

impl WindowModel {
    /// What there is of the frames that came: the next body, and the frame behind it.
    pub open spec fn unsent(self) -> Seq<u8> {
        match self.kept {
            Some(frame) => self.batch + frame,
            None => self.batch,
        }
    }

    /// Whether a frame of `len` bytes goes into the next body.
    pub open spec fn takes(self, len: nat) -> bool {
        &&& self.held + len <= MAX_IN_FLIGHT_BYTES
        &&& self.batch.len() == 0 || self.batch.len() + len <= MAX_BATCH_BYTES
    }

    /// A frame goes into the next body, or is kept for the one after it.
    pub open spec fn offered(self, frame: Seq<u8>) -> WindowModel {
        if self.takes(frame.len()) {
            WindowModel {
                batch: self.batch + frame,
                held: self.held + frame.len(),
                paused: false,
                ..self
            }
        } else {
            WindowModel { kept: Some(frame), ..self }
        }
    }

    /// The source of frames was asked.
    pub open spec fn asked(self, outcome: SealOutcome, frame: Seq<u8>) -> WindowModel {
        match outcome {
            SealOutcome::Sealed => self.offered(frame),
            SealOutcome::Ended => WindowModel { ended: true, ..self },
            SealOutcome::NotReady => WindowModel { paused: true, ..self },
        }
    }

    /// A kept frame begins the next body, once there is room for it.
    pub open spec fn settled(self) -> WindowModel {
        match self.kept {
            Some(frame) => if self.batch.len() == 0 && self.takes(frame.len()) {
                WindowModel { kept: None, ..self }.offered(frame)
            } else {
                self
            },
            None => self,
        }
    }

    /// Whether the next body is to go out: nothing can be added to it now.
    pub open spec fn is_full(self) -> bool {
        self.batch.len() > 0 && (self.kept is Some || self.ended || self.paused)
    }

    /// The next body has gone out.
    pub open spec fn dispatched(self) -> WindowModel {
        WindowModel {
            batch: Seq::empty(),
            requests: self.requests + 1,
            paused: false,
            ..self
        }
    }

    /// A request with a body of `len` bytes is over.
    pub open spec fn released(self, len: nat) -> WindowModel {
        WindowModel {
            held: (self.held - len) as nat,
            requests: (self.requests - 1) as nat,
            ..self
        }
    }

    /// Whether what is left is to hear of the requests in flight.
    pub open spec fn drains(self) -> bool {
        self.ended && self.batch.len() == 0 && self.kept is None
    }

    /// The window keeps within its limits, and what is in flight is in requests
    /// or in the next body.
    pub open spec fn wf(self) -> bool {
        &&& self.batch.len() <= self.held <= MAX_IN_FLIGHT_BYTES
        &&& self.batch.len() <= MAX_BATCH_BYTES
        &&& self.requests <= UPLOAD_CONCURRENCY
        &&& self.requests == 0 ==> self.held == self.batch.len()
        &&& self.kept matches Some(frame) ==> 0 < frame.len() <= MAX_JSON_LINE_LEN + 1
    }
}

/// The turn of a window, and what is left of the window behind it.
pub open spec fn is_turn(before: WindowModel, after: WindowModel, turn: WindowTurn) -> bool {
    let m = before.settled();
    if m.is_full() && m.requests < UPLOAD_CONCURRENCY {
        turn matches WindowTurn::Send(body) && buffer::frozen(body) == m.batch && after
            == m.dispatched()
    } else {
        &&& after == m
        &&& turn == (if m.is_full() || m.kept is Some {
            WindowTurn::WaitRequest
        } else if m.batch.len() > 0 {
            WindowTurn::TryFrame
        } else if !m.ended {
            WindowTurn::WaitFrame
        } else if m.requests > 0 {
            WindowTurn::WaitRequest
        } else {
            WindowTurn::Over
        })
    }
}

/// Puts frames into bodies of bounded size, and keeps what is in flight within
/// the limits.
pub struct UploadWindow {
    batch: BytesMut,
    kept: Option<Bytes>,
    held: usize,
    requests: usize,
    paused: bool,
    ended: bool,
}

impl UploadWindow {
    /// The window, as far as it decides anything.
    pub closed spec fn model(&self) -> WindowModel {
        WindowModel {
            batch: buffer::buffered(self.batch),
            kept: match self.kept {
                Some(frame) => Some(buffer::frozen(frame)),
                None => None,
            },
            held: self.held as nat,
            requests: self.requests as nat,
            paused: self.paused,
            ended: self.ended,
        }
    }

    /// A window with nothing in flight.
    pub fn new() -> (r: Self)
        ensures
            r.model().wf(),
            r.model() == (WindowModel {
                batch: Seq::empty(),
                kept: None,
                held: 0,
                requests: 0,
                paused: false,
                ended: false,
            }),
    {
        UploadWindow {
            batch: buffer::buf_new(),
            kept: None,
            held: 0,
            requests: 0,
            paused: false,
            ended: false,
        }
    }

    /// Takes what the source of frames gave.
    pub fn on_seal(&mut self, outcome: SealOutcome, frame: Bytes)
        requires
            old(self).model().wf(),
            old(self).model().kept is None,
            outcome is Sealed ==> 0 < buffer::frozen(frame).len() <= MAX_JSON_LINE_LEN + 1,
        ensures
            final(self).model().wf(),
            final(self).model() == old(self).model().asked(outcome, buffer::frozen(frame)),
    {
        match outcome {
            SealOutcome::Sealed => self.offer(frame),
            SealOutcome::Ended => {
                self.ended = true;
            },
            SealOutcome::NotReady => {
                self.paused = true;
            },
        }
    }

    fn offer(&mut self, frame: Bytes)
        requires
            old(self).model().wf(),
            old(self).model().kept is None,
            0 < buffer::frozen(frame).len() <= MAX_JSON_LINE_LEN + 1,
        ensures
            final(self).model().wf(),
            final(self).model() == old(self).model().offered(buffer::frozen(frame)),
    {
        let len: usize = buffer::bytes_len(&frame);
        let collected: usize = buffer::buf_len(&self.batch);
        if self.held + len <= MAX_IN_FLIGHT_BYTES && (collected == 0 || collected + len
            <= MAX_BATCH_BYTES) {
            buffer::buf_put(&mut self.batch, buffer::bytes_as_slice(&frame));
            self.held = self.held + len;
            self.paused = false;
        } else {
            self.kept = Some(frame);
        }
    }

    /// Lets a kept frame begin the next body, once there is room for it.
    fn settle(&mut self)
        requires
            old(self).model().wf(),
        ensures
            final(self).model().wf(),
            final(self).model() == old(self).model().settled(),
    {
        if buffer::buf_len(&self.batch) > 0 {
            return ;
        }
        let mut kept: Option<Bytes> = None;
        std::mem::swap(&mut kept, &mut self.kept);
        match kept {
            Some(frame) => self.offer(frame),
            None => {},
        }
    }

    /// Decides what to do next.
    pub fn next_turn(&mut self) -> (r: WindowTurn)
        requires
            old(self).model().wf(),
        ensures
            final(self).model().wf(),
            is_turn(old(self).model(), final(self).model(), r),
    {
        self.settle();
        let collected: usize = buffer::buf_len(&self.batch);
        if collected > 0 && (self.kept.is_some() || self.ended || self.paused) {
            if self.requests >= UPLOAD_CONCURRENCY {
                return WindowTurn::WaitRequest;
            }
            self.requests = self.requests + 1;
            self.paused = false;
            let mut body: BytesMut = buffer::buf_new();
            std::mem::swap(&mut body, &mut self.batch);
            return WindowTurn::Send(buffer::buf_freeze(body));
        }
        if self.kept.is_some() {
            WindowTurn::WaitRequest
        } else if collected > 0 {
            WindowTurn::TryFrame
        } else if !self.ended {
            WindowTurn::WaitFrame
        } else if self.requests > 0 {
            WindowTurn::WaitRequest
        } else {
            WindowTurn::Over
        }
    }

    /// Takes what became of a request with a body of `len` bytes.
    pub fn on_post_done(&mut self, len: usize, outcome: PostOutcome) -> (r: Result<(), UploadError>)
        requires
            old(self).model().wf(),
            old(self).model().requests > 0,
            len <= old(self).model().held - old(self).model().batch.len(),
            old(self).model().requests == 1 ==> len == old(self).model().held - old(
                self,
            ).model().batch.len(),
        ensures
            final(self).model().wf(),
            final(self).model() == old(self).model().released(len as nat),
            match upload_loop::failure(outcome, old(self).model().drains()) {
                None => r is Ok,
                Some(e) => r == Err::<(), UploadError>(e),
            },
    {
        let draining: bool = self.ended && buffer::buf_len(&self.batch) == 0 && self.kept.is_none();
        self.held = self.held - len;
        self.requests = self.requests - 1;
        upload_loop::post_result(outcome, draining)
    }
}

/// What happens to an upload window.
pub enum WindowEvent {
    /// The source of frames was asked.
    Seal(SealOutcome, Seq<u8>),
    /// The window had its turn.
    Turn,
    /// A request was over.
    Answer(nat),
}

/// What becomes of a window, and the bodies that went out, one behind the other.
pub open spec fn window_run(m: WindowModel, events: Seq<WindowEvent>) -> (WindowModel, Seq<u8>)
    decreases events.len(),
{
    if events.len() == 0 {
        (m, Seq::empty())
    } else {
        let (before, sent) = window_run(m, events.drop_last());
        match events.last() {
            WindowEvent::Seal(outcome, frame) => (
                if before.kept is None {
                    before.asked(outcome, frame)
                } else {
                    before
                },
                sent,
            ),
            WindowEvent::Turn => {
                let s = before.settled();
                if s.is_full() && s.requests < UPLOAD_CONCURRENCY {
                    (s.dispatched(), sent + s.batch)
                } else {
                    (s, sent)
                }
            },
            WindowEvent::Answer(len) => (before.released(len), sent),
        }
    }
}

/// The frames that came while none was kept, one behind the other.
pub open spec fn window_frames(m: WindowModel, events: Seq<WindowEvent>) -> Seq<u8>
    decreases events.len(),
{
    if events.len() == 0 {
        Seq::empty()
    } else {
        let earlier = window_frames(m, events.drop_last());
        match events.last() {
            WindowEvent::Seal(SealOutcome::Sealed, frame) => if window_run(
                m,
                events.drop_last(),
            ).0.kept is None {
                earlier + frame
            } else {
                earlier
            },
            _ => earlier,
        }
    }
}

/// However frames come and requests end, the bodies that went out and what is
/// still to be sent hold every frame once and in order.
pub proof fn law_window_keeps_frames(m: WindowModel, events: Seq<WindowEvent>)
    ensures
        window_run(m, events).1 + window_run(m, events).0.unsent() == m.unsent() + window_frames(
            m,
            events,
        ),
    decreases events.len(),
{
    if events.len() == 0 {
        assert(Seq::<u8>::empty() + m.unsent() =~= m.unsent() + Seq::<u8>::empty());
    } else {
        law_window_keeps_frames(m, events.drop_last());
        let (before, sent) = window_run(m, events.drop_last());
        let earlier = window_frames(m, events.drop_last());
        match events.last() {
            WindowEvent::Seal(SealOutcome::Sealed, frame) => {
                if before.kept is None {
                    assert(before.offered(frame).unsent() =~= before.batch + frame);
                    assert(sent + (before.batch + frame) =~= (sent + before.batch) + frame);
                    assert(m.unsent() + (earlier + frame) =~= (m.unsent() + earlier) + frame);
                }
            },
            WindowEvent::Turn => {
                let s = before.settled();
                assert(s.unsent() =~= before.unsent());
                assert((sent + s.batch) + s.dispatched().unsent() =~= sent + s.unsent());
            },
            _ => {},
        }
    }
}

/// A window that waits for a request has one in flight, so it never waits in vain.
pub proof fn law_window_progress(before: WindowModel, after: WindowModel, turn: WindowTurn)
    requires
        before.wf(),
        is_turn(before, after, turn),
        turn is WaitRequest,
    ensures
        after.requests > 0,
{
}

/// A body is never larger than a body may be, and never empty.
pub proof fn law_bodies_are_bounded(before: WindowModel, after: WindowModel, turn: WindowTurn)
    requires
        before.wf(),
        is_turn(before, after, turn),
    ensures
        turn matches WindowTurn::Send(body) ==> 0 < buffer::frozen(body).len() <= MAX_BATCH_BYTES,
{
}

} // verus!
