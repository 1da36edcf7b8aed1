//! Uploading: frames are collected into request bodies, which are sent side by side.
use crate::buffer;
use crate::client::constants::MAX_BATCH_BYTES;
use crate::shaper::frame::MAX_JSON_LINE_LEN;
use bytes::{Bytes, BytesMut};
use vstd::prelude::*;
use vstd::string::*;

verus! {

/// What an upload is at.
#[derive(Debug, Clone, Copy, PartialEq, Eq, Structural)]
pub enum Phase {
    /// Nothing is collected; the next frame or the end of a request is awaited.
    Waiting,
    /// Frames that are ready are collected.
    Filling,
    /// A body waits to be sent.
    Posting,
    /// Everything is sent; the answers are awaited.
    Draining,
    /// Everything is answered.
    Done,
}

/// What the source of frames gave.
#[derive(Debug, Clone, Copy, PartialEq, Eq, Structural)]
pub enum SealOutcome {
    /// A frame.
    Sealed,
    /// There is none any more.
    Ended,
    /// There is none yet.
    NotReady,
}

/// What became of a request.
#[derive(Debug)]
pub enum PostOutcome {
    /// It was accepted.
    Accepted,
    /// It failed.
    Failed(String),
    /// Its task died.
    Panicked(String),
}

/// Why an upload broke off.
#[derive(Debug)]
pub enum UploadError {
    /// A request failed while frames were still coming.
    PostFailed(String),
    /// A request failed after the last frame.
    LastPostFailed(String),
    /// The task of a request died.
    Panicked(String),
}

impl UploadError {
    /// The error in words.
    pub open spec fn text(self) -> Seq<char> {
        match self {
            UploadError::PostFailed(_) => "upload POST failed"@,
            UploadError::LastPostFailed(reason) => reason@,
            UploadError::Panicked(reason) => "upload task panicked: "@ + reason@,
        }
    }

    /// The error in words.
    pub fn message(&self) -> (r: String)
        ensures
            r@ == self.text(),
    {
        let mut out: String = String::new();
        match self {
            UploadError::PostFailed(_) => {
                out.append("upload POST failed");
            },
            UploadError::LastPostFailed(reason) => {
                out.append(reason.as_str());
            },
            UploadError::Panicked(reason) => {
                out.append("upload task panicked: ");
                out.append(reason.as_str());
            },
        }
        proof {
            assert(out@ =~= self.text());
        }
        out
    }
}

/// The failure that a request's outcome is, before or after the last frame.
pub open spec fn failure(o: PostOutcome, draining: bool) -> Option<UploadError> {
    match o {
        PostOutcome::Accepted => None,
        PostOutcome::Failed(reason) => if draining {
            Some(UploadError::LastPostFailed(reason))
        } else {
            Some(UploadError::PostFailed(reason))
        },
        PostOutcome::Panicked(reason) => Some(UploadError::Panicked(reason)),
    }
}

pub(crate) fn post_result(o: PostOutcome, draining: bool) -> (r: Result<(), UploadError>)
    ensures
        match failure(o, draining) {
            None => r is Ok,
            Some(e) => r == Err::<(), UploadError>(e),
        },
{
    match o {
        PostOutcome::Accepted => Ok(()),
        PostOutcome::Failed(reason) => if draining {
            Err(UploadError::LastPostFailed(reason))
        } else {
            Err(UploadError::PostFailed(reason))
        },
        PostOutcome::Panicked(reason) => Err(UploadError::Panicked(reason)),
    }
}

/// An upload, as far as it decides anything.
#[verifier::ext_equal]
pub struct UploadModel {
    /// What it is at.
    pub phase: Phase,
    /// The collected frames.
    pub batch: Seq<u8>,
    /// Whether the last frame has come.
    pub ended: bool,
    /// How many requests are in flight.
    pub requests: nat,
    /// How many bytes are in flight.
    pub bytes: nat,
    /// The first failure not yet reported.
    pub failed: Option<PostOutcome>,
}

/// The limits of an upload.
pub struct UploadLimits {
    /// Where a body stops taking frames.
    pub batch: nat,
    /// The most bytes in flight.
    pub bytes: nat,
    /// The most requests in flight.
    pub requests: nat,
}

impl UploadModel {
    /// No frame is to come and none waits: what is left is to hear of the
    /// requests in flight.
    pub open spec fn drained(self) -> (UploadModel, Option<UploadError>) {
        match self.failed {
            Some(o) => (
                UploadModel { phase: Phase::Draining, ended: true, failed: None, ..self },
                failure(o, true),
            ),
            None => (
                UploadModel {
                    phase: if self.requests == 0 {
                        Phase::Done
                    } else {
                        Phase::Draining
                    },
                    ended: true,
                    ..self
                },
                None,
            ),
        }
    }

    /// The source of frames was asked.
    pub open spec fn sealed(self, limits: UploadLimits, outcome: SealOutcome, frame: Seq<u8>) -> (
        UploadModel,
        Option<UploadError>,
    ) {
        match outcome {
            SealOutcome::Sealed => {
                let batch = self.batch + frame;
                (
                    UploadModel {
                        batch,
                        phase: if batch.len() < limits.batch {
                            Phase::Filling
                        } else {
                            Phase::Posting
                        },
                        ..self
                    },
                    None,
                )
            },
            SealOutcome::Ended => if self.batch.len() == 0 {
                self.drained()
            } else {
                (UploadModel { phase: Phase::Posting, ended: true, ..self }, None)
            },
            SealOutcome::NotReady => if self.batch.len() > 0 {
                (UploadModel { phase: Phase::Posting, ..self }, None)
            } else {
                match self.failed {
                    Some(o) => (
                        UploadModel { phase: Phase::Waiting, failed: None, ..self },
                        failure(o, false),
                    ),
                    None => (UploadModel { phase: Phase::Waiting, ..self }, None),
                }
            },
        }
    }

    /// Whether the collected frames may go out now. A body may exceed the limit by a
    /// part of its last frame, so one goes out in any case where nothing is in flight.
    pub open spec fn has_room(self, limits: UploadLimits) -> bool {
        &&& self.requests < limits.requests
        &&& self.bytes == 0 || self.bytes + self.batch.len() <= limits.bytes
    }

    /// The collected frames have gone out, or a failure stopped them.
    pub open spec fn posted(self) -> (UploadModel, Option<UploadError>) {
        match self.failed {
            Some(o) => (UploadModel { failed: None, ..self }, failure(o, false)),
            None => (
                UploadModel {
                    phase: if self.ended {
                        Phase::Draining
                    } else {
                        Phase::Waiting
                    },
                    batch: Seq::empty(),
                    requests: self.requests + 1,
                    bytes: self.bytes + self.batch.len(),
                    ..self
                },
                None,
            ),
        }
    }

    /// A request with a body of `len` bytes is over.
    pub open spec fn answered(self, len: nat, outcome: PostOutcome) -> (
        UploadModel,
        Option<UploadError>,
    ) {
        let freed = UploadModel {
            requests: (self.requests - 1) as nat,
            bytes: (self.bytes - len) as nat,
            ..self
        };
        match self.phase {
            Phase::Waiting => (
                UploadModel {
                    phase: if outcome is Accepted {
                        Phase::Filling
                    } else {
                        Phase::Waiting
                    },
                    ..freed
                },
                failure(outcome, false),
            ),
            Phase::Filling | Phase::Posting => (
                UploadModel {
                    failed: if self.failed is None && !(outcome is Accepted) {
                        Some(outcome)
                    } else {
                        self.failed
                    },
                    ..freed
                },
                None,
            ),
            Phase::Draining | Phase::Done => (
                UploadModel {
                    phase: if outcome is Accepted && freed.requests == 0 {
                        Phase::Done
                    } else {
                        Phase::Draining
                    },
                    ..freed
                },
                failure(outcome, true),
            ),
        }
    }
}

/// Collects frames into request bodies, keeps the bodies in flight within the
/// limits, and finds out when all of them are answered.
pub struct UploadLoopActor {
    phase: Phase,
    batch: BytesMut,
    ended: bool,
    requests: usize,
    bytes: usize,
    failed: Option<PostOutcome>,
    max_batch_bytes: usize,
    max_in_flight_bytes: usize,
    upload_concurrency: usize,
}

impl UploadLoopActor {
    /// The upload, as far as it decides anything.
    pub closed spec fn model(&self) -> UploadModel {
        UploadModel {
            phase: self.phase,
            batch: buffer::buffered(self.batch),
            ended: self.ended,
            requests: self.requests as nat,
            bytes: self.bytes as nat,
            failed: self.failed,
        }
    }

    /// The limits.
    pub closed spec fn limits(&self) -> UploadLimits {
        UploadLimits {
            batch: self.max_batch_bytes as nat,
            bytes: self.max_in_flight_bytes as nat,
            requests: self.upload_concurrency as nat,
        }
    }

    /// Bodies in flight keep within the limits, but for one that is there alone;
    /// a body exceeds where it stops taking frames by one frame at most; bytes are
    /// in flight only in requests; and frames wait only where they are collected or
    /// about to go out.
    pub open spec fn wf(&self) -> bool {
        let m = self.model();
        let l = self.limits();
        &&& l.batch <= MAX_BATCH_BYTES
        &&& l.batch <= l.bytes
        &&& l.bytes <= usize::MAX
        &&& l.requests <= usize::MAX
        &&& m.requests <= l.requests
        &&& m.bytes <= l.bytes || m.bytes <= l.batch + MAX_JSON_LINE_LEN
        &&& m.requests == 0 ==> m.bytes == 0
        &&& (m.failed matches Some(o) ==> !(o is Accepted))
        &&& match m.phase {
            Phase::Waiting => m.batch.len() == 0 && !m.ended && m.failed is None,
            Phase::Filling => (m.batch.len() < l.batch || m.batch.len() == 0) && !m.ended,
            Phase::Posting => 0 < m.batch.len() <= l.batch + MAX_JSON_LINE_LEN,
            Phase::Draining => m.batch.len() == 0 && m.ended && m.failed is None,
            Phase::Done => m.batch.len() == 0 && m.ended && m.failed is None && m.requests == 0,
        }
    }

    /// An upload with at most so many bytes and requests in flight.
    pub fn new(max_in_flight_bytes: usize, upload_concurrency: usize) -> (r: Self)
        ensures
            r.wf(),
            r.model() == (UploadModel {
                phase: Phase::Waiting,
                batch: Seq::empty(),
                ended: false,
                requests: 0,
                bytes: 0,
                failed: None,
            }),
            r.limits() == (UploadLimits {
                batch: if max_in_flight_bytes < MAX_BATCH_BYTES {
                    max_in_flight_bytes as nat
                } else {
                    MAX_BATCH_BYTES as nat
                },
                bytes: max_in_flight_bytes as nat,
                requests: upload_concurrency as nat,
            }),
    {
        UploadLoopActor {
            phase: Phase::Waiting,
            batch: buffer::buf_new(),
            ended: false,
            requests: 0,
            bytes: 0,
            failed: None,
            max_batch_bytes: if max_in_flight_bytes < MAX_BATCH_BYTES {
                max_in_flight_bytes
            } else {
                MAX_BATCH_BYTES
            },
            max_in_flight_bytes,
            upload_concurrency,
        }
    }

    /// What the upload is at.
    pub fn phase(&self) -> (r: Phase)
        ensures
            r == self.model().phase,
    {
        self.phase
    }

    /// Whether requests are in flight.
    pub fn has_requests(&self) -> (r: bool)
        ensures
            r == (self.model().requests > 0),
    {
        self.requests > 0
    }

    fn start_drain(&mut self) -> (r: Result<(), UploadError>)
        requires
            old(self).wf(),
            old(self).model().batch.len() == 0,
        ensures
            final(self).limits() == old(self).limits(),
            final(self).wf(),
            (final(self).model(), (match r {
                Ok(_) => None,
                Err(e) => Some(e),
            })) == old(self).model().drained(),
    {
        self.ended = true;
        let mut failed: Option<PostOutcome> = None;
        std::mem::swap(&mut failed, &mut self.failed);
        match failed {
            Some(o) => {
                self.phase = Phase::Draining;
                post_result(o, true)
            },
            None => {
                self.phase = if self.requests == 0 {
                    Phase::Done
                } else {
                    Phase::Draining
                };
                Ok(())
            },
        }
    }

    /// Takes what the source of frames gave.
    pub fn on_seal(&mut self, outcome: SealOutcome, frame: &[u8]) -> (r: Result<(), UploadError>)
        requires
            old(self).wf(),
            old(self).model().phase is Waiting || old(self).model().phase is Filling,
            outcome is Sealed ==> 0 < frame@.len() <= MAX_JSON_LINE_LEN,
        ensures
            final(self).limits() == old(self).limits(),
            final(self).wf(),
            (final(self).model(), (match r {
                Ok(_) => None,
                Err(e) => Some(e),
            })) == old(self).model().sealed(old(self).limits(), outcome, frame@),
    {
        match outcome {
            SealOutcome::Sealed => {
                buffer::buf_put(&mut self.batch, frame);
                self.phase = if buffer::buf_len(&self.batch) < self.max_batch_bytes {
                    Phase::Filling
                } else {
                    Phase::Posting
                };
                Ok(())
            },
            SealOutcome::Ended => {
                if buffer::buf_len(&self.batch) == 0 {
                    return self.start_drain();
                }
                self.ended = true;
                self.phase = Phase::Posting;
                Ok(())
            },
            SealOutcome::NotReady => {
                if buffer::buf_len(&self.batch) > 0 {
                    self.phase = Phase::Posting;
                    return Ok(());
                }
                self.phase = Phase::Waiting;
                let mut failed: Option<PostOutcome> = None;
                std::mem::swap(&mut failed, &mut self.failed);
                match failed {
                    Some(o) => post_result(o, false),
                    None => Ok(()),
                }
            },
        }
    }

    /// Hands out the collected frames as one body, as soon as the limits let it go.
    pub fn try_post(&mut self) -> (r: Result<Option<Bytes>, UploadError>)
        requires
            old(self).wf(),
            old(self).model().phase is Posting,
        ensures
            final(self).limits() == old(self).limits(),
            final(self).wf(),
            if old(self).model().has_room(old(self).limits()) {
                let (after, error) = old(self).model().posted();
                final(self).model() == after && match error {
                    Some(e) => r == Err::<Option<Bytes>, UploadError>(e),
                    None => r matches Ok(Some(body)) && buffer::frozen(body)
                        == old(self).model().batch,
                }
            } else {
                final(self).model() == old(self).model() && (r matches Ok(b) && b is None)
            },
    {
        let len: usize = buffer::buf_len(&self.batch);
        if self.requests >= self.upload_concurrency {
            return Ok(None);
        }
        if self.bytes > 0 && (self.bytes > self.max_in_flight_bytes || len
            > self.max_in_flight_bytes - self.bytes) {
            return Ok(None);
        }
        let mut failed: Option<PostOutcome> = None;
        std::mem::swap(&mut failed, &mut self.failed);
        match failed {
            Some(o) => match post_result(o, false) {
                Ok(_) => {},
                Err(e) => {
                    return Err(e);
                },
            },
            None => {},
        }
        self.requests = self.requests + 1;
        self.bytes = self.bytes + len;
        self.phase = if self.ended {
            Phase::Draining
        } else {
            Phase::Waiting
        };
        let mut body: BytesMut = buffer::buf_new();
        std::mem::swap(&mut body, &mut self.batch);
        Ok(Some(buffer::buf_freeze(body)))
    }

    /// Takes what became of a request with a body of `len` bytes.
    pub fn on_post_done(&mut self, len: usize, outcome: PostOutcome) -> (r: Result<(), UploadError>)
        requires
            old(self).wf(),
            old(self).model().requests > 0,
            len <= old(self).model().bytes,
            old(self).model().requests == 1 ==> len == old(self).model().bytes,
        ensures
            final(self).limits() == old(self).limits(),
            final(self).wf(),
            (final(self).model(), (match r {
                Ok(_) => None,
                Err(e) => Some(e),
            })) == old(self).model().answered(len as nat, outcome),
    {
        self.requests = self.requests - 1;
        self.bytes = self.bytes - len;
        match self.phase {
            Phase::Waiting => {
                match outcome {
                    PostOutcome::Accepted => {
                        self.phase = Phase::Filling;
                    },
                    _ => {},
                }
                post_result(outcome, false)
            },
            Phase::Filling | Phase::Posting => {
                match outcome {
                    PostOutcome::Accepted => {},
                    _ => {
                        if self.failed.is_none() {
                            self.failed = Some(outcome);
                        }
                    },
                }
                Ok(())
            },
            Phase::Draining | Phase::Done => {
                match outcome {
                    PostOutcome::Accepted => {
                        self.phase = if self.requests == 0 {
                            Phase::Done
                        } else {
                            Phase::Draining
                        };
                    },
                    _ => {},
                }
                post_result(outcome, true)
            },
        }
    }
}

/// What happens to an upload.
pub enum UploadEvent {
    /// The source of frames was asked.
    Seal(SealOutcome, Seq<u8>),
    /// The collected frames were to go out.
    Post,
    /// A request was over.
    Answer(nat, PostOutcome),
}

/// What becomes of an upload, and the bodies that went out, one behind the other.
pub open spec fn upload_run(m: UploadModel, limits: UploadLimits, events: Seq<UploadEvent>) -> (
    UploadModel,
    Seq<u8>,
)
    decreases events.len(),
{
    if events.len() == 0 {
        (m, Seq::empty())
    } else {
        let (before, sent) = upload_run(m, limits, events.drop_last());
        match events.last() {
            UploadEvent::Seal(outcome, frame) => (before.sealed(limits, outcome, frame).0, sent),
            UploadEvent::Post => if before.has_room(limits) {
                let (after, error) = before.posted();
                (
                    after,
                    if error is None {
                        sent + before.batch
                    } else {
                        sent
                    },
                )
            } else {
                (before, sent)
            },
            UploadEvent::Answer(len, outcome) => (before.answered(len, outcome).0, sent),
        }
    }
}

/// The frames that came, one behind the other.
pub open spec fn frames_of(events: Seq<UploadEvent>) -> Seq<u8>
    decreases events.len(),
{
    if events.len() == 0 {
        Seq::empty()
    } else {
        let earlier = frames_of(events.drop_last());
        match events.last() {
            UploadEvent::Seal(SealOutcome::Sealed, frame) => earlier + frame,
            _ => earlier,
        }
    }
}

/// However frames come and requests end, the bodies that went out and what is
/// still collected hold every frame once and in order.
pub proof fn law_bodies_keep_frames(
    m: UploadModel,
    limits: UploadLimits,
    events: Seq<UploadEvent>,
)
    requires
        m.failed matches Some(o) ==> !(o is Accepted),
    ensures
        upload_run(m, limits, events).1 + upload_run(m, limits, events).0.batch == m.batch
            + frames_of(events),
        upload_run(m, limits, events).0.failed matches Some(o) ==> !(o is Accepted),
    decreases events.len(),
{
    if events.len() > 0 {
        law_bodies_keep_frames(m, limits, events.drop_last());
        let (before, sent) = upload_run(m, limits, events.drop_last());
        let earlier = frames_of(events.drop_last());
        match events.last() {
            UploadEvent::Seal(SealOutcome::Sealed, frame) => {
                assert(sent + (before.batch + frame) =~= (sent + before.batch) + frame);
                assert(m.batch + (earlier + frame) =~= (m.batch + earlier) + frame);
            },
            UploadEvent::Post => {
                assert((sent + before.batch) + Seq::<u8>::empty() =~= sent + before.batch);
            },
            _ => {},
        }
    } else {
        assert(Seq::<u8>::empty() + m.batch =~= m.batch + Seq::<u8>::empty());
    }
}

/// Once no request is in flight a body can go out, whatever its length: an upload
/// never waits in vain.
pub proof fn law_upload_progress(actor: UploadLoopActor)
    requires
        actor.wf(),
        actor.model().phase is Posting,
        actor.model().requests == 0,
        actor.limits().requests > 0,
    ensures
        actor.model().has_room(actor.limits()),
{
}

} // verus!
