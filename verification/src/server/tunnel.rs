//! The life of a tunnel: which download segment runs, who waits to continue it, when it ends.
use crate::server::constants::STREAM_IDLE_TIMEOUT_SECS;
use vstd::prelude::*;

verus! {

/// Where a tunnel stands.
#[derive(Debug, Clone, Copy, PartialEq, Eq, Structural)]
pub enum Phase {
    /// The target is not connected yet.
    Connecting,
    /// Data flows.
    Active,
    /// A download segment is full; the next one waits for a request.
    Rotating,
    /// The tunnel is to be closed.
    Draining,
    /// The tunnel is closed.
    Closed,
}

/// How a download segment ended.
#[derive(Debug, Clone, Copy, PartialEq, Eq, Structural)]
pub enum SegmentEnd {
    /// It is full; the source can go on.
    Rotated,
    /// The source or the client is gone.
    Ended,
    /// Nobody can report segments any more.
    ChannelClosed,
}

/// What becomes of a request to continue. `R` answers it.
pub enum ContinueVerdict<R> {
    /// Start a segment for it.
    Start(R),
    /// It waits for the running segment to end.
    Queued,
    /// Answer that there is nothing to continue.
    Refuse(R),
}

/// What a tunnel does when its idle timer has run out.
#[derive(Debug, Clone, Copy, PartialEq, Eq, Structural)]
pub enum IdleVerdict {
    /// It was idle too long: close it.
    Close,
    /// Look again after this many seconds.
    Rearm { secs: u64 },
}

/// What a tunnel knows.
pub struct TunnelModel<R> {
    pub phase: Phase,
    /// The source is here, not in a running segment.
    pub parked: bool,
    /// There are no download segments at all.
    pub direct: bool,
    /// Requests that wait to continue, first come first.
    pub waiting: Seq<R>,
    /// When something last happened.
    pub last_activity: u64,
    /// How many bytes fill a segment.
    pub max_download_bytes: Option<u64>,
}

/// The state of one tunnel.
pub struct TunnelActor<R> {
    phase: Phase,
    parked: bool,
    direct: bool,
    waiting: Vec<R>,
    last_activity: u64,
    max_download_bytes: Option<u64>,
}

/// A request to continue a tunnel that is in this state.
pub open spec fn continue_step<R>(before: TunnelModel<R>, reply: R) -> (
    TunnelModel<R>,
    ContinueVerdict<R>,
) {
    if before.phase == Phase::Rotating {
        (
            TunnelModel { phase: Phase::Active, parked: false, ..before },
            ContinueVerdict::Start(reply),
        )
    } else if before.phase == Phase::Active && !before.parked {
        (TunnelModel { waiting: before.waiting.push(reply), ..before }, ContinueVerdict::Queued)
    } else {
        (before, ContinueVerdict::Refuse(reply))
    }
}

/// The end of a download segment.
pub open spec fn segment_step<R>(before: TunnelModel<R>, end: SegmentEnd) -> TunnelModel<R> {
    match end {
        SegmentEnd::Rotated => TunnelModel { phase: Phase::Rotating, parked: true, ..before },
        SegmentEnd::Ended => TunnelModel { phase: Phase::Draining, parked: false, ..before },
        SegmentEnd::ChannelClosed => TunnelModel { phase: Phase::Draining, ..before },
    }
}

impl<R> TunnelActor<R> {
    /// What the tunnel knows.
    pub closed spec fn model(self) -> TunnelModel<R> {
        TunnelModel {
            phase: self.phase,
            parked: self.parked,
            direct: self.direct,
            waiting: self.waiting@,
            last_activity: self.last_activity,
            max_download_bytes: self.max_download_bytes,
        }
    }

    /// A tunnel that waits for its target. Without a download channel it is direct.
    pub fn new(has_download: bool, max_download_bytes: Option<u64>, now: u64) -> (r: Self)
        ensures
            r.model() == (TunnelModel::<R> {
                phase: Phase::Connecting,
                parked: false,
                direct: !has_download,
                waiting: Seq::empty(),
                last_activity: now,
                max_download_bytes,
            }),
    {
        TunnelActor {
            phase: Phase::Connecting,
            parked: false,
            direct: !has_download,
            waiting: Vec::new(),
            last_activity: now,
            max_download_bytes,
        }
    }

    /// The tunnel's phase.
    pub fn phase(&self) -> (r: Phase)
        ensures
            r == self.model().phase,
    {
        self.phase
    }

    /// The target is connected and the source is here.
    pub fn on_upstream_connected(&mut self)
        ensures
            final(self).model() == (TunnelModel {
                phase: Phase::Active,
                parked: true,
                ..old(self).model()
            }),
    {
        self.phase = Phase::Active;
        self.parked = true;
    }

    /// Starts the tunnel. Unless it is direct, its first segment is to be started.
    pub fn start(&mut self) -> (r: bool)
        ensures
            r == !old(self).model().direct,
            final(self).model() == (TunnelModel {
                parked: old(self).model().parked && old(self).model().direct,
                ..old(self).model()
            }),
    {
        if self.direct {
            false
        } else {
            self.parked = false;
            true
        }
    }

    /// Notes that something happened.
    pub fn touch(&mut self, now: u64)
        ensures
            final(self).model() == (TunnelModel { last_activity: now, ..old(self).model() }),
    {
        self.last_activity = now;
    }

    /// A segment has ended. The requests that wait are then to be answered
    /// one by one, as `next_waiting` says.
    pub fn on_segment_done(&mut self, end: SegmentEnd)
        ensures
            final(self).model() == segment_step(old(self).model(), end),
    {
        match end {
            SegmentEnd::Rotated => {
                self.parked = true;
                self.phase = Phase::Rotating;
            },
            SegmentEnd::Ended => {
                self.parked = false;
                self.phase = Phase::Draining;
            },
            SegmentEnd::ChannelClosed => {
                self.phase = Phase::Draining;
            },
        }
    }

    /// Takes the first waiting request. While the source is here it is offered
    /// a segment, otherwise it is refused.
    pub fn next_waiting(&mut self) -> (r: Option<ContinueVerdict<R>>)
        ensures
            old(self).model().waiting.len() == 0 ==> r is None && final(self).model()
                == old(self).model(),
            old(self).model().waiting.len() > 0 ==> {
                &&& final(self).model() == (TunnelModel {
                    waiting: old(self).model().waiting.skip(1),
                    ..old(self).model()
                })
                &&& r == Some(
                    if old(self).model().parked {
                        ContinueVerdict::Start(old(self).model().waiting[0])
                    } else {
                        ContinueVerdict::Refuse(old(self).model().waiting[0])
                    },
                )
            },
    {
        if self.waiting.len() == 0 {
            return None;
        }
        let ghost before = self.waiting@;
        let reply: R = self.waiting.remove(0);
        proof {
            assert(self.waiting@ =~= before.skip(1));
        }
        if self.parked {
            Some(ContinueVerdict::Start(reply))
        } else {
            Some(ContinueVerdict::Refuse(reply))
        }
    }

    /// An offer of `next_waiting` was answered. Where the request was still
    /// alive its segment starts; otherwise the source stays for the next one.
    pub fn on_offer(&mut self, accepted: bool)
        ensures
            final(self).model() == (if accepted {
                TunnelModel { phase: Phase::Active, parked: false, ..old(self).model() }
            } else {
                old(self).model()
            }),
    {
        if accepted {
            self.parked = false;
            self.phase = Phase::Active;
        }
    }

    /// A request to continue arrives.
    pub fn on_continue(&mut self, reply: R) -> (r: ContinueVerdict<R>)
        ensures
            continue_step(old(self).model(), reply) == (final(self).model(), r),
    {
        if self.phase == Phase::Rotating {
            self.parked = false;
            self.phase = Phase::Active;
            ContinueVerdict::Start(reply)
        } else if self.phase == Phase::Active && !self.parked {
            self.waiting.push(reply);
            ContinueVerdict::Queued
        } else {
            ContinueVerdict::Refuse(reply)
        }
    }

    /// The upload takes no more frames.
    pub fn on_upload_closed(&mut self)
        ensures
            final(self).model() == (TunnelModel { phase: Phase::Draining, ..old(self).model() }),
    {
        self.phase = Phase::Draining;
    }

    /// Whether the rotation timer ends the tunnel: only while it waits to be continued.
    pub fn rotation_timer_applies(&self) -> (r: bool)
        ensures
            r == (self.model().phase == Phase::Rotating),
    {
        matches!(self.phase, Phase::Rotating)
    }

    /// The idle timer has run out.
    pub fn on_idle_timer(&self, now: u64) -> (r: IdleVerdict)
        ensures
            ({
                let idle = if now >= self.model().last_activity {
                    now - self.model().last_activity
                } else {
                    0
                };
                r == (if idle >= STREAM_IDLE_TIMEOUT_SECS {
                    IdleVerdict::Close
                } else {
                    IdleVerdict::Rearm { secs: (STREAM_IDLE_TIMEOUT_SECS - idle) as u64 }
                })
            }),
    {
        let idle: u64 = now.saturating_sub(self.last_activity);
        if idle >= STREAM_IDLE_TIMEOUT_SECS {
            IdleVerdict::Close
        } else {
            IdleVerdict::Rearm { secs: STREAM_IDLE_TIMEOUT_SECS - idle }
        }
    }

    /// Whether the tunnel is to be closed.
    pub fn should_stop(&self) -> (r: bool)
        ensures
            r == (self.model().phase == Phase::Closed || self.model().phase == Phase::Draining),
    {
        matches!(self.phase, Phase::Closed | Phase::Draining)
    }

    /// Closes the tunnel and hands out everyone who still waits.
    pub fn cleanup(&mut self) -> (r: Vec<R>)
        ensures
            r@ == old(self).model().waiting,
            final(self).model() == (TunnelModel {
                phase: Phase::Closed,
                waiting: Seq::empty(),
                ..old(self).model()
            }),
    {
        self.phase = Phase::Closed;
        let mut out: Vec<R> = Vec::new();
        std::mem::swap(&mut out, &mut self.waiting);
        out
    }
}

/// The bytes sent in one download segment.
pub struct DownloadSegment {
    bytes_sent: u64,
    max_bytes: Option<u64>,
}

impl DownloadSegment {
    /// Bytes sent so far.
    pub closed spec fn sent(self) -> u64 {
        self.bytes_sent
    }

    /// The bytes that fill the segment.
    pub closed spec fn limit(self) -> Option<u64> {
        self.max_bytes
    }

    /// An empty segment.
    pub fn new(max_bytes: Option<u64>) -> (r: Self)
        ensures
            r.sent() == 0,
            r.limit() == max_bytes,
    {
        DownloadSegment { bytes_sent: 0, max_bytes }
    }

    /// Counts a frame that was sent; returns whether the segment is full.
    pub fn on_sent(&mut self, len: usize) -> (r: bool)
        requires
            old(self).sent() + len <= u64::MAX,
        ensures
            final(self).sent() == old(self).sent() + len,
            final(self).limit() == old(self).limit(),
            r == (match old(self).limit() {
                Some(max) => old(self).sent() + len >= max,
                None => false,
            }),
    {
        self.bytes_sent = self.bytes_sent + len as u64;
        match self.max_bytes {
            Some(max) => self.bytes_sent >= max,
            None => false,
        }
    }
}

/// The source is never in two segments: while a segment runs no second one is
/// started, by a waiting request or by a new one.
pub proof fn law_one_segment_at_a_time<R>(before: TunnelModel<R>, reply: R)
    requires
        before.phase == Phase::Active,
        !before.parked,
    ensures
        !(continue_step(before, reply).1 is Start),
        !continue_step(before, reply).0.parked,
{
}

/// A full segment leaves the tunnel waiting to be continued, and the next
/// request to continue starts exactly one segment.
pub proof fn law_rotation_resumes<R>(before: TunnelModel<R>, reply: R, second: R)
    requires
        before.phase == Phase::Active,
    ensures
        ({
            let rotated = segment_step(before, SegmentEnd::Rotated);
            let (resumed, first_verdict) = continue_step(rotated, reply);
            &&& rotated.phase == Phase::Rotating
            &&& first_verdict == ContinueVerdict::Start(reply)
            &&& resumed.phase == Phase::Active
            &&& continue_step(resumed, second).1 == ContinueVerdict::<R>::Queued
        }),
{
}

/// A direct tunnel has nothing to continue.
pub proof fn law_direct_refuses<R>(before: TunnelModel<R>, reply: R)
    requires
        before.direct,
        before.phase == Phase::Active,
        before.parked,
    ensures
        continue_step(before, reply) == (before, ContinueVerdict::Refuse(reply)),
{
}

} // verus!
