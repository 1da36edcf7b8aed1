//! Shared state of a stream: activity, rotation, and the download that reads it.
use crate::server::constants::{ROTATION_STALENESS_SECS, STREAM_IDLE_TIMEOUT_SECS};
use crate::server::masters;
use vstd::prelude::*;

verus! {

/// What the upload side of a stream knows. Times are in seconds.
pub struct UploadStream {
    last_activity: u64,
    shut_down: bool,
    rotation_at: u64,
}

impl UploadStream {
    /// When something last happened.
    pub closed spec fn active_at(self) -> u64 {
        self.last_activity
    }

    /// Whether the stream was shut down.
    pub closed spec fn is_shut_down(self) -> bool {
        self.shut_down
    }

    /// When the download was rotated; zero stands for never.
    pub closed spec fn rotated_at(self) -> u64 {
        self.rotation_at
    }

    /// A stream that starts now.
    pub fn new(now: u64) -> (r: Self)
        ensures
            r.active_at() == now,
            !r.is_shut_down(),
            r.rotated_at() == 0,
    {
        UploadStream { last_activity: now, shut_down: false, rotation_at: 0 }
    }

    /// Notes that something happened.
    pub fn touch(&mut self, now: u64)
        ensures
            final(self).active_at() == now,
            final(self).is_shut_down() == old(self).is_shut_down(),
            final(self).rotated_at() == old(self).rotated_at(),
    {
        self.last_activity = now;
    }

    /// Whether nothing has happened for longer than the idle limit.
    pub fn is_idle(&self, now: u64) -> (r: bool)
        ensures
            r == (masters::age(self.active_at(), now) > STREAM_IDLE_TIMEOUT_SECS),
    {
        now.saturating_sub(self.last_activity) > STREAM_IDLE_TIMEOUT_SECS
    }

    /// Shuts the stream down; returns whether it was running.
    pub fn do_shutdown(&mut self) -> (r: bool)
        ensures
            r == !old(self).is_shut_down(),
            final(self).is_shut_down(),
            final(self).active_at() == old(self).active_at(),
            final(self).rotated_at() == old(self).rotated_at(),
    {
        if self.shut_down {
            false
        } else {
            self.shut_down = true;
            true
        }
    }

    /// Notes that the download was rotated.
    pub fn mark_rotation(&mut self, now: u64)
        ensures
            final(self).rotated_at() == now,
            final(self).active_at() == old(self).active_at(),
            final(self).is_shut_down() == old(self).is_shut_down(),
    {
        self.rotation_at = now;
    }

    /// Notes that the download goes on.
    pub fn clear_rotation(&mut self)
        ensures
            final(self).rotated_at() == 0,
            final(self).active_at() == old(self).active_at(),
            final(self).is_shut_down() == old(self).is_shut_down(),
    {
        self.rotation_at = 0;
    }

    /// Whether a rotated download was left for longer than the limit.
    pub fn is_rotation_stale(&self, now: u64) -> (r: bool)
        ensures
            r == (self.rotated_at() != 0 && masters::age(self.rotated_at(), now)
                > ROTATION_STALENESS_SECS),
    {
        self.rotation_at != 0 && now.saturating_sub(self.rotation_at) > ROTATION_STALENESS_SECS
    }
}

/// What a download finds when it reaches for its source.
#[derive(Debug, Clone, Copy, PartialEq, Eq, Structural)]
pub enum SourceAccess {
    /// The source cannot be reached.
    Poisoned,
    /// Somebody else has it.
    Taken,
    /// It is here.
    Available,
}

/// Whether a download may read its source.
#[derive(Debug, Clone, Copy, PartialEq, Eq, Structural)]
pub enum ReadGate {
    /// Wait for the download before this one.
    Wait,
    /// The download is over. With `release` its successor is let in.
    End { release: bool },
    /// Read the source.
    Read,
}

/// What the source gave.
#[derive(Debug, Clone, Copy, PartialEq, Eq, Structural)]
pub enum SourceItem {
    /// A frame of so many bytes.
    Frame { len: u64 },
    /// An error.
    Error,
    /// The end.
    End,
    /// Nothing yet.
    Pending,
}

/// What a download does with what the source gave.
#[derive(Debug, Clone, Copy, PartialEq, Eq, Structural)]
pub enum ReadOutcome {
    /// Send the frame and put the source back.
    Emit,
    /// Send the frame, put the source back, note the rotation and let the successor in.
    EmitAndRotate,
    /// Send the error and let the successor in.
    Fail,
    /// End and let the successor in.
    End,
    /// Put the source back and wait.
    Wait,
}

/// What dropping a download leaves to be done, besides letting its successor in.
#[derive(Debug, Clone, Copy, PartialEq, Eq, Structural)]
pub enum DropAction {
    /// Nothing: a successor goes on.
    Keep,
    /// Shut the stream down and forget it.
    TearDown,
}

/// What a download knows.
pub struct DownloadModel {
    /// The download before this one has not let it in yet.
    pub waits: bool,
    pub done: bool,
    pub rotated: bool,
    pub sent: nat,
    pub limit: Option<u64>,
}

/// One response that carries a stretch of a stream's download.
pub struct DownloadStream {
    waits: bool,
    done: bool,
    rotated: bool,
    bytes_sent: u64,
    max_download_bytes: Option<u64>,
}

/// Whether a download may read: `let_in` says that its predecessor has ended,
/// `shutdown` that the stream was shut down.
pub open spec fn gate_of(
    before: DownloadModel,
    let_in: bool,
    shutdown: bool,
    source: SourceAccess,
) -> (DownloadModel, ReadGate) {
    if before.waits && !let_in {
        (before, ReadGate::Wait)
    } else {
        let entered = DownloadModel { waits: false, ..before };
        let ended = DownloadModel { waits: false, done: true, ..before };
        if before.done {
            (entered, ReadGate::End { release: false })
        } else if shutdown {
            (ended, ReadGate::End { release: true })
        } else {
            match source {
                SourceAccess::Poisoned => (ended, ReadGate::End { release: false }),
                SourceAccess::Taken => (ended, ReadGate::End { release: true }),
                SourceAccess::Available => (entered, ReadGate::Read),
            }
        }
    }
}

/// What a download does with what the source gave.
pub open spec fn read_of(before: DownloadModel, item: SourceItem) -> (DownloadModel, ReadOutcome) {
    match item {
        SourceItem::Frame { len } => {
            let sent = before.sent + len as nat;
            let full = before.limit matches Some(max) && sent >= max;
            if full {
                (
                    DownloadModel { sent, done: true, rotated: true, ..before },
                    ReadOutcome::EmitAndRotate,
                )
            } else {
                (DownloadModel { sent, ..before }, ReadOutcome::Emit)
            }
        },
        SourceItem::Error => (DownloadModel { done: true, ..before }, ReadOutcome::Fail),
        SourceItem::End => (DownloadModel { done: true, ..before }, ReadOutcome::End),
        SourceItem::Pending => (before, ReadOutcome::Wait),
    }
}

impl DownloadStream {
    /// What the download knows.
    pub closed spec fn model(self) -> DownloadModel {
        DownloadModel {
            waits: self.waits,
            done: self.done,
            rotated: self.rotated,
            sent: self.bytes_sent as nat,
            limit: self.max_download_bytes,
        }
    }

    /// A download; with `waits` it must be let in by the one before.
    pub fn new(waits: bool, max_download_bytes: Option<u64>) -> (r: Self)
        ensures
            r.model() == (DownloadModel {
                waits,
                done: false,
                rotated: false,
                sent: 0,
                limit: max_download_bytes,
            }),
    {
        DownloadStream { waits, done: false, rotated: false, bytes_sent: 0, max_download_bytes }
    }

    /// Decides whether to read the source.
    pub fn gate(&mut self, let_in: bool, shutdown: bool, source: SourceAccess) -> (r: ReadGate)
        ensures
            gate_of(old(self).model(), let_in, shutdown, source) == (final(self).model(), r),
    {
        if self.waits {
            if !let_in {
                return ReadGate::Wait;
            }
            self.waits = false;
        }
        if self.done {
            return ReadGate::End { release: false };
        }
        if shutdown {
            self.done = true;
            return ReadGate::End { release: true };
        }
        match source {
            SourceAccess::Poisoned => {
                self.done = true;
                ReadGate::End { release: false }
            },
            SourceAccess::Taken => {
                self.done = true;
                ReadGate::End { release: true }
            },
            SourceAccess::Available => ReadGate::Read,
        }
    }

    /// Takes what the source gave.
    pub fn on_item(&mut self, item: SourceItem) -> (r: ReadOutcome)
        requires
            item matches SourceItem::Frame { len } ==> old(self).model().sent + len <= u64::MAX,
        ensures
            read_of(old(self).model(), item) == (final(self).model(), r),
    {
        match item {
            SourceItem::Frame { len } => {
                self.bytes_sent = self.bytes_sent + len;
                let full: bool = match self.max_download_bytes {
                    Some(max) => self.bytes_sent >= max,
                    None => false,
                };
                if full {
                    self.done = true;
                    self.rotated = true;
                    ReadOutcome::EmitAndRotate
                } else {
                    ReadOutcome::Emit
                }
            },
            SourceItem::Error => {
                self.done = true;
                ReadOutcome::Fail
            },
            SourceItem::End => {
                self.done = true;
                ReadOutcome::End
            },
            SourceItem::Pending => ReadOutcome::Wait,
        }
    }

    /// What is left to do when the download is dropped.
    pub fn drop_action(&self) -> (r: DropAction)
        ensures
            r == (if self.model().rotated {
                DropAction::Keep
            } else {
                DropAction::TearDown
            }),
    {
        if self.rotated {
            DropAction::Keep
        } else {
            DropAction::TearDown
        }
    }
}

/// Once a download is over it never reads again.
pub proof fn law_done_is_final(
    before: DownloadModel,
    let_in: bool,
    shutdown: bool,
    source: SourceAccess,
)
    requires
        before.done,
    ensures
        gate_of(before, let_in, shutdown, source).0.done,
        gate_of(before, let_in, shutdown, source).1 != ReadGate::Read,
{
}

/// A download that has not been let in leaves the source alone.
pub proof fn law_handoff_first(before: DownloadModel, shutdown: bool, source: SourceAccess)
    requires
        before.waits,
    ensures
        gate_of(before, false, shutdown, source) == (before, ReadGate::Wait),
{
}

} // verus!
