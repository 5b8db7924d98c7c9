//! When payload jobs and flashblocks happen.
use vstd::prelude::*;

verus! {

/// When a payload job and its flashblocks happened, in nanoseconds of a clock that does not go back.
#[derive(Clone, Copy, Debug, PartialEq, Eq)]
pub struct Times {
    /// When the current job started.
    pub job_started: Option<u64>,
    /// When the previous job ended.
    pub job_ended: Option<u64>,
    /// When the first flashblock of the current job was published.
    pub first_block_at: Option<u64>,
    /// When the flashblock before the last one was published.
    pub previous_block_at: Option<u64>,
    /// When the last flashblock was published.
    pub last_block_at: Option<u64>,
}

/// What is measured when a flashblock is published.
#[derive(Clone, Copy, Debug, PartialEq, Eq)]
pub struct BlockIntervals {
    /// Time since the last flashblock of the previous job.
    pub inter_block_interval: Option<u64>,
    /// Time since the current job started.
    pub time_to_first_block: Option<u64>,
    /// Time since the previous flashblock of the current job.
    pub intra_block_interval: Option<u64>,
}

/// Time from `earlier` to `now`, which is zero where the clock has gone back.
pub open spec fn elapsed(now: u64, earlier: Option<u64>) -> Option<u64> {
    match earlier {
        Some(t) => if now >= t {
            Some((now - t) as u64)
        } else {
            Some(0)
        },
        None => None,
    }
}

/// Time from `earlier` to `now`.
fn since(now: u64, earlier: Option<u64>) -> (r: Option<u64>)
    ensures
        r == elapsed(now, earlier),
{
    match earlier {
        Some(t) => if now >= t {
            Some(now - t)
        } else {
            Some(0)
        },
        None => None,
    }
}

impl Times {
    /// Nothing has happened.
    pub fn new() -> (r: Self)
        ensures
            r == (Times {
                job_started: None,
                job_ended: None,
                first_block_at: None,
                previous_block_at: None,
                last_block_at: None,
            }),
    {
        Times {
            job_started: None,
            job_ended: None,
            first_block_at: None,
            previous_block_at: None,
            last_block_at: None,
        }
    }

    /// A job starts. Gives the time since the previous one ended.
    pub fn on_job_started(&mut self, now: u64) -> (inter_jobs_interval: Option<u64>)
        ensures
            *final(self) == (Times { job_started: Some(now), job_ended: None, ..*old(self) }),
            inter_jobs_interval == elapsed(now, old(self).job_ended),
            old(self).job_ended is None ==> inter_jobs_interval is None,
            old(self).job_ended matches Some(t) ==> inter_jobs_interval is Some && (t <= now
                ==> t + inter_jobs_interval->0 == now),
    {
        let interval = since(now, self.job_ended);
        self.job_started = Some(now);
        self.job_ended = None;
        interval
    }

    /// The job ends. Gives the time since the last flashblock was published.
    pub fn on_job_ended(&mut self, now: u64) -> (idle_tail_time: Option<u64>)
        ensures
            *final(self) == (Times {
                job_ended: Some(now),
                job_started: None,
                first_block_at: None,
                previous_block_at: None,
                ..*old(self)
            }),
            idle_tail_time == elapsed(now, old(self).last_block_at),
            old(self).last_block_at is None ==> idle_tail_time is None,
            old(self).last_block_at matches Some(t) ==> idle_tail_time is Some && (t <= now ==> t
                + idle_tail_time->0 == now),
    {
        let idle = since(now, self.last_block_at);
        self.job_ended = Some(now);
        self.job_started = None;
        self.first_block_at = None;
        self.previous_block_at = None;
        idle
    }

    /// Whether publishing a flashblock leads from these times to `after`, and what is measured is
    /// `r`.
    pub open spec fn published(self, after: Times, now: u64, r: BlockIntervals) -> bool {
        &&& after == (Times {
            first_block_at: if self.first_block_at is None {
                Some(now)
            } else {
                self.first_block_at
            },
            previous_block_at: self.last_block_at,
            last_block_at: Some(now),
            ..self
        })
        &&& if self.first_block_at is None {
            r == (BlockIntervals {
                inter_block_interval: elapsed(now, self.last_block_at),
                time_to_first_block: elapsed(now, self.job_started),
                intra_block_interval: None,
            })
        } else {
            r == (BlockIntervals {
                inter_block_interval: None,
                time_to_first_block: None,
                intra_block_interval: elapsed(now, self.last_block_at),
            })
        }
    }

    /// A flashblock is published. For the first one of a job, gives the time since the last one of
    /// the previous job and since the job started, and for others the time since the previous one.
    pub fn on_published_block(&mut self, now: u64) -> (r: BlockIntervals)
        ensures
            old(self).published(*final(self), now, r),
            final(self).last_block_at == Some(now),
            final(self).previous_block_at == old(self).last_block_at,
            final(self).job_started == old(self).job_started,
            final(self).job_ended == old(self).job_ended,
            final(self).first_block_at == if old(self).first_block_at is None {
                Some(now)
            } else {
                old(self).first_block_at
            },
            old(self).first_block_at is Some ==> r.inter_block_interval is None
                && r.time_to_first_block is None,
            old(self).first_block_at is None ==> r.intra_block_interval is None,
            old(self).last_block_at matches Some(t) ==> t <= now ==> {
                &&& old(self).first_block_at is Some ==> r.intra_block_interval == Some(
                    (now - t) as u64,
                )
                &&& old(self).first_block_at is None ==> r.inter_block_interval == Some(
                    (now - t) as u64,
                )
            },
            old(self).last_block_at is None ==> r.inter_block_interval is None
                && r.intra_block_interval is None,
            old(self).job_started matches Some(t) ==> t <= now && old(self).first_block_at is None
                ==> r.time_to_first_block == Some((now - t) as u64),
    {
        let last = self.last_block_at;
        let first = self.first_block_at.is_none();
        let r = if first {
            self.first_block_at = Some(now);
            BlockIntervals {
                inter_block_interval: since(now, last),
                time_to_first_block: since(now, self.job_started),
                intra_block_interval: None,
            }
        } else {
            BlockIntervals {
                inter_block_interval: None,
                time_to_first_block: None,
                intra_block_interval: since(now, last),
            }
        };
        self.last_block_at = Some(now);
        self.previous_block_at = last;
        r
    }
}

/// Time goes by from one moment to another, and from none to any: it adds up where the clock does not
/// go back.
pub proof fn law_time_adds_up(a: u64, b: u64, c: u64)
    requires
        a <= b <= c,
    ensures
        elapsed(b, None) is None,
        elapsed(b, Some(a)) is Some && a + elapsed(b, Some(a))->0 == b,
        elapsed(c, Some(a))->0 == elapsed(b, Some(a))->0 + elapsed(c, Some(b))->0,
        elapsed(a, Some(c)) is Some,
        elapsed(a, Some(c))->0 == 0,
{
}

/// The first flashblock of a job is measured from the start of the job and from the last flashblock of
/// the previous job, and each other one from the one before.
pub proof fn law_measured(before: Times, after: Times, now: u64, r: BlockIntervals)
    requires
        before.published(after, now, r),
    ensures
        after.last_block_at == Some(now),
        after.first_block_at is Some,
        before.first_block_at is None ==> after.first_block_at == Some(now),
        before.first_block_at is Some ==> after.first_block_at == before.first_block_at,
        r.intra_block_interval is Some ==> before.first_block_at is Some,
        r.time_to_first_block is Some ==> before.first_block_at is None,
        r.inter_block_interval is Some ==> before.first_block_at is None,
        before.first_block_at is Some && before.last_block_at is Some ==> {
            &&& r.intra_block_interval is Some
            &&& before.last_block_at->0 <= now ==> before.last_block_at->0
                + r.intra_block_interval->0 == now
        },
        before.first_block_at is None && before.job_started is Some ==> {
            &&& r.time_to_first_block is Some
            &&& before.job_started->0 <= now ==> before.job_started->0 + r.time_to_first_block->0
                == now
        },
        before.first_block_at is None && before.last_block_at is Some ==> {
            &&& r.inter_block_interval is Some
            &&& before.last_block_at->0 <= now ==> before.last_block_at->0
                + r.inter_block_interval->0 == now
        },
{
}

}
