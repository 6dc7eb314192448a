//! Protection against slow senders: reads under an idle deadline between
//! bytes and a deadline for the whole read.
//!
//! The functions here decide how long each read may wait and what its
//! outcome means; the caller performs the reads and measures the time.

use crate::engine::http::ReadError;
use core::time::Duration;
use vstd::prelude::*;

verus! {

/// A reader together with the idle deadline that applies to its reads.
#[derive(Debug)]
pub struct TimeoutReader<R> {
    inner: R,
    idle_timeout: Duration,
}

impl<R> TimeoutReader<R> {
    /// The reader that is wrapped.
    pub closed spec fn inner(self) -> R {
        self.inner
    }

    /// The longest time allowed between two reads that give data.
    pub closed spec fn timeout(self) -> Duration {
        self.idle_timeout
    }

    /// Wraps `inner` with the idle deadline `idle_timeout`.
    pub fn new(inner: R, idle_timeout: Duration) -> (reader: Self)
        ensures
            reader.inner() == inner,
            reader.timeout() == idle_timeout,
    {
        Self { inner, idle_timeout }
    }

    /// The idle deadline of the reader.
    pub fn idle_timeout(&self) -> (d: Duration)
        ensures
            d == self.timeout(),
    {
        self.idle_timeout
    }

    /// Gives the wrapped reader back.
    pub fn into_inner(self) -> (inner: R)
        ensures
            inner == self.inner(),
    {
        self.inner
    }
}

/// What a read under deadlines does next.
#[derive(Debug, Clone, Copy, PartialEq, Eq, Structural)]
pub enum IdleReadPlan {
    /// Read into the buffer from `offset` on, waiting at most `timeout_ms`.
    Read { offset: usize, timeout_ms: u64 },
    /// The buffer is full: the read is complete with this many bytes.
    Done(usize),
    /// The deadline for the whole read has passed.
    TimedOut,
}

/// Outcome of one read of the underlying reader.
#[derive(Debug, Clone, Copy, PartialEq, Eq, Structural)]
pub enum ChunkOutcome {
    /// This many bytes arrived.
    Bytes(usize),
    /// The input ended.
    Eof,
    /// Nothing arrived within the time allowed.
    TimedOut,
    /// The transport reported an error.
    Failed,
}

/// Progress of a read under deadlines.
#[derive(Debug, Clone, Copy, PartialEq, Eq, Structural)]
pub struct IdleRead {
    /// Size of the buffer to fill.
    pub capacity: usize,
    /// Bytes read so far.
    pub total_read: usize,
    /// Longest wait for a single read (ms).
    pub idle_timeout_ms: u64,
    /// Longest duration of the whole read (ms).
    pub total_timeout_ms: u64,
}

/// Where a read under deadlines stands after one read of the reader.
#[derive(Debug, Clone, Copy, PartialEq, Eq, Structural)]
pub enum IdleReadStep {
    /// More is to be read.
    Continue(IdleRead),
    /// The read ended with this many bytes in the buffer.
    Finished(usize),
    /// The read failed.
    Failed(ReadError),
}

/// The time that the next read may wait: the idle deadline, or what is
/// left of the whole deadline when that is less.
pub open spec fn effective_timeout(idle_timeout_ms: u64, total_timeout_ms: u64, elapsed_ms: u64) -> u64
    recommends
        elapsed_ms < total_timeout_ms,
{
    if idle_timeout_ms <= total_timeout_ms - elapsed_ms {
        idle_timeout_ms
    } else {
        (total_timeout_ms - elapsed_ms) as u64
    }
}

/// The deadline that ends a wait.
#[derive(Debug, Clone, Copy, PartialEq, Eq, Structural)]
pub enum Expiry {
    /// The idle deadline between two bytes.
    Idle,
    /// The deadline for the whole read.
    Total,
}

/// How long a read may wait, and which deadline it is that then passes.
#[derive(Debug, Clone, Copy, PartialEq, Eq, Structural)]
pub struct Wait {
    pub timeout_ms: u64,
    pub expiry: Expiry,
}

/// The wait of a read that begins `elapsed_ms` into its series: none when
/// the whole deadline has passed; otherwise the idle deadline, unless less
/// is left of the whole deadline.
pub open spec fn wait_spec(idle_timeout_ms: u64, total_timeout_ms: u64, elapsed_ms: u64) -> Option<
    Wait,
> {
    if elapsed_ms >= total_timeout_ms {
        None
    } else if idle_timeout_ms <= total_timeout_ms - elapsed_ms {
        Some(Wait { timeout_ms: idle_timeout_ms, expiry: Expiry::Idle })
    } else {
        Some(Wait { timeout_ms: (total_timeout_ms - elapsed_ms) as u64, expiry: Expiry::Total })
    }
}

/// The wait of a read that begins `elapsed_ms` into its series.
pub fn next_wait(idle_timeout_ms: u64, total_timeout_ms: u64, elapsed_ms: u64) -> (wait: Option<
    Wait,
>)
    ensures
        wait == wait_spec(idle_timeout_ms, total_timeout_ms, elapsed_ms),
        wait matches Some(w) ==> w.timeout_ms == effective_timeout(
            idle_timeout_ms,
            total_timeout_ms,
            elapsed_ms,
        ) && elapsed_ms + w.timeout_ms <= total_timeout_ms,
{
    if elapsed_ms >= total_timeout_ms {
        None
    } else {
        let remaining = total_timeout_ms - elapsed_ms;
        if idle_timeout_ms <= remaining {
            Some(Wait { timeout_ms: idle_timeout_ms, expiry: Expiry::Idle })
        } else {
            Some(Wait { timeout_ms: remaining, expiry: Expiry::Total })
        }
    }
}

/// What a read does next, `elapsed_ms` after it began: nothing when the
/// buffer is full, give up when the whole deadline has passed, and
/// otherwise read for at most the effective timeout.
pub open spec fn plan_spec(read: IdleRead, elapsed_ms: u64) -> IdleReadPlan {
    if read.total_read >= read.capacity {
        IdleReadPlan::Done(read.total_read)
    } else if elapsed_ms >= read.total_timeout_ms {
        IdleReadPlan::TimedOut
    } else {
        IdleReadPlan::Read {
            offset: read.total_read,
            timeout_ms: effective_timeout(read.idle_timeout_ms, read.total_timeout_ms, elapsed_ms),
        }
    }
}

/// What the outcome of one read of the reader does to the whole read. The
/// end of input ends it with what was read; a reader that claims more
/// bytes than the buffer has room for is taken to have failed.
pub open spec fn chunk_spec(read: IdleRead, outcome: ChunkOutcome) -> IdleReadStep {
    match outcome {
        ChunkOutcome::Bytes(n) => if n == 0 {
            IdleReadStep::Finished(read.total_read)
        } else if read.total_read <= read.capacity && n <= read.capacity - read.total_read {
            IdleReadStep::Continue(
                IdleRead {
                    capacity: read.capacity,
                    total_read: (read.total_read + n) as usize,
                    idle_timeout_ms: read.idle_timeout_ms,
                    total_timeout_ms: read.total_timeout_ms,
                },
            )
        } else {
            IdleReadStep::Failed(ReadError::Other)
        },
        ChunkOutcome::Eof => IdleReadStep::Finished(read.total_read),
        ChunkOutcome::TimedOut => IdleReadStep::Failed(ReadError::TimedOut),
        ChunkOutcome::Failed => IdleReadStep::Failed(ReadError::Other),
    }
}

impl IdleRead {
    /// A read that is to fill a buffer of `capacity` bytes.
    pub fn new(capacity: usize, idle_timeout_ms: u64, total_timeout_ms: u64) -> (read: IdleRead)
        ensures
            read == (IdleRead { capacity, total_read: 0, idle_timeout_ms, total_timeout_ms }),
    {
        IdleRead { capacity, total_read: 0, idle_timeout_ms, total_timeout_ms }
    }

    /// What to do next, `elapsed_ms` after the read began.
    pub fn plan(&self, elapsed_ms: u64) -> (plan: IdleReadPlan)
        ensures
            plan == plan_spec(*self, elapsed_ms),
            plan matches IdleReadPlan::Read { offset, timeout_ms } ==> offset < self.capacity
                && timeout_ms <= self.idle_timeout_ms && elapsed_ms + timeout_ms
                <= self.total_timeout_ms,
    {
        if self.total_read >= self.capacity {
            IdleReadPlan::Done(self.total_read)
        } else {
            match next_wait(self.idle_timeout_ms, self.total_timeout_ms, elapsed_ms) {
                None => IdleReadPlan::TimedOut,
                Some(wait) => IdleReadPlan::Read {
                    offset: self.total_read,
                    timeout_ms: wait.timeout_ms,
                },
            }
        }
    }

    /// Takes the outcome of the read that was planned.
    pub fn on_chunk(self, outcome: ChunkOutcome) -> (step: IdleReadStep)
        ensures
            step == chunk_spec(self, outcome),
    {
        match outcome {
            ChunkOutcome::Bytes(n) => {
                if n == 0 {
                    IdleReadStep::Finished(self.total_read)
                } else if self.total_read <= self.capacity && n <= self.capacity
                    - self.total_read {
                    IdleReadStep::Continue(
                        IdleRead {
                            capacity: self.capacity,
                            total_read: self.total_read + n,
                            idle_timeout_ms: self.idle_timeout_ms,
                            total_timeout_ms: self.total_timeout_ms,
                        },
                    )
                } else {
                    IdleReadStep::Failed(ReadError::Other)
                }
            },
            ChunkOutcome::Eof => IdleReadStep::Finished(self.total_read),
            ChunkOutcome::TimedOut => IdleReadStep::Failed(ReadError::TimedOut),
            ChunkOutcome::Failed => IdleReadStep::Failed(ReadError::Other),
        }
    }
}

} // verus!
