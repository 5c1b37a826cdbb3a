//! Decisions of the cancellable, retrying socket write: the caller performs each
//! write and reports what happened; these functions say what to do next.
use vstd::prelude::*;

verus! {

/// Longest time without write progress before the write gives up.
pub const WRITE_IDLE_TIMEOUT_MS: u64 = 120000;

/// What one attempt to write returned.
#[derive(Debug, Clone, Copy, PartialEq, Eq, Structural)]
pub enum WriteEvent {
    /// This many bytes were taken.
    Wrote(usize),
    /// Would block, timed out, or was interrupted: try again shortly.
    Transient,
    /// Any other I/O error.
    Failed,
}

/// What to do next.
#[derive(Debug, Clone, Copy, PartialEq, Eq, Structural)]
pub enum WriteStep {
    /// Write `data[offset..]` now.
    Write { offset: usize },
    /// Sleep about a millisecond, then check again from `offset`.
    Wait { offset: usize },
    /// Everything was written.
    Done,
    /// Cancelled: shut the socket down both ways and stop.
    Cancelled,
    /// No progress for too long.
    TimedOut,
    /// The peer closed the connection (a write took nothing).
    Closed,
    /// A fatal I/O error.
    Failed,
}

/// Before an attempt at `offset` of `len` bytes: done, cancelled, timed out, or write.
pub fn before_write(offset: usize, len: usize, cancelled: bool, idle_ms: u64) -> (r: WriteStep)
    ensures
        offset >= len ==> r == WriteStep::Done,
        offset < len && cancelled ==> r == WriteStep::Cancelled,
        offset < len && !cancelled && idle_ms >= WRITE_IDLE_TIMEOUT_MS ==> r == WriteStep::TimedOut,
        offset < len && !cancelled && idle_ms < WRITE_IDLE_TIMEOUT_MS ==> r == (WriteStep::Write { offset }),
{
    if offset >= len {
        WriteStep::Done
    } else if cancelled {
        WriteStep::Cancelled
    } else if idle_ms >= WRITE_IDLE_TIMEOUT_MS {
        WriteStep::TimedOut
    } else {
        WriteStep::Write { offset }
    }
}

/// After an attempt at `offset` of `len` bytes.
pub fn after_write(offset: usize, len: usize, ev: WriteEvent) -> (r: WriteStep)
    requires
        offset < len,
    ensures
        match ev {
            WriteEvent::Wrote(n) => if n == 0 {
                r == WriteStep::Closed
            } else if n >= len - offset {
                r == WriteStep::Done
            } else {
                r == (WriteStep::Write { offset: (offset + n) as usize })
            },
            WriteEvent::Transient => r == (WriteStep::Wait { offset }),
            WriteEvent::Failed => r == WriteStep::Failed,
        },
{
    match ev {
        WriteEvent::Wrote(n) => {
            if n == 0 {
                WriteStep::Closed
            } else if n >= len - offset {
                WriteStep::Done
            } else {
                WriteStep::Write { offset: offset + n }
            }
        },
        WriteEvent::Transient => WriteStep::Wait { offset },
        WriteEvent::Failed => WriteStep::Failed,
    }
}

} // verus!
