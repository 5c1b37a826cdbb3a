//! Decisions of the upload coordinator: how many connections, the adaptive
//! parallelism window, and each worker's share of the bandwidth.
use vstd::prelude::*;
use crate::frame::CompressionMode;

verus! {

/// Most connections an upload may open.
pub const MAX_PARALLEL_CONNECTIONS: usize = 10;

/// A stall longer than this narrows the window.
pub const STALL_MS: u64 = 2000;

/// Progress more recent than this counts as a good tick.
pub const GOOD_MS: u64 = 500;

/// Consecutive good ticks that widen the window.
pub const GOOD_TICKS_TO_WIDEN: u8 = 6;

/// Safety margin added to the space an upload needs on the target.
pub const FREE_SPACE_MARGIN: u64 = 67108864;

/// The adaptive "allowed parallelism" window over `max` workers.
pub struct AdaptiveController {
    allowed: usize,
    max: usize,
    good_streak: u8,
}

impl AdaptiveController {
    pub closed spec fn spec_allowed(&self) -> nat {
        self.allowed as nat
    }

    pub closed spec fn spec_max(&self) -> nat {
        self.max as nat
    }

    pub closed spec fn spec_streak(&self) -> nat {
        self.good_streak as nat
    }

    /// The window stays within `[1, max]`, and the streak below the widening count.
    pub closed spec fn wf(&self) -> bool {
        &&& 1 <= self.allowed <= self.max
        &&& self.good_streak < GOOD_TICKS_TO_WIDEN
    }

    /// A window over `max` workers, fully open.
    pub fn new(max: usize) -> (r: Self)
        requires
            max >= 1,
        ensures
            r.wf(),
            r.spec_allowed() == max,
            r.spec_max() == max,
            r.spec_streak() == 0,
    {
        AdaptiveController { allowed: max, max, good_streak: 0 }
    }

    pub fn allowed(&self) -> (r: usize)
        ensures
            r == self.spec_allowed(),
    {
        self.allowed
    }

    /// One timer tick. `since_progress_ms` is the time since the last progress
    /// report, or `None` while no worker has reported any.
    pub fn tick(&mut self, since_progress_ms: Option<u64>)
        requires
            old(self).wf(),
        ensures
            final(self).wf(),
            final(self).spec_max() == old(self).spec_max(),
            1 <= final(self).spec_allowed() <= final(self).spec_max(),
            match since_progress_ms {
                None => *final(self) == *old(self),
                Some(since) => if since > STALL_MS {
                    &&& final(self).spec_allowed() == if old(self).spec_allowed() > 1 { old(self).spec_allowed() - 1 } else { 1 }
                    &&& final(self).spec_streak() == 0
                } else if since < GOOD_MS {
                    if old(self).spec_streak() + 1 >= GOOD_TICKS_TO_WIDEN {
                        &&& final(self).spec_allowed() == if old(self).spec_allowed() < old(self).spec_max() { old(self).spec_allowed() + 1 } else { old(self).spec_max() }
                        &&& final(self).spec_streak() == 0
                    } else {
                        &&& final(self).spec_allowed() == old(self).spec_allowed()
                        &&& final(self).spec_streak() == old(self).spec_streak() + 1
                    }
                } else {
                    &&& final(self).spec_allowed() == old(self).spec_allowed()
                    &&& final(self).spec_streak() == 0
                },
            },
    {
        match since_progress_ms {
            None => {},
            Some(since) => {
                if since > STALL_MS {
                    if self.allowed > 1 {
                        self.allowed = self.allowed - 1;
                    }
                    self.good_streak = 0;
                } else if since < GOOD_MS {
                    self.good_streak = self.good_streak + 1;
                    if self.good_streak >= GOOD_TICKS_TO_WIDEN {
                        if self.allowed < self.max {
                            self.allowed = self.allowed + 1;
                        }
                        self.good_streak = 0;
                    }
                } else {
                    self.good_streak = 0;
                }
            },
        }
    }
}

/// Time since the last progress report, from the upload's elapsed time and the
/// elapsed time of that report (0 while there has been none).
pub fn since_progress(elapsed_ms: u64, last_progress_ms: u64) -> (r: Option<u64>)
    ensures
        last_progress_ms == 0 ==> r is None,
        last_progress_ms > 0 ==> r == Some(if elapsed_ms >= last_progress_ms { (elapsed_ms - last_progress_ms) as u64 } else { 0u64 }),
{
    if last_progress_ms == 0 {
        None
    } else if elapsed_ms >= last_progress_ms {
        Some(elapsed_ms - last_progress_ms)
    } else {
        Some(0)
    }
}

/// The admission gate: a worker may send while its id is inside the window.
pub fn may_send(worker_id: usize, allowed: usize) -> (r: bool)
    ensures
        r == (worker_id < allowed),
{
    worker_id < allowed
}

/// The requested connection count, clamped to `[1, 10]`.
pub fn clamp_connections(requested: usize) -> (r: usize)
    ensures
        1 <= r <= MAX_PARALLEL_CONNECTIONS,
        1 <= requested <= MAX_PARALLEL_CONNECTIONS ==> r == requested,
        requested == 0 ==> r == 1,
        requested > MAX_PARALLEL_CONNECTIONS ==> r == MAX_PARALLEL_CONNECTIONS,
{
    if requested < 1 {
        1
    } else if requested > MAX_PARALLEL_CONNECTIONS {
        MAX_PARALLEL_CONNECTIONS
    } else {
        requested
    }
}

/// Fewer files than connections leaves one connection per file (at least one).
pub fn connections_for_files(connections: usize, file_count: usize) -> (r: usize)
    ensures
        file_count < connections ==> r == if file_count == 0 { 1 } else { file_count },
        file_count >= connections ==> r == connections,
{
    if file_count < connections {
        if file_count == 0 { 1 } else { file_count }
    } else {
        connections
    }
}

/// Each worker's share of an aggregate limit in bytes per second; `None` when
/// the limit is 0 (unlimited). A share is never below 1.
pub fn per_worker_limit(total_bps: u64, workers: usize) -> (r: Option<u64>)
    requires
        workers >= 1,
    ensures
        total_bps == 0 ==> r is None,
        total_bps > 0 ==> r == Some(if total_bps as int / workers as int >= 1 { (total_bps as int / workers as int) as u64 } else { 1u64 }),
{
    if total_bps == 0 {
        None
    } else {
        let share = total_bps / workers as u64;
        if share >= 1 { Some(share) } else { Some(1) }
    }
}

/// Temp staging is kept only for single-connection uploads.
pub fn effective_use_temp(use_temp: bool, connections: usize) -> (r: bool)
    ensures
        r == (use_temp && connections <= 1),
{
    use_temp && connections <= 1
}

/// Zstd and LZMA need a remote that supports them; otherwise LZ4 stands in.
pub fn downgrade_compression(mode: CompressionMode, remote_supports_modern: bool) -> (r: CompressionMode)
    ensures
        (mode == CompressionMode::Zstd || mode == CompressionMode::Lzma) && !remote_supports_modern ==> r == CompressionMode::Lz4,
        !((mode == CompressionMode::Zstd || mode == CompressionMode::Lzma) && !remote_supports_modern) ==> r == mode,
{
    match mode {
        CompressionMode::Zstd | CompressionMode::Lzma => {
            if remote_supports_modern { mode } else { CompressionMode::Lz4 }
        },
        _ => mode,
    }
}

/// Whether the target has room for `required` bytes plus the safety margin
/// (the sum saturates at `u64::MAX`).
pub fn has_enough_space(free_bytes: u64, required: u64) -> (r: bool)
    ensures
        r == (free_bytes as int >= if required as int + FREE_SPACE_MARGIN as int > u64::MAX as int { u64::MAX as int } else { required as int + FREE_SPACE_MARGIN as int }),
{
    let needed = required.saturating_add(FREE_SPACE_MARGIN);
    free_bytes >= needed
}

/// The settings an upload runs with, once its inputs are known.
#[derive(Debug, Clone, Copy, PartialEq, Eq, Structural)]
pub struct UploadPlan {
    pub connections: usize,
    pub use_temp: bool,
    pub compression: CompressionMode,
    pub rate_limit_bps: Option<u64>,
}

/// Decides how an upload of `file_count` files runs: the requested connections
/// clamped to `[1, 10]` and cut down to one per file; temp staging only on a
/// single connection; Zstd and LZMA only where the remote supports them; and the
/// bandwidth limit (bytes per second, 0 for none) shared among the connections.
pub fn plan_upload(
    requested_connections: usize,
    file_count: usize,
    use_temp: bool,
    compression: CompressionMode,
    remote_supports_modern: bool,
    bandwidth_limit_bps: u64,
) -> (r: UploadPlan)
    ensures
        1 <= r.connections <= MAX_PARALLEL_CONNECTIONS,
        file_count >= 1 ==> r.connections <= file_count,
        ({
            let c = if requested_connections < 1 { 1 } else if requested_connections > MAX_PARALLEL_CONNECTIONS { MAX_PARALLEL_CONNECTIONS as int } else { requested_connections as int };
            r.connections == if file_count < c { if file_count == 0 { 1 } else { file_count as int } } else { c }
        }),
        r.use_temp == (use_temp && r.connections <= 1),
        (compression == CompressionMode::Zstd || compression == CompressionMode::Lzma) && !remote_supports_modern ==> r.compression == CompressionMode::Lz4,
        !((compression == CompressionMode::Zstd || compression == CompressionMode::Lzma) && !remote_supports_modern) ==> r.compression == compression,
        bandwidth_limit_bps == 0 ==> r.rate_limit_bps is None,
        bandwidth_limit_bps > 0 ==> r.rate_limit_bps == Some(
            if bandwidth_limit_bps as int / r.connections as int >= 1 { (bandwidth_limit_bps as int / r.connections as int) as u64 } else { 1u64 }),
{
    let connections = connections_for_files(clamp_connections(requested_connections), file_count);
    UploadPlan {
        connections,
        use_temp: effective_use_temp(use_temp, connections),
        compression: downgrade_compression(compression, remote_supports_modern),
        rate_limit_bps: per_worker_limit(bandwidth_limit_bps, connections),
    }
}

/// A per-worker bandwidth limiter: it counts bytes sent and says how long to
/// sleep so that the average rate stays at the limit.
pub struct RateLimiter {
    limit_bps: Option<u64>,
    sent: u64,
}

/// Milliseconds that sending `sent` bytes takes at `limit` bytes per second, rounded down.
pub open spec fn due_ms(sent: nat, limit: nat) -> int {
    (sent * 1000) as int / limit as int
}

impl RateLimiter {
    pub closed spec fn spec_limit(&self) -> Option<u64> {
        self.limit_bps
    }

    pub closed spec fn spec_sent(&self) -> nat {
        self.sent as nat
    }

    /// A limiter with nothing sent yet.
    pub fn new(limit_bps: Option<u64>) -> (r: Self)
        ensures
            r.spec_limit() == limit_bps,
            r.spec_sent() == 0,
    {
        RateLimiter { limit_bps, sent: 0 }
    }

    /// Counts `bytes` more as sent, `elapsed_ms` after the limiter started, and
    /// returns how many milliseconds to sleep: the lag of the clock behind the
    /// time the bytes are due, at most 500. Without a limit nothing is counted.
    pub fn throttle(&mut self, bytes: u64, elapsed_ms: u64) -> (r: u64)
        ensures
            final(self).spec_limit() == old(self).spec_limit(),
            r <= 500,
            match old(self).spec_limit() {
                Some(limit) if limit > 0 => {
                    let sent = if old(self).spec_sent() + bytes > u64::MAX { u64::MAX as nat } else { (old(self).spec_sent() + bytes) as nat };
                    &&& final(self).spec_sent() == sent
                    &&& elapsed_ms == 0 ==> r == 0
                    &&& elapsed_ms > 0 ==> r == if due_ms(sent, limit as nat) > elapsed_ms {
                        if due_ms(sent, limit as nat) - elapsed_ms < 500 { due_ms(sent, limit as nat) - elapsed_ms } else { 500 }
                    } else {
                        0
                    }
                },
                _ => r == 0 && final(self).spec_sent() == old(self).spec_sent(),
            },
    {
        match self.limit_bps {
            None => 0,
            Some(limit) => {
                if limit == 0 {
                    return 0;
                }
                self.sent = self.sent.saturating_add(bytes);
                if elapsed_ms == 0 {
                    return 0;
                }
                assert((self.sent as int) * 1000 <= 340282366920938463463374607431768211455) by (nonlinear_arith)
                    requires
                        self.sent <= 18446744073709551615,
                ;
                let due: u128 = (self.sent as u128 * 1000) / limit as u128;
                if due > elapsed_ms as u128 {
                    let lag = due - elapsed_ms as u128;
                    if lag < 500 { lag as u64 } else { 500 }
                } else {
                    0
                }
            },
        }
    }
}

/// Whenever the limiter asks for less than its cap, sleeping that long brings the
/// clock up to the time the bytes sent so far are due: the average rate since the
/// start does not exceed the limit.
pub proof fn lemma_rate_bound(sent: nat, limit: nat, elapsed_ms: nat, sleep_ms: int)
    requires
        limit > 0,
        elapsed_ms > 0,
        sleep_ms == if due_ms(sent, limit) > elapsed_ms {
            if due_ms(sent, limit) - elapsed_ms < 500 { due_ms(sent, limit) - elapsed_ms } else { 500 }
        } else {
            0
        },
        sleep_ms < 500,
    ensures
        sent * 1000 < limit * (elapsed_ms + sleep_ms + 1),
{
    let d = due_ms(sent, limit);
    assert(d >= elapsed_ms + sleep_ms ==> d == elapsed_ms + sleep_ms);
    assert(d <= elapsed_ms + sleep_ms);
    assert(sent * 1000 < limit * (d + 1)) by (nonlinear_arith)
        requires
            d == (sent * 1000) as int / limit as int,
            limit > 0,
    ;
    assert(limit * (d + 1) <= limit * (elapsed_ms + sleep_ms + 1)) by (nonlinear_arith)
        requires
            d <= elapsed_ms + sleep_ms,
            limit > 0,
    ;
}

} // verus!
