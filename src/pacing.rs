//! Pacing of a replay against the time stamps in the log.
//!
//! The clock latches the first time stamp of the log together with the wall
//! clock time at which it was seen. Every later time stamp gives the drift:
//! how far the log has run ahead of the wall clock since then. Times are in
//! milliseconds.
use vstd::prelude::*;

verus! {

/// Bytes per second of the serial link whose pace a line delay imitates (4800 baud).
pub const BYTES_PER_SECOND: u64 = 600;

#[derive(Clone, Copy, Debug, PartialEq, Eq, Structural)]
pub struct PlaybackClock {
    /// Whether a time stamp has been seen.
    pub synced: bool,
    /// The first time stamp of the log.
    pub file_start: i64,
    /// Wall clock time at which `file_start` was seen.
    pub local_start: i64,
    /// The latest time stamp of the log.
    pub file_time: i64,
    /// Log time elapsed minus wall clock time elapsed, as of the latest time stamp.
    pub drift: i128,
}

/// A clock that has seen no time stamp; its times hold the epoch as a placeholder.
pub open spec fn fresh_clock() -> PlaybackClock {
    PlaybackClock { synced: false, file_start: 0, local_start: 0, file_time: 0, drift: 0 }
}

/// The clock after the time stamp `t` was seen at wall clock time `now`.
pub open spec fn observed(c: PlaybackClock, t: i64, now: i64) -> PlaybackClock {
    let fs = if c.synced { c.file_start } else { t };
    let ls = if c.synced { c.local_start } else { now };
    PlaybackClock {
        synced: true,
        file_start: fs,
        local_start: ls,
        file_time: t,
        drift: ((t - fs) - (now - ls)) as i128,
    }
}

/// Milliseconds to wait for a drift: none when the replay is behind or on time.
pub open spec fn drift_pause(drift: int) -> int {
    if drift <= 0 {
        0
    } else if drift > u64::MAX {
        u64::MAX as int
    } else {
        drift
    }
}

/// Milliseconds that `len` bytes take on the serial link.
pub open spec fn transmit_ms(len: int) -> int {
    len * 1000 / BYTES_PER_SECOND as int
}

/// Milliseconds to wait after a line of `len` bytes: none while the replay is behind.
pub open spec fn line_pause(c: PlaybackClock, len: int) -> int {
    if c.synced && c.drift <= 0 {
        0
    } else if transmit_ms(len) > u64::MAX {
        u64::MAX as int
    } else {
        transmit_ms(len)
    }
}

/// The clock after each pair `(t, now)` of `stamps` was observed in turn.
pub open spec fn run_clock(c: PlaybackClock, stamps: Seq<(i64, i64)>) -> PlaybackClock
    decreases stamps.len(),
{
    if stamps.len() == 0 {
        c
    } else {
        observed(run_clock(c, stamps.drop_last()), stamps.last().0, stamps.last().1)
    }
}

/// From the first time stamp on, the clock is synchronised, and the start of the log
/// and its wall clock time are those of the first stamp, whatever stamps follow.
pub proof fn lemma_start_latched(stamps: Seq<(i64, i64)>)
    requires
        stamps.len() > 0,
    ensures
        run_clock(fresh_clock(), stamps).synced,
        run_clock(fresh_clock(), stamps).file_start == stamps[0].0,
        run_clock(fresh_clock(), stamps).local_start == stamps[0].1,
    decreases stamps.len(),
{
    if stamps.len() > 1 {
        lemma_start_latched(stamps.drop_last());
        assert(stamps.drop_last()[0] == stamps[0]);
    } else {
        assert(stamps.drop_last().len() == 0);
        assert(stamps.last() == stamps[0]);
        assert(run_clock(fresh_clock(), stamps.drop_last()) == fresh_clock());
    }
}

/// Right at synchronisation the drift is zero, and no wait follows.
pub proof fn lemma_no_drift_at_sync(c: PlaybackClock, t: i64, now: i64)
    requires
        !c.synced,
    ensures
        observed(c, t, now).drift == 0,
        drift_pause(observed(c, t, now).drift as int) == 0,
{
}

/// The drift is zero whenever the log time and the wall clock have moved by the same amount.
pub proof fn lemma_no_drift_in_step(c: PlaybackClock, t: i64, now: i64)
    requires
        c.synced,
        t - c.file_start == now - c.local_start,
    ensures
        observed(c, t, now).drift == 0,
{
}

impl PlaybackClock {
    /// A clock that has seen no time stamp.
    pub fn new() -> (r: PlaybackClock)
        ensures
            r == fresh_clock(),
    {
        PlaybackClock { synced: false, file_start: 0, local_start: 0, file_time: 0, drift: 0 }
    }

    /// Takes the time stamp `t`, seen at wall clock time `now`, and returns how long
    /// to wait before going on.
    pub fn observe(&mut self, t: i64, now: i64) -> (r: u64)
        ensures
            *final(self) == observed(*old(self), t, now),
            r == drift_pause(final(self).drift as int),
    {
        if !self.synced {
            self.synced = true;
            self.file_start = t;
            self.local_start = now;
        }
        self.file_time = t;
        let file_elapsed: i128 = t as i128 - self.file_start as i128;
        let wall_elapsed: i128 = now as i128 - self.local_start as i128;
        self.drift = file_elapsed - wall_elapsed;
        if self.drift <= 0 {
            0
        } else if self.drift > u64::MAX as i128 {
            u64::MAX
        } else {
            self.drift as u64
        }
    }

    /// How long to wait after sending a line of `len` bytes.
    pub fn line_pause(&self, len: usize) -> (r: u64)
        ensures
            r == line_pause(*self, len as int),
    {
        if self.synced && self.drift <= 0 {
            0
        } else {
            let ms: u128 = len as u128 * 1000 / BYTES_PER_SECOND as u128;
            if ms > u64::MAX as u128 {
                u64::MAX
            } else {
                ms as u64
            }
        }
    }
}

} // verus!
