//! One turn of the replay loop: read a line, update the navigation state and
//! the clock, and say how long to wait before the line goes out.
use vstd::prelude::*;
use vstd::string::StringSliceAdditionalSpecFns;
use crate::fields::field;
use crate::navigation::NavState;
use crate::number::decimal_or_zero;
use crate::pacing::{fresh_clock, drift_pause, line_pause, observed, PlaybackClock};
use crate::sentence::{copy_bytes, fix_of, kind_of, parse_sentence, zda_millis, zda_of, Kind, Sentence};

verus! {

/// The two waits of one line: the drift correction, then the line's own transmission time.
#[derive(Clone, Copy, Debug, PartialEq, Eq, Structural)]
pub struct Pause {
    pub drift_ms: u64,
    pub line_ms: u64,
}

#[derive(Debug)]
pub struct Replay {
    pub nav: NavState,
    pub clock: PlaybackClock,
}

/// The clock after `line` was read at wall clock time `now`.
pub open spec fn clock_after(c: PlaybackClock, line: Seq<u8>, now: i64) -> PlaybackClock {
    if kind_of(line) == Kind::Zda {
        observed(c, zda_millis(zda_of(line), now as int) as i64, now)
    } else {
        c
    }
}

/// The waits of `line`, read at wall clock time `now` by a clock in state `c`.
pub open spec fn pause_of(c: PlaybackClock, line: Seq<u8>, now: i64) -> Pause {
    let after = clock_after(c, line, now);
    Pause {
        drift_ms: (if kind_of(line) == Kind::Zda {
            drift_pause(after.drift as int)
        } else {
            0
        }) as u64,
        line_ms: line_pause(after, line.len() as int) as u64,
    }
}

/// The clock after each pair `(line, now)` of `lines` was read in turn.
pub open spec fn clock_after_lines(c: PlaybackClock, lines: Seq<(Seq<u8>, i64)>) -> PlaybackClock
    decreases lines.len(),
{
    if lines.len() == 0 {
        c
    } else {
        clock_after(clock_after_lines(c, lines.drop_last()), lines.last().0, lines.last().1)
    }
}

/// A log without ZDA sentences never synchronises the clock: no line waits for drift,
/// and each waits its transmission time only, which is finite.
pub proof fn lemma_no_time_stamps(lines: Seq<(Seq<u8>, i64)>)
    requires
        forall|i: int| 0 <= i < lines.len() ==> kind_of(#[trigger] lines[i].0) != Kind::Zda,
    ensures
        clock_after_lines(fresh_clock(), lines) == fresh_clock(),
        forall|i: int|
            0 <= i < lines.len() ==> {
                let p = #[trigger] pause_of(clock_after_lines(fresh_clock(), lines.take(i)), lines[i].0, lines[i].1);
                &&& p.drift_ms == 0
                &&& p.line_ms == line_pause(fresh_clock(), lines[i].0.len() as int)
                &&& p.line_ms <= u64::MAX
            },
    decreases lines.len(),
{
    if lines.len() > 0 {
        let init = lines.drop_last();
        assert forall|i: int| 0 <= i < init.len() implies kind_of(#[trigger] init[i].0) != Kind::Zda by {
            assert(init[i] == lines[i]);
        }
        lemma_no_time_stamps(init);
        assert forall|i: int| 0 <= i < lines.len() implies {
            let p = #[trigger] pause_of(clock_after_lines(fresh_clock(), lines.take(i)), lines[i].0, lines[i].1);
            &&& p.drift_ms == 0
            &&& p.line_ms == line_pause(fresh_clock(), lines[i].0.len() as int)
            &&& p.line_ms <= u64::MAX
        } by {
            if i < init.len() {
                assert(lines.take(i) =~= init.take(i));
                assert(init[i] == lines[i]);
            } else {
                assert(lines.take(i) =~= init);
            }
        }
    }
}

/// The datagram that carries `line`: its bytes followed by CR LF.
pub fn datagram(line: &str) -> (r: Vec<u8>)
    ensures
        r@ == line.spec_bytes() + seq![13u8, 10u8],
{
    let mut r = copy_bytes(line.as_bytes());
    r.push(13);
    r.push(10);
    assert(r@ =~= line.spec_bytes() + seq![13u8, 10u8]);
    r
}

impl Replay {
    pub fn new() -> (r: Replay)
        ensures
            r.nav.fix is None,
            r.nav.course is None,
            r.nav.speed is None,
            r.nav.depth is None,
            r.nav.wind is None,
            r.clock == fresh_clock(),
    {
        Replay { nav: NavState::new(), clock: PlaybackClock::new() }
    }

    /// Reads `line` at wall clock time `now`. A ZDA sentence whose date or time is
    /// not valid counts as the time stamp `now`.
    pub fn step(&mut self, line: &str, now: i64) -> (r: Pause)
        ensures
            final(self).clock == clock_after(old(self).clock, line.spec_bytes(), now),
            r == pause_of(old(self).clock, line.spec_bytes(), now),
            if kind_of(line.spec_bytes()) == Kind::Gga {
                final(self).nav.fix == Some(fix_of(line.spec_bytes()))
            } else {
                final(self).nav.fix == old(self).nav.fix
            },
            if kind_of(line.spec_bytes()) == Kind::Vtg {
                final(self).nav.course == Some(decimal_or_zero(field(line.spec_bytes(), 1)) as i64)
                    && final(self).nav.speed == Some(
                    decimal_or_zero(field(line.spec_bytes(), 5)) as i64,
                )
            } else {
                final(self).nav.course == old(self).nav.course && final(self).nav.speed == old(
                    self,
                ).nav.speed
            },
            if kind_of(line.spec_bytes()) == Kind::Dpt {
                final(self).nav.depth == Some(
                    (decimal_or_zero(field(line.spec_bytes(), 1)) + decimal_or_zero(
                        field(line.spec_bytes(), 2),
                    )) as i64,
                )
            } else {
                final(self).nav.depth == old(self).nav.depth
            },
            if kind_of(line.spec_bytes()) == Kind::Vwr {
                final(self).nav.wind matches Some(w) && w.angle == decimal_or_zero(
                    field(line.spec_bytes(), 1),
                ) && w.side@ == field(line.spec_bytes(), 2) && w.speed == decimal_or_zero(
                    field(line.spec_bytes(), 3),
                )
            } else {
                final(self).nav.wind == old(self).nav.wind
            },
    {
        let s = parse_sentence(line);
        let drift_ms: u64 = match &s {
            Sentence::Zda(z) => {
                let t = z.millis_or(now);
                self.clock.observe(t, now)
            },
            _ => 0,
        };
        self.nav.apply(s);
        let line_ms = self.clock.line_pause(line.as_bytes().len());
        Pause { drift_ms, line_ms }
    }
}

} // verus!
