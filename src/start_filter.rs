//! Skipping the part of a log before a chosen time of day.
use vstd::prelude::*;
use vstd::string::StringSliceAdditionalSpecFns;
use crate::number::{all_digits, digits_value, is_digit};
use crate::sentence::{kind, kind_of, read_zda, zda_of, Kind, ZdaTime};

verus! {

pub const COLON: u8 = 58;

/// The two-digit number at `i` of `s`.
pub open spec fn pair_value(s: Seq<u8>, i: int) -> int {
    digits_value(s.subrange(i, i + 2)) as int
}

/// `hh:mm:ss` with an optional fraction `.s...`, naming a time before 24:00:00.
pub open spec fn time_of_day_ok(s: Seq<u8>) -> bool {
    &&& s.len() >= 8
    &&& is_digit(s[0]) && is_digit(s[1]) && s[2] == COLON
    &&& is_digit(s[3]) && is_digit(s[4]) && s[5] == COLON
    &&& is_digit(s[6]) && is_digit(s[7])
    &&& s.len() == 8 || (s[8] == crate::number::DOT && all_digits(s.skip(9)))
    &&& pair_value(s, 0) < 24 && pair_value(s, 3) < 60 && pair_value(s, 6) < 60
}

/// Seconds since midnight of an `hh:mm:ss` text.
pub open spec fn time_of_day_value(s: Seq<u8>) -> int {
    pair_value(s, 0) * 3600 + pair_value(s, 3) * 60 + pair_value(s, 6)
}

/// Seconds since midnight of the time fields of a ZDA sentence.
pub open spec fn zda_seconds(z: ZdaTime) -> int {
    z.hour * 3600 + z.minute * 60 + z.second
}

fn digit(b: u8) -> (r: bool)
    ensures
        r == is_digit(b),
{
    48 <= b && b <= 57
}

fn pair(s: &[u8], i: usize) -> (r: u32)
    requires
        i + 2 <= s@.len(),
        is_digit(s@[i as int]),
        is_digit(s@[i + 1]),
    ensures
        r == pair_value(s@, i as int),
        r < 100,
{
    let r = (s[i] - 48) as u32 * 10 + (s[i + 1] - 48) as u32;
    proof {
        let p = s@.subrange(i as int, i + 2);
        assert(p.drop_last().drop_last() =~= Seq::<u8>::empty());
        assert(p.drop_last() =~= seq![s@[i as int]]);
        assert(digits_value(Seq::<u8>::empty()) == 0);
        assert(digits_value(p.drop_last()) == (s@[i as int] - 48) as nat);
    }
    r
}

/// Seconds since midnight named by `hh:mm:ss[.ss]`, where the text names a time of day.
pub fn parse_time_of_day(text: &str) -> (r: Option<u32>)
    ensures
        r.is_some() == time_of_day_ok(text.spec_bytes()),
        r matches Some(v) ==> v == time_of_day_value(text.spec_bytes()),
{
    let s = text.as_bytes();
    if s.len() < 8 {
        return None;
    }
    if !(digit(s[0]) && digit(s[1]) && s[2] == COLON && digit(s[3]) && digit(s[4]) && s[5] == COLON
        && digit(s[6]) && digit(s[7])) {
        return None;
    }
    if s.len() > 8 {
        if s[8] != crate::number::DOT {
            return None;
        }
        let mut i: usize = 9;
        while i < s.len()
            invariant
                s@ == text.spec_bytes(),
                9 <= i <= s@.len(),
                forall|k: int| 9 <= k < i ==> is_digit(#[trigger] s@[k]),
            decreases s@.len() - i,
        {
            if !digit(s[i]) {
                assert(s@.skip(9)[i - 9] == s@[i as int]);
                assert(!is_digit(s@.skip(9)[i - 9]));
                assert(!all_digits(s@.skip(9)));
                return None;
            }
            i = i + 1;
        }
        assert forall|k: int| 0 <= k < s@.skip(9).len() implies is_digit(#[trigger] s@.skip(9)[k]) by {
            assert(s@.skip(9)[k] == s@[k + 9]);
        }
    }
    let h = pair(s, 0);
    let m = pair(s, 3);
    let sec = pair(s, 6);
    if h >= 24 || m >= 60 || sec >= 60 {
        return None;
    }
    Some(h * 3600 + m * 60 + sec)
}

/// Holds back the lines of a log until a ZDA sentence at or after `start` seconds
/// past midnight; with `start` zero nothing is held back.
#[derive(Clone, Copy, Debug, PartialEq, Eq, Structural)]
pub struct StartFilter {
    pub start: u32,
    /// Whether the start has been reached.
    pub open: bool,
}

impl StartFilter {
    pub fn new(start: u32) -> (r: StartFilter)
        ensures
            r.start == start,
            r.open == (start == 0),
    {
        StartFilter { start, open: start == 0 }
    }

    /// Whether `line` is to be replayed: it is from the first ZDA sentence at or after
    /// the start on.
    pub fn admits(&mut self, line: &str) -> (r: bool)
        ensures
            final(self).start == old(self).start,
            final(self).open == (old(self).open || (kind_of(line.spec_bytes()) == Kind::Zda
                && zda_seconds(zda_of(line.spec_bytes())) >= old(self).start)),
            r == final(self).open,
    {
        if !self.open {
            let b = line.as_bytes();
            if kind(b) == Kind::Zda {
                let z = read_zda(b);
                if z.hour as u64 * 3600 + z.minute as u64 * 60 + z.second as u64 >= self.start as u64 {
                    self.open = true;
                }
            }
        }
        self.open
    }
}

} // verus!
