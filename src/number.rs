//! Numbers read from sentence fields.
//!
//! Decimal fields are read as fixed-point integers in millionths. A field
//! that is not a number reads as a default value, never as an error.
use vstd::prelude::*;
use vstd::slice::slice_subrange;
use crate::fields::{first_of, find_byte};

verus! {

pub const DOT: u8 = 46;

pub const MINUS: u8 = 45;

pub const PLUS: u8 = 43;

/// Digits kept after the decimal point.
pub const PLACES: usize = 6;

/// One unit in millionths.
pub const MICRO: i64 = 1000000;

/// Longest integer part that a decimal field may have.
pub const MAX_INT_DIGITS: usize = 9;

pub open spec fn is_digit(b: u8) -> bool {
    48 <= b <= 57
}

pub open spec fn all_digits(s: Seq<u8>) -> bool {
    forall|i: int| 0 <= i < s.len() ==> is_digit(#[trigger] s[i])
}

pub open spec fn pow10(n: nat) -> nat
    decreases n,
{
    if n == 0 {
        1
    } else {
        10 * pow10((n - 1) as nat)
    }
}

/// The number that a run of decimal digits spells.
pub open spec fn digits_value(s: Seq<u8>) -> nat
    decreases s.len(),
{
    if s.len() == 0 {
        0
    } else {
        digits_value(s.drop_last()) * 10 + (s.last() - 48) as nat
    }
}

/// `s` without a leading sign.
pub open spec fn unsigned_part(s: Seq<u8>) -> Seq<u8> {
    if s.len() > 0 && (s[0] == MINUS || s[0] == PLUS) {
        s.drop_first()
    } else {
        s
    }
}

pub open spec fn int_part(s: Seq<u8>) -> Seq<u8> {
    let u = unsigned_part(s);
    u.take(first_of(u, DOT) as int)
}

pub open spec fn frac_part(s: Seq<u8>) -> Seq<u8> {
    let u = unsigned_part(s);
    let d = first_of(u, DOT);
    if d < u.len() {
        u.skip(d as int + 1)
    } else {
        Seq::empty()
    }
}

/// `[sign] digits [. digits]`, with at least one digit and a short integer part.
pub open spec fn decimal_ok(s: Seq<u8>) -> bool {
    &&& all_digits(int_part(s))
    &&& all_digits(frac_part(s))
    &&& int_part(s).len() <= MAX_INT_DIGITS
    &&& int_part(s).len() + frac_part(s).len() > 0
}

pub open spec fn kept_places(s: Seq<u8>) -> nat {
    if frac_part(s).len() < PLACES {
        frac_part(s).len()
    } else {
        PLACES as nat
    }
}

/// Value of a decimal field in millionths, without its sign; further places are dropped.
pub open spec fn decimal_magnitude(s: Seq<u8>) -> int {
    digits_value(int_part(s)) * MICRO + digits_value(frac_part(s).take(kept_places(s) as int))
        * pow10((PLACES - kept_places(s)) as nat)
}

pub open spec fn decimal_value(s: Seq<u8>) -> int {
    if s.len() > 0 && s[0] == MINUS {
        -decimal_magnitude(s)
    } else {
        decimal_magnitude(s)
    }
}

/// Value of a decimal field in millionths, or 0 where it is not a number.
pub open spec fn decimal_or_zero(s: Seq<u8>) -> int {
    if decimal_ok(s) {
        decimal_value(s)
    } else {
        0
    }
}

/// Value of an unsigned integer field of one to nine digits.
pub open spec fn unsigned_ok(s: Seq<u8>) -> bool {
    all_digits(s) && 0 < s.len() <= MAX_INT_DIGITS
}

pub open spec fn unsigned_or(s: Seq<u8>, default: int) -> int {
    if unsigned_ok(s) {
        digits_value(s) as int
    } else {
        default
    }
}

pub proof fn lemma_digits_value_bound(s: Seq<u8>)
    requires
        all_digits(s),
    ensures
        digits_value(s) < pow10(s.len()),
    decreases s.len(),
{
    if s.len() > 0 {
        lemma_digits_value_bound(s.drop_last());
    }
}

proof fn lemma_pow10_values()
    ensures
        pow10(0) == 1,
        pow10(1) == 10,
        pow10(2) == 100,
        pow10(3) == 1000,
        pow10(4) == 10000,
        pow10(5) == 100000,
        pow10(6) == 1000000,
        pow10(7) == 10000000,
        pow10(8) == 100000000,
        pow10(9) == 1000000000,
{
    reveal_with_fuel(pow10, 10);
}

/// Value of `s` where it holds digits only and at most nine of them.
fn parse_digits(s: &[u8]) -> (r: Option<u64>)
    ensures
        r.is_some() == (all_digits(s@) && s@.len() <= MAX_INT_DIGITS),
        r matches Some(v) ==> v == digits_value(s@),
{
    if s.len() > MAX_INT_DIGITS {
        return None;
    }
    let mut acc: u64 = 0;
    let mut i: usize = 0;
    while i < s.len()
        invariant
            i <= s@.len() <= MAX_INT_DIGITS,
            all_digits(s@.take(i as int)),
            acc == digits_value(s@.take(i as int)),
        decreases s@.len() - i,
    {
        let b = s[i];
        if b < 48 || b > 57 {
            assert(!is_digit(s@[i as int]));
            return None;
        }
        proof {
            assert(s@.take(i + 1).drop_last() =~= s@.take(i as int));
            lemma_digits_value_bound(s@.take(i as int));
            lemma_pow10_values();
            assert(pow10(i as nat) <= 100000000) by {
                lemma_pow10_monotone(i as nat, 8);
            }
        }
        acc = acc * 10 + (b - 48) as u64;
        i = i + 1;
        assert(all_digits(s@.take(i as int))) by {
            assert forall|k: int| 0 <= k < i implies is_digit(#[trigger] s@.take(i as int)[k]) by {
                if k < i - 1 {
                    assert(s@.take(i as int)[k] == s@.take(i - 1)[k]);
                }
            }
        }
    }
    assert(s@.take(i as int) =~= s@);
    Some(acc)
}

/// Whether `s` holds decimal digits only.
fn digits_only(s: &[u8]) -> (r: bool)
    ensures
        r == all_digits(s@),
{
    let mut i: usize = 0;
    while i < s.len()
        invariant
            i <= s@.len(),
            forall|k: int| 0 <= k < i ==> is_digit(#[trigger] s@[k]),
        decreases s@.len() - i,
    {
        if s[i] < 48 || s[i] > 57 {
            return false;
        }
        i = i + 1;
    }
    true
}

proof fn lemma_pow10_monotone(a: nat, b: nat)
    requires
        a <= b,
    ensures
        pow10(a) <= pow10(b),
    decreases b,
{
    if a < b {
        lemma_pow10_monotone(a, (b - 1) as nat);
    }
}

/// Value of an unsigned integer field, or `default` where it is not one.
pub fn unsigned_field_or(s: &[u8], default: u32) -> (r: u32)
    ensures
        r == unsigned_or(s@, default as int),
{
    if s.len() == 0 {
        return default;
    }
    match parse_digits(s) {
        Some(v) => {
            proof {
                lemma_digits_value_bound(s@);
                lemma_pow10_values();
                lemma_pow10_monotone(s@.len(), 9);
            }
            v as u32
        },
        None => default,
    }
}

/// Value of a decimal field in millionths, where it is one.
pub fn parse_decimal(s: &[u8]) -> (r: Option<i64>)
    ensures
        r.is_some() == decimal_ok(s@),
        r matches Some(v) ==> v == decimal_value(s@),
{
    let negative = s.len() > 0 && s[0] == MINUS;
    let u: &[u8] = if s.len() > 0 && (s[0] == MINUS || s[0] == PLUS) {
        slice_subrange(s, 1, s.len())
    } else {
        s
    };
    assert(u@ == unsigned_part(s@));
    let d = find_byte(u, DOT);
    let ip = slice_subrange(u, 0, d);
    let fp: &[u8] = if d < u.len() {
        slice_subrange(u, d + 1, u.len())
    } else {
        slice_subrange(u, 0, 0)
    };
    assert(ip@ =~= int_part(s@));
    assert(fp@ =~= frac_part(s@));
    if ip.len() + fp.len() == 0 {
        return None;
    }
    let int_value = match parse_digits(ip) {
        Some(v) => v,
        None => return None,
    };
    let kept: usize = if fp.len() < PLACES { fp.len() } else { PLACES };
    let head = slice_subrange(fp, 0, kept);
    let tail = slice_subrange(fp, kept, fp.len());
    let head_value = match parse_digits(head) {
        Some(v) => v,
        None => {
            assert(!all_digits(fp@)) by {
                let k = choose|k: int| 0 <= k < head@.len() && !is_digit(#[trigger] head@[k]);
                assert(fp@[k] == head@[k]);
            }
            return None;
        },
    };
    if !digits_only(tail) {
        assert(!all_digits(fp@)) by {
            let k = choose|k: int| 0 <= k < tail@.len() && !is_digit(#[trigger] tail@[k]);
            assert(fp@[kept + k] == tail@[k]);
        }
        return None;
    }
    assert(all_digits(fp@)) by {
        assert forall|k: int| 0 <= k < fp@.len() implies is_digit(#[trigger] fp@[k]) by {
            if k < kept {
                assert(fp@[k] == head@[k]);
            } else {
                assert(fp@[k] == tail@[k - kept]);
            }
        }
    }
    let mut frac: u64 = head_value;
    let mut places: usize = kept;
    proof {
        lemma_digits_value_bound(head@);
        lemma_digits_value_bound(ip@);
        lemma_pow10_values();
        lemma_pow10_monotone(ip@.len(), 9);
        lemma_pow10_monotone(kept as nat, 6);
        assert(((places - kept) as nat) == 0);
        assert(digits_value(head@) * pow10(0) == digits_value(head@));
    }
    while places < PLACES
        invariant
            kept <= places <= PLACES,
            frac == digits_value(head@) * pow10((places - kept) as nat),
            frac < pow10(places as nat),
        decreases PLACES - places,
    {
        proof {
            lemma_pow10_values();
            lemma_pow10_monotone(places as nat, 5);
        }
        frac = frac * 10;
        places = places + 1;
        proof {
            assert(pow10((places - kept) as nat) == 10 * pow10((places - 1 - kept) as nat));
            assert(frac == digits_value(head@) * pow10((places - kept) as nat)) by (nonlinear_arith)
                requires
                    frac == (digits_value(head@) * pow10((places - 1 - kept) as nat)) * 10,
                    pow10((places - kept) as nat) == 10 * pow10((places - 1 - kept) as nat),
            {}
        }
    }
    assert(head@ =~= frac_part(s@).take(kept_places(s@) as int));
    let magnitude: i64 = (int_value as i64) * MICRO + frac as i64;
    if negative {
        Some(-magnitude)
    } else {
        Some(magnitude)
    }
}

/// A decimal field is less than 10^15 millionths in magnitude.
pub proof fn lemma_decimal_bound(s: Seq<u8>)
    ensures
        -1000000000000000 < decimal_or_zero(s) < 1000000000000000,
{
    if decimal_ok(s) {
        let k = kept_places(s);
        let f = frac_part(s).take(k as int);
        assert(all_digits(f)) by {
            assert forall|i: int| 0 <= i < f.len() implies is_digit(#[trigger] f[i]) by {
                assert(f[i] == frac_part(s)[i]);
            }
        }
        lemma_digits_value_bound(int_part(s));
        lemma_digits_value_bound(f);
        lemma_pow10_values();
        lemma_pow10_monotone(int_part(s).len(), 9);
        lemma_pow10_monotone(0, (PLACES - k) as nat);
        lemma_pow10_add(k, (PLACES - k) as nat);
        let p = pow10((PLACES - k) as nat);
        let dv = digits_value(f);
        assert(dv * p < pow10(k) * p) by (nonlinear_arith)
            requires
                dv < pow10(k),
                p >= 1,
        {}
        assert(k + (PLACES - k) == 6);
    }
}

proof fn lemma_pow10_add(a: nat, b: nat)
    ensures
        pow10(a) * pow10(b) == pow10(a + b),
    decreases a,
{
    if a > 0 {
        lemma_pow10_add((a - 1) as nat, b);
        assert(pow10(a + b) == 10 * pow10((a + b - 1) as nat));
        assert(((a - 1) + b) as nat == (a + b - 1) as nat);
        let x = pow10((a - 1) as nat);
        let y = pow10(b);
        assert(pow10(a) == 10 * x);
        assert((10 * x) * y == 10 * (x * y)) by (nonlinear_arith);
    } else {
        assert(pow10(a) == 1);
        assert(a + b == b);
    }
}

/// Value of a decimal field in millionths, or 0 where it is not a number.
pub fn decimal_field(s: &[u8]) -> (r: i64)
    ensures
        r == decimal_or_zero(s@),
{
    match parse_decimal(s) {
        Some(v) => v,
        None => 0,
    }
}

} // verus!
