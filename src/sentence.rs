//! Recognised sentence kinds and the values read from them.
use vstd::prelude::*;
use vstd::string::StringSliceAdditionalSpecFns;
use crate::calendar::{chrono_utc_millis, MAX_YEAR, utc_millis, valid_date, valid_time};
use crate::fields::{field, field_at};
use crate::number::{
    all_digits, decimal_field, decimal_magnitude, decimal_ok, decimal_or_zero, decimal_value,
    digits_value, frac_part, int_part, is_digit, pow10, unsigned_field_or, unsigned_or,
    unsigned_part, DOT, MAX_INT_DIGITS, MICRO,
};

verus! {

pub const DOLLAR: u8 = 36;

/// Sentence kinds that the parser reads.
#[derive(Clone, Copy, Debug, PartialEq, Eq, Structural)]
pub enum Kind {
    Zda,
    Gga,
    Vtg,
    Dpt,
    Vwr,
    Other,
}

/// The date and time fields of a ZDA sentence, after defaults and the carry of a
/// minute or second that reads 60 or more.
#[derive(Clone, Copy, Debug, PartialEq, Eq, Structural)]
pub struct ZdaTime {
    pub year: u32,
    pub month: u32,
    pub day: u32,
    pub hour: u32,
    pub minute: u32,
    pub second: u32,
}

/// One coordinate of a fix.
#[derive(Clone, Copy, Debug, PartialEq, Eq, Structural)]
pub struct Coordinate {
    /// Whole degrees, as written.
    pub degrees: i64,
    /// Minutes past the whole degrees, in millionths.
    pub minutes: i64,
    /// Whether the hemisphere field names south (latitude) or west (longitude).
    pub negative: bool,
    /// Signed decimal degrees in millionths; positive is north or east.
    pub micro_degrees: i64,
}

/// A position fix read from a GGA sentence.
#[derive(Clone, Copy, Debug, PartialEq, Eq, Structural)]
pub struct Fix {
    pub latitude: Coordinate,
    pub longitude: Coordinate,
}

/// What one line says. Decimal values are in millionths.
#[derive(Debug)]
pub enum Sentence {
    Zda(ZdaTime),
    Gga(Fix),
    Vtg { course: i64, speed: i64 },
    Dpt { depth: i64 },
    Vwr { angle: i64, side: Vec<u8>, speed: i64 },
    Other,
}

/// Whether `tag` is `$` followed by two talker bytes and the three bytes `a b c`.
pub open spec fn tagged(tag: Seq<u8>, a: u8, b: u8, c: u8) -> bool {
    tag.len() >= 6 && tag[0] == DOLLAR && tag[3] == a && tag[4] == b && tag[5] == c
}

pub open spec fn kind_of(line: Seq<u8>) -> Kind {
    let tag = field(line, 0);
    if tagged(tag, 90, 68, 65) {
        Kind::Zda
    } else if tagged(tag, 71, 71, 65) {
        Kind::Gga
    } else if tagged(tag, 86, 84, 71) {
        Kind::Vtg
    } else if tagged(tag, 68, 80, 84) {
        Kind::Dpt
    } else if tagged(tag, 86, 87, 82) {
        Kind::Vwr
    } else {
        Kind::Other
    }
}

/// The two-digit number at `i` of a time field, or 0.
pub open spec fn pair_or_zero(f: Seq<u8>, i: int) -> int {
    if f.len() >= i + 2 {
        unsigned_or(f.subrange(i, i + 2), 0)
    } else {
        0
    }
}

pub open spec fn zda_of(line: Seq<u8>) -> ZdaTime {
    let t = field(line, 1);
    let h0 = pair_or_zero(t, 0);
    let m0 = pair_or_zero(t, 2);
    let s0 = pair_or_zero(t, 4);
    let m1 = if s0 >= 60 { m0 + 1 } else { m0 };
    let s1 = if s0 >= 60 { 0 } else { s0 };
    let h2 = if m1 >= 60 { h0 + 1 } else { h0 };
    let m2 = if m1 >= 60 { 0 } else { m1 };
    ZdaTime {
        year: unsigned_or(field(line, 4), 1970) as u32,
        month: unsigned_or(field(line, 3), 1) as u32,
        day: unsigned_or(field(line, 2), 1) as u32,
        hour: h2 as u32,
        minute: m2 as u32,
        second: s1 as u32,
    }
}

/// Whether the fields of `z` name an instant.
pub open spec fn zda_valid(z: ZdaTime) -> bool {
    valid_date(z.year as int, z.month as int, z.day as int) && valid_time(
        z.hour as int,
        z.minute as int,
        z.second as int,
    )
}

/// The instant that `z` names in milliseconds since 1970, or `fallback` where it names none.
pub open spec fn zda_millis(z: ZdaTime, fallback: int) -> int {
    if zda_valid(z) {
        utc_millis(
            z.year as int,
            z.month as int,
            z.day as int,
            z.hour as int,
            z.minute as int,
            z.second as int,
        )
    } else {
        fallback
    }
}

/// Coordinate from a `[d]ddmm.mmmm` field and its hemisphere field.
pub open spec fn coordinate_of(value: Seq<u8>, hemisphere: Seq<u8>, negative_letter: u8) -> Coordinate {
    let raw = if decimal_or_zero(value) >= 0 { decimal_or_zero(value) } else { 0 };
    let degrees = raw / (100 * MICRO);
    let minutes = raw % (100 * MICRO);
    let negative = hemisphere.contains(negative_letter);
    let magnitude = degrees * MICRO + minutes / 60;
    Coordinate {
        degrees: degrees as i64,
        minutes: minutes as i64,
        negative,
        micro_degrees: (if negative { -magnitude } else { magnitude }) as i64,
    }
}

pub open spec fn fix_of(line: Seq<u8>) -> Fix {
    Fix {
        latitude: coordinate_of(field(line, 2), field(line, 3), 83),
        longitude: coordinate_of(field(line, 4), field(line, 5), 87),
    }
}

/// Any GGA sentence whose position reads `4937.8509,N,12401.4384,W` is at
/// 49.630848 degrees north and 124.023973 degrees west.
pub proof fn lemma_fix_example(line: Seq<u8>)
    requires
        field(line, 2) == seq![52u8, 57, 51, 55, 46, 56, 53, 48, 57],
        field(line, 3) == seq![78u8],
        field(line, 4) == seq![49u8, 50, 52, 48, 49, 46, 52, 51, 56, 52],
        field(line, 5) == seq![87u8],
    ensures
        fix_of(line).latitude.micro_degrees == 49630848,
        fix_of(line).longitude.micro_degrees == -124023973,
{
    let lat_int = seq![52u8, 57, 51, 55];
    let lat_frac = seq![56u8, 53, 48, 57];
    let lon_int = seq![49u8, 50, 52, 48, 49];
    let lon_frac = seq![52u8, 51, 56, 52];
    assert(field(line, 2) =~= lat_int + seq![DOT] + lat_frac);
    assert(field(line, 4) =~= lon_int + seq![DOT] + lon_frac);
    lemma_decimal_parts(lat_int, lat_frac);
    lemma_decimal_parts(lon_int, lon_frac);
    lemma_digits_push(seq![52u8], 57);
    lemma_digits_push(seq![52u8, 57], 51);
    lemma_digits_push(seq![52u8, 57, 51], 55);
    lemma_digits_push(seq![56u8], 53);
    lemma_digits_push(seq![56u8, 53], 48);
    lemma_digits_push(seq![56u8, 53, 48], 57);
    lemma_digits_push(seq![49u8], 50);
    lemma_digits_push(seq![49u8, 50], 52);
    lemma_digits_push(seq![49u8, 50, 52], 48);
    lemma_digits_push(seq![49u8, 50, 52, 48], 49);
    lemma_digits_push(seq![52u8], 51);
    lemma_digits_push(seq![52u8, 51], 56);
    lemma_digits_push(seq![52u8, 51, 56], 52);
    lemma_digits_push(Seq::empty(), 52);
    lemma_digits_push(Seq::empty(), 56);
    lemma_digits_push(Seq::empty(), 49);
    assert(Seq::<u8>::empty().push(52) =~= seq![52u8]);
    assert(Seq::<u8>::empty().push(56) =~= seq![56u8]);
    assert(Seq::<u8>::empty().push(49) =~= seq![49u8]);
    assert(seq![52u8].push(57) =~= seq![52u8, 57]);
    assert(seq![52u8, 57].push(51) =~= seq![52u8, 57, 51]);
    assert(seq![52u8, 57, 51].push(55) =~= lat_int);
    assert(seq![56u8].push(53) =~= seq![56u8, 53]);
    assert(seq![56u8, 53].push(48) =~= seq![56u8, 53, 48]);
    assert(seq![56u8, 53, 48].push(57) =~= lat_frac);
    assert(seq![49u8].push(50) =~= seq![49u8, 50]);
    assert(seq![49u8, 50].push(52) =~= seq![49u8, 50, 52]);
    assert(seq![49u8, 50, 52].push(48) =~= seq![49u8, 50, 52, 48]);
    assert(seq![49u8, 50, 52, 48].push(49) =~= lon_int);
    assert(seq![52u8].push(51) =~= seq![52u8, 51]);
    assert(seq![52u8, 51].push(56) =~= seq![52u8, 51, 56]);
    assert(seq![52u8, 51, 56].push(52) =~= lon_frac);
    assert(digits_value(Seq::<u8>::empty()) == 0);
    assert(digits_value(lat_int) == 4937);
    assert(digits_value(lat_frac) == 8509);
    assert(digits_value(lon_int) == 12401);
    assert(digits_value(lon_frac) == 4384);
    assert(lat_frac.take(4) =~= lat_frac);
    assert(lon_frac.take(4) =~= lon_frac);
    assert(pow10(2) == 100) by {
        reveal_with_fuel(pow10, 3);
    }
    assert(!seq![78u8].contains(83u8)) by {
        assert(seq![78u8][0] != 83u8);
    }
    assert(seq![87u8][0] == 87u8);
    let lat = lat_int + seq![DOT] + lat_frac;
    let lon = lon_int + seq![DOT] + lon_frac;
    assert(crate::number::kept_places(lat) == 4);
    assert(crate::number::kept_places(lon) == 4);
    assert(decimal_magnitude(lat) == 4937 * 1000000 + 8509 * 100);
    assert(decimal_magnitude(lon) == 12401 * 1000000 + 4384 * 100);
    assert(decimal_or_zero(field(line, 2)) == 4937850900);
    assert(decimal_or_zero(field(line, 4)) == 12401438400);
    assert(4937850900int / 100000000 == 49);
    assert(4937850900int % 100000000 == 37850900);
    assert(12401438400int / 100000000 == 124);
    assert(12401438400int % 100000000 == 1438400);
}

proof fn lemma_digits_push(s: Seq<u8>, x: u8)
    ensures
        digits_value(s.push(x)) == digits_value(s) * 10 + (x - 48) as nat,
{
    assert(s.push(x).drop_last() =~= s);
}

/// The parts of `ip`, a dot, then `fp`, where both are digits and `ip` is not empty.
proof fn lemma_decimal_parts(ip: Seq<u8>, fp: Seq<u8>)
    requires
        all_digits(ip),
        all_digits(fp),
        0 < ip.len() <= MAX_INT_DIGITS,
    ensures
        int_part(ip + seq![DOT] + fp) == ip,
        frac_part(ip + seq![DOT] + fp) == fp,
        decimal_ok(ip + seq![DOT] + fp),
        decimal_value(ip + seq![DOT] + fp) == decimal_magnitude(ip + seq![DOT] + fp),
{
    let s = ip + seq![DOT] + fp;
    assert(is_digit(ip[0]));
    assert(s[0] == ip[0]);
    assert(unsigned_part(s) == s);
    assert forall|k: int| 0 <= k < ip.len() implies s[k] != DOT by {
        assert(s[k] == ip[k]);
        assert(is_digit(ip[k]));
    }
    crate::fields::lemma_first_of_at(s, DOT, ip.len() as int);
    assert(s.take(ip.len() as int) =~= ip);
    assert(s.skip(ip.len() as int + 1) =~= fp);
}

/// Whether the byte `b` occurs in `s`.
pub fn has_byte(s: &[u8], b: u8) -> (r: bool)
    ensures
        r == s@.contains(b),
{
    let mut i: usize = 0;
    while i < s.len()
        invariant
            i <= s@.len(),
            forall|k: int| 0 <= k < i ==> s@[k] != b,
        decreases s@.len() - i,
    {
        if s[i] == b {
            assert(s@[i as int] == b);
            return true;
        }
        i = i + 1;
    }
    false
}

/// A vector that holds the bytes of `s`.
pub fn copy_bytes(s: &[u8]) -> (r: Vec<u8>)
    ensures
        r@ == s@,
{
    let mut r: Vec<u8> = Vec::new();
    let mut i: usize = 0;
    while i < s.len()
        invariant
            i <= s@.len(),
            r@ == s@.take(i as int),
        decreases s@.len() - i,
    {
        r.push(s[i]);
        i = i + 1;
        assert(r@ =~= s@.take(i as int));
    }
    assert(s@.take(i as int) =~= s@);
    r
}

fn is_tagged(tag: &[u8], a: u8, b: u8, c: u8) -> (r: bool)
    ensures
        r == tagged(tag@, a, b, c),
{
    tag.len() >= 6 && tag[0] == DOLLAR && tag[3] == a && tag[4] == b && tag[5] == c
}

/// The kind of sentence that `line` is.
pub fn kind(line: &[u8]) -> (r: Kind)
    ensures
        r == kind_of(line@),
{
    let tag = field_at(line, 0);
    if is_tagged(tag, 90, 68, 65) {
        Kind::Zda
    } else if is_tagged(tag, 71, 71, 65) {
        Kind::Gga
    } else if is_tagged(tag, 86, 84, 71) {
        Kind::Vtg
    } else if is_tagged(tag, 68, 80, 84) {
        Kind::Dpt
    } else if is_tagged(tag, 86, 87, 82) {
        Kind::Vwr
    } else {
        Kind::Other
    }
}

fn pair_at(f: &[u8], i: usize) -> (r: u32)
    requires
        i <= 4,
    ensures
        r == pair_or_zero(f@, i as int),
        r < 100,
{
    if f.len() >= i + 2 {
        let r = unsigned_field_or(vstd::slice::slice_subrange(f, i, i + 2), 0);
        proof {
            let p = f@.subrange(i as int, i + 2);
            if crate::number::unsigned_ok(p) {
                crate::number::lemma_digits_value_bound(p);
                assert(crate::number::pow10(2) == 100) by {
                    reveal_with_fuel(crate::number::pow10, 3);
                }
            }
        }
        r
    } else {
        0
    }
}

/// The date and time fields of the ZDA sentence `line`.
pub fn read_zda(line: &[u8]) -> (r: ZdaTime)
    ensures
        r == zda_of(line@),
{
    let t = field_at(line, 1);
    let h0 = pair_at(t, 0);
    let mut m = pair_at(t, 2);
    let mut s = pair_at(t, 4);
    let mut h = h0;
    if s >= 60 {
        s = 0;
        m = m + 1;
    }
    if m >= 60 {
        m = 0;
        h = h + 1;
    }
    ZdaTime {
        year: unsigned_field_or(field_at(line, 4), 1970),
        month: unsigned_field_or(field_at(line, 3), 1),
        day: unsigned_field_or(field_at(line, 2), 1),
        hour: h,
        minute: m,
        second: s,
    }
}

impl ZdaTime {
    /// Milliseconds since 1970-01-01 00:00:00 UTC, or `fallback` where the fields name no instant.
    pub fn millis_or(&self, fallback: i64) -> (r: i64)
        ensures
            r == zda_millis(*self, fallback as int),
    {
        if self.year > MAX_YEAR as u32 {
            return fallback;
        }
        match chrono_utc_millis(self.year as i32, self.month, self.day, self.hour, self.minute, self.second) {
            Some(t) => t,
            None => fallback,
        }
    }
}

fn read_coordinate(value: &[u8], hemisphere: &[u8], negative_letter: u8) -> (r: Coordinate)
    ensures
        r == coordinate_of(value@, hemisphere@, negative_letter),
{
    let v = decimal_field(value);
    let raw: i64 = if v >= 0 { v } else { 0 };
    proof {
        crate::number::lemma_decimal_bound(value@);
    }
    let degrees = raw / (100 * MICRO);
    let minutes = raw % (100 * MICRO);
    let negative = has_byte(hemisphere, negative_letter);
    let magnitude = degrees * MICRO + minutes / 60;
    Coordinate {
        degrees,
        minutes,
        negative,
        micro_degrees: if negative { -magnitude } else { magnitude },
    }
}

/// The position fix of the GGA sentence `line`.
pub fn read_fix(line: &[u8]) -> (r: Fix)
    ensures
        r == fix_of(line@),
{
    Fix {
        latitude: read_coordinate(field_at(line, 2), field_at(line, 3), 83),
        longitude: read_coordinate(field_at(line, 4), field_at(line, 5), 87),
    }
}

/// Reads `line` as one of the recognised sentence kinds. Fields that are missing or
/// not numbers read as their defaults; a line of another kind reads as `Other`.
pub fn parse_sentence(line: &str) -> (r: Sentence)
    ensures
        ({
            let l = line.spec_bytes();
            match r {
                Sentence::Zda(z) => kind_of(l) == Kind::Zda && z == zda_of(l),
                Sentence::Gga(f) => kind_of(l) == Kind::Gga && f == fix_of(l),
                Sentence::Vtg { course, speed } => kind_of(l) == Kind::Vtg && course
                    == decimal_or_zero(field(l, 1)) && speed == decimal_or_zero(field(l, 5)),
                Sentence::Dpt { depth } => kind_of(l) == Kind::Dpt && depth == decimal_or_zero(
                    field(l, 1),
                ) + decimal_or_zero(field(l, 2)),
                Sentence::Vwr { angle, side, speed } => kind_of(l) == Kind::Vwr && angle
                    == decimal_or_zero(field(l, 1)) && side@ == field(l, 2) && speed
                    == decimal_or_zero(field(l, 3)),
                Sentence::Other => kind_of(l) == Kind::Other,
            }
        }),
{
    let b = line.as_bytes();
    match kind(b) {
        Kind::Zda => Sentence::Zda(read_zda(b)),
        Kind::Gga => Sentence::Gga(read_fix(b)),
        Kind::Vtg => Sentence::Vtg { course: decimal_field(field_at(b, 1)), speed: decimal_field(field_at(b, 5)) },
        Kind::Dpt => {
            let d = decimal_field(field_at(b, 1));
            let o = decimal_field(field_at(b, 2));
            proof {
                crate::number::lemma_decimal_bound(field(b@, 1));
                crate::number::lemma_decimal_bound(field(b@, 2));
            }
            Sentence::Dpt { depth: d + o }
        },
        Kind::Vwr => {
            let side = copy_bytes(field_at(b, 2));
            Sentence::Vwr {
                angle: decimal_field(field_at(b, 1)),
                side,
                speed: decimal_field(field_at(b, 3)),
            }
        },
        Kind::Other => Sentence::Other,
    }
}

} // verus!
