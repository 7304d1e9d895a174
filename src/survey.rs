//! A survey of a whole log: its time stamps, the distance between successive
//! fixes, and the places passed, each named once.
//!
//! The great-circle distance of a leg and the name of a place come from
//! outside: the caller measures each leg from `last_point` to the new fix and
//! hands in the result.
use vstd::prelude::*;
use vstd::string::StringSliceAdditionalSpecFns;
use crate::sentence::{fix_of, kind_of, parse_sentence, zda_millis, zda_of, Fix, Kind, Sentence};

verus! {

/// A position in signed millionths of a degree; positive is north and east.
#[derive(Clone, Copy, Debug, PartialEq, Eq, Structural)]
pub struct GeoPoint {
    pub latitude: i64,
    pub longitude: i64,
}

pub open spec fn point_of(f: Fix) -> GeoPoint {
    GeoPoint { latitude: f.latitude.micro_degrees, longitude: f.longitude.micro_degrees }
}

impl Fix {
    /// The position of the fix in decimal degrees.
    pub fn point(&self) -> (r: GeoPoint)
        ensures
            r == point_of(*self),
    {
        GeoPoint { latitude: self.latitude.micro_degrees, longitude: self.longitude.micro_degrees }
    }
}

#[derive(Debug)]
pub struct Survey {
    /// Number of time stamps seen (it stops at `u64::MAX`).
    pub time_stamps: u64,
    pub first_time: Option<i64>,
    pub last_time: Option<i64>,
    pub last_point: Option<GeoPoint>,
    /// Distance travelled in millimetres (it stops at `u64::MAX`).
    pub distance_mm: u64,
    /// Names of the places passed, in the order first met, each once.
    pub places: Vec<String>,
}

pub struct SurveyView {
    pub time_stamps: u64,
    pub first_time: Option<i64>,
    pub last_time: Option<i64>,
    pub last_point: Option<GeoPoint>,
    pub distance_mm: u64,
    pub places: Seq<Seq<char>>,
}

impl View for Survey {
    type V = SurveyView;

    open spec fn view(&self) -> SurveyView {
        SurveyView {
            time_stamps: self.time_stamps,
            first_time: self.first_time,
            last_time: self.last_time,
            last_point: self.last_point,
            distance_mm: self.distance_mm,
            places: self.places@.map_values(|p: String| p@),
        }
    }
}

pub open spec fn fresh_survey() -> SurveyView {
    SurveyView {
        time_stamps: 0,
        first_time: None,
        last_time: None,
        last_point: None,
        distance_mm: 0,
        places: Seq::empty(),
    }
}

pub open spec fn saturated(x: int) -> u64 {
    if x > u64::MAX {
        u64::MAX
    } else {
        x as u64
    }
}

/// The survey after the time stamp `t`.
pub open spec fn after_time(v: SurveyView, t: i64) -> SurveyView {
    SurveyView {
        time_stamps: saturated(v.time_stamps + 1),
        first_time: if v.first_time is Some {
            v.first_time
        } else {
            Some(t)
        },
        last_time: Some(t),
        ..v
    }
}

/// The survey after a fix at `p`, `leg_mm` away from the previous fix. The first fix
/// adds no distance, having none before it.
pub open spec fn after_fix(v: SurveyView, p: GeoPoint, leg_mm: u64) -> SurveyView {
    SurveyView {
        last_point: Some(p),
        distance_mm: if v.last_point is Some {
            saturated(v.distance_mm + leg_mm)
        } else {
            v.distance_mm
        },
        ..v
    }
}

/// The survey after passing the place called `name`.
pub open spec fn after_place(v: SurveyView, name: Seq<char>) -> SurveyView {
    if v.places.contains(name) {
        v
    } else {
        SurveyView { places: v.places.push(name), ..v }
    }
}

/// The survey after reading `line` at wall clock time `now`; only ZDA sentences
/// change it here (a fix is recorded with `record_fix`).
pub open spec fn after_line(v: SurveyView, line: Seq<u8>, now: i64) -> SurveyView {
    if kind_of(line) == Kind::Zda {
        after_time(v, zda_millis(zda_of(line), now as int) as i64)
    } else {
        v
    }
}

/// A distance of `mm` millimetres in tenths of a kilometre, rounded half up.
pub open spec fn km_tenths_of(mm: int) -> int {
    (mm + 50000) / 100000
}

/// A distance of `mm` millimetres in tenths of a nautical mile (0.5399568 per
/// kilometre), rounded half up.
pub open spec fn nm_tenths_of(mm: int) -> int {
    (mm * 5399568 + 500000000000) / 1000000000000
}

/// The distance `mm` in tenths of a kilometre.
pub fn km_tenths(mm: u64) -> (r: u64)
    ensures
        r == km_tenths_of(mm as int),
{
    ((mm as u128 + 50000) / 100000) as u64
}

/// The distance `mm` in tenths of a nautical mile.
pub fn nm_tenths(mm: u64) -> (r: u64)
    ensures
        r == nm_tenths_of(mm as int),
{
    ((mm as u128 * 5399568 + 500000000000) / 1000000000000) as u64
}

/// The survey after each fix `(point, leg)` of `fixes` was recorded in turn.
pub open spec fn after_fixes(v: SurveyView, fixes: Seq<(GeoPoint, u64)>) -> SurveyView
    decreases fixes.len(),
{
    if fixes.len() == 0 {
        v
    } else {
        after_fix(after_fixes(v, fixes.drop_last()), fixes.last().0, fixes.last().1)
    }
}

/// Sum of the legs of all fixes but the first.
pub open spec fn leg_total(fixes: Seq<(GeoPoint, u64)>) -> int
    decreases fixes.len(),
{
    if fixes.len() <= 1 {
        0
    } else {
        leg_total(fixes.drop_last()) + fixes.last().1
    }
}

/// The survey after each place name of `names` was recorded in turn.
pub open spec fn after_places(v: SurveyView, names: Seq<Seq<char>>) -> SurveyView
    decreases names.len(),
{
    if names.len() == 0 {
        v
    } else {
        after_place(after_places(v, names.drop_last()), names.last())
    }
}

/// The survey after each pair `(line, now)` of `lines` was scanned in turn.
pub open spec fn after_lines(v: SurveyView, lines: Seq<(Seq<u8>, i64)>) -> SurveyView
    decreases lines.len(),
{
    if lines.len() == 0 {
        v
    } else {
        after_line(after_lines(v, lines.drop_last()), lines.last().0, lines.last().1)
    }
}

/// From a fresh survey, the distance is the sum of the legs after the first fix, and
/// the first fix alone contributes nothing.
pub proof fn lemma_distance_is_leg_sum(fixes: Seq<(GeoPoint, u64)>)
    requires
        leg_total(fixes) <= u64::MAX,
    ensures
        after_fixes(fresh_survey(), fixes).distance_mm == leg_total(fixes),
        fixes.len() > 0 ==> after_fixes(fresh_survey(), fixes).last_point == Some(fixes.last().0),
    decreases fixes.len(),
{
    if fixes.len() > 0 {
        let init = fixes.drop_last();
        lemma_leg_total_grows(fixes);
        lemma_distance_is_leg_sum(init);
        if init.len() == 0 {
            assert(after_fixes(fresh_survey(), init) == fresh_survey());
        }
    }
}

proof fn lemma_leg_total_grows(fixes: Seq<(GeoPoint, u64)>)
    requires
        fixes.len() > 0,
    ensures
        0 <= leg_total(fixes.drop_last()) <= leg_total(fixes),
    decreases fixes.len(),
{
    if fixes.len() > 1 {
        lemma_leg_total_grows(fixes.drop_last());
    }
}

/// A place met again is not listed again: the list of places never holds a name twice.
pub proof fn lemma_places_unique(v: SurveyView, name: Seq<char>)
    requires
        v.places.no_duplicates(),
    ensures
        after_place(v, name).places.no_duplicates(),
        after_place(v, name).places.contains(name),
        after_place(after_place(v, name), name) == after_place(v, name),
{
    if !v.places.contains(name) {
        let w = v.places.push(name);
        assert(w[w.len() - 1] == name);
        assert forall|i: int, j: int| 0 <= i < w.len() && 0 <= j < w.len() && i != j implies w[i]
            != w[j] by {
            if i < v.places.len() && j < v.places.len() {
                assert(w[i] == v.places[i] && w[j] == v.places[j]);
            } else if i < v.places.len() {
                assert(w[i] == v.places[i]);
            } else if j < v.places.len() {
                assert(w[j] == v.places[j]);
            }
        }
    }
}

/// Recording the same sequence of place names a second time changes nothing.
pub proof fn lemma_places_idempotent(v: SurveyView, names: Seq<Seq<char>>)
    ensures
        after_places(after_places(v, names), names) == after_places(v, names),
{
    lemma_places_contained(v, names);
    lemma_places_absorbed(after_places(v, names), names);
}

proof fn lemma_places_contained(v: SurveyView, names: Seq<Seq<char>>)
    ensures
        forall|i: int| 0 <= i < names.len() ==> after_places(v, names).places.contains(#[trigger] names[i]),
        forall|x: Seq<char>| v.places.contains(x) ==> after_places(v, names).places.contains(x),
    decreases names.len(),
{
    if names.len() > 0 {
        let init = names.drop_last();
        lemma_places_contained(v, init);
        let u = after_places(v, init);
        let w = after_places(v, names);
        assert(w == after_place(u, names.last()));
        assert forall|x: Seq<char>| u.places.contains(x) implies w.places.contains(x) by {
            if !u.places.contains(names.last()) {
                let k = choose|k: int| 0 <= k < u.places.len() && u.places[k] == x;
                assert(w.places[k] == x);
            }
        }
        assert forall|i: int| 0 <= i < names.len() implies w.places.contains(#[trigger] names[i]) by {
            if i < init.len() {
                assert(init[i] == names[i]);
                assert(u.places.contains(init[i]));
            } else if !u.places.contains(names.last()) {
                assert(w.places[w.places.len() - 1] == names.last());
            }
        }
    }
}

proof fn lemma_places_absorbed(v: SurveyView, names: Seq<Seq<char>>)
    requires
        forall|i: int| 0 <= i < names.len() ==> v.places.contains(#[trigger] names[i]),
    ensures
        after_places(v, names) == v,
    decreases names.len(),
{
    if names.len() > 0 {
        let init = names.drop_last();
        assert forall|i: int| 0 <= i < init.len() implies v.places.contains(#[trigger] init[i]) by {
            assert(init[i] == names[i]);
        }
        lemma_places_absorbed(v, init);
        assert(v.places.contains(names[names.len() - 1]));
    }
}

/// A survey is a function of what it reads: two scans of the same lines, at the same
/// wall clock times, from the same start, end in the same survey.
pub proof fn lemma_scan_repeatable(a: SurveyView, b: SurveyView, lines: Seq<(Seq<u8>, i64)>)
    requires
        a == b,
    ensures
        after_lines(a, lines) == after_lines(b, lines),
{
}

impl Survey {
    pub fn new() -> (r: Survey)
        ensures
            r@ == fresh_survey(),
    {
        let r = Survey {
            time_stamps: 0,
            first_time: None,
            last_time: None,
            last_point: None,
            distance_mm: 0,
            places: Vec::new(),
        };
        assert(r@.places =~= Seq::<Seq<char>>::empty());
        r
    }

    /// Counts the time stamp `t` and keeps it as the first (if none was) and the last.
    pub fn record_time(&mut self, t: i64)
        ensures
            final(self)@ == after_time(old(self)@, t),
    {
        self.time_stamps = self.time_stamps.saturating_add(1);
        if self.first_time.is_none() {
            self.first_time = Some(t);
        }
        self.last_time = Some(t);
    }

    /// Records a fix at `p`, `leg_mm` millimetres from `last_point` where there is one.
    pub fn record_fix(&mut self, p: GeoPoint, leg_mm: u64)
        ensures
            final(self)@ == after_fix(old(self)@, p, leg_mm),
    {
        if self.last_point.is_some() {
            self.distance_mm = self.distance_mm.saturating_add(leg_mm);
        }
        self.last_point = Some(p);
    }

    /// Records the place called `name`; returns whether it is new to the survey.
    pub fn record_place(&mut self, name: String) -> (r: bool)
        ensures
            r == !old(self)@.places.contains(name@),
            final(self)@ == after_place(old(self)@, name@),
    {
        let mut i: usize = 0;
        while i < self.places.len()
            invariant
                i <= self.places@.len(),
                forall|k: int| 0 <= k < i ==> self.places@[k]@ != name@,
            decreases self.places@.len() - i,
        {
            if self.places[i] == name {
                assert(self@.places[i as int] == name@);
                return false;
            }
            i = i + 1;
        }
        assert(!self@.places.contains(name@)) by {
            if self@.places.contains(name@) {
                let k = choose|k: int| 0 <= k < self@.places.len() && self@.places[k] == name@;
                assert(self.places@[k]@ == name@);
            }
        }
        self.places.push(name);
        assert(self@.places =~= old(self)@.places.push(name@));
        true
    }

    /// Reads `line` at wall clock time `now`: a ZDA sentence is recorded as a time stamp
    /// (its instant, or `now` where its date or time is not valid). Returns the fix of a
    /// GGA sentence, which the caller measures and records.
    pub fn scan_line(&mut self, line: &str, now: i64) -> (r: Option<Fix>)
        ensures
            final(self)@ == after_line(old(self)@, line.spec_bytes(), now),
            r == (if kind_of(line.spec_bytes()) == Kind::Gga {
                Some(fix_of(line.spec_bytes()))
            } else {
                None
            }),
    {
        match parse_sentence(line) {
            Sentence::Zda(z) => {
                self.record_time(z.millis_or(now));
                None
            },
            Sentence::Gga(f) => Some(f),
            _ => None,
        }
    }
}

} // verus!
