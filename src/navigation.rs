//! The last known navigation values, updated sentence by sentence.
use vstd::prelude::*;
use crate::sentence::{Fix, Sentence};

verus! {

/// Relative wind read from a VWR sentence; angle and speed in millionths.
#[derive(Debug)]
pub struct Wind {
    pub angle: i64,
    /// The side field as written (`L` or `R`).
    pub side: Vec<u8>,
    pub speed: i64,
}

/// Last known values. A value stays until a sentence of its kind replaces it.
#[derive(Debug)]
pub struct NavState {
    pub fix: Option<Fix>,
    /// Course over ground in millionths of a degree (true).
    pub course: Option<i64>,
    /// Speed over ground in millionths of a knot.
    pub speed: Option<i64>,
    /// Depth below the surface in millionths of a metre.
    pub depth: Option<i64>,
    pub wind: Option<Wind>,
}

impl NavState {
    /// A state with no known value.
    pub fn new() -> (r: NavState)
        ensures
            r.fix is None,
            r.course is None,
            r.speed is None,
            r.depth is None,
            r.wind is None,
    {
        NavState { fix: None, course: None, speed: None, depth: None, wind: None }
    }

    /// Takes the values that `s` carries; every other value is kept.
    pub fn apply(&mut self, s: Sentence)
        ensures
            match s {
                Sentence::Gga(f) => final(self).fix == Some(f),
                _ => final(self).fix == old(self).fix,
            },
            match s {
                Sentence::Vtg { course, speed } => final(self).course == Some(course)
                    && final(self).speed == Some(speed),
                _ => final(self).course == old(self).course && final(self).speed == old(
                    self,
                ).speed,
            },
            match s {
                Sentence::Dpt { depth } => final(self).depth == Some(depth),
                _ => final(self).depth == old(self).depth,
            },
            match s {
                Sentence::Vwr { angle, side, speed } => final(self).wind matches Some(w) && w.angle
                    == angle && w.side@ == side@ && w.speed == speed,
                _ => final(self).wind == old(self).wind,
            },
    {
        match s {
            Sentence::Gga(f) => {
                self.fix = Some(f);
            },
            Sentence::Vtg { course, speed } => {
                self.course = Some(course);
                self.speed = Some(speed);
            },
            Sentence::Dpt { depth } => {
                self.depth = Some(depth);
            },
            Sentence::Vwr { angle, side, speed } => {
                self.wind = Some(Wind { angle, side, speed });
            },
            Sentence::Zda(_) => {},
            Sentence::Other => {},
        }
    }
}

} // verus!
