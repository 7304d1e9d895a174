//! Replay and survey of NMEA-0183 sentence logs.
//!
//! The library holds the logic: splitting a sentence into fields, reading
//! the recognised sentence kinds into typed values, the navigation state
//! that those values update, the clock that paces a replay against the
//! time stamps in the log, and the accumulator that a survey of a log
//! fills. Reading files, sockets, the terminal and the geocoder are left
//! to the program around it.
pub mod fields;
pub mod number;
pub mod calendar;
pub mod sentence;
pub mod navigation;
pub mod pacing;
pub mod replay;
pub mod survey;
pub mod start_filter;
