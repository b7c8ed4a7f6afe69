//! A weekly timetable solver: a seven-day grid of half-hour windows, a set of
//! activities with durations and slot constraints, and a stochastic hill
//! climber that searches for a low-penalty placement.

pub mod constraints;
pub mod hill_climber;
pub mod sampling;
pub mod schedule;
