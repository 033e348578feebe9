//! A generational evolutionary search: a population of candidate strings is
//! ranked against a fixed target, its fitter half survives, and the other half
//! is replaced by offspring of adjacent-ranked parents, until one candidate
//! equals the target.
//!
//! Every function here is verified. Two things are taken on trust: the three
//! small wrappers in [`chance`] that draw from the `rand` crate, and the
//! specification that [`agent`] gives to `String::push`.

pub mod agent;
pub mod chance;
pub mod fitness;
pub mod genome;
pub mod population;
pub mod ranking;
pub mod rate;
pub mod simulation;
