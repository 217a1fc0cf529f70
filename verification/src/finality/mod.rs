//! Finality observation: fingerprints, the per-bar tracker, the judger and the
//! offline strategy simulation.
pub mod model;
pub mod tracker;
pub mod analysis;
pub mod judger;
pub mod observer;
