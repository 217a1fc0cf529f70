//! N-pattern analysis: data model, labels, review grouping and timestamp helpers.
pub mod model;
pub mod outcome;
pub mod groups;
pub mod indicators;
pub mod labels;
pub mod signal;
pub mod io;
pub mod time;
