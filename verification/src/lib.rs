//! Verified core of the N-trend futures analysis client.
pub mod text;
pub mod num;
pub mod finality;
pub mod clock;
pub mod fetch;
pub mod analyze;
pub mod derive;
pub mod config;
pub mod backup;
pub mod order;
