//! Core logic of the Pandora launcher download site: classifying release
//! assets into download categories, detecting the visitor's platform from a
//! user-agent string, and turning a release-endpoint HTTP response into a
//! loading / success / failure view state.

pub mod bytes;
pub mod classify;
pub mod detect;
pub mod release;
