//! Adaptive arithmetic drills: exercise generation, question formatting,
//! answer checking and the streak / difficulty bookkeeping of a session.

pub mod answer;
pub mod exercise;
pub mod random;
pub mod session;
pub mod text;

