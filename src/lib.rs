//! Turns a line-oriented, human-written description of a deterministic
//! Turing machine into a structured configuration: transition rules,
//! a normalized alphabet and the initial tape.

pub mod config;
pub mod laws;
pub mod line;
pub mod rule;
pub mod symbols;
pub mod text;

