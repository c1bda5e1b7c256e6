//! Fortress model logic: affected analysis, architecture evaluation,
//! behavioral semantics, certification rules and command dispatch.

pub mod cli;
pub mod codec;
pub mod json;
pub mod text;
pub mod order;
pub mod affected;
pub mod architecture;
pub mod behavior;
pub mod behavioral_realization;
pub mod certification;
