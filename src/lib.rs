//! Static complexity metrics for a procedural program, computed from its
//! syntax tree: Halstead operator/operand tallies, decision-structure
//! counters and a data-flow classification of every named variable.

pub mod chepin;
pub mod decimal;
pub mod engine;
pub mod halstead;
pub mod metrics;
pub mod tally;

pub mod syntax;
