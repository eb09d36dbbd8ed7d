//! A verified interpreter for Intcode programs: comma-separated signed
//! integers loaded into a sparse memory, executed by a fetch-decode-execute
//! loop with three operand addressing modes, cooperative suspension on
//! exhausted input, and a feedback network that chains several machine
//! instances into a cycle.
//!
//! The module [`model`] gives the mathematical semantics: a step function
//! over abstract machine states. The executable machine in [`vm`] is proved
//! to follow that step function exactly; [`parse`] relates program text to
//! the loaded memory image; [`perm`] enumerates phase-setting permutations;
//! [`amplifier`] runs and searches the feedback network; [`search`] looks
//! for the noun-verb pair that steers a program to a target value.

pub mod amplifier;
pub mod model;
pub mod parse;
pub mod perm;
pub mod search;
pub mod vm;
