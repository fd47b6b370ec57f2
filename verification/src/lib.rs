//! Verified front end of a two-pass assembler for a small teaching
//! instruction set, together with the small tools that surround it in the
//! same workspace: a macro pre-expander, a finite-automaton validator, a
//! line-oriented text editor core, and the fixed-width virtual machine the
//! assembled programs target.
//!
//! Every component is specified against a mathematical model of its state
//! and verified with Verus; input/output plumbing lives outside the library.

pub mod assembler;
pub mod dfa_driver;
pub mod line_editor;
pub mod macro_processor;
pub mod smac0_simulator;
pub mod text;
