//! Execution engine for a command interpreter.
//!
//! A parsed command line is a [`ast::Cmd`] tree: simple commands combined by
//! pipelines, `&&` / `||` lists and negation.  The engine walks that tree and
//! decides, step by step, which operating-system action comes next: open a
//! pipe, close a pipe end, start a child process, wait for one, run a
//! built-in.  The decisions — combinator semantics, descriptor
//! reconciliation, built-in dispatch — are verified here; the actions
//! themselves (process spawning, pipe plumbing) are carried out by an
//! unverified driver that feeds each action's result back to the engine.

pub mod ast;
pub mod engine;
pub mod laws;
