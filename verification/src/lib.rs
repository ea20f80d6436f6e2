//! Mend applies a declared sequence of repository-mutating commands to a
//! source checkout, committing after each step so that each produces exactly
//! one revision.
//!
//! The heart of the library is the step-expansion and execution engine:
//! [`plan`] turns each step line, with its recipe, hook and environment
//! context, into an ordered script list and a commit message, and [`run`]
//! drives those scripts against a repository worktree, committing on success
//! and halting the pipeline — after a best-effort reset — on the first
//! failure.  [`model`] holds the plan itself and the document merge that
//! builds it; [`expand`] renders commit-message templates; [`laws`] states
//! and proves what the planner guarantees.

pub mod cli;
pub mod expand;
pub mod laws;
pub mod model;
pub mod plan;
pub mod run;
pub mod step;
pub mod text;
