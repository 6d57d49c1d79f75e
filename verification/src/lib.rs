//! Filters that shorten what the Jujutsu (`jj`) version control system
//! prints, and the decisions around running `jj`: with which arguments, what
//! is shown, and which exit code is passed on.
use vstd::prelude::*;

pub mod commands;
pub mod diff;
pub mod email;
pub mod filters;
pub mod text;

verus! {
}
