//! Switchyard: a capability router for agentic workflows.
//!
//! This crate holds the routing engine's own logic, verified with Verus.

use vstd::prelude::*;

pub mod config;
pub mod text;
pub mod env_file;
pub mod keys;
pub mod proxy;
pub mod chat;
pub mod weights;
pub mod labels;
pub mod vector;
pub mod dashboard;
pub mod cli;
pub mod forward;

verus! {
} // verus!
