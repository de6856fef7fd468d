//! Dependency-aware bounded task scheduling.

use vstd::prelude::*;

pub mod error;
pub mod outcomes;
pub mod promises;
pub mod run;
pub mod state;
pub mod summary;
pub mod transition;
pub mod worker;
