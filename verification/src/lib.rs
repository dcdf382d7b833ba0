//! Verified core of a browser mod manager.
use vstd::prelude::*;

pub mod text;
pub mod paths;
pub mod naming;
pub mod order;
pub mod config;
pub mod firefox;
pub mod doc;
pub mod legacy;
pub mod chromium;
pub mod theme;
pub mod merge;
pub mod install;
pub mod sync;
pub mod pathorder;

verus! {
} // verus!
