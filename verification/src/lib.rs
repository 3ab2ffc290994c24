//! Flowt: a workflow automation engine whose decision logic is verified.
use vstd::prelude::*;

pub mod text;
pub mod clock;
pub mod json;
pub mod paths;
pub mod schedule;
pub mod config;
pub mod sort;
pub mod storage;
pub mod tui;
pub mod view;
pub mod describe;
pub mod engine;

verus! {

} // verus!
