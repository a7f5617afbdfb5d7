//! Test intelligence: which tests a change affects, which tests are flaky, how failures cluster,
//! and how results travel to the dashboard.
use vstd::prelude::*;

pub mod affected;
pub mod auth;
pub mod cluster;
pub mod commands;
pub mod config;
pub mod discovery;
pub mod display;
pub mod doctor;
pub mod duration;
pub mod error;
pub mod escape;
pub mod flaky;
pub mod framework;
pub mod git;
pub mod graph;
pub mod health;
pub mod imports;
pub mod json;
pub mod laws;
pub mod multipart;
pub mod observations;
pub mod paths;
pub mod pattern;
pub mod ranking;
pub mod run;
pub mod status;
pub mod text;
pub mod transfer;
pub mod tree;
pub mod upload;
pub mod walker;

verus! {

} // verus!
