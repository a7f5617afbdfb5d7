//! Laws that several functions of the library keep together.
use vstd::prelude::*;

pub mod cache;
pub mod clusters;
pub mod comments;
pub mod confidence;
pub mod distances;
pub mod durations;
pub mod extraction;
pub mod files;
pub mod fingerprints;
pub mod flakiness;
pub mod frameworks;
pub mod history;
pub mod logins;
pub mod modules;
pub mod naming;
pub mod orders;
pub mod outcomes;
pub mod packages;
pub mod python_names;
pub mod reports;
pub mod runs;
pub mod scores;
pub mod scripts;
pub mod selection;
pub mod settings;
pub mod sources;
pub mod terminal;
pub mod test_files;
pub mod test_names;
pub mod undecided;
pub mod uploads;

verus! {

} // verus!
