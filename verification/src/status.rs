//! The statuses of test executions.
use vstd::prelude::*;

verus! {

pub const PASSED: &'static str = "passed";

pub const FAILED: &'static str = "failed";

pub const SKIPPED: &'static str = "skipped";

pub const TODO: &'static str = "todo";

} // verus!
