//! Diagnosis of common setup problems.
use vstd::prelude::*;

use crate::config::{mask_token, masked, source_name, Config};
use crate::framework::{framework_label, Framework, FrameworkView};
use crate::text::{
    concat2, concat3, contains, decimal, decimal_of, has, join, join_texts,
};

verus! {

/// How serious a finding is.
#[derive(Clone, Copy, PartialEq, Eq, Structural, Debug)]
pub enum Level {
    Pass,
    Warn,
    Fail,
    Info,
}

/// One finding.
pub struct Finding {
    pub level: Level,
    pub label: &'static str,
    pub detail: String,
}

/// What a `Finding` says.
pub open spec fn says(f: Finding, level: Level, label: Seq<char>, detail: Seq<char>) -> bool {
    f.level == level && f.label@ == label && f.detail@ == detail
}

fn finding(level: Level, label: &'static str, detail: &str) -> (f: Finding)
    ensures
        says(f, level, label@, detail@),
{
    Finding { level, label, detail: detail.to_owned() }
}

/// The local configuration file.
pub fn check_local_config(config: &Config) -> (f: Finding)
    ensures
        match config.sources.local_config_path {
            Some(p) => says(f, Level::Pass, "Local config"@, p@),
            None => says(
                f,
                Level::Info,
                "Local config"@,
                "Not found (walked up from project root)"@,
            ),
        },
{
    match &config.sources.local_config_path {
        Some(p) => finding(Level::Pass, "Local config", p.as_str()),
        None => finding(Level::Info, "Local config", "Not found (walked up from project root)"),
    }
}

/// The global configuration file. `would_be` is where one would stand.
pub fn check_global_config(config: &Config, would_be: &Option<String>) -> (f: Finding)
    ensures
        match config.sources.global_config_path {
            Some(p) => says(f, Level::Pass, "Global config"@, p@),
            None => says(
                f,
                Level::Info,
                "Global config"@,
                match *would_be {
                    Some(p) => p@ + " (not found)"@,
                    None => "Cannot determine home directory"@,
                },
            ),
        },
{
    match &config.sources.global_config_path {
        Some(p) => finding(Level::Pass, "Global config", p.as_str()),
        None => match would_be {
            Some(p) => finding(
                Level::Info,
                "Global config",
                concat2(p.as_str(), " (not found)").as_str(),
            ),
            None => finding(Level::Info, "Global config", "Cannot determine home directory"),
        },
    }
}

/// Where the token comes from.
pub fn check_token_source(config: &Config) -> (f: Finding)
    ensures
        config.token is Some ==> says(
            f,
            Level::Pass,
            "Token source"@,
            source_name(config.sources.token),
        ),
        config.token is None ==> says(
            f,
            Level::Warn,
            "Token source"@,
            "Not configured (local-only mode, no cloud sync)"@,
        ),
{
    match &config.token {
        Some(_) => finding(Level::Pass, "Token source", config.sources.token.name()),
        None => finding(
            Level::Warn,
            "Token source",
            "Not configured (local-only mode, no cloud sync)",
        ),
    }
}

/// A data directory that holds results but no configuration.
pub fn check_orphan(dir: &str, has_data: bool, has_config: bool) -> (f: Option<Finding>)
    ensures
        f is Some <==> has_data && !has_config,
        match f {
            Some(f) => says(
                f,
                Level::Warn,
                "Orphaned dir"@,
                dir@ + " has data.db but no config.toml — run `gaffer init` here or delete it"@,
            ),
            None => true,
        },
{
    if has_data && !has_config {
        Some(
            finding(
                Level::Warn,
                "Orphaned dir",
                concat2(
                    dir,
                    " has data.db but no config.toml — run `gaffer init` here or delete it",
                ).as_str(),
            ),
        )
    } else {
        None
    }
}

/// What became of an attempt to read the results.
pub enum DatabaseState {
    Missing,
    CannotOpen(String),
    CannotQuery(String),
    /// Its size in bytes, where that is known, and whether it holds runs.
    Readable { size: Option<u64>, has_runs: bool },
}

/// The database of results.
pub fn check_database(path: &str, state: &DatabaseState) -> (f: Finding)
    ensures
        match *state {
            DatabaseState::Missing => says(
                f,
                Level::Warn,
                "Database"@,
                "No database found. Run `gaffer test` to create one."@,
            ),
            DatabaseState::CannotOpen(e) => says(
                f,
                Level::Fail,
                "Database"@,
                "Could not open: "@ + e@,
            ),
            DatabaseState::CannotQuery(e) => says(
                f,
                Level::Fail,
                "Database"@,
                "Could not query: "@ + e@,
            ),
            DatabaseState::Readable { size, has_runs } => says(
                f,
                Level::Pass,
                "Database"@,
                path@ + " ("@ + (match size {
                    Some(n) => decimal((n / 1024) as nat) + "KB"@,
                    None => "?"@,
                }) + "), "@ + (if has_runs {
                    "has data"@
                } else {
                    "no runs"@
                }),
            ),
        },
{
    match state {
        DatabaseState::Missing => finding(
            Level::Warn,
            "Database",
            "No database found. Run `gaffer test` to create one.",
        ),
        DatabaseState::CannotOpen(e) => finding(
            Level::Fail,
            "Database",
            concat2("Could not open: ", e.as_str()).as_str(),
        ),
        DatabaseState::CannotQuery(e) => finding(
            Level::Fail,
            "Database",
            concat2("Could not query: ", e.as_str()).as_str(),
        ),
        DatabaseState::Readable { size, has_runs } => {
            let shown = match size {
                Some(n) => concat2(decimal_of(*n / 1024).as_str(), "KB"),
                None => "?".to_owned(),
            };
            let runs = if *has_runs {
                "has data"
            } else {
                "no runs"
            };
            let head = concat3(path, " (", shown.as_str());
            finding(
                Level::Pass,
                "Database",
                concat3(head.as_str(), "), ", runs).as_str(),
            )
        },
    }
}

/// Whether an error says that time ran out.
pub open spec fn is_timeout(error: Seq<char>) -> bool {
    contains(error, "timed out"@) || contains(error, "timeout"@)
}

/// The token, given what the dashboard answered to it: a status, or no answer for a reason.
pub fn check_token(token: &Option<String>, answer: &Result<u16, String>) -> (f: Finding)
    ensures
        match *token {
            None => says(f, Level::Info, "Token"@, "Not configured (local-only mode)"@),
            Some(t) => match *answer {
                Ok(status) => if 200 <= status < 300 {
                    says(f, Level::Pass, "Token"@, masked(t@) + " (valid, API reachable)"@)
                } else {
                    says(
                        f,
                        Level::Fail,
                        "Token"@,
                        masked(t@) + " (HTTP "@ + decimal(status as nat) + ")"@,
                    )
                },
                Err(e) => if is_timeout(e@) {
                    says(f, Level::Warn, "Token"@, masked(t@) + " (API timeout — skipped)"@)
                } else {
                    says(f, Level::Fail, "Token"@, masked(t@) + " ("@ + e@ + ")"@)
                },
            },
        },
{
    let shown = match token {
        None => {
            return finding(Level::Info, "Token", "Not configured (local-only mode)");
        },
        Some(t) => mask_token(t.as_str()),
    };
    match answer {
        Ok(status) => {
            if 200 <= *status && *status < 300 {
                finding(
                    Level::Pass,
                    "Token",
                    concat2(shown.as_str(), " (valid, API reachable)").as_str(),
                )
            } else {
                let head = concat3(shown.as_str(), " (HTTP ", decimal_of(*status as u64).as_str());
                finding(Level::Fail, "Token", concat2(head.as_str(), ")").as_str())
            }
        },
        Err(e) => {
            if has(e.as_str(), "timed out") || has(e.as_str(), "timeout") {
                finding(
                    Level::Warn,
                    "Token",
                    concat2(shown.as_str(), " (API timeout — skipped)").as_str(),
                )
            } else {
                let head = concat3(shown.as_str(), " (", e.as_str());
                finding(Level::Fail, "Token", concat2(head.as_str(), ")").as_str())
            }
        },
    }
}

/// How many files match the report patterns.
pub fn check_reports(count: usize) -> (f: Finding)
    ensures
        count > 0 ==> says(
            f,
            Level::Pass,
            "Reports"@,
            decimal(count as nat) + " files match current patterns"@,
        ),
        count == 0 ==> says(
            f,
            Level::Warn,
            "Reports"@,
            "No report files found matching configured patterns"@,
        ),
{
    if count > 0 {
        finding(
            Level::Pass,
            "Reports",
            concat2(decimal_of(count as u64).as_str(), " files match current patterns").as_str(),
        )
    } else {
        finding(Level::Warn, "Reports", "No report files found matching configured patterns")
    }
}

/// How frameworks are shown.
pub open spec fn labels(list: Seq<FrameworkView>) -> Seq<Seq<char>> {
    Seq::new(list.len(), |k: int| framework_label(list[k]))
}

/// The frameworks of the project.
pub fn check_frameworks(frameworks: &Vec<Framework>) -> (f: Finding)
    ensures
        frameworks@.len() == 0 ==> says(f, Level::Info, "Frameworks"@, "None detected"@),
        frameworks@.len() > 0 ==> says(
            f,
            Level::Pass,
            "Frameworks"@,
            join(labels(frameworks.deep_view()), ", "@),
        ),
{
    if frameworks.len() == 0 {
        return finding(Level::Info, "Frameworks", "None detected");
    }
    let mut names: Vec<String> = Vec::new();
    let mut k: usize = 0;
    while k < frameworks.len()
        invariant
            0 <= k <= frameworks@.len(),
            names@.len() == k,
            forall|j: int|
                0 <= j < k ==> (#[trigger] names@[j])@ == framework_label(
                    frameworks@[j].deep_view(),
                ),
        decreases frameworks@.len() - k,
    {
        names.push(frameworks[k].label());
        k += 1;
    }
    assert(names.deep_view() =~= labels(frameworks.deep_view()));
    finding(Level::Pass, "Frameworks", join_texts(&names, ", ").as_str())
}

} // verus!
