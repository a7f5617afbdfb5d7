//! Which of several configurations counts.
use vstd::prelude::*;

use crate::config::{
    first_found, is_resolved, places_in, within, Config, ConfigInputs, ConfigSource, FileConfig,
    Probe,
};
use crate::text::opt_text;

verus! {

/// Probe `k` is the first that found a file.
pub open spec fn is_first(probes: Seq<Probe>, k: int) -> bool {
    &&& 0 <= k < probes.len()
    &&& probes[k].found
    &&& forall|j: int| 0 <= j < k ==> !(#[trigger] probes[j]).found
}

proof fn found_is_first(probes: Seq<Probe>, k: int, from: int)
    requires
        is_first(probes, k),
        0 <= from <= k,
    ensures
        first_found(probes, from) == Some(k),
    decreases k - from,
{
    if from < k {
        assert(!probes[from].found);
        found_is_first(probes, k, from + 1);
    }
}

proof fn nothing_is_found(probes: Seq<Probe>, from: int)
    requires
        0 <= from,
        forall|j: int| 0 <= j < probes.len() ==> !(#[trigger] probes[j]).found,
    ensures
        first_found(probes, from) is None,
    decreases probes.len() - from,
{
    if from < probes.len() {
        assert(!probes[from].found);
        nothing_is_found(probes, from + 1);
    }
}

/// The token that a file sets.
pub open spec fn sets_token(f: Option<FileConfig>, t: Seq<char>) -> bool {
    f is Some && opt_text(f->0.token) == Some(t)
}

/// The file sets no token.
pub open spec fn sets_no_token(f: Option<FileConfig>) -> bool {
    f is Some ==> f->0.token is None
}

/// The address that a file sets.
pub open spec fn sets_address(f: Option<FileConfig>, u: Seq<char>) -> bool {
    f is Some && opt_text(f->0.api_url) == Some(u)
}

/// The file sets no address.
pub open spec fn sets_no_address(f: Option<FileConfig>) -> bool {
    f is Some ==> f->0.api_url is None
}

/// Where neither a flag nor the environment sets a token or an address, the file that `--config`
/// names does, else the nearest local file, else the global one; and it is said where the value
/// comes from.
pub proof fn nearer_files_win(
    c: Config,
    inputs: ConfigInputs,
    k: int,
    t: Seq<char>,
    u: Seq<char>,
)
    requires
        is_resolved(c, inputs),
        is_first(inputs.probes@, k),
        inputs.cli_token is None,
        inputs.env_token is None,
        inputs.cli_api_url is None,
        inputs.env_api_url is None,
    ensures
        sets_token(inputs.explicit, t) ==> opt_text(c.token) == Some(t) && c.sources.token
            == ConfigSource::ExplicitConfig,
        sets_no_token(inputs.explicit) && sets_token(inputs.probes@[k].config, t) ==> opt_text(
            c.token,
        ) == Some(t) && c.sources.token == ConfigSource::LocalConfig,
        sets_no_token(inputs.explicit) && sets_no_token(inputs.probes@[k].config) && sets_token(
            inputs.global,
            t,
        ) ==> opt_text(c.token) == Some(t) && c.sources.token == ConfigSource::GlobalConfig,
        sets_no_token(inputs.explicit) && sets_no_token(inputs.probes@[k].config) && sets_no_token(
            inputs.global,
        ) ==> c.token is None && c.sources.token == ConfigSource::Default,
        sets_address(inputs.explicit, u) ==> opt_text(c.api_url) == Some(u) && c.sources.api_url
            == ConfigSource::ExplicitConfig,
        sets_no_address(inputs.explicit) && sets_address(inputs.probes@[k].config, u) ==> opt_text(
            c.api_url,
        ) == Some(u) && c.sources.api_url == ConfigSource::LocalConfig,
        sets_no_address(inputs.explicit) && sets_no_address(inputs.probes@[k].config)
            && sets_address(inputs.global, u) ==> opt_text(c.api_url) == Some(u)
            && c.sources.api_url == ConfigSource::GlobalConfig,
        sets_no_address(inputs.explicit) && sets_no_address(inputs.probes@[k].config)
            && sets_no_address(inputs.global) ==> c.api_url is None && c.sources.api_url
            == ConfigSource::Default,
{
    found_is_first(inputs.probes@, k, 0);
}

/// What a flag sets comes from the flag, and what the environment sets where no flag does comes
/// from there.
pub proof fn sources_are_told(c: Config, inputs: ConfigInputs)
    requires
        is_resolved(c, inputs),
    ensures
        inputs.cli_token is Some ==> c.sources.token == ConfigSource::CliFlag,
        inputs.cli_token is None && inputs.env_token is Some ==> c.sources.token
            == ConfigSource::EnvVar,
        inputs.cli_api_url is Some ==> c.sources.api_url == ConfigSource::CliFlag,
        inputs.cli_api_url is None && inputs.env_api_url is Some ==> c.sources.api_url
            == ConfigSource::EnvVar,
        inputs.cli_reports@.len() > 0 ==> c.sources.report_patterns == ConfigSource::CliFlag,
{
}

/// The directory of the nearest local configuration is the root of the project, unless `--config`
/// names a file; and of the places that were looked at, those up to that file are told.
pub proof fn the_nearest_file_marks_the_root(c: Config, inputs: ConfigInputs, k: int)
    requires
        is_resolved(c, inputs),
        is_first(inputs.probes@, k),
    ensures
        inputs.explicit_path is None ==> c.project_root@ == inputs.probes@[k].dir@ && opt_text(
            c.sources.local_config_path,
        ) == Some(inputs.probes@[k].path@),
        inputs.explicit_path is Some ==> c.project_root@ == inputs.start_dir@ && opt_text(
            c.sources.local_config_path,
        ) == opt_text(inputs.explicit_path),
        c.sources.checked_paths@.len() == k + 1,
        c.sources.checked_paths@[k].0@ == inputs.probes@[k].path@,
        c.sources.checked_paths@[k].1,
{
    found_is_first(inputs.probes@, k, 0);
}

/// Without a local configuration the search started in the root of the project, and report
/// patterns that neither a flag nor a file sets are the usual ones: reports in the data directory,
/// JUnit, nextest and CTRF reports, and coverage.
pub proof fn defaults_hold_without_files(c: Config, inputs: ConfigInputs)
    requires
        is_resolved(c, inputs),
        forall|j: int| 0 <= j < inputs.probes@.len() ==> !(#[trigger] inputs.probes@[j]).found,
        inputs.explicit is None,
        inputs.cli_reports@.len() == 0,
    ensures
        c.project_root@ == inputs.start_dir@,
        c.sources.checked_paths@.len() == inputs.probes@.len(),
        c.sources.report_patterns == ConfigSource::Default,
        c.report_patterns.deep_view() == seq![
            "**/.gaffer/reports/**/*.xml"@,
            "**/.gaffer/reports/**/*.json"@,
            "**/junit*.xml"@,
            "**/test-results/**/*.xml"@,
            "**/test-reports/**/*.xml"@,
            "**/target/nextest/**/*.xml"@,
            "**/ctrf/**/*.json"@,
            "**/ctrf-report.json"@,
            "**/coverage/lcov.info"@,
            "**/lcov.info"@,
        ],
{
    nothing_is_found(inputs.probes@, 0);
}

/// In each directory the file in the data directory is looked for before `gaffer.toml`.
pub proof fn both_files_are_looked_for(dirs: Seq<Seq<char>>, n: int, i: int)
    requires
        0 <= i < n <= dirs.len(),
    ensures
        places_in(dirs, n).len() == 2 * n,
        places_in(dirs, n)[2 * i] == (dirs[i], within(dirs[i], ".gaffer/config.toml"@)),
        places_in(dirs, n)[2 * i + 1] == (dirs[i], within(dirs[i], "gaffer.toml"@)),
    decreases n,
{
    if n == 1 {
        assert(places_in(dirs, 0).len() == 0);
    } else {
        both_files_are_looked_for(
            dirs,
            n - 1,
            if i < n - 1 {
                i
            } else {
                0
            },
        );
    }
}

} // verus!
