//! Configuration: each value from the first source that has it.
use vstd::prelude::*;

use crate::escape::{toml_escape, toml_text};
use crate::paths::{ancestors, ancestors_of};
use crate::text::{
    chars_of, concat2, concat3, copy_opt, copy_texts, decimal, decimal_of, ends_with,
    has_suffix, opt_text, slice_of, split_on, text_of,
};

verus! {

/// Where a value came from, highest priority first.
#[derive(Clone, Copy, PartialEq, Eq, Structural, Debug)]
pub enum ConfigSource {
    CliFlag,
    EnvVar,
    ExplicitConfig,
    LocalConfig,
    GlobalConfig,
    /// The runner's identity, exchanged for a token. Tokens only.
    Oidc,
    Default,
}

/// The name of a source.
pub open spec fn source_name(s: ConfigSource) -> Seq<char> {
    match s {
        ConfigSource::CliFlag => "CLI flag"@,
        ConfigSource::EnvVar => "env var"@,
        ConfigSource::ExplicitConfig => "explicit config"@,
        ConfigSource::LocalConfig => "local config"@,
        ConfigSource::GlobalConfig => "global config"@,
        ConfigSource::Oidc => "GitHub Actions OIDC"@,
        ConfigSource::Default => "default"@,
    }
}

/// How a listing of the configuration marks a source.
pub open spec fn source_mark(s: ConfigSource) -> Seq<char> {
    match s {
        ConfigSource::CliFlag => "from --flag"@,
        ConfigSource::EnvVar => "from env var"@,
        ConfigSource::ExplicitConfig => "from --config"@,
        ConfigSource::LocalConfig => "from local config"@,
        ConfigSource::GlobalConfig => "from global config"@,
        ConfigSource::Oidc => "from GitHub Actions OIDC"@,
        ConfigSource::Default => "default"@,
    }
}

impl ConfigSource {
    /// The name of the source.
    pub fn name(&self) -> (r: &'static str)
        ensures
            r@ == source_name(*self),
    {
        match self {
            ConfigSource::CliFlag => "CLI flag",
            ConfigSource::EnvVar => "env var",
            ConfigSource::ExplicitConfig => "explicit config",
            ConfigSource::LocalConfig => "local config",
            ConfigSource::GlobalConfig => "global config",
            ConfigSource::Oidc => "GitHub Actions OIDC",
            ConfigSource::Default => "default",
        }
    }
}

/// How a listing of the configuration marks a source.
pub fn source_label(source: &ConfigSource) -> (r: &'static str)
    ensures
        r@ == source_mark(*source),
{
    match source {
        ConfigSource::CliFlag => "from --flag",
        ConfigSource::EnvVar => "from env var",
        ConfigSource::ExplicitConfig => "from --config",
        ConfigSource::LocalConfig => "from local config",
        ConfigSource::GlobalConfig => "from global config",
        ConfigSource::Oidc => "from GitHub Actions OIDC",
        ConfigSource::Default => "default",
    }
}

/// Where each value came from, and which files were looked at.
pub struct ConfigSources {
    pub token: ConfigSource,
    pub api_url: ConfigSource,
    pub report_patterns: ConfigSource,
    /// The local configuration file, where there is one.
    pub local_config_path: Option<String>,
    /// The global configuration file, where there is one.
    pub global_config_path: Option<String>,
    /// The files that were looked for, and whether they were there.
    pub checked_paths: Vec<(String, bool)>,
}

/// The configuration in force.
pub struct Config {
    pub token: Option<String>,
    pub api_url: Option<String>,
    pub project_root: String,
    pub report_patterns: Vec<String>,
    pub sources: ConfigSources,
}

/// What a configuration file says.
pub struct FileConfig {
    pub token: Option<String>,
    pub api_url: Option<String>,
    pub report_patterns: Option<Vec<String>>,
}

/// What was found at one of the places for a local configuration.
pub struct Probe {
    /// The directory that the file would configure.
    pub dir: String,
    pub path: String,
    /// Whether the file could be read.
    pub found: bool,
    /// What the file says; missing where it makes no sense.
    pub config: Option<FileConfig>,
}

/// All sources of configuration.
pub struct ConfigInputs {
    pub cli_token: Option<String>,
    pub cli_api_url: Option<String>,
    pub cli_reports: Vec<String>,
    pub env_token: Option<String>,
    pub env_api_url: Option<String>,
    pub start_dir: String,
    /// The file that `--config` names.
    pub explicit_path: Option<String>,
    /// What that file says; missing where it could not be read.
    pub explicit: Option<FileConfig>,
    /// The places for a local configuration, in the order of the search.
    pub probes: Vec<Probe>,
    pub global: Option<FileConfig>,
    /// The global configuration file, where it exists.
    pub global_path: Option<String>,
}

/// The report patterns that are used unless others are configured.
pub open spec fn default_patterns() -> Seq<Seq<char>> {
    seq![
        "**/.gaffer/reports/**/*.xml"@,
        "**/.gaffer/reports/**/*.json"@,
        "**/junit*.xml"@,
        "**/test-results/**/*.xml"@,
        "**/test-reports/**/*.xml"@,
        "**/target/nextest/**/*.xml"@,
        "**/ctrf/**/*.json"@,
        "**/ctrf-report.json"@,
        "**/coverage/lcov.info"@,
        "**/lcov.info"@,
    ]
}

/// The report patterns that are used unless others are configured.
pub fn default_report_patterns() -> (r: Vec<String>)
    ensures
        r.deep_view() == default_patterns(),
{
    let mut r: Vec<String> = Vec::new();
    r.push("**/.gaffer/reports/**/*.xml".to_owned());
    r.push("**/.gaffer/reports/**/*.json".to_owned());
    r.push("**/junit*.xml".to_owned());
    r.push("**/test-results/**/*.xml".to_owned());
    r.push("**/test-reports/**/*.xml".to_owned());
    r.push("**/target/nextest/**/*.xml".to_owned());
    r.push("**/ctrf/**/*.json".to_owned());
    r.push("**/ctrf-report.json".to_owned());
    r.push("**/coverage/lcov.info".to_owned());
    r.push("**/lcov.info".to_owned());
    assert(r.deep_view() =~= default_patterns());
    r
}

// ---------------------------------------------------------------------------------------------
// Places
// ---------------------------------------------------------------------------------------------
/// `name` within the directory `dir`.
pub open spec fn within(dir: Seq<char>, name: Seq<char>) -> Seq<char> {
    if dir.len() == 0 || ends_with(dir, "/"@) {
        dir + name
    } else {
        dir + "/"@ + name
    }
}

/// `name` within the directory `dir`.
pub fn join_path(dir: &str, name: &str) -> (r: String)
    ensures
        r@ == within(dir@, name@),
{
    if dir.is_empty() || has_suffix(dir, "/") {
        concat2(dir, name)
    } else {
        concat3(dir, "/", name)
    }
}

/// The directory of the global configuration: below `$XDG_CONFIG_HOME` where that is set, else
/// below `$HOME`.
pub open spec fn global_dir(xdg: Option<String>, home: Option<String>) -> Option<Seq<char>> {
    match xdg {
        Some(x) if x@.len() > 0 => Some(within(x@, "gaffer"@)),
        _ => match home {
            Some(h) if h@.len() > 0 => Some(within(within(h@, ".config"@), "gaffer"@)),
            _ => None,
        },
    }
}

/// The directory of the global configuration, given `$XDG_CONFIG_HOME` and `$HOME`.
pub fn global_config_dir(xdg: &Option<String>, home: &Option<String>) -> (r: Option<String>)
    ensures
        opt_text(r) == global_dir(*xdg, *home),
{
    if let Some(x) = xdg {
        if !x.as_str().is_empty() {
            return Some(join_path(x.as_str(), "gaffer"));
        }
    }
    if let Some(h) = home {
        if !h.as_str().is_empty() {
            return Some(join_path(join_path(h.as_str(), ".config").as_str(), "gaffer"));
        }
    }
    None
}

/// The file of the global configuration, given `$XDG_CONFIG_HOME` and `$HOME`.
pub fn global_config_path(xdg: &Option<String>, home: &Option<String>) -> (r: Option<String>)
    ensures
        match global_dir(*xdg, *home) {
            Some(dir) => opt_text(r) == Some(within(dir, "config.toml"@)),
            None => r is None,
        },
{
    match global_config_dir(xdg, home) {
        Some(dir) => Some(join_path(dir.as_str(), "config.toml")),
        None => None,
    }
}

/// The places for a local configuration in the first `n` of the directories `dirs`: directory and
/// file.
pub open spec fn places_in(dirs: Seq<Seq<char>>, n: int) -> Seq<(Seq<char>, Seq<char>)>
    decreases n,
{
    if n <= 0 {
        Seq::empty()
    } else {
        let dir = dirs[n - 1];
        places_in(dirs, n - 1) + seq![
            (dir, within(dir, ".gaffer/config.toml"@)),
            (dir, within(dir, "gaffer.toml"@)),
        ]
    }
}

/// The directories in which a local configuration is looked for: `start`, and those above it.
pub open spec fn search_path(start: Seq<char>) -> Seq<Seq<char>> {
    seq![start] + ancestors(start, split_on(start, '/').len() as int)
}

/// The places where a local configuration is looked for, in order.
pub open spec fn places(start: Seq<char>) -> Seq<(Seq<char>, Seq<char>)> {
    places_in(search_path(start), search_path(start).len() as int)
}

/// What a list of places holds.
pub open spec fn places_view(list: Seq<(String, String)>) -> Seq<(Seq<char>, Seq<char>)> {
    Seq::new(list.len(), |i: int| (list[i].0@, list[i].1@))
}

/// The places where a local configuration is looked for, in order: from `start_dir` up to the
/// root, two files in each directory.
pub fn local_config_places(start_dir: &str) -> (r: Vec<(String, String)>)
    ensures
        places_view(r@) == places(start_dir@),
{
    let mut dirs: Vec<String> = vec![start_dir.to_owned()];
    let mut above = ancestors_of(start_dir);
    let ghost higher = above.deep_view();
    let ghost one = dirs@;
    let ghost more = above@;
    dirs.append(&mut above);
    proof {
        assert(dirs@ =~= one + more);
        assert(dirs.deep_view() =~= seq![start_dir@] + higher);
    }
    let ghost all = search_path(start_dir@);
    let mut r: Vec<(String, String)> = Vec::new();
    let mut n: usize = 0;
    assert(places_view(r@) =~= places_in(all, 0));
    while n < dirs.len()
        invariant
            0 <= n <= dirs@.len(),
            dirs.deep_view() == all,
            places_view(r@) == places_in(all, n as int),
        decreases dirs@.len() - n,
    {
        let dir = dirs[n].as_str();
        assert(all[n as int] == dir@);
        let ghost before = places_view(r@);
        r.push((dir.to_owned(), join_path(dir, ".gaffer/config.toml")));
        r.push((dir.to_owned(), join_path(dir, "gaffer.toml")));
        proof {
            assert(places_view(r@) =~= before + seq![
                (dir@, within(dir@, ".gaffer/config.toml"@)),
                (dir@, within(dir@, "gaffer.toml"@)),
            ]);
        }
        n += 1;
    }
    r
}

// ---------------------------------------------------------------------------------------------
// Resolution
// ---------------------------------------------------------------------------------------------
/// The first of five values that is there, with its source.
pub open spec fn chosen(
    cli: Option<Seq<char>>,
    env: Option<Seq<char>>,
    explicit: Option<Seq<char>>,
    local: Option<Seq<char>>,
    global: Option<Seq<char>>,
) -> (Option<Seq<char>>, ConfigSource) {
    if cli is Some {
        (cli, ConfigSource::CliFlag)
    } else if env is Some {
        (env, ConfigSource::EnvVar)
    } else if explicit is Some {
        (explicit, ConfigSource::ExplicitConfig)
    } else if local is Some {
        (local, ConfigSource::LocalConfig)
    } else if global is Some {
        (global, ConfigSource::GlobalConfig)
    } else {
        (None, ConfigSource::Default)
    }
}

/// The first of five values that is there, with its source.
pub fn resolve_field_5(
    cli: &Option<String>,
    env: &Option<String>,
    explicit: &Option<String>,
    local: &Option<String>,
    global: &Option<String>,
) -> (r: (Option<String>, ConfigSource))
    ensures
        (opt_text(r.0), r.1) == chosen(
            opt_text(*cli),
            opt_text(*env),
            opt_text(*explicit),
            opt_text(*local),
            opt_text(*global),
        ),
{
    if cli.is_some() {
        (copy_opt(cli), ConfigSource::CliFlag)
    } else if env.is_some() {
        (copy_opt(env), ConfigSource::EnvVar)
    } else if explicit.is_some() {
        (copy_opt(explicit), ConfigSource::ExplicitConfig)
    } else if local.is_some() {
        (copy_opt(local), ConfigSource::LocalConfig)
    } else if global.is_some() {
        (copy_opt(global), ConfigSource::GlobalConfig)
    } else {
        (None, ConfigSource::Default)
    }
}

/// The first of the probes from number `k` on that found a file.
pub open spec fn first_found(probes: Seq<Probe>, k: int) -> Option<int>
    decreases probes.len() - k,
{
    if k < 0 || k >= probes.len() {
        None
    } else if probes[k].found {
        Some(k)
    } else {
        first_found(probes, k + 1)
    }
}

/// The local configuration: that of the first file found, where it makes sense.
pub open spec fn local_of(inputs: ConfigInputs) -> Option<FileConfig> {
    match first_found(inputs.probes@, 0) {
        Some(k) => inputs.probes@[k].config,
        None => None,
    }
}

/// The token that a file configures.
pub open spec fn token_in(c: Option<FileConfig>) -> Option<Seq<char>> {
    match c {
        Some(f) => opt_text(f.token),
        None => None,
    }
}

/// The address that a file configures.
pub open spec fn url_in(c: Option<FileConfig>) -> Option<Seq<char>> {
    match c {
        Some(f) => opt_text(f.api_url),
        None => None,
    }
}

/// The report patterns that a file configures.
pub open spec fn patterns_in(c: Option<FileConfig>) -> Option<Seq<Seq<char>>> {
    match c {
        Some(f) => match f.report_patterns {
            Some(p) => Some(p.deep_view()),
            None => None,
        },
        None => None,
    }
}

/// The report patterns in force, with their source. The global configuration has no say.
pub open spec fn patterns_of(inputs: ConfigInputs) -> (Seq<Seq<char>>, ConfigSource) {
    if inputs.cli_reports@.len() > 0 {
        (inputs.cli_reports.deep_view(), ConfigSource::CliFlag)
    } else if patterns_in(inputs.explicit) is Some {
        (patterns_in(inputs.explicit)->0, ConfigSource::ExplicitConfig)
    } else if patterns_in(local_of(inputs)) is Some {
        (patterns_in(local_of(inputs))->0, ConfigSource::LocalConfig)
    } else {
        (default_patterns(), ConfigSource::Default)
    }
}

/// The project root: the directory of the local configuration, unless `--config` names another
/// file; else the directory that the search started from.
pub open spec fn root_of(inputs: ConfigInputs) -> Seq<char> {
    match first_found(inputs.probes@, 0) {
        Some(k) => if inputs.explicit_path is Some {
            inputs.start_dir@
        } else {
            inputs.probes@[k].dir@
        },
        None => inputs.start_dir@,
    }
}

/// How many of the probes count: up to and with the first that found a file.
pub open spec fn checked_count(probes: Seq<Probe>) -> int {
    match first_found(probes, 0) {
        Some(k) => k + 1,
        None => probes.len() as int,
    }
}

/// `c` is the configuration that `inputs` lead to, before any exchange of tokens.
pub open spec fn is_resolved(c: Config, inputs: ConfigInputs) -> bool {
    let local = local_of(inputs);
    &&& (opt_text(c.token), c.sources.token) == chosen(
        opt_text(inputs.cli_token),
        opt_text(inputs.env_token),
        token_in(inputs.explicit),
        token_in(local),
        token_in(inputs.global),
    )
    &&& (opt_text(c.api_url), c.sources.api_url) == chosen(
        opt_text(inputs.cli_api_url),
        opt_text(inputs.env_api_url),
        url_in(inputs.explicit),
        url_in(local),
        url_in(inputs.global),
    )
    &&& (c.report_patterns.deep_view(), c.sources.report_patterns) == patterns_of(inputs)
    &&& c.project_root@ == root_of(inputs)
    &&& opt_text(c.sources.local_config_path) == (if inputs.explicit_path is Some {
        opt_text(inputs.explicit_path)
    } else {
        match first_found(inputs.probes@, 0) {
            Some(k) => Some(inputs.probes@[k].path@),
            None => None,
        }
    })
    &&& opt_text(c.sources.global_config_path) == opt_text(inputs.global_path)
    &&& c.sources.checked_paths@.len() == checked_count(inputs.probes@)
    &&& forall|k: int|
        0 <= k < checked_count(inputs.probes@) ==> (#[trigger] c.sources.checked_paths@[k]).0@
            == inputs.probes@[k].path@ && c.sources.checked_paths@[k].1 == inputs.probes@[k].found
}

proof fn found_in_range(probes: Seq<Probe>, k: int)
    requires
        0 <= k,
    ensures
        match first_found(probes, k) {
            Some(i) => k <= i < probes.len() && probes[i].found,
            None => true,
        },
    decreases probes.len() - k,
{
    if k < probes.len() && !probes[k].found {
        found_in_range(probes, k + 1);
    }
}

fn file_token(c: &Option<FileConfig>) -> (r: Option<String>)
    ensures
        opt_text(r) == token_in(*c),
{
    match c {
        Some(f) => copy_opt(&f.token),
        None => None,
    }
}

fn file_url(c: &Option<FileConfig>) -> (r: Option<String>)
    ensures
        opt_text(r) == url_in(*c),
{
    match c {
        Some(f) => copy_opt(&f.api_url),
        None => None,
    }
}

fn file_patterns(c: &Option<FileConfig>) -> (r: Option<Vec<String>>)
    ensures
        match r {
            Some(p) => patterns_in(*c) == Some(p.deep_view()),
            None => patterns_in(*c) is None,
        },
{
    match c {
        Some(f) => match &f.report_patterns {
            Some(p) => Some(copy_texts(p)),
            None => None,
        },
        None => None,
    }
}

impl Config {
    /// Resolves each value on its own: flags before environment, before the file that `--config`
    /// names, before the local and then the global configuration.
    pub fn resolve(inputs: &ConfigInputs) -> (c: Config)
        ensures
            is_resolved(c, *inputs),
    {
        let ghost probes = inputs.probes@;
        let mut at: usize = 0;
        while at < inputs.probes.len() && !inputs.probes[at].found
            invariant
                0 <= at <= probes.len(),
                probes == inputs.probes@,
                first_found(probes, 0) == first_found(probes, at as int),
                forall|k: int| 0 <= k < at ==> !(#[trigger] probes[k]).found,
            decreases probes.len() - at,
        {
            at += 1;
        }
        let is_local = at < inputs.probes.len();
        let local: Option<FileConfig> = if is_local {
            match &inputs.probes[at].config {
                Some(f) => Some(
                    FileConfig {
                        token: copy_opt(&f.token),
                        api_url: copy_opt(&f.api_url),
                        report_patterns: file_patterns(&inputs.probes[at].config),
                    },
                ),
                None => None,
            }
        } else {
            None
        };
        proof {
            assert(token_in(local) == token_in(local_of(*inputs)));
            assert(url_in(local) == url_in(local_of(*inputs)));
            assert(patterns_in(local) == patterns_in(local_of(*inputs)));
        }
        let (api_url, api_url_source) = resolve_field_5(
            &inputs.cli_api_url,
            &inputs.env_api_url,
            &file_url(&inputs.explicit),
            &file_url(&local),
            &file_url(&inputs.global),
        );
        let (token, token_source) = resolve_field_5(
            &inputs.cli_token,
            &inputs.env_token,
            &file_token(&inputs.explicit),
            &file_token(&local),
            &file_token(&inputs.global),
        );
        let (report_patterns, patterns_source) = if inputs.cli_reports.len() > 0 {
            (copy_texts(&inputs.cli_reports), ConfigSource::CliFlag)
        } else if let Some(p) = file_patterns(&inputs.explicit) {
            (p, ConfigSource::ExplicitConfig)
        } else if let Some(p) = file_patterns(&local) {
            (p, ConfigSource::LocalConfig)
        } else {
            (default_report_patterns(), ConfigSource::Default)
        };
        let project_root = if is_local && inputs.explicit_path.is_none() {
            inputs.probes[at].dir.clone()
        } else {
            inputs.start_dir.clone()
        };
        let local_config_path = if inputs.explicit_path.is_some() {
            copy_opt(&inputs.explicit_path)
        } else if is_local {
            Some(inputs.probes[at].path.clone())
        } else {
            None
        };
        let count: usize = if is_local {
            at + 1
        } else {
            inputs.probes.len()
        };
        let mut checked_paths: Vec<(String, bool)> = Vec::new();
        let mut k: usize = 0;
        while k < count
            invariant
                0 <= k <= count <= inputs.probes@.len(),
                checked_paths@.len() == k,
                forall|j: int|
                    0 <= j < k ==> (#[trigger] checked_paths@[j]).0@ == inputs.probes@[j].path@
                        && checked_paths@[j].1 == inputs.probes@[j].found,
            decreases count - k,
        {
            checked_paths.push((inputs.probes[k].path.clone(), inputs.probes[k].found));
            k += 1;
        }
        Config {
            token,
            api_url,
            project_root,
            report_patterns,
            sources: ConfigSources {
                token: token_source,
                api_url: api_url_source,
                report_patterns: patterns_source,
                local_config_path,
                global_config_path: copy_opt(&inputs.global_path),
                checked_paths,
            },
        }
    }

    /// Takes a token that was exchanged for the runner's identity, unless a token is configured.
    pub fn take_exchanged(&mut self, access_token: &str)
        ensures
            old(self).token is Some ==> *final(self) == *old(self),
            old(self).token is None ==> {
                &&& opt_text(final(self).token) == Some(access_token@)
                &&& final(self).sources.token == ConfigSource::Oidc
                &&& final(self).api_url == old(self).api_url
                &&& final(self).project_root == old(self).project_root
                &&& final(self).report_patterns == old(self).report_patterns
                &&& final(self).sources.api_url == old(self).sources.api_url
                &&& final(self).sources.report_patterns == old(self).sources.report_patterns
                &&& final(self).sources.local_config_path == old(self).sources.local_config_path
                &&& final(self).sources.global_config_path == old(self).sources.global_config_path
                &&& final(self).sources.checked_paths == old(self).sources.checked_paths
            },
    {
        if self.token.is_none() {
            self.token = Some(access_token.to_owned());
            self.sources.token = ConfigSource::Oidc;
        }
    }
}

/// A value from a source of higher priority is never overruled: what a flag says holds, and what
/// the environment says holds where no flag does.
pub proof fn flags_and_environment_win(c: Config, inputs: ConfigInputs)
    requires
        is_resolved(c, inputs),
    ensures
        inputs.cli_token is Some ==> opt_text(c.token) == opt_text(inputs.cli_token),
        inputs.cli_token is None && inputs.env_token is Some ==> opt_text(c.token) == opt_text(
            inputs.env_token,
        ),
        inputs.cli_api_url is Some ==> opt_text(c.api_url) == opt_text(inputs.cli_api_url),
        inputs.cli_api_url is None && inputs.env_api_url is Some ==> opt_text(c.api_url)
            == opt_text(inputs.env_api_url),
        inputs.cli_reports@.len() > 0 ==> c.report_patterns.deep_view()
            == inputs.cli_reports.deep_view(),
{
}

/// The global configuration matters only to token and address: without it, patterns and project
/// root are the same.
pub proof fn global_config_never_sets_patterns(a: ConfigInputs, b: ConfigInputs)
    requires
        a.cli_reports == b.cli_reports,
        a.explicit == b.explicit,
        a.explicit_path == b.explicit_path,
        a.probes == b.probes,
        a.start_dir == b.start_dir,
    ensures
        patterns_of(a) == patterns_of(b),
        root_of(a) == root_of(b),
{
}

// ---------------------------------------------------------------------------------------------
// Writing
// ---------------------------------------------------------------------------------------------
/// A line that sets `key` to a text, where there is one.
pub open spec fn setting(key: Seq<char>, value: Option<Seq<char>>) -> Seq<char> {
    match value {
        Some(v) => key + " = \""@ + toml_text(v) + "\"\n"@,
        None => Seq::empty(),
    }
}

/// The project section of a configuration file.
pub open spec fn project_section(token: Option<Seq<char>>, api_url: Option<Seq<char>>) -> Seq<char> {
    "[project]\n"@ + setting("token"@, token) + setting("api_url"@, api_url)
}

/// The lines of the first `n` report patterns.
pub open spec fn pattern_lines(patterns: Seq<Seq<char>>, n: int) -> Seq<char>
    decreases n,
{
    if n <= 0 {
        Seq::empty()
    } else {
        pattern_lines(patterns, n - 1) + "    \""@ + toml_text(patterns[n - 1]) + "\",\n"@
    }
}

fn setting_text(key: &str, value: &Option<String>) -> (r: String)
    ensures
        r@ == setting(key@, opt_text(*value)),
{
    match value {
        Some(v) => {
            let head = concat3(key, " = \"", toml_escape(v.as_str()).as_str());
            concat2(head.as_str(), "\"\n")
        },
        None => {
            let r = String::new();
            assert(r@ =~= Seq::<char>::empty());
            r
        },
    }
}

/// The text of a global configuration file: token and address only.
pub fn render_global_config(token: &Option<String>, api_url: &Option<String>) -> (r: String)
    ensures
        r@ == project_section(opt_text(*token), opt_text(*api_url)),
{
    concat3(
        "[project]\n",
        setting_text("token", token).as_str(),
        setting_text("api_url", api_url).as_str(),
    )
}

/// The text of a local configuration file.
pub fn render_config(
    token: &Option<String>,
    api_url: &Option<String>,
    report_patterns: &Vec<String>,
) -> (r: String)
    ensures
        r@ == project_section(opt_text(*token), opt_text(*api_url)) + "\n"@ + "[test]\n"@
            + "report_patterns = [\n"@ + pattern_lines(
            report_patterns.deep_view(),
            report_patterns@.len() as int,
        ) + "]\n"@,
{
    let ghost all = report_patterns.deep_view();
    let head = render_global_config(token, api_url);
    let head = concat3(head.as_str(), "\n", "[test]\n");
    let mut r = concat2(head.as_str(), "report_patterns = [\n");
    let ghost start = r@;
    let mut n: usize = 0;
    assert(start + Seq::<char>::empty() =~= start);
    while n < report_patterns.len()
        invariant
            0 <= n <= report_patterns@.len(),
            all == report_patterns.deep_view(),
            r@ == start + pattern_lines(all, n as int),
        decreases report_patterns@.len() - n,
    {
        let ghost known = pattern_lines(all, n as int);
        assert(all[n as int] == report_patterns@[n as int]@);
        let line = concat3("    \"", toml_escape(report_patterns[n].as_str()).as_str(), "\",\n");
        let ghost before = r@;
        r = concat2(r.as_str(), line.as_str());
        proof {
            let a = "    \""@;
            let b = toml_text(all[n as int]);
            let c = "\",\n"@;
            assert((start + known) + (a + b + c) =~= start + (known + a + b + c));
        }
        n += 1;
    }
    concat2(r.as_str(), "]\n")
}

/// A token for display: its first and last four characters, or nothing of it where it is shorter
/// than twelve.
pub open spec fn masked(token: Seq<char>) -> Seq<char> {
    if token.len() < 12 {
        "****"@
    } else {
        token.take(4) + "***"@ + token.skip(token.len() - 4)
    }
}

/// A token for display. Tokens shorter than twelve characters are hidden whole.
pub fn mask_token(token: &str) -> (r: String)
    ensures
        r@ == masked(token@),
{
    let v = chars_of(token);
    let n: usize = v.len();
    if n < 12 {
        return "****".to_owned();
    }
    let head = slice_of(&v, 0, 4);
    let tail = slice_of(&v, n - 4, n);
    assert(head@ =~= token@.take(4));
    assert(tail@ =~= token@.skip(token@.len() - 4));
    concat3(text_of(&head).as_str(), "***", text_of(&tail).as_str())
}

/// A masked token shows at most eight characters of the token.
pub proof fn masking_hides(token: Seq<char>)
    ensures
        token.len() >= 12 ==> masked(token).len() == 8 + "***"@.len(),
        token.len() < 12 ==> masked(token) == "****"@,
{
}

// ---------------------------------------------------------------------------------------------
// Listing
// ---------------------------------------------------------------------------------------------
/// A line of a listing of the configuration.
pub enum ConfigLine {
    Blank,
    Heading(String),
    /// A label and what it stands for.
    Field(String, String),
    Item(String),
    /// A file that is there.
    Present(String),
    /// A file that is not there.
    Missing(String),
}

/// What a `ConfigLine` says.
pub ghost enum LineView {
    Blank,
    Heading(Seq<char>),
    Field(Seq<char>, Seq<char>),
    Item(Seq<char>),
    Present(Seq<char>),
    Missing(Seq<char>),
}

impl DeepView for ConfigLine {
    type V = LineView;

    open spec fn deep_view(&self) -> LineView {
        match self {
            ConfigLine::Blank => LineView::Blank,
            ConfigLine::Heading(t) => LineView::Heading(t@),
            ConfigLine::Field(l, t) => LineView::Field(l@, t@),
            ConfigLine::Item(t) => LineView::Item(t@),
            ConfigLine::Present(t) => LineView::Present(t@),
            ConfigLine::Missing(t) => LineView::Missing(t@),
        }
    }
}

/// A value with its source.
pub open spec fn sourced(value: Seq<char>, source: ConfigSource) -> Seq<char> {
    value + "  ("@ + source_mark(source) + ")"@
}

/// How the token is shown.
pub open spec fn shown_token(c: Config) -> Seq<char> {
    match c.token {
        Some(t) => masked(t@),
        None => "(not set)"@,
    }
}

/// How the address is shown.
pub open spec fn shown_url(c: Config) -> Seq<char> {
    match c.api_url {
        Some(u) => u@,
        None => "https://app.gaffer.sh (default)"@,
    }
}

/// The first `n` checked files that were not there.
pub open spec fn not_found(checked: Seq<(String, bool)>, n: int) -> Seq<Seq<char>>
    decreases n,
{
    if n <= 0 {
        Seq::empty()
    } else if checked[n - 1].1 {
        not_found(checked, n - 1)
    } else {
        not_found(checked, n - 1).push(checked[n - 1].0@)
    }
}

/// The lines for the files that were not there: the first four, and how many more.
pub open spec fn missing_lines(files: Seq<Seq<char>>) -> Seq<LineView> {
    let shown = if files.len() > 4 {
        4nat
    } else {
        files.len()
    };
    let lines = Seq::new(shown, |k: int| LineView::Missing(files[k] + "  (not found)"@));
    if files.len() > 4 {
        lines.push(
            LineView::Missing("... and "@ + decimal((files.len() - 4) as nat) + " more checked"@),
        )
    } else {
        lines
    }
}

/// The line for the local configuration, where there is one.
pub open spec fn local_line(c: Config) -> Seq<LineView> {
    match c.sources.local_config_path {
        Some(p) => seq![LineView::Present(p@ + "  (local)"@)],
        None => Seq::empty(),
    }
}

/// The line for the global configuration: where it is, or would be.
pub open spec fn global_line(c: Config, would_be: Option<String>) -> LineView {
    match c.sources.global_config_path {
        Some(p) => LineView::Present(p@ + "  (global)"@),
        None => match would_be {
            Some(p) => LineView::Missing(p@ + "  (global, not found)"@),
            None => LineView::Missing("global config  (cannot determine home directory)"@),
        },
    }
}

/// The report patterns, one line each.
pub open spec fn pattern_items(patterns: Seq<Seq<char>>) -> Seq<LineView> {
    Seq::new(patterns.len(), |k: int| LineView::Item(patterns[k]))
}

/// The lines for the values and their sources.
pub open spec fn value_lines(c: Config) -> Seq<LineView> {
    seq![
        LineView::Blank,
        LineView::Heading("Resolved Configuration"@),
        LineView::Blank,
        LineView::Field("token:"@, sourced(shown_token(c), c.sources.token)),
        LineView::Field("api_url:"@, sourced(shown_url(c), c.sources.api_url)),
        LineView::Field(
            "patterns:"@,
            sourced(
                decimal(c.report_patterns@.len()) + " patterns"@,
                c.sources.report_patterns,
            ),
        ),
    ]
}

/// The lines for the project root, and the heading of the files.
pub open spec fn root_lines(c: Config) -> Seq<LineView> {
    seq![
        LineView::Blank,
        LineView::Field("project_root:"@, c.project_root@),
        LineView::Blank,
        LineView::Heading("Config files:"@),
    ]
}

/// The listing of a configuration.
pub open spec fn config_listing(c: Config, would_be: Option<String>) -> Seq<LineView> {
    value_lines(c) + pattern_items(c.report_patterns.deep_view()) + root_lines(c) + local_line(c)
        + missing_lines(
        not_found(c.sources.checked_paths@, c.sources.checked_paths@.len() as int),
    ) + seq![global_line(c, would_be), LineView::Blank]
}

fn sourced_text(value: &str, source: &ConfigSource) -> (r: String)
    ensures
        r@ == sourced(value@, *source),
{
    let head = concat3(value, "  (", source_label(source));
    concat2(head.as_str(), ")")
}

fn push_line(lines: &mut Vec<ConfigLine>, line: ConfigLine)
    ensures
        final(lines).deep_view() == old(lines).deep_view().push(line.deep_view()),
{
    let ghost before = lines.deep_view();
    let ghost view = line.deep_view();
    lines.push(line);
    assert(lines.deep_view() =~= before.push(view));
}

fn missing_files(checked: &Vec<(String, bool)>) -> (r: Vec<String>)
    ensures
        r.deep_view() == not_found(checked@, checked@.len() as int),
{
    let mut r: Vec<String> = Vec::new();
    let mut n: usize = 0;
    assert(r.deep_view() =~= Seq::<Seq<char>>::empty());
    while n < checked.len()
        invariant
            0 <= n <= checked@.len(),
            r.deep_view() == not_found(checked@, n as int),
        decreases checked@.len() - n,
    {
        let ghost before = r.deep_view();
        if !checked[n].1 {
            r.push(checked[n].0.clone());
            assert(r.deep_view() =~= before.push(checked@[n as int].0@));
        }
        n += 1;
    }
    r
}

fn list_values(config: &Config) -> (r: Vec<ConfigLine>)
    ensures
        r.deep_view() == value_lines(*config),
{
    let mut r: Vec<ConfigLine> = Vec::new();
    push_line(&mut r, ConfigLine::Blank);
    push_line(&mut r, ConfigLine::Heading("Resolved Configuration".to_owned()));
    push_line(&mut r, ConfigLine::Blank);
    let token = match &config.token {
        Some(t) => mask_token(t.as_str()),
        None => "(not set)".to_owned(),
    };
    push_line(
        &mut r,
        ConfigLine::Field(
            "token:".to_owned(),
            sourced_text(token.as_str(), &config.sources.token),
        ),
    );
    let url = match &config.api_url {
        Some(u) => u.as_str(),
        None => "https://app.gaffer.sh (default)",
    };
    push_line(
        &mut r,
        ConfigLine::Field("api_url:".to_owned(), sourced_text(url, &config.sources.api_url)),
    );
    let count = concat2(decimal_of(config.report_patterns.len() as u64).as_str(), " patterns");
    push_line(
        &mut r,
        ConfigLine::Field(
            "patterns:".to_owned(),
            sourced_text(count.as_str(), &config.sources.report_patterns),
        ),
    );
    assert(r.deep_view() =~= value_lines(*config));
    r
}

fn push_patterns(r: &mut Vec<ConfigLine>, patterns: &Vec<String>)
    ensures
        final(r).deep_view() == old(r).deep_view() + pattern_items(patterns.deep_view()),
{
    let ghost head = r.deep_view();
    let ghost items = pattern_items(patterns.deep_view());
    let mut k: usize = 0;
    assert(head + items.take(0) =~= head);
    while k < patterns.len()
        invariant
            0 <= k <= patterns@.len(),
            items == pattern_items(patterns.deep_view()),
            r.deep_view() == head + items.take(k as int),
        decreases patterns@.len() - k,
    {
        let ghost before = r.deep_view();
        push_line(r, ConfigLine::Item(patterns[k].clone()));
        assert(before.push(items[k as int]) =~= head + items.take(k + 1));
        k += 1;
    }
    assert(items.take(k as int) =~= items);
}

fn push_root(r: &mut Vec<ConfigLine>, config: &Config)
    ensures
        final(r).deep_view() == old(r).deep_view() + root_lines(*config),
{
    let ghost head = r.deep_view();
    push_line(r, ConfigLine::Blank);
    push_line(r, ConfigLine::Field("project_root:".to_owned(), config.project_root.clone()));
    push_line(r, ConfigLine::Blank);
    push_line(r, ConfigLine::Heading("Config files:".to_owned()));
    assert(r.deep_view() =~= head + root_lines(*config));
}

fn push_missing(r: &mut Vec<ConfigLine>, missing: &Vec<String>)
    ensures
        final(r).deep_view() == old(r).deep_view() + missing_lines(missing.deep_view()),
{
    let ghost head = r.deep_view();
    let ghost files = missing.deep_view();
    let shown: usize = if missing.len() > 4 {
        4
    } else {
        missing.len()
    };
    let ghost lines = Seq::new(
        shown as nat,
        |k: int| LineView::Missing(files[k] + "  (not found)"@),
    );
    let mut k: usize = 0;
    assert(head + lines.take(0) =~= head);
    while k < shown
        invariant
            0 <= k <= shown <= missing@.len(),
            files == missing.deep_view(),
            lines == Seq::new(
                shown as nat,
                |k: int| LineView::Missing(files[k] + "  (not found)"@),
            ),
            r.deep_view() == head + lines.take(k as int),
        decreases shown - k,
    {
        let ghost before = r.deep_view();
        assert(files[k as int] == missing@[k as int]@);
        push_line(r, ConfigLine::Missing(concat2(missing[k].as_str(), "  (not found)")));
        assert(before.push(lines[k as int]) =~= head + lines.take(k + 1));
        k += 1;
    }
    assert(lines.take(k as int) =~= lines);
    if missing.len() > 4 {
        let text = concat3(
            "... and ",
            decimal_of((missing.len() - 4) as u64).as_str(),
            " more checked",
        );
        let ghost last = LineView::Missing(text@);
        push_line(r, ConfigLine::Missing(text));
        assert((head + lines).push(last) =~= head + lines.push(last));
    }
}

/// The lines that list a configuration. `would_be` is where a global configuration would stand.
pub fn list(config: &Config, would_be: &Option<String>) -> (r: Vec<ConfigLine>)
    ensures
        r.deep_view() == config_listing(*config, *would_be),
{
    let mut r = list_values(config);
    push_patterns(&mut r, &config.report_patterns);
    push_root(&mut r, config);
    let ghost head = r.deep_view();
    if let Some(p) = &config.sources.local_config_path {
        push_line(&mut r, ConfigLine::Present(concat2(p.as_str(), "  (local)")));
    }
    assert(r.deep_view() =~= head + local_line(*config));
    let missing = missing_files(&config.sources.checked_paths);
    push_missing(&mut r, &missing);
    let ghost most = r.deep_view();
    let global = match &config.sources.global_config_path {
        Some(p) => ConfigLine::Present(concat2(p.as_str(), "  (global)")),
        None => match would_be {
            Some(p) => ConfigLine::Missing(concat2(p.as_str(), "  (global, not found)")),
            None => ConfigLine::Missing(
                "global config  (cannot determine home directory)".to_owned(),
            ),
        },
    };
    push_line(&mut r, global);
    push_line(&mut r, ConfigLine::Blank);
    assert(r.deep_view() =~= most + seq![global_line(*config, *would_be), LineView::Blank]);
    r
}

} // verus!
