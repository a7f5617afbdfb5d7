//! Test frameworks: which ones a project uses, and whether they write reports.
use vstd::prelude::*;

use crate::paths::{components, file_name, is_dot_dot, parts_of};
use crate::text::{concat3, contains, has, opt_text, rows, text_of};
use crate::tree::{entry_at, file_for, leads_anywhere, Files, ProjectTree};

verus! {

/// The file that configures pytest.
pub enum PytestConfig {
    PyprojectToml(String),
    PytestIni(String),
    SetupCfg(String),
}

/// A test framework, with the file that configures it.
pub enum Framework {
    Vitest(String),
    Playwright(String),
    Pytest(PytestConfig),
    Jest(String),
    Go,
    Rspec,
}

/// Whether a framework writes reports.
pub enum PatchResult {
    /// It does, in this format.
    AlreadyConfigured { file: String, format: &'static str },
    /// It does not; this is how to make it.
    Instructions(String),
}

/// What a `PytestConfig` says.
pub ghost enum PytestView {
    PyprojectToml(Seq<char>),
    PytestIni(Seq<char>),
    SetupCfg(Seq<char>),
}

/// What a `Framework` says.
pub ghost enum FrameworkView {
    Vitest(Seq<char>),
    Playwright(Seq<char>),
    Pytest(PytestView),
    Jest(Seq<char>),
    Go,
    Rspec,
}

impl DeepView for PytestConfig {
    type V = PytestView;

    open spec fn deep_view(&self) -> PytestView {
        match self {
            PytestConfig::PyprojectToml(p) => PytestView::PyprojectToml(p@),
            PytestConfig::PytestIni(p) => PytestView::PytestIni(p@),
            PytestConfig::SetupCfg(p) => PytestView::SetupCfg(p@),
        }
    }
}

impl DeepView for Framework {
    type V = FrameworkView;

    open spec fn deep_view(&self) -> FrameworkView {
        match self {
            Framework::Vitest(p) => FrameworkView::Vitest(p@),
            Framework::Playwright(p) => FrameworkView::Playwright(p@),
            Framework::Pytest(c) => FrameworkView::Pytest(c.deep_view()),
            Framework::Jest(p) => FrameworkView::Jest(p@),
            Framework::Go => FrameworkView::Go,
            Framework::Rspec => FrameworkView::Rspec,
        }
    }
}

/// The path in a pytest configuration.
pub open spec fn pytest_path(c: PytestView) -> Seq<char> {
    match c {
        PytestView::PyprojectToml(p) => p,
        PytestView::PytestIni(p) => p,
        PytestView::SetupCfg(p) => p,
    }
}

impl PytestConfig {
    /// The configuration file.
    pub fn path(&self) -> (r: &str)
        ensures
            r@ == pytest_path(self.deep_view()),
    {
        match self {
            PytestConfig::PyprojectToml(p) => p.as_str(),
            PytestConfig::PytestIni(p) => p.as_str(),
            PytestConfig::SetupCfg(p) => p.as_str(),
        }
    }
}

/// The last component of a path; empty where there is none.
pub open spec fn base_name(path: Seq<char>) -> Seq<char> {
    match file_name(components(path)) {
        Some(name) => name,
        None => Seq::empty(),
    }
}

fn base_name_of(path: &str) -> (r: String)
    ensures
        r@ == base_name(path@),
{
    let parts = parts_of(path);
    let n: usize = parts.len();
    if n > 0 {
        assert(rows(parts@).last() == parts@[n - 1]@);
        if !is_dot_dot(&parts[n - 1]) {
            return text_of(&parts[n - 1]);
        }
    }
    let r = String::new();
    assert(r@ =~= Seq::<char>::empty());
    r
}

/// How a framework is shown: its name, and its configuration file where it has one.
pub open spec fn framework_label(f: FrameworkView) -> Seq<char> {
    match f {
        FrameworkView::Vitest(p) => "vitest ("@ + base_name(p) + ")"@,
        FrameworkView::Playwright(p) => "playwright ("@ + base_name(p) + ")"@,
        FrameworkView::Pytest(c) => "pytest ("@ + base_name(pytest_path(c)) + ")"@,
        FrameworkView::Jest(p) => "jest ("@ + base_name(p) + ")"@,
        FrameworkView::Go => "go test"@,
        FrameworkView::Rspec => "rspec"@,
    }
}

impl Framework {
    /// How the framework is shown.
    pub fn label(&self) -> (r: String)
        ensures
            r@ == framework_label(self.deep_view()),
    {
        match self {
            Framework::Vitest(p) => concat3("vitest (", base_name_of(p.as_str()).as_str(), ")"),
            Framework::Playwright(p) => concat3(
                "playwright (",
                base_name_of(p.as_str()).as_str(),
                ")",
            ),
            Framework::Pytest(c) => concat3("pytest (", base_name_of(c.path()).as_str(), ")"),
            Framework::Jest(p) => concat3("jest (", base_name_of(p.as_str()).as_str(), ")"),
            Framework::Go => "go test".to_owned(),
            Framework::Rspec => "rspec".to_owned(),
        }
    }
}

// ---------------------------------------------------------------------------------------------
// Detection
// ---------------------------------------------------------------------------------------------
/// Whether the project root holds `name`.
pub open spec fn root_has(files: Files, name: Seq<char>) -> bool {
    leads_anywhere(files, components(name))
}

/// The text of the file `name` in the project root, where it could be read.
pub open spec fn root_text(files: Files, name: Seq<char>) -> Option<Seq<char>> {
    match file_for(files, components(name)) {
        Some(path) => match entry_at(files.entries, path, files.entries.len() as int) {
            Some(i) => opt_text(files.entries[i].contents),
            None => None,
        },
        None => None,
    }
}

/// Whether the file `name` in the project root could be read and holds `word`.
pub open spec fn root_mentions(files: Files, name: Seq<char>, word: Seq<char>) -> bool {
    match root_text(files, name) {
        Some(text) => contains(text, word),
        None => false,
    }
}

/// Whether the project root holds `name`.
pub fn has_in_root(tree: &ProjectTree, name: &str) -> (r: bool)
    ensures
        r == root_has(tree@, name@),
{
    tree.has_any(&parts_of(name))
}

/// The text of the file `name` in the project root, where it could be read.
pub fn text_in_root(tree: &ProjectTree, name: &str) -> (r: Option<String>)
    ensures
        opt_text(r) == root_text(tree@, name@),
{
    match tree.file(&parts_of(name)) {
        Some(path) => match tree.find(path.as_str()) {
            Some(i) => match &tree.entries()[i].contents {
                Some(text) => Some(text.clone()),
                None => None,
            },
            None => None,
        },
        None => None,
    }
}

fn mentions(tree: &ProjectTree, name: &str, word: &str) -> (r: bool)
    ensures
        r == root_mentions(tree@, name@, word@),
{
    match text_in_root(tree, name) {
        Some(text) => has(text.as_str(), word),
        None => false,
    }
}

/// The first of the names from number `k` on that the project root holds.
pub open spec fn first_present(files: Files, names: Seq<Seq<char>>, k: int) -> Option<
    Seq<char>,
>
    decreases names.len() - k,
{
    if k < 0 || k >= names.len() {
        None
    } else if root_has(files, names[k]) {
        Some(names[k])
    } else {
        first_present(files, names, k + 1)
    }
}

fn find_first(tree: &ProjectTree, names: &Vec<&'static str>) -> (r: Option<String>)
    ensures
        opt_text(r) == first_present(tree@, names.deep_view(), 0),
{
    let ghost all = names.deep_view();
    let mut k: usize = 0;
    while k < names.len()
        invariant
            0 <= k <= names@.len(),
            all == names.deep_view(),
            first_present(tree@, all, 0) == first_present(tree@, all, k as int),
        decreases names@.len() - k,
    {
        assert(all[k as int] == names@[k as int]@);
        if has_in_root(tree, names[k]) {
            return Some(names[k].to_owned());
        }
        k += 1;
    }
    None
}

pub open spec fn vitest_files() -> Seq<Seq<char>> {
    seq!["vitest.config.ts"@, "vitest.config.js"@, "vitest.config.mts"@, "vitest.config.mjs"@]
}

pub open spec fn playwright_files() -> Seq<Seq<char>> {
    seq!["playwright.config.ts"@, "playwright.config.js"@]
}

pub open spec fn jest_files() -> Seq<Seq<char>> {
    seq!["jest.config.ts"@, "jest.config.js"@, "jest.config.mjs"@, "jest.config.cjs"@]
}

/// The pytest configuration: in `pyproject.toml` where that has a section for it, else in
/// `pytest.ini`, else in `setup.cfg` where that has a section for it.
pub open spec fn pytest_in(files: Files) -> Option<PytestView> {
    if root_mentions(files, "pyproject.toml"@, "[tool.pytest"@) {
        Some(PytestView::PyprojectToml("pyproject.toml"@))
    } else if root_has(files, "pytest.ini"@) {
        Some(PytestView::PytestIni("pytest.ini"@))
    } else if root_mentions(files, "setup.cfg"@, "[tool:pytest]"@) {
        Some(PytestView::SetupCfg("setup.cfg"@))
    } else {
        None
    }
}

/// Whether the project uses RSpec: it has a `.rspec`, or its `Gemfile` names it.
pub open spec fn uses_rspec(files: Files) -> bool {
    root_has(files, ".rspec"@) || (root_has(files, "Gemfile"@) && root_mentions(
        files,
        "Gemfile"@,
        "rspec"@,
    ))
}

/// `list`, with `f` at its end where there is one.
pub open spec fn push_some(list: Seq<FrameworkView>, f: Option<FrameworkView>) -> Seq<
    FrameworkView,
> {
    match f {
        Some(v) => list.push(v),
        None => list,
    }
}

/// The frameworks of a project, in the order in which they are looked for.
pub open spec fn frameworks_in(files: Files) -> Seq<FrameworkView> {
    let vitest = match first_present(files, vitest_files(), 0) {
        Some(p) => Some(FrameworkView::Vitest(p)),
        None => None,
    };
    let playwright = match first_present(files, playwright_files(), 0) {
        Some(p) => Some(FrameworkView::Playwright(p)),
        None => None,
    };
    let jest = match first_present(files, jest_files(), 0) {
        Some(p) => Some(FrameworkView::Jest(p)),
        None => None,
    };
    let pytest = match pytest_in(files) {
        Some(c) => Some(FrameworkView::Pytest(c)),
        None => None,
    };
    let go = if root_has(files, "go.mod"@) {
        Some(FrameworkView::Go)
    } else {
        None
    };
    let rspec = if uses_rspec(files) {
        Some(FrameworkView::Rspec)
    } else {
        None
    };
    push_some(
        push_some(
            push_some(
                push_some(push_some(push_some(Seq::empty(), vitest), playwright), jest),
                pytest,
            ),
            go,
        ),
        rspec,
    )
}

fn push_framework(list: &mut Vec<Framework>, f: Option<Framework>)
    ensures
        final(list).deep_view() == push_some(
            old(list).deep_view(),
            match f {
                Some(v) => Some(v.deep_view()),
                None => None,
            },
        ),
{
    let ghost before = list.deep_view();
    if let Some(v) = f {
        let ghost view = v.deep_view();
        list.push(v);
        assert(list.deep_view() =~= before.push(view));
    }
}

fn find_pytest(tree: &ProjectTree) -> (r: Option<Framework>)
    ensures
        match r {
            Some(f) => pytest_in(tree@) is Some && f.deep_view() == FrameworkView::Pytest(
                pytest_in(tree@)->0,
            ),
            None => pytest_in(tree@) is None,
        },
{
    if mentions(tree, "pyproject.toml", "[tool.pytest") {
        return Some(Framework::Pytest(PytestConfig::PyprojectToml("pyproject.toml".to_owned())));
    }
    if has_in_root(tree, "pytest.ini") {
        return Some(Framework::Pytest(PytestConfig::PytestIni("pytest.ini".to_owned())));
    }
    if mentions(tree, "setup.cfg", "[tool:pytest]") {
        return Some(Framework::Pytest(PytestConfig::SetupCfg("setup.cfg".to_owned())));
    }
    None
}

/// The test frameworks of a project.
pub fn detect_frameworks(tree: &ProjectTree) -> (r: Vec<Framework>)
    ensures
        r.deep_view() == frameworks_in(tree@),
{
    let mut r: Vec<Framework> = Vec::new();
    assert(r.deep_view() =~= Seq::<FrameworkView>::empty());
    let names = vec!["vitest.config.ts", "vitest.config.js", "vitest.config.mts", "vitest.config.mjs"];
    assert(names.deep_view() =~= vitest_files());
    let vitest = match find_first(tree, &names) {
        Some(p) => Some(Framework::Vitest(p)),
        None => None,
    };
    push_framework(&mut r, vitest);
    let names = vec!["playwright.config.ts", "playwright.config.js"];
    assert(names.deep_view() =~= playwright_files());
    let playwright = match find_first(tree, &names) {
        Some(p) => Some(Framework::Playwright(p)),
        None => None,
    };
    push_framework(&mut r, playwright);
    let names = vec!["jest.config.ts", "jest.config.js", "jest.config.mjs", "jest.config.cjs"];
    assert(names.deep_view() =~= jest_files());
    let jest = match find_first(tree, &names) {
        Some(p) => Some(Framework::Jest(p)),
        None => None,
    };
    push_framework(&mut r, jest);
    push_framework(&mut r, find_pytest(tree));
    let go = if has_in_root(tree, "go.mod") {
        Some(Framework::Go)
    } else {
        None
    };
    push_framework(&mut r, go);
    let rspec = if has_in_root(tree, ".rspec") || (has_in_root(tree, "Gemfile") && mentions(
        tree,
        "Gemfile",
        "rspec",
    )) {
        Some(Framework::Rspec)
    } else {
        None
    };
    push_framework(&mut r, rspec);
    r
}

// ---------------------------------------------------------------------------------------------
// Reporters
// ---------------------------------------------------------------------------------------------
/// The report format that a JavaScript configuration asks for.
pub open spec fn js_reporter(content: Seq<char>) -> Option<Seq<char>> {
    if contains(content, "'junit'"@) || contains(content, "\"junit\""@) {
        Some("JUnit"@)
    } else if contains(content, "ctrf"@) {
        Some("CTRF"@)
    } else if (contains(content, "'json'"@) || contains(content, "\"json\""@)) && contains(
        content,
        ".gaffer/"@,
    ) {
        Some("JSON"@)
    } else {
        None
    }
}

/// The report format that a JavaScript configuration asks for.
pub fn detect_js_reporter(content: &str) -> (r: Option<&'static str>)
    ensures
        match r {
            Some(f) => js_reporter(content@) == Some(f@),
            None => js_reporter(content@) is None,
        },
{
    if has(content, "'junit'") || has(content, "\"junit\"") {
        return Some("JUnit");
    }
    if has(content, "ctrf") {
        return Some("CTRF");
    }
    if (has(content, "'json'") || has(content, "\"json\"")) && has(content, ".gaffer/") {
        return Some("JSON");
    }
    None
}

/// How to make a framework write reports.
pub open spec fn instructions(f: FrameworkView) -> Seq<char> {
    match f {
        FrameworkView::Vitest(p) => "Vitest — add a JSON reporter to "@ + base_name(p)
            + ":\n\n  reporters: ['default', 'json'],\n  outputFile: {\n    json: '.gaffer/reports/vitest-results.json',\n  },\n"@,
        FrameworkView::Playwright(p) => "Playwright — add a JSON reporter to "@ + base_name(p)
            + ":\n\n  reporter: [\n    ['html'],\n    ['json', { outputFile: '.gaffer/reports/playwright-results.json' }],\n  ],\n"@,
        FrameworkView::Pytest(c) => "Pytest — add JUnit output to "@ + base_name(pytest_path(c))
            + match c {
            PytestView::PyprojectToml(_) =>
                ":\n\n  [tool.pytest.ini_options]\n  addopts = \"--junitxml=.gaffer/reports/junit.xml\"\n"@,
            _ => ":\n\n  [pytest]\n  addopts = --junitxml=.gaffer/reports/junit.xml\n"@,
        },
        FrameworkView::Jest(p) =>
            "Jest requires a reporter package for structured output.\n\nOption 1 — JUnit:\n  1. Install: pnpm add -D jest-junit\n  2. Add to "@
            + base_name(p)
            + " (or package.json):\n\n    reporters: ['default', ['jest-junit', {\n      outputDirectory: '.gaffer/reports',\n      outputName: 'junit.xml',\n    }]],\n\nOption 2 — CTRF:\n  1. Install: pnpm add -D jest-ctrf-json-reporter\n  2. Add to "@
            + base_name(p)
            + " (or package.json):\n\n    reporters: ['default', ['jest-ctrf-json-reporter', {\n      outputDir: '.gaffer/reports',\n    }]],\n"@,
        FrameworkView::Go =>
            "Go test requires gotestsum for structured output.\n\nOption 1 — JUnit:\n   1. Install: go install gotest.tools/gotestsum@latest\n   2. Run: gotestsum --junitfile .gaffer/reports/junit.xml -- ./...\n\nOption 2 — CTRF:\n   1. Install: go install github.com/ctrf-io/go-ctrf-json-reporter@latest\n   2. Run: go test -json ./... | go-ctrf-json-reporter -output .gaffer/reports/ctrf-report.json\n\nOr wrap with gaffer:\n   gaffer test -- gotestsum --junitfile .gaffer/reports/junit.xml -- ./...\n"@,
        FrameworkView::Rspec =>
            "RSpec requires a reporter gem for structured output.\n\nOption 1 — JUnit:\n   1. Install: gem install rspec_junit_formatter\n   2. Add to .rspec:\n      --format RspecJunitFormatter\n      --out .gaffer/reports/junit.xml\n\n   Or keep default output too:\n      --format documentation\n      --format RspecJunitFormatter\n      --out .gaffer/reports/junit.xml\n\nOption 2 — CTRF:\n   1. Install: gem install rspec-ctrf-json-formatter\n   2. Add to .rspec:\n      --format CtrfJsonFormatter\n      --out .gaffer/reports/ctrf-report.json\n"@,
    }
}

/// The configuration file that tells whether a framework writes reports, and the format that it
/// asks for, given the file's text.
pub open spec fn configured(f: FrameworkView, text: Option<Seq<char>>) -> Option<
    (Seq<char>, Seq<char>),
> {
    match (f, text) {
        (FrameworkView::Vitest(p), Some(t)) => match js_reporter(t) {
            Some(format) => Some((p, format)),
            None => None,
        },
        (FrameworkView::Playwright(p), Some(t)) => match js_reporter(t) {
            Some(format) => Some((p, format)),
            None => None,
        },
        (FrameworkView::Pytest(c), Some(t)) => if contains(t, "--junitxml"@) {
            Some((pytest_path(c), "JUnit"@))
        } else {
            None
        },
        _ => None,
    }
}

fn instructions_text(f: &Framework) -> (r: String)
    ensures
        r@ == instructions(f.deep_view()),
{
    match f {
        Framework::Vitest(p) => concat3(
            "Vitest — add a JSON reporter to ",
            base_name_of(p.as_str()).as_str(),
            ":\n\n  reporters: ['default', 'json'],\n  outputFile: {\n    json: '.gaffer/reports/vitest-results.json',\n  },\n",
        ),
        Framework::Playwright(p) => concat3(
            "Playwright — add a JSON reporter to ",
            base_name_of(p.as_str()).as_str(),
            ":\n\n  reporter: [\n    ['html'],\n    ['json', { outputFile: '.gaffer/reports/playwright-results.json' }],\n  ],\n",
        ),
        Framework::Pytest(c) => {
            let tail = match c {
                PytestConfig::PyprojectToml(_) =>
                    ":\n\n  [tool.pytest.ini_options]\n  addopts = \"--junitxml=.gaffer/reports/junit.xml\"\n",
                _ => ":\n\n  [pytest]\n  addopts = --junitxml=.gaffer/reports/junit.xml\n",
            };
            concat3("Pytest — add JUnit output to ", base_name_of(c.path()).as_str(), tail)
        },
        Framework::Jest(p) => {
            let name = base_name_of(p.as_str());
            let head = concat3(
                "Jest requires a reporter package for structured output.\n\nOption 1 — JUnit:\n  1. Install: pnpm add -D jest-junit\n  2. Add to ",
                name.as_str(),
                " (or package.json):\n\n    reporters: ['default', ['jest-junit', {\n      outputDirectory: '.gaffer/reports',\n      outputName: 'junit.xml',\n    }]],\n\nOption 2 — CTRF:\n  1. Install: pnpm add -D jest-ctrf-json-reporter\n  2. Add to ",
            );
            concat3(
                head.as_str(),
                name.as_str(),
                " (or package.json):\n\n    reporters: ['default', ['jest-ctrf-json-reporter', {\n      outputDir: '.gaffer/reports',\n    }]],\n",
            )
        },
        Framework::Go =>
            "Go test requires gotestsum for structured output.\n\nOption 1 — JUnit:\n   1. Install: go install gotest.tools/gotestsum@latest\n   2. Run: gotestsum --junitfile .gaffer/reports/junit.xml -- ./...\n\nOption 2 — CTRF:\n   1. Install: go install github.com/ctrf-io/go-ctrf-json-reporter@latest\n   2. Run: go test -json ./... | go-ctrf-json-reporter -output .gaffer/reports/ctrf-report.json\n\nOr wrap with gaffer:\n   gaffer test -- gotestsum --junitfile .gaffer/reports/junit.xml -- ./...\n".to_owned(),
        Framework::Rspec =>
            "RSpec requires a reporter gem for structured output.\n\nOption 1 — JUnit:\n   1. Install: gem install rspec_junit_formatter\n   2. Add to .rspec:\n      --format RspecJunitFormatter\n      --out .gaffer/reports/junit.xml\n\n   Or keep default output too:\n      --format documentation\n      --format RspecJunitFormatter\n      --out .gaffer/reports/junit.xml\n\nOption 2 — CTRF:\n   1. Install: gem install rspec-ctrf-json-formatter\n   2. Add to .rspec:\n      --format CtrfJsonFormatter\n      --out .gaffer/reports/ctrf-report.json\n".to_owned(),
    }
}

/// Whether a framework writes reports, given the text of its configuration file, which is missing
/// where it could not be read.
pub fn check_reporter(framework: &Framework, config: &Option<String>) -> (r: PatchResult)
    ensures
        match r {
            PatchResult::AlreadyConfigured { file, format } => configured(
                framework.deep_view(),
                opt_text(*config),
            ) == Some((file@, format@)),
            PatchResult::Instructions(text) => configured(
                framework.deep_view(),
                opt_text(*config),
            ) is None && text@ == instructions(framework.deep_view()),
        },
{
    if let Some(text) = config {
        match framework {
            Framework::Vitest(p) => {
                if let Some(format) = detect_js_reporter(text.as_str()) {
                    return PatchResult::AlreadyConfigured { file: p.clone(), format };
                }
            },
            Framework::Playwright(p) => {
                if let Some(format) = detect_js_reporter(text.as_str()) {
                    return PatchResult::AlreadyConfigured { file: p.clone(), format };
                }
            },
            Framework::Pytest(c) => {
                if has(text.as_str(), "--junitxml") {
                    return PatchResult::AlreadyConfigured {
                        file: c.path().to_owned(),
                        format: "JUnit",
                    };
                }
            },
            _ => {},
        }
    }
    PatchResult::Instructions(instructions_text(framework))
}

} // verus!
