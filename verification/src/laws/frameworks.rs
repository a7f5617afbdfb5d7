//! Which test frameworks a project uses.
use vstd::prelude::*;

use crate::affected::package_manager;
use crate::framework::{
    first_present, frameworks_in, jest_files, js_reporter, playwright_files, pytest_in, root_has,
    root_mentions, uses_rspec, vitest_files, FrameworkView, PytestView,
};
use crate::text::contains;
use crate::tree::Files;

verus! {

/// `f` is among the frameworks of a project.
pub open spec fn is_used(files: Files, f: FrameworkView) -> bool {
    frameworks_in(files).contains(f)
}

/// Where a framework stands in a list of frameworks.
pub open spec fn rank(f: FrameworkView) -> int {
    match f {
        FrameworkView::Vitest(_) => 0,
        FrameworkView::Playwright(_) => 1,
        FrameworkView::Jest(_) => 2,
        FrameworkView::Pytest(_) => 3,
        FrameworkView::Go => 4,
        FrameworkView::Rspec => 5,
    }
}

proof fn frameworks_are_pushed(files: Files, f: FrameworkView)
    ensures
        is_used(files, f) <==> match f {
            FrameworkView::Vitest(p) => first_present(files, vitest_files(), 0) == Some(p),
            FrameworkView::Playwright(p) => first_present(files, playwright_files(), 0) == Some(p),
            FrameworkView::Jest(p) => first_present(files, jest_files(), 0) == Some(p),
            FrameworkView::Pytest(c) => pytest_in(files) == Some(c),
            FrameworkView::Go => root_has(files, "go.mod"@),
            FrameworkView::Rspec => uses_rspec(files),
        },
        forall|i: int, j: int|
            0 <= i < j < frameworks_in(files).len() ==> rank(#[trigger] frameworks_in(files)[i])
                < rank(#[trigger] frameworks_in(files)[j]),
{
    let a = Seq::<FrameworkView>::empty();
    let x0 = match first_present(files, vitest_files(), 0) {
        Some(p) => Some(FrameworkView::Vitest(p)),
        None => None,
    };
    let x1 = match first_present(files, playwright_files(), 0) {
        Some(p) => Some(FrameworkView::Playwright(p)),
        None => None,
    };
    let x2 = match first_present(files, jest_files(), 0) {
        Some(p) => Some(FrameworkView::Jest(p)),
        None => None,
    };
    let x3 = match pytest_in(files) {
        Some(c) => Some(FrameworkView::Pytest(c)),
        None => None,
    };
    let x4 = if root_has(files, "go.mod"@) {
        Some(FrameworkView::Go)
    } else {
        None
    };
    let x5 = if uses_rspec(files) {
        Some(FrameworkView::Rspec)
    } else {
        None
    };
    let a0 = pushed(a, x0, f, 0);
    let a1 = pushed(a0, x1, f, 1);
    let a2 = pushed(a1, x2, f, 2);
    let a3 = pushed(a2, x3, f, 3);
    let a4 = pushed(a3, x4, f, 4);
    let a5 = pushed(a4, x5, f, 5);
    assert(a5 == frameworks_in(files));
}

proof fn pushed(
    list: Seq<FrameworkView>,
    x: Option<FrameworkView>,
    f: FrameworkView,
    r: int,
) -> (out: Seq<FrameworkView>)
    requires
        x is Some ==> rank(x->0) == r,
        forall|i: int| 0 <= i < list.len() ==> rank(#[trigger] list[i]) < r,
        forall|i: int, j: int|
            0 <= i < j < list.len() ==> rank(#[trigger] list[i]) < rank(#[trigger] list[j]),
    ensures
        out == crate::framework::push_some(list, x),
        out.contains(f) <==> list.contains(f) || x == Some(f),
        forall|i: int| 0 <= i < out.len() ==> rank(#[trigger] out[i]) < r + 1,
        forall|i: int, j: int|
            0 <= i < j < out.len() ==> rank(#[trigger] out[i]) < rank(#[trigger] out[j]),
{
    let out = crate::framework::push_some(list, x);
    if let Some(v) = x {
        assert(out[list.len() as int] == v);
        if list.contains(f) {
            let i = choose|i: int| 0 <= i < list.len() && list[i] == f;
            assert(out[i] == f);
        }
    }
    out
}

/// Vitest, Playwright and Jest are used where the root of the project holds one of their
/// configuration files; of several the first counts, with TypeScript before JavaScript.
pub proof fn configurations_show_frameworks(files: Files)
    ensures
        is_used(files, FrameworkView::Vitest("vitest.config.ts"@)) <==> root_has(
            files,
            "vitest.config.ts"@,
        ),
        is_used(files, FrameworkView::Vitest("vitest.config.js"@)) <==> root_has(
            files,
            "vitest.config.js"@,
        ) && !root_has(files, "vitest.config.ts"@),
        is_used(files, FrameworkView::Vitest("vitest.config.mts"@)) <==> root_has(
            files,
            "vitest.config.mts"@,
        ) && !root_has(files, "vitest.config.ts"@) && !root_has(files, "vitest.config.js"@),
        is_used(files, FrameworkView::Vitest("vitest.config.mjs"@)) <==> root_has(
            files,
            "vitest.config.mjs"@,
        ) && !root_has(files, "vitest.config.ts"@) && !root_has(files, "vitest.config.js"@)
            && !root_has(files, "vitest.config.mts"@),
        is_used(files, FrameworkView::Playwright("playwright.config.ts"@)) <==> root_has(
            files,
            "playwright.config.ts"@,
        ),
        is_used(files, FrameworkView::Playwright("playwright.config.js"@)) <==> root_has(
            files,
            "playwright.config.js"@,
        ) && !root_has(files, "playwright.config.ts"@),
        is_used(files, FrameworkView::Jest("jest.config.ts"@)) <==> root_has(
            files,
            "jest.config.ts"@,
        ),
        is_used(files, FrameworkView::Jest("jest.config.js"@)) <==> root_has(
            files,
            "jest.config.js"@,
        ) && !root_has(files, "jest.config.ts"@),
        is_used(files, FrameworkView::Jest("jest.config.mjs"@)) <==> root_has(
            files,
            "jest.config.mjs"@,
        ) && !root_has(files, "jest.config.ts"@) && !root_has(files, "jest.config.js"@),
        is_used(files, FrameworkView::Jest("jest.config.cjs"@)) <==> root_has(
            files,
            "jest.config.cjs"@,
        ) && !root_has(files, "jest.config.ts"@) && !root_has(files, "jest.config.js"@)
            && !root_has(files, "jest.config.mjs"@),
{
    names_differ();
    reveal_with_fuel(first_present, 5);
    let v = vitest_files();
    let p = playwright_files();
    let j = jest_files();
    assert(v.len() == 4 && p.len() == 2 && j.len() == 4);
    frameworks_are_pushed(files, FrameworkView::Vitest("vitest.config.ts"@));
    frameworks_are_pushed(files, FrameworkView::Vitest("vitest.config.js"@));
    frameworks_are_pushed(files, FrameworkView::Vitest("vitest.config.mts"@));
    frameworks_are_pushed(files, FrameworkView::Vitest("vitest.config.mjs"@));
    frameworks_are_pushed(files, FrameworkView::Playwright("playwright.config.ts"@));
    frameworks_are_pushed(files, FrameworkView::Playwright("playwright.config.js"@));
    frameworks_are_pushed(files, FrameworkView::Jest("jest.config.ts"@));
    frameworks_are_pushed(files, FrameworkView::Jest("jest.config.js"@));
    frameworks_are_pushed(files, FrameworkView::Jest("jest.config.mjs"@));
    frameworks_are_pushed(files, FrameworkView::Jest("jest.config.cjs"@));
}

proof fn names_differ()
    ensures
        "vitest.config.ts"@ != "vitest.config.js"@,
        "vitest.config.ts"@ != "vitest.config.mts"@,
        "vitest.config.ts"@ != "vitest.config.mjs"@,
        "vitest.config.js"@ != "vitest.config.mts"@,
        "vitest.config.js"@ != "vitest.config.mjs"@,
        "vitest.config.mts"@ != "vitest.config.mjs"@,
        "playwright.config.ts"@ != "playwright.config.js"@,
        "jest.config.ts"@ != "jest.config.js"@,
        "jest.config.ts"@ != "jest.config.mjs"@,
        "jest.config.ts"@ != "jest.config.cjs"@,
        "jest.config.js"@ != "jest.config.mjs"@,
        "jest.config.js"@ != "jest.config.cjs"@,
        "jest.config.mjs"@ != "jest.config.cjs"@,
{
    reveal_strlit("vitest.config.ts");
    reveal_strlit("vitest.config.js");
    reveal_strlit("vitest.config.mts");
    reveal_strlit("vitest.config.mjs");
    reveal_strlit("playwright.config.ts");
    reveal_strlit("playwright.config.js");
    reveal_strlit("jest.config.ts");
    reveal_strlit("jest.config.js");
    reveal_strlit("jest.config.mjs");
    reveal_strlit("jest.config.cjs");
    assert("vitest.config.ts"@[14] == 't' && "vitest.config.js"@[14] == 'j');
    assert("vitest.config.mts"@[15] == 't' && "vitest.config.mjs"@[15] == 'j');
    assert("vitest.config.mts"@[14] == 'm' && "vitest.config.mjs"@[14] == 'm');
    assert("playwright.config.ts"@[18] == 't' && "playwright.config.js"@[18] == 'j');
    assert("jest.config.ts"@[12] == 't' && "jest.config.js"@[12] == 'j');
    assert("jest.config.mjs"@[12] == 'm' && "jest.config.cjs"@[12] == 'c');
}

/// Go is used where the root holds a `go.mod`, RSpec where it holds a `.rspec` or a `Gemfile` that
/// names it, and pytest where one of its three configurations is there, the first of which counts.
pub proof fn files_show_frameworks(files: Files, c: PytestView)
    ensures
        is_used(files, FrameworkView::Go) <==> root_has(files, "go.mod"@),
        is_used(files, FrameworkView::Rspec) <==> root_has(files, ".rspec"@) || (root_has(
            files,
            "Gemfile"@,
        ) && root_mentions(files, "Gemfile"@, "rspec"@)),
        is_used(files, FrameworkView::Pytest(c)) && c is PyprojectToml ==> root_mentions(
            files,
            "pyproject.toml"@,
            "[tool.pytest"@,
        ),
        is_used(files, FrameworkView::Pytest(c)) && c is PytestIni ==> root_has(files, "pytest.ini"@)
            && !root_mentions(files, "pyproject.toml"@, "[tool.pytest"@),
        is_used(files, FrameworkView::Pytest(c)) && c is SetupCfg ==> root_mentions(
            files,
            "setup.cfg"@,
            "[tool:pytest]"@,
        ) && !root_has(files, "pytest.ini"@) && !root_mentions(
            files,
            "pyproject.toml"@,
            "[tool.pytest"@,
        ),
        root_mentions(files, "pyproject.toml"@, "[tool.pytest"@) ==> is_used(
            files,
            FrameworkView::Pytest(PytestView::PyprojectToml("pyproject.toml"@)),
        ),
        root_has(files, "pytest.ini"@) || root_mentions(files, "setup.cfg"@, "[tool:pytest]"@)
            ==> exists|d: PytestView| #[trigger] is_used(files, FrameworkView::Pytest(d)),
{
    frameworks_are_pushed(files, FrameworkView::Go);
    frameworks_are_pushed(files, FrameworkView::Rspec);
    frameworks_are_pushed(files, FrameworkView::Pytest(c));
    frameworks_are_pushed(
        files,
        FrameworkView::Pytest(PytestView::PyprojectToml("pyproject.toml"@)),
    );
    if pytest_in(files) is Some {
        frameworks_are_pushed(files, FrameworkView::Pytest(pytest_in(files)->0));
        assert(is_used(files, FrameworkView::Pytest(pytest_in(files)->0)));
    }
}

/// A framework is listed once, and the six stand in one order: those of JavaScript first, then
/// pytest, Go and RSpec.
pub proof fn frameworks_have_an_order(files: Files, i: int, j: int)
    requires
        0 <= i < j < frameworks_in(files).len(),
    ensures
        rank(frameworks_in(files)[i]) < rank(frameworks_in(files)[j]),
        frameworks_in(files)[i] != frameworks_in(files)[j],
{
    frameworks_are_pushed(files, FrameworkView::Go);
}

/// The lock file shows the package manager. Of several pnpm comes first, then Yarn, then Bun, whose
/// lock file has two names; without one there is `npx`.
pub proof fn lock_files_show_the_package_manager(files: Files)
    ensures
        root_has(files, "pnpm-lock.yaml"@) ==> package_manager(files) == "pnpm"@,
        !root_has(files, "pnpm-lock.yaml"@) && root_has(files, "yarn.lock"@) ==> package_manager(
            files,
        ) == "yarn"@,
        !root_has(files, "pnpm-lock.yaml"@) && !root_has(files, "yarn.lock"@) && (root_has(
            files,
            "bun.lockb"@,
        ) || root_has(files, "bun.lock"@)) ==> package_manager(files) == "bun"@,
        !root_has(files, "pnpm-lock.yaml"@) && !root_has(files, "yarn.lock"@) && !root_has(
            files,
            "bun.lockb"@,
        ) && !root_has(files, "bun.lock"@) ==> package_manager(files) == "npx"@,
{
}

/// A JavaScript configuration that asks for JUnit in quotes has that format, whatever else it asks
/// for; next comes CTRF; and JSON counts only where it goes to the data directory.
pub proof fn configurations_show_formats(content: Seq<char>)
    ensures
        contains(content, "'junit'"@) || contains(content, "\"junit\""@) ==> js_reporter(content)
            == Some("JUnit"@),
        !contains(content, "'junit'"@) && !contains(content, "\"junit\""@) && contains(
            content,
            "ctrf"@,
        ) ==> js_reporter(content) == Some("CTRF"@),
        !contains(content, "'junit'"@) && !contains(content, "\"junit\""@) && !contains(
            content,
            "ctrf"@,
        ) && (contains(content, "'json'"@) || contains(content, "\"json\""@)) && contains(
            content,
            ".gaffer/"@,
        ) ==> js_reporter(content) == Some("JSON"@),
        !contains(content, ".gaffer/"@) && !contains(content, "ctrf"@) && !contains(
            content,
            "'junit'"@,
        ) && !contains(content, "\"junit\""@) ==> js_reporter(content) is None,
        !contains(content, "'json'"@) && !contains(content, "\"json\""@) && !contains(
            content,
            "ctrf"@,
        ) && !contains(content, "'junit'"@) && !contains(content, "\"junit\""@) ==> js_reporter(
            content,
        ) is None,
{
}

} // verus!
