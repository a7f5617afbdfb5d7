//! The import graph, and the imports that it is made of.
use gaffer::graph::ImportGraph;
use gaffer::imports::go::{extract_import_sections, parse_module_path, GoExtractor};
use gaffer::imports::python::PythonExtractor;
use gaffer::imports::rust::{has_inline_tests, parse_crate_name, RustExtractor};
use gaffer::imports::typescript::TypeScriptExtractor;
use gaffer::imports::{strip_comments, ImportExtractor};
use gaffer::tree::{ProjectTree, TreeEntry};
use gaffer::walker::{
    build_graph, build_graph_cached, key_to_path, mtime_ns, path_to_key, CachedBuild, CachedFile,
};

fn dir(path: &str) -> TreeEntry {
    TreeEntry { path: path.to_string(), is_dir: true, contents: None, mtime: 0 }
}

fn file(path: &str, text: &str, mtime: i64) -> TreeEntry {
    TreeEntry { path: path.to_string(), is_dir: false, contents: Some(text.to_string()), mtime }
}

/// A project with the given files, and the directories that they stand in.
fn project(files: &[(&str, &str)]) -> ProjectTree {
    let mut entries: Vec<TreeEntry> = Vec::new();
    let mut dirs: Vec<String> = Vec::new();
    for (path, _) in files {
        let parts: Vec<&str> = path.split('/').collect();
        for n in 1..parts.len() {
            let d = parts[..n].join("/");
            if !dirs.contains(&d) {
                dirs.push(d.clone());
                entries.push(dir(&d));
            }
        }
    }
    for (path, text) in files {
        entries.push(file(path, text, 1));
    }
    ProjectTree::new("/work/project", entries, vec![])
}

fn has(list: &[String], x: &str) -> bool {
    list.iter().any(|s| s == x)
}

// ----- graph -----------------------------------------------------------------------------------

#[test]
fn reverse_reachable_finds_transitive_importers() {
    let mut g = ImportGraph::new();
    g.add_edge("a.ts", "b.ts");
    g.add_edge("b.ts", "c.ts");

    let reachable = g.reverse_reachable("c.ts", 2);
    assert!(has(&reachable, "b.ts"));
    assert!(has(&reachable, "a.ts"));
    assert_eq!(reachable.len(), 2);
}

#[test]
fn reverse_reachable_respects_depth_limit() {
    let mut g = ImportGraph::new();
    g.add_edge("a.ts", "b.ts");
    g.add_edge("b.ts", "c.ts");

    let reachable = g.reverse_reachable("c.ts", 1);
    assert!(has(&reachable, "b.ts"));
    assert!(!has(&reachable, "a.ts"));
}

#[test]
fn reverse_reachable_excludes_target_itself() {
    let mut g = ImportGraph::new();
    g.add_edge("a.ts", "b.ts");

    let reachable = g.reverse_reachable("b.ts", 5);
    assert!(!has(&reachable, "b.ts"));
}

#[test]
fn node_and_edge_count_dedupe_correctly() {
    let mut g = ImportGraph::new();
    g.add_edge("a.ts", "b.ts");
    g.add_edge("a.ts", "b.ts");
    g.add_edge("a.ts", "c.ts");

    assert_eq!(g.edge_count(), 2);
    assert_eq!(g.node_count(), 3);
}

#[test]
fn cycles_do_not_bring_the_target_back() {
    let mut g = ImportGraph::new();
    g.add_edge("a.ts", "b.ts");
    g.add_edge("b.ts", "a.ts");
    g.add_edge("c.ts", "a.ts");

    let reachable = g.reverse_reachable("a.ts", 10);
    assert!(!has(&reachable, "a.ts"));
    assert!(has(&reachable, "b.ts"));
    assert!(has(&reachable, "c.ts"));
    assert_eq!(reachable.len(), 2);
    assert!(g.reverse_reachable("a.ts", 0).is_empty());
    assert!(g.reverse_reachable("unknown.ts", 3).is_empty());
}

#[test]
fn one_file_has_one_name() {
    let mut g = ImportGraph::new();
    g.add_edge("./src/a.ts", "src\\b.ts");
    g.add_edge("src/a.ts", "src//b.ts");

    assert_eq!(g.edge_count(), 1);
    assert_eq!(g.node_count(), 2);
    assert_eq!(g.reverse_reachable("./src/b.ts", 1), vec!["src/a.ts".to_string()]);
}

#[test]
fn deeper_searches_reach_no_less() {
    let mut g = ImportGraph::new();
    for i in 0..6 {
        g.add_edge(&format!("f{}", i + 1), &format!("f{}", i));
    }
    for depth in 0..8 {
        assert_eq!(g.reverse_reachable("f0", depth).len(), depth.min(6));
    }
}

// ----- Go --------------------------------------------------------------------------------------

#[test]
fn extracts_single_import() {
    let src = r#"
package main

import "fmt"

func main() { fmt.Println("hi") }
        "#;
    let imports = GoExtractor::new().extract_imports(src);
    assert_eq!(imports, vec!["fmt".to_string()]);
}

#[test]
fn extracts_block_import() {
    let src = r#"
package main

import (
    "fmt"
    "github.com/foo/bar"
    myalias "github.com/foo/baz"
    _ "github.com/foo/quux"
)
        "#;
    let imports = GoExtractor::new().extract_imports(src);
    assert!(imports.contains(&"fmt".to_string()));
    assert!(imports.contains(&"github.com/foo/bar".to_string()));
    assert!(imports.contains(&"github.com/foo/baz".to_string()));
    assert!(imports.contains(&"github.com/foo/quux".to_string()));
}

#[test]
fn ignores_strings_outside_import_blocks() {
    let src = r#"
package main

import "fmt"

func main() {
    s := "not an import"
    fmt.Println(s)
}
        "#;
    let imports = GoExtractor::new().extract_imports(src);
    assert_eq!(imports, vec!["fmt".to_string()]);
}

#[test]
fn go_ignores_imports_in_comments() {
    let src = r#"
package main

// import "fake"
/* import "alsofake" */
import "real"
        "#;
    let imports = GoExtractor::new().extract_imports(src);
    assert_eq!(imports, vec!["real".to_string()]);
}

#[test]
fn parse_module_path_basic() {
    let go_mod = r#"
module github.com/foo/bar

go 1.21
        "#;
    assert_eq!(parse_module_path(go_mod), Some("github.com/foo/bar".to_string()));
    assert_eq!(parse_module_path("go 1.21\n"), None);
}

#[test]
fn import_sections_are_the_declarations() {
    let sections = extract_import_sections("import (\n\"a\"\n)\nimport \"b\"\nx import \"c\"\n");
    let texts: Vec<String> = sections.iter().map(|s| s.iter().collect()).collect();
    assert_eq!(texts, vec!["(\n\"a\"\n".to_string(), "\"b\"".to_string()]);
}

#[test]
fn resolve_many_fans_out_to_package_files() {
    let tree = project(&[
        ("myapp/go.mod", "module github.com/example/myapp\n\ngo 1.21\n"),
        ("myapp/utils/a.go", "package utils\n"),
        ("myapp/utils/b.go", "package utils\n"),
        ("myapp/utils/a_test.go", "package utils\n"),
    ]);
    let targets = GoExtractor::new().resolve_many(
        "github.com/example/myapp/utils",
        "myapp/main.go",
        &tree,
    );
    assert_eq!(targets, vec!["myapp/utils/a.go".to_string(), "myapp/utils/b.go".to_string()]);
    assert_eq!(GoExtractor::new().resolve("github.com/example/myapp/utils", "m.go", &tree), None);
}

#[test]
fn resolve_many_returns_empty_for_unknown_module() {
    let tree = project(&[]);
    let targets = GoExtractor::new().resolve_many("fmt", "main.go", &tree);
    assert!(targets.is_empty());
}

#[test]
fn the_longest_module_wins() {
    let tree = project(&[
        ("go.mod", "module m\n"),
        ("sub/go.mod", "module m/sub\n"),
        ("sub/x/in.go", ""),
        ("elsewhere/sub/x/out.go", ""),
    ]);
    let mut extractor = GoExtractor::new();
    extractor.prepare(&tree);
    assert_eq!(extractor.resolve_many("m/sub/x", "a.go", &tree), vec!["sub/x/in.go".to_string()]);
    assert!(extractor.resolve_many("mother/x", "a.go", &tree).is_empty());
}

// ----- Python ----------------------------------------------------------------------------------

#[test]
fn extracts_simple_import() {
    let imports = PythonExtractor::new().extract_imports("import foo");
    assert_eq!(imports, vec!["abs:foo".to_string()]);
}

#[test]
fn extracts_dotted_import() {
    let imports = PythonExtractor::new().extract_imports("import foo.bar.baz");
    assert_eq!(imports, vec!["abs:foo.bar.baz".to_string()]);
}

#[test]
fn extracts_from_import() {
    let imports = PythonExtractor::new().extract_imports("from foo.bar import baz");
    assert_eq!(imports, vec!["abs:foo.bar".to_string()]);
}

#[test]
fn extracts_relative_import_one_dot() {
    let imports = PythonExtractor::new().extract_imports("from .foo import bar");
    assert_eq!(imports, vec!["rel:0:foo".to_string()]);
}

#[test]
fn extracts_relative_import_two_dots() {
    let imports = PythonExtractor::new().extract_imports("from ..pkg.foo import bar");
    assert_eq!(imports, vec!["rel:1:pkg.foo".to_string()]);
}

#[test]
fn python_ignores_imports_in_comments() {
    let imports = PythonExtractor::new().extract_imports("# from fake import x\nfrom real import y");
    assert_eq!(imports, vec!["abs:real".to_string()]);
}

#[test]
fn extracts_multiple_imports() {
    let src = r#"
import os
from typing import List, Dict
from .utils import helper
import myapp.models
        "#;
    let imports = PythonExtractor::new().extract_imports(src);
    assert!(imports.contains(&"abs:os".to_string()));
    assert!(imports.contains(&"abs:typing".to_string()));
    assert!(imports.contains(&"rel:0:utils".to_string()));
    assert!(imports.contains(&"abs:myapp.models".to_string()));
}

#[test]
fn resolve_relative_finds_sibling() {
    let tree = project(&[
        ("mypkg/__init__.py", ""),
        ("mypkg/util.py", ""),
        ("mypkg/main.py", "from .util import x"),
    ]);
    let resolved = PythonExtractor::new().resolve("rel:0:util", "mypkg/main.py", &tree);
    assert_eq!(resolved, Some("mypkg/util.py".to_string()));
}

#[test]
fn resolve_absolute_via_package_index() {
    let tree = project(&[("mypkg/__init__.py", ""), ("mypkg/util.py", "")]);
    let resolved = PythonExtractor::new().resolve("abs:mypkg.util", "test_main.py", &tree);
    assert_eq!(resolved, Some("mypkg/util.py".to_string()));
}

#[test]
fn resolve_absolute_falls_back_to_package_init() {
    let tree = project(&[("mypkg/__init__.py", "")]);
    let resolved = PythonExtractor::new().resolve("abs:mypkg", "test_main.py", &tree);
    assert_eq!(resolved, Some("mypkg/__init__.py".to_string()));
}

#[test]
fn packages_close_to_the_root_win() {
    let tree = project(&[
        ("a/deep/pkg/__init__.py", ""),
        ("z/pkg/__init__.py", ""),
        ("venv/pkg/__init__.py", ""),
        ("tool.py", ""),
        ("outer/__init__.py", ""),
        ("outer/inner/__init__.py", ""),
    ]);
    let mut python = PythonExtractor::new();
    python.prepare(&tree);
    assert_eq!(python.resolve("abs:pkg", "m.py", &tree), Some("z/pkg/__init__.py".to_string()));
    assert_eq!(python.resolve("abs:tool", "m.py", &tree), Some("tool.py".to_string()));
    assert_eq!(
        python.resolve("abs:outer.inner.thing", "m.py", &tree),
        Some("outer/inner/__init__.py".to_string())
    );
    assert_eq!(python.resolve("abs:missing", "m.py", &tree), None);
    assert_eq!(python.resolve("rel:9:x", "m.py", &tree), None);
    assert_eq!(python.resolve("rel:0:", "m.py", &tree), None);
    assert_eq!(python.resolve("other:x", "m.py", &tree), None);
}

#[test]
fn end_to_end_python_test_discovery() {
    let tree = project(&[
        ("mypkg/__init__.py", ""),
        ("mypkg/util.py", "def x(): pass"),
        ("tests/test_util.py", "from mypkg.util import x\ndef test_x(): assert x() is None"),
    ]);
    let (graph, _scanned) = build_graph(&tree);
    let reachable = graph.reverse_reachable("mypkg/util.py", 3);
    assert!(has(&reachable, "tests/test_util.py"));
}

// ----- Rust ------------------------------------------------------------------------------------

#[test]
fn extracts_mod_declarations() {
    let src = r#"
            pub mod affected;
            mod private_thing;
            pub mod intel { /* inline mod, no edge */ }
        "#;
    let imports = RustExtractor::new().extract_imports(src);
    assert!(imports.contains(&"mod:affected".to_string()));
    assert!(imports.contains(&"mod:private_thing".to_string()));
    assert!(!imports.iter().any(|s| s.contains("intel")));
}

#[test]
fn extracts_use_for_external_crates_only() {
    let src = r#"
            use std::collections::HashMap;
            use crate::affected;
            use self::foo;
            use super::bar;
            use gaffer_parsers::JUnitParser;
            use serde_json;
        "#;
    let imports = RustExtractor::new().extract_imports(src);
    assert!(imports.contains(&"use:gaffer_parsers".to_string()));
    assert!(imports.contains(&"use:serde_json".to_string()));
    assert!(!imports.iter().any(|s| s.contains("std")));
    assert!(!imports.iter().any(|s| s.contains("crate")));
    assert!(!imports.iter().any(|s| s.contains("self")));
    assert!(!imports.iter().any(|s| s.contains("super")));
}

#[test]
fn ignores_use_in_comments() {
    let src = r#"
            // use fake_crate::Thing;
            /* use other_fake; */
            use real_crate::Real;
        "#;
    let imports = RustExtractor::new().extract_imports(src);
    assert_eq!(imports, vec!["use:real_crate".to_string()]);
}

#[test]
fn resolve_mod_from_lib_rs_finds_sibling() {
    let tree = project(&[
        ("src/lib.rs", "pub mod affected;"),
        ("src/affected.rs", "// implementation"),
    ]);
    let resolved = RustExtractor::new().resolve("mod:affected", "src/lib.rs", &tree);
    assert_eq!(resolved, Some("src/affected.rs".to_string()));
}

#[test]
fn resolve_mod_finds_dir_form() {
    let tree = project(&[("src/lib.rs", "pub mod intel;"), ("src/intel/mod.rs", "// intel root")]);
    let resolved = RustExtractor::new().resolve("mod:intel", "src/lib.rs", &tree);
    assert_eq!(resolved, Some("src/intel/mod.rs".to_string()));
}

#[test]
fn modules_of_modules_stand_in_their_directory() {
    let tree = project(&[("src/bar.rs", "mod foo;"), ("src/bar/foo.rs", ""), ("src/foo.rs", "")]);
    let resolved = RustExtractor::new().resolve("mod:foo", "src/bar.rs", &tree);
    assert_eq!(resolved, Some("src/bar/foo.rs".to_string()));
}

#[test]
fn resolve_use_finds_workspace_crate_lib() {
    let tree = project(&[
        ("packages/my-crate/Cargo.toml", "[package]\nname = \"my-crate\"\nversion = \"0.1.0\"\n"),
        ("packages/my-crate/src/lib.rs", "pub fn x() {}"),
    ]);
    let resolved =
        RustExtractor::new().resolve("use:my_crate", "packages/my-crate/src/lib.rs", &tree);
    assert_eq!(resolved, Some("packages/my-crate/src/lib.rs".to_string()));
    assert_eq!(RustExtractor::new().resolve("use:other", "a.rs", &tree), None);
}

#[test]
fn parse_crate_name_basic() {
    let toml = r#"
[package]
name = "gaffer-parsers"
version = "0.1.0"

[dependencies]
foo = "1.0"
        "#;
    assert_eq!(parse_crate_name(toml), Some("gaffer-parsers".to_string()));
}

#[test]
fn parse_crate_name_skips_workspace_only() {
    let toml = r#"
[workspace]
members = ["packages/*"]
        "#;
    assert_eq!(parse_crate_name(toml), None);
}

#[test]
fn detects_inline_tests() {
    assert!(has_inline_tests(
        r#"
            fn x() {}

            #[cfg(test)]
            mod tests {
                use super::*;
                #[test] fn it_works() {}
            }
            "#
    ));
}

#[test]
fn does_not_falsely_detect_inline_tests() {
    assert!(!has_inline_tests(
        r#"
            // #[cfg(test)] in a comment doesn't count
            fn x() {}
            "#
    ));
    assert!(!has_inline_tests("fn x() {}"));
}

// ----- TypeScript ------------------------------------------------------------------------------

fn typescript(src: &str) -> Vec<String> {
    TypeScriptExtractor::new().extract_imports(src)
}

#[test]
fn extracts_named_imports() {
    assert_eq!(typescript(r#"import { foo, bar } from './utils';"#), vec!["./utils".to_string()]);
}

#[test]
fn extracts_default_import() {
    assert_eq!(typescript(r#"import React from 'react';"#), vec!["react".to_string()]);
}

#[test]
fn extracts_namespace_import() {
    assert_eq!(typescript(r#"import * as utils from './utils';"#), vec!["./utils".to_string()]);
}

#[test]
fn extracts_side_effect_import() {
    assert_eq!(typescript(r#"import './polyfills';"#), vec!["./polyfills".to_string()]);
}

#[test]
fn extracts_dynamic_import() {
    assert_eq!(typescript(r#"const mod = await import('./lazy');"#), vec!["./lazy".to_string()]);
}

#[test]
fn extracts_require() {
    assert_eq!(typescript(r#"const fs = require('fs');"#), vec!["fs".to_string()]);
}

#[test]
fn extracts_re_export() {
    assert_eq!(typescript(r#"export { foo } from './foo';"#), vec!["./foo".to_string()]);
}

#[test]
fn extracts_import_type() {
    assert_eq!(typescript(r#"import type { User } from './types';"#), vec!["./types".to_string()]);
}

#[test]
fn extracts_inline_type_specifier() {
    assert_eq!(
        typescript(r#"import { type User, getUser } from './users';"#),
        vec!["./users".to_string()]
    );
}

#[test]
fn extracts_export_type_from() {
    assert_eq!(typescript(r#"export type { User } from './types';"#), vec!["./types".to_string()]);
}

#[test]
fn extracts_export_star_from() {
    assert_eq!(typescript(r#"export * from './module';"#), vec!["./module".to_string()]);
}

#[test]
fn extracts_multi_line_import() {
    assert_eq!(
        typescript("import {\n  Foo,\n  Bar,\n} from './shared';"),
        vec!["./shared".to_string()]
    );
}

#[test]
fn extracts_multiple_imports_in_one_file() {
    let imports = typescript(
        r#"
            import { a } from './a';
            import b from '../b';
            import * as c from 'c';
            export { d } from './d';
        "#,
    );
    assert_eq!(imports.len(), 4);
    assert!(imports.contains(&"./a".to_string()));
    assert!(imports.contains(&"../b".to_string()));
    assert!(imports.contains(&"c".to_string()));
    assert!(imports.contains(&"./d".to_string()));
}

#[test]
fn ignores_imports_in_line_comments() {
    let imports = typescript(
        r#"
            // import { fake } from './fake';
            import { real } from './real';
        "#,
    );
    assert_eq!(imports, vec!["./real".to_string()]);
}

#[test]
fn ignores_imports_in_block_comments() {
    let imports = typescript(
        r#"
            /* import { fake } from './fake'; */
            import { real } from './real';
        "#,
    );
    assert_eq!(imports, vec!["./real".to_string()]);
}

#[test]
fn resolve_returns_none_for_bare_specifier() {
    let tree = project(&[("src/foo.ts", ""), ("react.ts", "")]);
    let result = TypeScriptExtractor::new().resolve("react", "src/foo.ts", &tree);
    assert_eq!(result, None);
}

#[test]
fn resolves_cts_and_mts_extensions() {
    let tree = project(&[("src/foo.ts", ""), ("src/commonjs.cts", ""), ("src/modular.mts", "")]);
    let extractor = TypeScriptExtractor::new();
    assert_eq!(
        extractor.resolve("./commonjs", "src/foo.ts", &tree),
        Some("src/commonjs.cts".to_string())
    );
    assert_eq!(
        extractor.resolve("./modular", "src/foo.ts", &tree),
        Some("src/modular.mts".to_string())
    );
}

#[test]
fn resolve_finds_relative_with_extension() {
    let tree = project(&[("src/foo.ts", ""), ("src/bar.ts", "")]);
    let resolved = TypeScriptExtractor::new().resolve("./bar", "src/foo.ts", &tree);
    assert_eq!(resolved, Some("src/bar.ts".to_string()));
}

#[test]
fn resolve_finds_index_in_directory() {
    let tree = project(&[("src/foo.ts", ""), ("src/utils/index.ts", "")]);
    let resolved = TypeScriptExtractor::new().resolve("./utils", "src/foo.ts", &tree);
    assert_eq!(resolved, Some("src/utils/index.ts".to_string()));
}

#[test]
fn paths_of_imports_lead_up_and_down() {
    let tree = project(&[("src/a/foo.ts", ""), ("src/b/bar.tsx", ""), ("root.js", "")]);
    let ts = TypeScriptExtractor::new();
    assert_eq!(ts.resolve("../b/bar", "src/a/foo.ts", &tree), Some("src/b/bar.tsx".to_string()));
    assert_eq!(ts.resolve("/root.js", "src/a/foo.ts", &tree), Some("root.js".to_string()));
    assert_eq!(ts.resolve("../../../out", "src/a/foo.ts", &tree), None);
    assert_eq!(ts.resolve("./nowhere/../foo", "src/a/foo.ts", &tree), None);
}

// ----- comments --------------------------------------------------------------------------------

#[test]
fn comments_are_cut_out() {
    let text: String = strip_comments("a // b\nc /* d\n e */ f / g").iter().collect();
    assert_eq!(text, "a \nc  f / g");
    let open: String = strip_comments("x /* never closed").iter().collect();
    assert_eq!(open, "x ");
}

// ----- walker ----------------------------------------------------------------------------------

#[test]
fn builds_graph_for_simple_project() {
    let tree = project(&[
        ("src/a.ts", "import { thing } from './b';\nexport const x = thing;"),
        ("src/b.ts", "import c from './c';\nexport const thing = c;"),
        ("src/c.ts", "export default 42;"),
    ]);
    let (graph, scanned) = build_graph(&tree);
    assert_eq!(scanned, 3);
    assert_eq!(graph.node_count(), 3);
    assert_eq!(graph.edge_count(), 2);

    let reachable = graph.reverse_reachable("src/c.ts", 5);
    assert!(has(&reachable, "src/a.ts"));
    assert!(has(&reachable, "src/b.ts"));
}

#[test]
fn rust_cross_crate_use_chain() {
    let tree = project(&[
        ("packages/foo/Cargo.toml", "[package]\nname = \"foo\"\nversion = \"0.1.0\"\n"),
        ("packages/foo/src/lib.rs", "pub mod inner;"),
        ("packages/foo/src/inner.rs", "pub fn x() {}"),
        ("tests/foo_tests.rs", "use foo::x;\n#[test] fn it() {}"),
    ]);
    let (graph, _scanned) = build_graph(&tree);
    let reachable = graph.reverse_reachable("packages/foo/src/inner.rs", 3);
    assert!(has(&reachable, "packages/foo/src/lib.rs"));
    assert!(has(&reachable, "tests/foo_tests.rs"));
}

#[test]
fn go_test_discovery_via_module_index() {
    let tree = project(&[
        ("myapp/go.mod", "module github.com/example/myapp\n\ngo 1.21\n"),
        ("myapp/utils/a.go", "package utils\n"),
        ("myapp/utils/b.go", "package utils\n"),
        (
            "myapp/svc/svc_test.go",
            r#"package svc

import (
    "testing"
    "github.com/example/myapp/utils"
)

func TestThing(t *testing.T) { _ = utils.Thing }
"#,
        ),
    ]);
    let (graph, _scanned) = build_graph(&tree);
    let reachable = graph.reverse_reachable("myapp/utils/a.go", 3);
    assert!(has(&reachable, "myapp/svc/svc_test.go"));
}

#[test]
fn skips_node_modules() {
    let tree = project(&[
        ("src/a.ts", "export const x = 1;"),
        ("node_modules/some-pkg/index.js", "module.exports = 1;"),
    ]);
    let (_, scanned) = build_graph(&tree);
    assert_eq!(scanned, 1);
}

fn cached(path: &str, mtime: i64, targets: &[&str]) -> CachedFile {
    CachedFile {
        path: path.to_string(),
        mtime,
        targets: targets.iter().map(|t| t.to_string()).collect(),
    }
}

fn abc(a: &str, mtime: i64) -> ProjectTree {
    ProjectTree::new(
        "/work/project",
        vec![dir("src"), file("src/a.ts", a, mtime), file("src/b.ts", "", 7), file("src/c.ts", "", 7)],
        vec![],
    )
}

#[test]
fn cache_picks_up_real_content_change() {
    let first: CachedBuild = build_graph_cached(&abc("import './b';", 1), &vec![]);
    assert_eq!(first.re_extracted, 3);
    assert!(has(&first.graph.reverse_reachable("src/b.ts", 3), "src/a.ts"));
    assert!(!has(&first.graph.reverse_reachable("src/c.ts", 3), "src/a.ts"));
    assert_eq!(first.writes.len(), 3);
    assert_eq!(first.writes[0].path, "src/a.ts");
    assert_eq!(first.writes[0].targets, vec!["src/b.ts".to_string()]);

    let second = build_graph_cached(&abc("import './c';", 2), &first.writes);
    assert_eq!(second.re_extracted, 1);
    assert!(has(&second.graph.reverse_reachable("src/c.ts", 3), "src/a.ts"));
    assert!(!has(&second.graph.reverse_reachable("src/b.ts", 3), "src/a.ts"));
}

#[test]
fn unchanged_files_come_from_the_cache() {
    let known = vec![
        cached("src/a.ts", 1, &["src/b.ts"]),
        cached("src/b.ts", 7, &[]),
        cached("src/c.ts", 7, &[]),
        cached("src/gone.ts", 7, &["src/a.ts"]),
    ];
    let build = build_graph_cached(&abc("import './b';", 1), &known);
    let (fresh, scanned) = build_graph(&abc("import './b';", 1));
    assert_eq!(build.scanned, scanned);
    assert_eq!(build.re_extracted, 0);
    assert!(build.writes.is_empty());
    assert_eq!(build.stale, vec!["src/gone.ts".to_string()]);
    assert_eq!(build.graph.edge_count(), fresh.edge_count());
    assert_eq!(
        build.graph.reverse_reachable("src/b.ts", 3),
        fresh.reverse_reachable("src/b.ts", 3)
    );
}

#[test]
fn files_of_unknown_age_are_never_cached() {
    let build = build_graph_cached(&abc("import './b';", 0), &vec![cached("src/a.ts", 0, &[])]);
    assert_eq!(build.re_extracted, 3);
    assert!(build.writes.iter().all(|w| w.path != "src/a.ts"));
    assert_eq!(build.graph.edge_count(), 1);
}

#[test]
fn cache_keys_and_times() {
    assert_eq!(path_to_key("src\\a.ts"), "src/a.ts");
    assert_eq!(path_to_key("./src/a.ts"), "src/a.ts");
    assert_eq!(key_to_path("src/a.ts"), "src/a.ts");
    assert_eq!(mtime_ns(Some((2, 5))), 2_000_000_005);
    assert_eq!(mtime_ns(None), 0);
}

#[test]
fn go_imports_may_end_the_file() {
    let extractor = GoExtractor::new();
    assert_eq!(extractor.extract_imports("package main\n\nimport \"fmt\""), vec!["fmt".to_string()]);
    assert_eq!(
        extractor.extract_imports("package main\n\nimport \"fmt\"\nimport \"os\""),
        vec!["fmt".to_string(), "os".to_string()]
    );
}

#[test]
fn a_second_build_extracts_only_what_could_not_be_cached() {
    let tree = ProjectTree::new(
        "/work/project",
        vec![
            dir("src"),
            file("src/a.ts", "import './b';", 7),
            file("src/b.ts", "import './c';", 0),
            file("src/c.ts", "export {};", 9),
        ],
        vec![],
    );
    let first = build_graph_cached(&tree, &vec![]);
    let keys: Vec<&str> = first.writes.iter().map(|w| w.path.as_str()).collect();
    assert_eq!(keys, vec!["src/a.ts", "src/c.ts"]);
    assert_eq!(first.re_extracted, 3);
    let second = build_graph_cached(&tree, &first.writes);
    assert_eq!(second.re_extracted, 1);
    assert_eq!(second.scanned, 3);
    assert!(second.writes.is_empty());
    assert!(second.stale.is_empty());
    let (scratch, _) = build_graph(&tree);
    for graph in [&first.graph, &second.graph, &scratch] {
        let mut found = graph.reverse_reachable("src/c.ts", 3);
        found.sort();
        assert_eq!(found, vec!["src/a.ts".to_string(), "src/b.ts".to_string()]);
    }
}

#[test]
fn imports_may_lead_out_of_the_project() {
    let tree = ProjectTree::new(
        "/work/project",
        vec![
            dir("src"),
            file("src/a.ts", "import '../../shared/x';", 1),
            file("src/b.ts", "import '../../project/src/a';", 1),
            file("src/c.ts", "import '../../nowhere/../shared/x';", 1),
            file("m.py", "from ..shared import x\n", 1),
        ],
        vec![
            dir("/work/shared"),
            file("/work/shared/x.ts", "", 1),
            file("/work/shared/__init__.py", "", 1),
            file("/work/project.ts", "", 1),
        ],
    );
    let ts = TypeScriptExtractor::new();
    let shared = Some("/work/shared/x.ts".to_string());
    assert_eq!(ts.resolve("../../shared/x", "src/a.ts", &tree), shared);
    assert_eq!(ts.resolve("../../project/src/a", "src/b.ts", &tree), Some("src/a.ts".to_string()));
    assert_eq!(ts.resolve("../../nowhere/../shared/x", "src/c.ts", &tree), None);
    assert_eq!(ts.resolve("/", "src/a.ts", &tree), Some("/work/project.ts".to_string()));
    assert_eq!(
        PythonExtractor::new().resolve("rel:1:shared", "m.py", &tree),
        Some("/work/shared/__init__.py".to_string())
    );
    assert_eq!(PythonExtractor::new().resolve("rel:3:shared", "m.py", &tree), None);
    let (graph, scanned) = build_graph(&tree);
    assert_eq!(scanned, 4);
    let mut found = graph.reverse_reachable("/work/shared/x.ts", 3);
    found.sort();
    assert_eq!(found, vec!["src/a.ts".to_string(), "src/b.ts".to_string()]);
}
