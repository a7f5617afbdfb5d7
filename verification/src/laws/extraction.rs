//! Which imports a source file shows.
use vstd::prelude::*;
use vstd::utf8::encode_utf8;

use crate::imports::go::{after_blanks, go_imports, go_sections, import_at, section_imports, GO_IMPORT};
use crate::imports::python::{
    python_imports, python_specifiers, python_uncommented, PYTHON_IMPORT,
};
use crate::imports::rust::{
    foreign_heads, local_heads, rust_imports, shows_inline_tests, RUST_INLINE_TESTS, RUST_MOD,
    RUST_USE,
};
use crate::imports::typescript::{typescript_imports, TYPESCRIPT_IMPORT};
use crate::imports::{first_group, picked, picks, uncommented};
use crate::laws::comments::{dots_count_levels, stays_within};
use crate::pattern::{
    ended_outside, ends_line, goes_on_outside, has_no_quotes, holds, is_alias, is_dotted,
    is_identifier, is_nothing, is_quote, is_read, is_single, is_visibility, matches_of,
    script_import,
};
use crate::text::{contains, index_of, listed, occurs_at};

verus! {

/// What a source file in a language with C-style comments holds without them.
pub open spec fn code_of(source: Seq<char>) -> Seq<char> {
    uncommented(encode_utf8(source), 0)
}

proof fn single_is_picked(
    found: Option<Seq<Seq<Option<Seq<char>>>>>,
    size: int,
    g: int,
    s: Seq<char>,
    last: int,
)
    requires
        is_single(found, size, g, s),
        1 <= g <= last < size <= 5,
    ensures
        picks(found, last) == seq![s],
{
    let m = found->0[0];
    reveal_with_fuel(first_group, 6);
    reveal_with_fuel(picked, 3);
    assert(forall|k: int| 1 <= k < g ==> m[k] is None);
    assert(m[g] == Some(s));
    assert(first_group(m, 1, last) == Some(s));
    assert(picks(found, last) =~= seq![s]);
}

// ---------------------------------------------------------------------------------------------
// TypeScript and JavaScript
// ---------------------------------------------------------------------------------------------
/// Of a file whose only quoted text is the specifier of an import, in any of the five forms of an
/// import, the specifier is the one import. Of a file without quotation marks there is none.
pub proof fn script_imports_are_seen(
    source: Seq<char>,
    a: Seq<char>,
    form: int,
    x: Seq<char>,
    q: char,
    s: Seq<char>,
    b: Seq<char>,
)
    requires
        is_read(TYPESCRIPT_IMPORT@, code_of(source)),
    ensures
        has_no_quotes(code_of(source)) ==> typescript_imports(source).len() == 0,
        0 <= form <= 4 && holds(code_of(source), a, script_import(form, x, q, s), b)
            && has_no_quotes(a) && ended_outside(a) && has_no_quotes(x) && !x.contains(';')
            && is_quote(q) && s.len() > 0 && has_no_quotes(s) && has_no_quotes(b)
            ==> typescript_imports(source) == seq![s],
{
    let found = matches_of(TYPESCRIPT_IMPORT@, code_of(source));
    if 0 <= form <= 4 && holds(code_of(source), a, script_import(form, x, q, s), b)
        && has_no_quotes(a) && ended_outside(a) && has_no_quotes(x) && !x.contains(';') && is_quote(
        q,
    ) && s.len() > 0 && has_no_quotes(s) && has_no_quotes(b) {
        let g: int = if form == 0 {
            2
        } else if form == 1 {
            3
        } else if form == 2 {
            4
        } else {
            1
        };
        single_is_picked(found, 5, g, s, 4);
    }
}

// ---------------------------------------------------------------------------------------------
// Rust
// ---------------------------------------------------------------------------------------------
/// Of a file that declares one module and uses nothing, the module is the one import, however
/// visible it is.
pub proof fn declared_modules_are_seen(
    source: Seq<char>,
    a: Seq<char>,
    p: Seq<char>,
    n: Seq<char>,
    b: Seq<char>,
)
    requires
        is_read(RUST_MOD@, code_of(source)),
        is_read(RUST_USE@, code_of(source)),
        holds(code_of(source), a, p + "mod "@ + n + ";"@, b),
        is_visibility(p),
        ends_line(a),
        is_identifier(n),
        !contains(a, "mod"@),
        !contains(b, "mod"@),
        !contains(code_of(source), "use"@),
    ensures
        rust_imports(source) == seq!["mod:"@ + n],
{
    let code = code_of(source);
    let mods = matches_of(RUST_MOD@, code);
    assert(is_single(mods, 2, 1, n));
    single_is_picked(mods, 2, 1, n, 1);
    assert(is_nothing(matches_of(RUST_USE@, code)));
    let heads = picks(matches_of(RUST_USE@, code), 1);
    assert(heads.len() == 0);
    assert(foreign_heads(heads, 0).len() == 0);
    assert(rust_imports(source) =~= seq!["mod:"@ + n]);
}

/// Of a file that declares no modules and uses one path, the head of the path is the one import,
/// unless it stays within the crate or the standard library.
pub proof fn used_crates_are_seen(
    source: Seq<char>,
    a: Seq<char>,
    p: Seq<char>,
    n: Seq<char>,
    b: Seq<char>,
)
    requires
        is_read(RUST_MOD@, code_of(source)),
        is_read(RUST_USE@, code_of(source)),
        holds(code_of(source), a, p + "use "@ + n, b),
        is_visibility(p),
        ends_line(a),
        is_identifier(n),
        goes_on_outside(b),
        !contains(a, "use"@),
        !contains(b, "use"@),
        !contains(code_of(source), "mod"@),
    ensures
        !stays_within(n) ==> rust_imports(source) == seq!["use:"@ + n],
        stays_within(n) ==> rust_imports(source).len() == 0,
{
    let code = code_of(source);
    let uses = matches_of(RUST_USE@, code);
    assert(is_single(uses, 2, 1, n));
    single_is_picked(uses, 2, 1, n, 1);
    assert(is_nothing(matches_of(RUST_MOD@, code)));
    assert(picks(matches_of(RUST_MOD@, code), 1).len() == 0);
    let heads = picks(uses, 1);
    let l = local_heads();
    if stays_within(n) {
        assert(l[0] == n || l[1] == n || l[2] == n || l[3] == n || l[4] == n || l[5] == n);
    }
    reveal_with_fuel(foreign_heads, 2);
    assert(heads[0] == n);
    if stays_within(n) {
        assert(foreign_heads(heads, 1).len() == 0);
    } else {
        assert(!listed(l, n));
        assert(foreign_heads(heads, 1) =~= seq![n]);
        assert(rust_imports(source) =~= seq!["use:"@ + n]);
    }
}

/// A file holds inline tests where `#[cfg(test)]` starts a line, and holds none where it stands
/// nowhere.
pub proof fn inline_tests_are_seen(source: Seq<char>, a: Seq<char>, b: Seq<char>)
    requires
        is_read(RUST_INLINE_TESTS@, source),
    ensures
        holds(source, a, "#[cfg(test)]"@, b) && ends_line(a) ==> shows_inline_tests(source),
        !contains(source, "#[cfg(test)]"@) ==> !shows_inline_tests(source),
{
}

// ---------------------------------------------------------------------------------------------
// Python
// ---------------------------------------------------------------------------------------------
/// Of a file with one import, the module is the one import: absolute behind `import` and `from`,
/// relative behind dots, the first of which means the own package.
pub proof fn python_imports_are_seen(source: Seq<char>, a: Seq<char>, n: Seq<char>, b: Seq<char>)
    requires
        is_read(PYTHON_IMPORT@, python_uncommented(source)),
        ends_line(a),
        is_dotted(n),
        !contains(a, "import"@),
        !contains(a, "from"@),
        !contains(b, "import"@),
    ensures
        holds(python_uncommented(source), a, "import "@ + n, b) && n.len() > 0 && goes_on_outside(b)
            ==> python_imports(source) == seq!["abs:"@ + n],
        holds(python_uncommented(source), a, "from "@ + n + " import"@, b) && n.len() > 0
            ==> python_imports(source) == seq!["abs:"@ + n],
        holds(python_uncommented(source), a, "from "@ + seq!['.'] + n + " import"@, b)
            ==> python_imports(source) == seq!["rel:0:"@ + n],
        holds(python_uncommented(source), a, "from "@ + seq!['.', '.'] + n + " import"@, b)
            ==> python_imports(source) == seq!["rel:1:"@ + n],
{
    let code = python_uncommented(source);
    let found = matches_of(PYTHON_IMPORT@, code);
    reveal_with_fuel(python_specifiers, 2);
    if found is Some && found->0.len() == 1 && found->0[0].len() == 5 {
        dots_count_levels(found->0[0], n);
    }
    if holds(code, a, "import "@ + n, b) && n.len() > 0 && goes_on_outside(b) {
        assert(is_single(found, 5, 4, n));
        assert(found->0[0][1] is None && found->0[0][3] is None && found->0[0][4] == Some(n));
        assert(python_imports(source) =~= seq!["abs:"@ + n]);
    }
    if holds(code, a, "from "@ + n + " import"@, b) && n.len() > 0 {
        assert(is_single(found, 5, 3, n));
        assert(found->0[0][1] is None && found->0[0][3] == Some(n));
        assert(python_imports(source) =~= seq!["abs:"@ + n]);
    }
    if holds(code, a, "from "@ + seq!['.'] + n + " import"@, b) {
        assert(found->0[0][1] == Some(seq!['.']));
        assert(python_imports(source) =~= seq!["rel:0:"@ + n]);
    }
    if holds(code, a, "from "@ + seq!['.', '.'] + n + " import"@, b) {
        assert(found->0[0][1] == Some(seq!['.', '.']));
        assert(python_imports(source) =~= seq!["rel:1:"@ + n]);
    }
}

/// A file without the word `import` imports nothing.
pub proof fn nothing_is_seen_without_the_word(source: Seq<char>)
    requires
        is_read(PYTHON_IMPORT@, python_uncommented(source)),
        !contains(python_uncommented(source), "import"@),
    ensures
        python_imports(source).len() == 0,
{
}

// ---------------------------------------------------------------------------------------------
// Go
// ---------------------------------------------------------------------------------------------
proof fn nothing_starts_between(c: Seq<char>, i: int, j: int)
    requires
        0 <= i <= j,
        forall|k: int| i <= k < j && k < c.len() ==> !import_at(c, k),
    ensures
        go_sections(c, i) == go_sections(c, j),
    decreases j - i,
{
    if i < j {
        if i < c.len() {
            assert(!import_at(c, i));
        }
        nothing_starts_between(c, i + 1, j);
    }
}

proof fn index_is_first(s: Seq<char>, c: char, from: int, at: int)
    requires
        0 <= from <= at < s.len(),
        s[at] == c,
        forall|k: int| from <= k < at ==> s[k] != c,
    ensures
        index_of(s, c, from) == Some(at),
    decreases at - from,
{
    if from < at {
        index_is_first(s, c, from + 1, at);
    }
}

proof fn nothing_starts_in_front(c: Seq<char>, a: Seq<char>, rest: Seq<char>)
    requires
        c == a + rest,
        ends_line(a),
        !contains(a, "import"@),
    ensures
        go_sections(c, 0) == go_sections(c, a.len() as int),
{
    reveal_strlit("import");
    let w = "import"@;
    assert forall|k: int| 0 <= k < a.len() implies !import_at(c, k) by {
        if import_at(c, k) {
            assert(c.subrange(k, k + 6) == w);
            if k + 6 <= a.len() {
                assert(a.subrange(k, k + 6) =~= c.subrange(k, k + 6));
                assert(occurs_at(a, w, k));
            } else {
                let at = a.len() - 1 - k;
                assert(c.subrange(k, k + 6)[at] == '\n');
                assert(w[at] != '\n');
            }
        }
    }
    nothing_starts_between(c, 0, a.len() as int);
}

proof fn nothing_starts_behind(c: Seq<char>, front: Seq<char>, b: Seq<char>, from: int)
    requires
        c == front + b,
        !contains(b, "import"@),
        0 < from <= front.len(),
        forall|k: int| from <= k + 1 < front.len() ==> #[trigger] c[k] != '\n',
    ensures
        go_sections(c, from).len() == 0,
{
    let w = "import"@;
    assert forall|k: int| from <= k < c.len() implies !import_at(c, k) by {
        assert(from <= k < front.len() ==> c[k - 1] != '\n');
        if front.len() <= k && import_at(c, k) {
            let i = k - front.len();
            assert(b.subrange(i, i + w.len()) =~= c.subrange(k, k + w.len()));
            assert(occurs_at(b, w, i));
        }
    }
    nothing_starts_between(c, from, c.len() as int);
}

/// Every import declaration of a Go file has been read.
pub open spec fn are_read(source: Seq<char>) -> bool {
    let sections = go_sections(code_of(source), 0);
    forall|k: int| 0 <= k < sections.len() ==> is_read(GO_IMPORT@, #[trigger] sections[k])
}

proof fn only_section_counts(source: Seq<char>, part: Seq<char>, s: Seq<char>)
    requires
        go_sections(code_of(source), 0) == seq![part],
        is_single(matches_of(GO_IMPORT@, part), 3, 2, s),
    ensures
        go_imports(source) == seq![s],
{
    single_is_picked(matches_of(GO_IMPORT@, part), 3, 2, s, 2);
    reveal_with_fuel(section_imports, 2);
    assert(go_imports(source) =~= seq![s]);
}

/// Of a file that imports one package, on a line of its own, the path of the package is the one
/// import.
pub proof fn go_imports_are_seen(source: Seq<char>, a: Seq<char>, s: Seq<char>, b: Seq<char>)
    requires
        are_read(source),
        holds(code_of(source), a, "import \""@ + s + "\"\n"@, b),
        ends_line(a),
        !contains(a, "import"@),
        s.len() > 0,
        !s.contains('"'),
        !s.contains('\n'),
        !contains(b, "import"@),
    ensures
        go_imports(source) == seq![s],
{
    reveal_strlit("import \"");
    reveal_strlit("\"\n");
    reveal_strlit("import");
    let c = code_of(source);
    let head = "import \""@ + s + "\"\n"@;
    let o = a.len() as int;
    assert(c =~= a + (head + b));
    nothing_starts_in_front(c, a, head + b);
    assert(c.subrange(o, o + 6) =~= "import"@);
    assert(import_at(c, o));
    reveal_with_fuel(after_blanks, 3);
    assert(c[o + 6] == ' ' && c[o + 7] == '"');
    assert(after_blanks(c, o + 6) == o + 7);
    let e = o + 9 + s.len();
    assert(c[e] == '\n' && c[e - 1] == '"');
    assert forall|k: int| o + 1 <= k < e implies c[k] != '\n' by {
        if o + 8 <= k < e - 1 {
            assert(c[k] == s[k - o - 8]);
        }
    }
    index_is_first(c, '\n', o + 7, e);
    nothing_starts_behind(c, a + head, b, o + 1);
    let part = c.subrange(o + 7, e);
    assert(go_sections(c, o) =~= seq![part]);
    let none = Seq::<char>::empty();
    assert(none + (none + none + seq!['"'] + s + seq!['"']) + none =~= part);
    assert(holds(part, none, none + none + seq!['"'] + s + seq!['"'], none));
    assert(go_sections(c, 0)[0] == part);
    only_section_counts(source, part, s);
}

/// Of a file that imports one package, within parentheses, the path of the package is the one
/// import, however it is indented and whether or not it follows a name.
pub proof fn go_blocks_are_seen(
    source: Seq<char>,
    a: Seq<char>,
    t: Seq<char>,
    n: Seq<char>,
    s: Seq<char>,
    b: Seq<char>,
)
    requires
        are_read(source),
        holds(
            code_of(source),
            a,
            "import (\n"@ + t + n + seq!['"'] + s + seq!['"'] + "\n)"@,
            b,
        ),
        ends_line(a),
        !contains(a, "import"@),
        forall|k: int| 0 <= k < t.len() ==> #[trigger] t[k] == ' ' || t[k] == '\t',
        is_alias(n),
        s.len() > 0,
        !s.contains('"'),
        !s.contains(')'),
        !contains(b, "import"@),
    ensures
        go_imports(source) == seq![s],
{
    reveal_strlit("import (\n");
    reveal_strlit("\n)");
    reveal_strlit("import");
    reveal_strlit(". ");
    let c = code_of(source);
    let inner = t + n + seq!['"'] + s + seq!['"'];
    let head = "import (\n"@ + t + n + seq!['"'] + s + seq!['"'] + "\n)"@;
    let o = a.len() as int;
    assert(head =~= "import (\n"@ + inner + "\n)"@);
    assert(c =~= a + (head + b));
    nothing_starts_in_front(c, a, head + b);
    assert(c.subrange(o, o + 6) =~= "import"@);
    assert(import_at(c, o));
    reveal_with_fuel(after_blanks, 3);
    assert(c[o + 6] == ' ' && c[o + 7] == '(');
    assert(after_blanks(c, o + 6) == o + 7);
    let e = o + 10 + inner.len();
    assert(c[e] == ')' && c[e - 1] == '\n');
    assert forall|k: int| 0 <= k < inner.len() implies inner[k] != ')' by {
        if k < t.len() {
            assert(inner[k] == t[k]);
        } else if k < t.len() + n.len() {
            assert(inner[k] == n[k - t.len()]);
            if n != ". "@ && k - t.len() < n.len() - 1 {
                assert(n.drop_last()[k - t.len()] == n[k - t.len()]);
            }
        } else if t.len() + n.len() < k < inner.len() - 1 {
            assert(inner[k] == s[k - t.len() - n.len() - 1]);
        }
    }
    assert forall|k: int| o + 7 <= k < e implies c[k] != ')' by {
        if o + 9 <= k < e - 1 {
            assert(c[k] == inner[k - o - 9]);
        }
    }
    index_is_first(c, ')', o + 7, e);
    nothing_starts_behind(c, a + head, b, e + 1);
    let part = c.subrange(o + 7, e);
    assert(go_sections(c, o) =~= seq![part]);
    let front = seq!['(', '\n'];
    let back = seq!['\n'];
    assert(part =~= front + inner + back);
    assert(holds(part, front, inner, back));
    assert(go_sections(c, 0)[0] == part);
    only_section_counts(source, part, s);
}

} // verus!
