//! Regular expressions: the matches and replacements that the library asks for.
use vstd::prelude::*;

use crate::text::{contains, is_space, opt_text};

verus! {

/// What `text` becomes when every match of the regular expression `pattern` is replaced by
/// `replacement`; `None` where `pattern` is not a regular expression.
pub uninterp spec fn replaced(
    pattern: Seq<char>,
    text: Seq<char>,
    replacement: Seq<char>,
) -> Option<Seq<char>>;

/// The matches of the regular expression `pattern` in `text`, leftmost first and without
/// overlaps. A match is the list of its capture groups: the whole match, then each group, `None`
/// where the group took no part. `None` where `pattern` is not a regular expression.
pub uninterp spec fn matches_of(pattern: Seq<char>, text: Seq<char>) -> Option<
    Seq<Seq<Option<Seq<char>>>>,
>;

/// The matches of `pattern` in `text` are what the syntax of the expression says.
pub open spec fn is_read(pattern: Seq<char>, text: Seq<char>) -> bool {
    is_finding(pattern, text, matches_of(pattern, text))
}

/// What optional texts hold.
pub open spec fn groups_view(groups: Seq<Option<String>>) -> Seq<Option<Seq<char>>> {
    Seq::new(groups.len(), |i: int| opt_text(groups[i]))
}

/// What a list of matches holds.
pub open spec fn matches_view(found: Seq<Vec<Option<String>>>) -> Seq<Seq<Option<Seq<char>>>> {
    Seq::new(found.len(), |i: int| groups_view(found[i]@))
}

// ---------------------------------------------------------------------------------------------
// What the syntax of some expressions means
// ---------------------------------------------------------------------------------------------
/// An ASCII digit.
pub open spec fn is_digit(c: char) -> bool {
    '0' <= c && c <= '9'
}

/// Whether `s` is made of ASCII digits, one at least.
pub open spec fn is_number(s: Seq<char>) -> bool {
    s.len() > 0 && forall|k: int| 0 <= k < s.len() ==> is_digit(#[trigger] s[k])
}

/// A hexadecimal digit in either case.
pub open spec fn is_hex(c: char) -> bool {
    is_digit(c) || ('a' <= c && c <= 'f') || ('A' <= c && c <= 'F')
}

/// An ASCII character of a word.
pub open spec fn is_word(c: char) -> bool {
    is_digit(c) || ('a' <= c && c <= 'z') || ('A' <= c && c <= 'Z') || c == '_'
}

/// An ASCII character that is no part of a word, and neither `.` nor `:`.
pub open spec fn is_break(c: char) -> bool {
    c <= '\u{7f}' && !is_word(c) && c != '.' && c != ':'
}

/// `s` is over, or goes on with a break.
pub open spec fn breaks_off(s: Seq<char>) -> bool {
    s.len() == 0 || is_break(s[0])
}

/// `s` has not begun, or has ended in a break.
pub open spec fn broke_off(s: Seq<char>) -> bool {
    s.len() == 0 || is_break(s.last())
}

/// Two hyphens in `s` stand `n` characters apart.
pub open spec fn hyphens_apart(s: Seq<char>, n: int) -> bool {
    exists|k: int| 0 <= k && k + n < s.len() && #[trigger] s[k] == '-' && s[k + n] == '-'
}

/// `s` with every run of white space replaced by `by`.
pub open spec fn spaced(s: Seq<char>, by: Seq<char>) -> Seq<char>
    decreases s.len(),
{
    if s.len() == 0 {
        s
    } else if !is_space(s.last()) {
        spaced(s.drop_last(), by).push(s.last())
    } else if s.len() > 1 && is_space(s[s.len() - 2]) {
        spaced(s.drop_last(), by)
    } else {
        spaced(s.drop_last(), by) + by
    }
}

/// Five groups of 8, 4, 4, 4 and 12 hexadecimal digits, with hyphens between them.
pub open spec fn is_uuid(u: Seq<char>) -> bool {
    u.len() == 36 && forall|k: int|
        0 <= k < 36 ==> if k == 8 || k == 13 || k == 18 || k == 23 {
            #[trigger] u[k] == '-'
        } else {
            is_hex(u[k])
        }
}

/// A date and a time of day to the second, such as `2026-01-31T23:59:59`, then perhaps a fraction
/// and perhaps a `Z`.
pub open spec fn is_timestamp(t: Seq<char>) -> bool {
    let whole = if t.last() == 'Z' {
        t.drop_last()
    } else {
        t
    };
    &&& t.len() >= 19
    &&& whole.len() >= 19
    &&& forall|k: int|
        0 <= k < 19 ==> if k == 4 || k == 7 {
            #[trigger] whole[k] == '-'
        } else if k == 10 {
            whole[k] == 'T' || whole[k] == ' '
        } else if k == 13 || k == 16 {
            whole[k] == ':'
        } else {
            is_digit(whole[k])
        }
    &&& whole.len() == 19 || (whole[19] == '.' && is_number(whole.skip(20)))
}

/// `f` is the name of a JavaScript or TypeScript file.
pub open spec fn is_script(f: Seq<char>) -> bool {
    &&& exists|stem: Seq<char>|
        stem.len() > 0 && (f == #[trigger] (stem + ".js"@) || f == stem + ".ts"@ || f == stem
            + ".jsx"@ || f == stem + ".tsx"@)
    &&& forall|k: int| 0 <= k < f.len() ==> #[trigger] f[k] != '/' && f[k] != ':'
}

/// `place` is a line, or a line and a column: `:12` or `:12:7`.
pub open spec fn is_line(place: Seq<char>) -> bool {
    exists|line: Seq<char>, column: Seq<char>|
        is_number(line) && (place == seq![':'] + line || (is_number(column) && place == #[trigger] (
        seq![':'] + line + seq![':'] + column)))
}

/// `path` leads through a directory: it starts and ends with a slash, and stays on one line.
pub open spec fn is_way(path: Seq<char>) -> bool {
    &&& path.len() >= 3
    &&& path[0] == '/'
    &&& path.last() == '/'
    &&& forall|k: int| 0 <= k < path.len() ==> #[trigger] path[k] != '\n'
}

/// `after` holds no further location: no slash, and no colon behind an `s` or an `x`.
pub open spec fn is_beyond(after: Seq<char>) -> bool {
    &&& breaks_off(after)
    &&& forall|k: int| 0 <= k < after.len() ==> #[trigger] after[k] != '/'
    &&& forall|k: int|
        0 < k < after.len() && #[trigger] after[k] == ':' ==> after[k - 1] != 's' && after[k - 1]
            != 'x'
}

/// `text` is `before`, then the location of a line in the script `f`, then `after`.
pub open spec fn holds_location(
    text: Seq<char>,
    before: Seq<char>,
    path: Seq<char>,
    f: Seq<char>,
    place: Seq<char>,
    after: Seq<char>,
) -> bool {
    &&& text == before + path + f + place + after
    &&& forall|k: int| 0 <= k < before.len() ==> #[trigger] before[k] != '/'
    &&& is_way(path)
    &&& is_script(f)
    &&& is_line(place)
    &&& is_beyond(after)
}

/// A `d` in `s` is followed by `=` or `:`.
pub open spec fn marks_id(s: Seq<char>) -> bool {
    exists|k: int|
        0 <= k < s.len() - 1 && (#[trigger] s[k] == 'd' || s[k] == 'D') && (s[k + 1] == '=' || s[k
            + 1] == ':')
}

/// `id`, in any case, then `=` or `:`, perhaps a space, and a number.
pub open spec fn is_id(s: Seq<char>) -> bool {
    &&& s.len() >= 4
    &&& s[0] == 'i' || s[0] == 'I'
    &&& s[1] == 'd' || s[1] == 'D'
    &&& s[2] == '=' || s[2] == ':'
    &&& is_number(s.skip(3)) || (s[3] == ' ' && is_number(s.skip(4)))
}

/// Four digits in a row begin at a place in `s` that no ASCII character of a word stands before.
/// Characters beyond ASCII may be digits.
pub open spec fn starts_number(s: Seq<char>) -> bool {
    exists|k: int|
        {
            &&& 0 <= k
            &&& k + 4 <= s.len()
            &&& k == 0 || !is_word(#[trigger] s[k - 1])
            &&& forall|j: int| k <= j < k + 4 ==> is_digit(#[trigger] s[j]) || s[j] > '\u{7f}'
        }
}

/// `0x` stands in `s`.
pub open spec fn marks_address(s: Seq<char>) -> bool {
    exists|k: int|
        0 <= k < s.len() - 1 && #[trigger] s[k] == '0' && (s[k + 1] == 'x' || s[k + 1] == 'X')
}

/// `0x` and hexadecimal digits.
pub open spec fn is_address(s: Seq<char>) -> bool {
    &&& s.len() >= 3
    &&& s[0] == '0'
    &&& s[1] == 'x' || s[1] == 'X'
    &&& forall|k: int| 2 <= k < s.len() ==> is_hex(#[trigger] s[k])
}

/// `text` is `before`, then `what`, then `after`.
pub open spec fn holds(
    text: Seq<char>,
    before: Seq<char>,
    what: Seq<char>,
    after: Seq<char>,
) -> bool {
    text == before + what + after
}

/// What the syntax of an expression says of replacing its matches in `text` by `by`, which is
/// inserted as it stands unless it holds a `$`: of white space all, of the other expressions what
/// becomes of a text without a match, and of one with a single, clearly delimited match.
pub open spec fn is_rewriting(
    pattern: Seq<char>,
    text: Seq<char>,
    by: Seq<char>,
    result: Option<Seq<char>>,
) -> bool {
    let literal = !by.contains('$');
    &&& pattern == r"\s+"@ && literal ==> result == Some(spaced(text, by))
    &&& pattern
        == r"(?i)[a-f0-9]{8}-[a-f0-9]{4}-[a-f0-9]{4}-[a-f0-9]{4}-[a-f0-9]{12}"@ ==> {
        &&& !hyphens_apart(text, 5) ==> result == Some(text)
        &&& literal ==> forall|a: Seq<char>, u: Seq<char>, b: Seq<char>| #[trigger]
            holds(text, a, u, b) && is_uuid(u) && !hyphens_apart(a, 5) && !hyphens_apart(b, 5)
                ==> result == Some(a + by + b)
    }
    &&& pattern == r"\d{4}-\d{2}-\d{2}[T ]\d{2}:\d{2}:\d{2}(\.\d+)?Z?"@ ==> {
        &&& !hyphens_apart(text, 3) ==> result == Some(text)
        &&& literal ==> forall|a: Seq<char>, t: Seq<char>, b: Seq<char>| #[trigger]
            holds(text, a, t, b) && is_timestamp(t) && breaks_off(b) && !hyphens_apart(a, 3)
                && !hyphens_apart(b, 3) ==> result == Some(a + by + b)
    }
    &&& pattern == r"/.+/([^/]+\.[jt]sx?):\d+(:\d+)?"@ ==> {
        &&& !text.contains('/') ==> result == Some(text)
        &&& by == "$1:<line>"@ ==> forall|
            before: Seq<char>,
            path: Seq<char>,
            f: Seq<char>,
            place: Seq<char>,
            after: Seq<char>,
        | #[trigger]
            holds_location(text, before, path, f, place, after) ==> result == Some(
                before + f + ":<line>"@ + after,
            )
    }
    &&& pattern == r"(?i)\bid[=:]\s*\d+"@ ==> {
        &&& !marks_id(text) ==> result == Some(text)
        &&& literal ==> forall|a: Seq<char>, i: Seq<char>, b: Seq<char>| #[trigger]
            holds(text, a, i, b) && is_id(i) && broke_off(a) && breaks_off(b) && !marks_id(a)
                && !marks_id(b) ==> result == Some(a + by + b)
    }
    &&& pattern == r"\b\d{4,}\b"@ ==> {
        &&& !starts_number(text) ==> result == Some(text)
        &&& literal ==> forall|a: Seq<char>, n: Seq<char>, b: Seq<char>| #[trigger]
            holds(text, a, n, b) && is_number(n) && n.len() >= 4 && broke_off(a) && breaks_off(b)
                && !starts_number(a) && !starts_number(b) ==> result == Some(a + by + b)
    }
    &&& pattern == r"(?i)0x[a-f0-9]+"@ ==> {
        &&& !marks_address(text) ==> result == Some(text)
        &&& literal ==> forall|a: Seq<char>, h: Seq<char>, b: Seq<char>| #[trigger]
            holds(text, a, h, b) && is_address(h) && breaks_off(b) && !marks_address(a)
                && !marks_address(b) ==> result == Some(a + by + b)
    }
}

/// Calls `regex::Regex::new` and `Regex::replace_all`: the result depends on the expression, the
/// text and the replacement alone, and for a few expressions it is what their syntax says.
#[verifier::external_body]
pub(crate) fn replace_all(pattern: &str, text: &str, replacement: &str) -> (r: Option<String>)
    ensures
        opt_text(r) == replaced(pattern@, text@, replacement@),
        is_rewriting(pattern@, text@, replacement@, opt_text(r)),
{
    match regex::Regex::new(pattern) {
        Ok(re) => Some(re.replace_all(text, replacement).into_owned()),
        Err(_) => None,
    }
}

/// A quotation mark of JavaScript.
pub open spec fn is_quote(c: char) -> bool {
    c == '\'' || c == '"' || c == '`'
}

/// `s` holds no quotation marks.
pub open spec fn has_no_quotes(s: Seq<char>) -> bool {
    forall|k: int| 0 <= k < s.len() ==> !is_quote(#[trigger] s[k])
}

/// `s` has not begun, or has ended in an ASCII character outside words.
pub open spec fn ended_outside(s: Seq<char>) -> bool {
    s.len() == 0 || (s.last() <= '\u{7f}' && !is_word(s.last()))
}

/// `s` is over, or goes on with an ASCII character outside words and other than a dot.
pub open spec fn goes_on_outside(s: Seq<char>) -> bool {
    s.len() == 0 || (s[0] <= '\u{7f}' && !is_word(s[0]) && s[0] != '.')
}

/// A line starts behind `s`.
pub open spec fn ends_line(s: Seq<char>) -> bool {
    s.len() == 0 || s.last() == '\n'
}

/// A name of ASCII letters, digits and underscores that does not start with a digit.
pub open spec fn is_identifier(n: Seq<char>) -> bool {
    n.len() > 0 && !is_digit(n[0]) && forall|k: int| 0 <= k < n.len() ==> is_word(#[trigger] n[k])
}

/// A name of ASCII letters, digits, underscores and dots that does not start with a dot.
pub open spec fn is_dotted(n: Seq<char>) -> bool {
    (n.len() > 0 ==> n[0] != '.') && forall|k: int|
        0 <= k < n.len() ==> is_word(#[trigger] n[k]) || n[k] == '.'
}

/// The forms of an import of `s` in JavaScript, with the quotation mark `q` and, between `import`
/// or `export` and `from`, the text `x`: bare, as a call, as a call of `require`, and the two forms
/// with `from`.
pub open spec fn script_import(form: int, x: Seq<char>, q: char, s: Seq<char>) -> Seq<char> {
    let quoted = seq![q] + s + seq![q];
    if form == 0 {
        "import "@ + quoted
    } else if form == 1 {
        "import("@ + quoted + ")"@
    } else if form == 2 {
        "require("@ + quoted + ")"@
    } else if form == 3 {
        "import "@ + x + " from "@ + quoted
    } else {
        "export "@ + x + " from "@ + quoted
    }
}

/// In which group the expression for these forms finds `s`.
pub open spec fn script_group(form: int) -> int {
    if form == 0 {
        2
    } else if form == 1 {
        3
    } else if form == 2 {
        4
    } else {
        1
    }
}

/// There is no match.
pub open spec fn is_nothing(found: Option<Seq<Seq<Option<Seq<char>>>>>) -> bool {
    found is Some && found->0.len() == 0
}

/// There is one match, and of its groups but the whole match `g` alone took part, with `s`.
pub open spec fn is_single(
    found: Option<Seq<Seq<Option<Seq<char>>>>>,
    size: int,
    g: int,
    s: Seq<char>,
) -> bool {
    &&& found is Some
    &&& found->0.len() == 1
    &&& found->0[0].len() == size
    &&& forall|k: int|
        1 <= k < size ==> #[trigger] found->0[0][k] == (if k == g {
            Some(s)
        } else {
            None
        })
}

/// What may stand before the quoted path of an import of Go: nothing, or a name and a space, but
/// not the word `import`.
pub open spec fn is_alias(n: Seq<char>) -> bool {
    n.len() == 0 || n == ". "@ || (n.last() == ' ' && is_identifier(n.drop_last()) && n
        != "import "@)
}

/// How the declarations of Rust may be prefixed.
pub open spec fn is_visibility(p: Seq<char>) -> bool {
    p.len() == 0 || p == "pub "@ || p == "pub(crate) "@
}

/// What the syntax of some expressions says of the matches in a text that holds one clearly
/// delimited match, or none.
pub open spec fn is_finding(
    pattern: Seq<char>,
    text: Seq<char>,
    found: Option<Seq<Seq<Option<Seq<char>>>>>,
) -> bool {
    &&& pattern
        == r#"\b(?:import|export)\b[^'"`;]*?\bfrom\s*['"`]([^'"`]+)['"`]|\bimport\s*['"`]([^'"`]+)['"`]|\bimport\s*\(\s*['"`]([^'"`]+)['"`]\s*\)|\brequire\s*\(\s*['"`]([^'"`]+)['"`]\s*\)"#@
        ==> {
        &&& has_no_quotes(text) ==> is_nothing(found)
        &&& forall|a: Seq<char>, form: int, x: Seq<char>, q: char, s: Seq<char>, b: Seq<char>|
            0 <= form <= 4 && #[trigger] holds(text, a, script_import(form, x, q, s), b)
                && has_no_quotes(a) && ended_outside(a) && has_no_quotes(x) && !x.contains(';')
                && is_quote(q) && s.len() > 0 && has_no_quotes(s) && has_no_quotes(b) ==> is_single(
                found,
                5,
                script_group(form),
                s,
            )
    }
    &&& pattern == r"(?m)^\s*(?:pub(?:\([^)]+\))?\s+)?mod\s+([A-Za-z_][A-Za-z0-9_]*)\s*;"@
        ==> {
        &&& !contains(text, "mod"@) ==> is_nothing(found)
        &&& forall|a: Seq<char>, p: Seq<char>, n: Seq<char>, b: Seq<char>| #[trigger]
            holds(text, a, p + "mod "@ + n + ";"@, b) && is_visibility(p) && ends_line(a)
                && is_identifier(n) && !contains(a, "mod"@) && !contains(b, "mod"@) ==> is_single(
                found,
                2,
                1,
                n,
            )
    }
    &&& pattern == r"(?m)^\s*(?:pub(?:\([^)]+\))?\s+)?use\s+([A-Za-z_][A-Za-z0-9_]*)"@ ==> {
        &&& !contains(text, "use"@) ==> is_nothing(found)
        &&& forall|a: Seq<char>, p: Seq<char>, n: Seq<char>, b: Seq<char>| #[trigger]
            holds(text, a, p + "use "@ + n, b) && is_visibility(p) && ends_line(a) && is_identifier(
                n,
            ) && goes_on_outside(b) && !contains(a, "use"@) && !contains(b, "use"@) ==> is_single(
                found,
                2,
                1,
                n,
            )
    }
    &&& pattern == r"(?m)^\s*#\[cfg\(test\)\]"@ ==> {
        &&& !contains(text, "#[cfg(test)]"@) ==> is_nothing(found)
        &&& forall|a: Seq<char>, b: Seq<char>| #[trigger]
            holds(text, a, "#[cfg(test)]"@, b) && ends_line(a) ==> found is Some && found->0.len()
                > 0
    }
    &&& pattern
        == r"(?m)^[ \t]*(?:from\s+(\.+)([\w.]*)\s+import|from\s+([\w.]+)\s+import|import\s+([\w.]+))"@
        ==> {
        &&& !contains(text, "import"@) ==> is_nothing(found)
        &&& forall|a: Seq<char>, n: Seq<char>, b: Seq<char>| #[trigger]
            holds(text, a, "import "@ + n, b) && ends_line(a) && n.len() > 0 && is_dotted(n)
                && goes_on_outside(b) && !contains(a, "import"@) && !contains(a, "from"@)
                && !contains(b, "import"@) ==> is_single(found, 5, 4, n)
        &&& forall|a: Seq<char>, n: Seq<char>, b: Seq<char>| #[trigger]
            holds(text, a, "from "@ + n + " import"@, b) && ends_line(a) && n.len() > 0
                && is_dotted(n) && !contains(a, "import"@) && !contains(a, "from"@) && !contains(
                b,
                "import"@,
            ) ==> is_single(found, 5, 3, n)
        &&& forall|a: Seq<char>, dots: Seq<char>, n: Seq<char>, b: Seq<char>| #[trigger]
            holds(text, a, "from "@ + dots + n + " import"@, b) && ends_line(a) && dots.len() > 0 && (
            forall|k: int| 0 <= k < dots.len() ==> #[trigger] dots[k] == '.') && is_dotted(n)
                && !contains(a, "import"@) && !contains(a, "from"@) && !contains(b, "import"@) ==> {
                &&& found is Some
                &&& found->0.len() == 1
                &&& found->0[0].len() == 5
                &&& found->0[0][1] == Some(dots)
                &&& found->0[0][2] == Some(n)
                &&& found->0[0][3] is None
                &&& found->0[0][4] is None
            }
    }
    &&& pattern
        == r#"(?m)(?:^[ \t]*import[ \t]+(?:[A-Za-z_][A-Za-z0-9_]*[ \t]+|\. |_ )?"([^"]+)"|^[ \t]*(?:[A-Za-z_][A-Za-z0-9_]*[ \t]+|\. |_ )?"([^"]+)")"#@
        ==> {
        &&& !text.contains('"') ==> is_nothing(found)
        &&& forall|a: Seq<char>, t: Seq<char>, n: Seq<char>, s: Seq<char>, b: Seq<char>| #[trigger]
            holds(text, a, t + n + seq!['"'] + s + seq!['"'], b) && ends_line(a) && (forall|k: int|
                0 <= k < t.len() ==> #[trigger] t[k] == ' ' || t[k] == '\t') && is_alias(n)
                && s.len() > 0 && !a.contains('"') && !s.contains('"') && !b.contains('"')
                ==> is_single(found, 3, 2, s)
    }
}

/// Calls `regex::Regex::new` and `Regex::captures_iter`, and copies each group's text: the result
/// depends on the expression and the text alone, and for a few expressions it is what their syntax
/// says.
#[verifier::external_body]
pub(crate) fn find_all(pattern: &str, text: &str) -> (r: Option<Vec<Vec<Option<String>>>>)
    ensures
        match r {
            Some(found) => matches_of(pattern@, text@) == Some(matches_view(found@)) && is_finding(
                pattern@,
                text@,
                Some(matches_view(found@)),
            ),
            None => matches_of(pattern@, text@) is None && is_finding(pattern@, text@, None),
        },
{
    match regex::Regex::new(pattern) {
        Ok(re) => Some(
            re.captures_iter(text)
                .map(|c| c.iter().map(|g| g.map(|m| m.as_str().to_string())).collect())
                .collect(),
        ),
        Err(_) => None,
    }
}

} // verus!
