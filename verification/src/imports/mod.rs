//! Imports: what source files name, and which files of the project those names lead to.
use vstd::prelude::*;
use vstd::string::*;

use crate::pattern::{groups_view, matches_view};
use crate::text::opt_text;
use crate::tree::ProjectTree;

pub mod go;
pub mod python;
pub mod rust;
pub mod typescript;

verus! {

/// The imports of one language.
pub trait ImportExtractor {
    /// The specifiers that `source` imports, in the order of their extraction.
    spec fn imports(&self, source: Seq<char>) -> Seq<Seq<char>>;

    /// The one file of the project that `specifier` leads to from `file`.
    spec fn target(
        &self,
        specifier: Seq<char>,
        file: Seq<char>,
        tree: &ProjectTree,
    ) -> Option<Seq<char>>;

    /// The files of the project that `specifier` leads to from `file`.
    spec fn targets(
        &self,
        specifier: Seq<char>,
        file: Seq<char>,
        tree: &ProjectTree,
    ) -> Seq<Seq<char>>;

    /// What the extractor remembers of a project is true of `tree`.
    spec fn fits(&self, tree: &ProjectTree) -> bool;

    /// The file extensions of the language.
    fn extensions(&self) -> (r: Vec<&'static str>);

    /// Extracts the import specifiers of a source file.
    fn extract_imports(&self, source: &str) -> (r: Vec<String>)
        ensures
            r.deep_view() == self.imports(source@),
    ;

    /// The one file of the project that `specifier` leads to from `importing_file`; none for
    /// packages from elsewhere, nor where an import stands for a directory.
    fn resolve(&self, specifier: &str, importing_file: &str, tree: &ProjectTree) -> (r: Option<
        String,
    >)
        requires
            self.fits(tree),
        ensures
            opt_text(r) == self.target(specifier@, importing_file@, tree),
    ;

    /// The files of the project that `specifier` leads to from `importing_file`; none for
    /// packages from elsewhere.
    fn resolve_many(&self, specifier: &str, importing_file: &str, tree: &ProjectTree) -> (r: Vec<
        String,
    >)
        requires
            self.fits(tree),
        ensures
            r.deep_view() == self.targets(specifier@, importing_file@, tree),
    ;
}

/// The list of at most one target.
pub open spec fn at_most_one(target: Option<Seq<char>>) -> Seq<Seq<char>> {
    match target {
        Some(path) => seq![path],
        None => Seq::empty(),
    }
}

/// The list of at most one target.
pub fn list_of(target: Option<String>) -> (r: Vec<String>)
    ensures
        r.deep_view() == at_most_one(opt_text(target)),
{
    let mut r: Vec<String> = Vec::new();
    if let Some(path) = target {
        r.push(path);
    }
    assert(r.deep_view() =~= at_most_one(opt_text(target)));
    r
}

// ---------------------------------------------------------------------------------------------
// Comments
// ---------------------------------------------------------------------------------------------
/// Whether the two bytes `x` and `y` stand in `b` at `i`.
pub open spec fn pair_at(b: Seq<u8>, i: int, x: u8, y: u8) -> bool {
    i + 1 < b.len() && b[i] == x && b[i + 1] == y
}

/// Where the line that holds position `i` ends.
pub open spec fn line_end(b: Seq<u8>, i: int) -> int
    decreases b.len() - i,
{
    if i >= b.len() || b[i] == 10 {
        i
    } else {
        line_end(b, i + 1)
    }
}

/// Where a block comment whose text starts at `i` is over.
pub open spec fn block_end(b: Seq<u8>, i: int) -> int
    decreases b.len() - i,
{
    if i + 1 >= b.len() {
        b.len() as int
    } else if pair_at(b, i, 42, 47) {
        i + 2
    } else {
        block_end(b, i + 1)
    }
}

/// The bytes of `b` from `i` on, each as one character, without `// ...` up to the line's end and
/// without `/* ... */`.
pub open spec fn uncommented(b: Seq<u8>, i: int) -> Seq<char>
    decreases b.len() - i,
    via uncommented_advances
{
    if i < 0 || i >= b.len() {
        Seq::empty()
    } else if pair_at(b, i, 47, 47) {
        uncommented(b, line_end(b, i))
    } else if pair_at(b, i, 47, 42) {
        uncommented(b, block_end(b, i + 2))
    } else {
        seq![b[i] as char] + uncommented(b, i + 1)
    }
}

#[via_fn]
proof fn uncommented_advances(b: Seq<u8>, i: int) {
    if 0 <= i && i < b.len() {
        if pair_at(b, i, 47, 47) {
            line_end_in_range(b, i + 1);
        }
        block_end_in_range(b, i + 2);
    }
}

proof fn line_end_in_range(b: Seq<u8>, i: int)
    requires
        0 <= i <= b.len(),
    ensures
        i <= line_end(b, i) <= b.len(),
    decreases b.len() - i,
{
    if i < b.len() && b[i] != 10 {
        line_end_in_range(b, i + 1);
    }
}

proof fn block_end_in_range(b: Seq<u8>, i: int)
    requires
        0 <= i,
    ensures
        i <= b.len() ==> i <= block_end(b, i) <= b.len(),
        i > b.len() ==> block_end(b, i) == b.len(),
    decreases b.len() - i,
{
    if i + 1 < b.len() && !pair_at(b, i, 42, 47) {
        block_end_in_range(b, i + 1);
    }
}

/// Removes line and block comments. A byte becomes one character; string literals are not
/// recognized.
pub fn strip_comments(source: &str) -> (out: Vec<char>)
    ensures
        out@ == uncommented(source.spec_bytes(), 0),
{
    let b = source.as_bytes();
    let n: usize = b.len();
    let mut out: Vec<char> = Vec::new();
    let mut i: usize = 0;
    assert(out@ + uncommented(b@, 0) =~= uncommented(b@, 0));
    while i < n
        invariant
            0 <= i <= n,
            n == b@.len(),
            b@ == source.spec_bytes(),
            out@ + uncommented(b@, i as int) == uncommented(b@, 0),
        decreases n - i,
    {
        if n - i > 1 && b[i] == 47 && b[i + 1] == 47 {
            let ghost start = i as int;
            proof {
                line_end_in_range(b@, i as int);
            }
            while i < n && b[i] != 10
                invariant
                    start <= i <= n,
                    n == b@.len(),
                    line_end(b@, start) == line_end(b@, i as int),
                    i == start ==> b@[i as int] == 47,
                    pair_at(b@, start, 47, 47),
                    start < n,
                ensures
                    i > start,
                    i == line_end(b@, start),
                    i <= n,
                decreases n - i,
            {
                i += 1;
            }
        } else if n - i > 1 && b[i] == 47 && b[i + 1] == 42 {
            let ghost start = i as int;
            i += 2;
            while n - i > 1 && !(b[i] == 42 && b[i + 1] == 47)
                invariant
                    start + 2 <= i <= n,
                    n == b@.len(),
                    block_end(b@, start + 2) == block_end(b@, i as int),
                decreases n - i,
            {
                i += 1;
            }
            if n - i > 1 {
                i += 2;
            } else {
                i = n;
            }
        } else {
            let ghost before = out@;
            let c = b[i] as char;
            out.push(c);
            proof {
                let rest = uncommented(b@, i + 1);
                assert(before + (seq![c] + rest) =~= out@ + rest);
            }
            i += 1;
        }
    }
    assert(out@ =~= uncommented(b@, 0));
    out
}

/// The text without comments, as a list of bytes read as characters, never has more characters
/// than the source has bytes.
pub proof fn stripping_never_grows(b: Seq<u8>, i: int)
    requires
        0 <= i,
    ensures
        i <= b.len() ==> uncommented(b, i).len() <= b.len() - i,
    decreases b.len() - i,
{
    if i < b.len() {
        if pair_at(b, i, 47, 47) {
            line_end_in_range(b, i + 1);
            stripping_never_grows(b, line_end(b, i));
        } else if pair_at(b, i, 47, 42) {
            block_end_in_range(b, i + 2);
            stripping_never_grows(b, block_end(b, i + 2));
        } else {
            stripping_never_grows(b, i + 1);
        }
    }
}

// ---------------------------------------------------------------------------------------------
// Capture groups
// ---------------------------------------------------------------------------------------------
/// The text of the first of the groups `from` to `to` that took part in a match.
pub open spec fn first_group(groups: Seq<Option<Seq<char>>>, from: int, to: int) -> Option<
    Seq<char>,
>
    decreases to - from + 1,
{
    if from < 0 || from > to || from >= groups.len() {
        None
    } else if groups[from] is Some {
        groups[from]
    } else {
        first_group(groups, from + 1, to)
    }
}

/// For each of the first `n` matches in which one of the groups 1 to `last` took part, the text of
/// the first such group.
pub open spec fn picked(
    found: Seq<Seq<Option<Seq<char>>>>,
    last: int,
    n: int,
) -> Seq<Seq<char>>
    decreases n,
{
    if n <= 0 {
        Seq::empty()
    } else {
        match first_group(found[n - 1], 1, last) {
            Some(text) => picked(found, last, n - 1).push(text),
            None => picked(found, last, n - 1),
        }
    }
}

/// What the matches of an expression pick; nothing where it is no expression.
pub open spec fn picks(found: Option<Seq<Seq<Option<Seq<char>>>>>, last: int) -> Seq<Seq<char>> {
    match found {
        Some(found) => picked(found, last, found.len() as int),
        None => Seq::empty(),
    }
}

/// For each match in which one of the groups 1 to `last` took part, the text of the first such
/// group.
pub fn pick_groups(found: &Vec<Vec<Option<String>>>, last: usize) -> (r: Vec<String>)
    requires
        last < usize::MAX,
    ensures
        r.deep_view() == picked(matches_view(found@), last as int, found@.len() as int),
{
    let ghost all = matches_view(found@);
    let mut r: Vec<String> = Vec::new();
    let mut n: usize = 0;
    assert(r.deep_view() =~= Seq::<Seq<char>>::empty());
    while n < found.len()
        invariant
            0 <= n <= found@.len(),
            all == matches_view(found@),
            last < usize::MAX,
            r.deep_view() == picked(all, last as int, n as int),
        decreases found@.len() - n,
    {
        let groups = &found[n];
        let ghost view = all[n as int];
        assert(view == groups_view(groups@));
        let ghost before = r.deep_view();
        let mut g: usize = 1;
        while g <= last && g < groups.len() && groups[g].is_none()
            invariant
                1 <= g <= last + 1,
                last < usize::MAX,
                view == groups_view(groups@),
                first_group(view, 1, last as int) == first_group(view, g as int, last as int),
            decreases last + 1 - g,
        {
            assert(view[g as int] is None);
            g += 1;
        }
        if g <= last && g < groups.len() {
            if let Some(text) = &groups[g] {
                assert(view[g as int] == Some(text@));
                r.push(text.clone());
                assert(r.deep_view() =~= before.push(text@));
            }
        }
        n += 1;
    }
    r
}

} // verus!
