//! A project's files, as far as the library looks at them.
use vstd::hash_map::StringHashMap;
use vstd::prelude::*;

use crate::paths::{
    components, dot_dot, first_parts, is_dot_dot, joined_parts, last_parts, parts_of, path_of,
    path_text, same_parts, with_part,
};
use crate::text::{concat2, copy_chars, is_listed, listed, opt_text, rows, text_of};

verus! {

/// One file or directory.
pub struct TreeEntry {
    /// Components separated by single slashes: relative to the project root for what stands in the
    /// project, from the root of the file system for what does not.
    pub path: String,
    pub is_dir: bool,
    /// The text of a file that was read.
    pub contents: Option<String>,
    /// When the file was last modified, in nanoseconds since the epoch; zero where unknown.
    pub mtime: i64,
}

/// The files and directories of a project, and those around it that paths lead to.
pub struct ProjectTree {
    /// The components of the path of the project root.
    home: Vec<Vec<char>>,
    root_name: String,
    entries: Vec<TreeEntry>,
    index: StringHashMap<usize>,
    outside: Vec<TreeEntry>,
    outside_index: StringHashMap<usize>,
}

/// What a `ProjectTree` holds.
pub ghost struct Files {
    /// The components of the path of the project root.
    pub home: Seq<Seq<char>>,
    /// What stands in the project, in the order in which it was found.
    pub entries: Seq<TreeEntry>,
    /// What is known of the rest of the file system.
    pub outside: Seq<TreeEntry>,
}

/// The first of the first `n` entries at `path`.
pub open spec fn entry_at(entries: Seq<TreeEntry>, path: Seq<char>, n: int) -> Option<int>
    decreases n,
{
    if n <= 0 {
        None
    } else {
        match entry_at(entries, path, n - 1) {
            Some(i) => Some(i),
            None => if entries[n - 1].path@ == path {
                Some(n - 1)
            } else {
                None
            },
        }
    }
}

// ---------------------------------------------------------------------------------------------
// Places: components from the root of the file system, without `..`
// ---------------------------------------------------------------------------------------------
/// Whether the place `at` is the project root or below it.
pub open spec fn is_within(files: Files, at: Seq<Seq<char>>) -> bool {
    files.home.len() <= at.len() && at.take(files.home.len() as int) == files.home
}

/// Whether the place `at` is the project root or above it.
pub open spec fn is_above(files: Files, at: Seq<Seq<char>>) -> bool {
    at.len() <= files.home.len() && files.home.take(at.len() as int) == at
}

/// The entries among which the place `at` is found.
pub open spec fn shelf(files: Files, at: Seq<Seq<char>>) -> Seq<TreeEntry> {
    if is_within(files, at) {
        files.entries
    } else {
        files.outside
    }
}

/// The components of the place `at` in the paths of these entries.
pub open spec fn place(files: Files, at: Seq<Seq<char>>) -> Seq<Seq<char>> {
    if is_within(files, at) {
        at.skip(files.home.len() as int)
    } else {
        at
    }
}

/// The path by which the place `at` is known: relative to the project root where it stands in the
/// project, else from the root of the file system.
pub open spec fn name_of(files: Files, at: Seq<Seq<char>>) -> Seq<char> {
    if is_within(files, at) {
        path_of(place(files, at))
    } else {
        "/"@ + path_of(at)
    }
}

/// The path by which the entry `name` of the directory at the place `at` is known.
pub open spec fn name_in(files: Files, at: Seq<Seq<char>>, name: Seq<char>) -> Seq<char> {
    if is_within(files, at) {
        path_of(place(files, at).push(name))
    } else {
        "/"@ + path_of(at.push(name))
    }
}

/// What stands at the place `at`.
pub open spec fn entry_for(files: Files, at: Seq<Seq<char>>) -> Option<TreeEntry> {
    let list = shelf(files, at);
    match entry_at(list, name_of(files, at), list.len() as int) {
        Some(i) => Some(list[i]),
        None => None,
    }
}

/// Whether there is a directory at the place `at`.
pub open spec fn dir_at(files: Files, at: Seq<Seq<char>>) -> bool {
    is_above(files, at) || match entry_for(files, at) {
        Some(e) => e.is_dir,
        None => false,
    }
}

/// Whether there is a file at the place `at`.
pub open spec fn file_at(files: Files, at: Seq<Seq<char>>) -> bool {
    !is_above(files, at) && match entry_for(files, at) {
        Some(e) => !e.is_dir,
        None => false,
    }
}

// ---------------------------------------------------------------------------------------------
// Paths
// ---------------------------------------------------------------------------------------------
/// The place that a list of components leads to from the root of the file system. `..` leads from
/// an existing directory to its parent.
pub open spec fn located(files: Files, parts: Seq<Seq<char>>) -> Option<Seq<Seq<char>>>
    decreases parts.len(),
{
    if parts.len() == 0 {
        Some(Seq::empty())
    } else {
        match located(files, parts.drop_last()) {
            Some(at) => if parts.last() == dot_dot() {
                if !dir_at(files, at) {
                    None
                } else if at.len() == 0 {
                    Some(at)
                } else {
                    Some(at.drop_last())
                }
            } else {
                Some(at.push(parts.last()))
            },
            None => None,
        }
    }
}

/// The file that `parts` leads to from the root of the file system, by the path by which it is
/// known.
pub open spec fn file_of(files: Files, parts: Seq<Seq<char>>) -> Option<Seq<char>> {
    match located(files, parts) {
        Some(at) => if file_at(files, at) {
            Some(name_of(files, at))
        } else {
            None
        },
        None => None,
    }
}

/// Whether `parts` leads to a directory from the root of the file system.
pub open spec fn dir_of(files: Files, parts: Seq<Seq<char>>) -> bool {
    match located(files, parts) {
        Some(at) => dir_at(files, at),
        None => false,
    }
}

/// The text of the file that `parts` leads to from the root of the file system.
pub open spec fn text_at(files: Files, parts: Seq<Seq<char>>) -> Option<Seq<char>> {
    match located(files, parts) {
        Some(at) => match entry_for(files, at) {
            Some(e) => opt_text(e.contents),
            None => None,
        },
        None => None,
    }
}

/// The file that `parts` leads to from the project root.
pub open spec fn file_for(files: Files, parts: Seq<Seq<char>>) -> Option<Seq<char>> {
    file_of(files, files.home + parts)
}

/// Whether `parts` leads to a directory from the project root.
pub open spec fn leads_to_dir(files: Files, parts: Seq<Seq<char>>) -> bool {
    dir_of(files, files.home + parts)
}

/// Whether `parts` leads to a file or directory from the project root.
pub open spec fn leads_anywhere(files: Files, parts: Seq<Seq<char>>) -> bool {
    file_for(files, parts) is Some || leads_to_dir(files, parts)
}

/// Whether a walk that passes over the names in `skip` leaves out `parts`: the root, one of the
/// directories on the way or the last component bears such a name.
pub open spec fn is_passed_over(
    parts: Seq<Seq<char>>,
    root: Seq<char>,
    skip: Seq<Seq<char>>,
) -> bool {
    listed(skip, root) || exists|i: int| 0 <= i < parts.len() && listed(skip, #[trigger] parts[i])
}

/// Whether a walk that passes over the names in `skip` leaves out `parts`.
pub fn passes_over(parts: &Vec<Vec<char>>, root: &str, skip: &Vec<&str>) -> (r: bool)
    ensures
        r == is_passed_over(rows(parts@), root@, skip.deep_view()),
{
    if is_listed(skip, root) {
        return true;
    }
    let mut i: usize = 0;
    while i < parts.len()
        invariant
            0 <= i <= parts@.len(),
            forall|j: int|
                0 <= j < i ==> !listed(skip.deep_view(), #[trigger] rows(parts@)[j]),
        decreases parts@.len() - i,
    {
        if is_listed(skip, text_of(&parts[i]).as_str()) {
            assert(listed(skip.deep_view(), rows(parts@)[i as int]));
            return true;
        }
        i += 1;
    }
    false
}

/// `index` maps the path of each of the first `n` entries to the first entry there.
spec fn is_index(index: Map<Seq<char>, usize>, entries: Seq<TreeEntry>, n: int) -> bool {
    forall|path: Seq<char>|
        match #[trigger] entry_at(entries, path, n) {
            Some(i) => index.contains_key(path) && index[path] == i,
            None => !index.contains_key(path),
        }
}

fn index_of_paths(entries: &Vec<TreeEntry>) -> (index: StringHashMap<usize>)
    ensures
        is_index(index@, entries@, entries@.len() as int),
{
    let mut index: StringHashMap<usize> = StringHashMap::new();
    let mut n: usize = 0;
    while n < entries.len()
        invariant
            0 <= n <= entries@.len(),
            is_index(index@, entries@, n as int),
        decreases entries@.len() - n,
    {
        let ghost before = index@;
        let path = &entries[n].path;
        if !index.contains_key(path.as_str()) {
            index.insert(path.clone(), n);
        }
        proof {
            assert forall|p: Seq<char>|
                match #[trigger] entry_at(entries@, p, n + 1) {
                    Some(i) => index@.contains_key(p) && index@[p] == i,
                    None => !index@.contains_key(p),
                } by {
                let at = entry_at(entries@, p, n as int);
                assert(entries@[n as int].path@ == path@);
            }
        }
        n += 1;
    }
    index
}

impl View for ProjectTree {
    type V = Files;

    closed spec fn view(&self) -> Files {
        Files { home: rows(self.home@), entries: self.entries@, outside: self.outside@ }
    }
}

impl ProjectTree {
    /// The name of the root directory; empty for the root of the file system.
    pub open spec fn root(&self) -> Seq<char> {
        if self@.home.len() > 0 {
            self@.home.last()
        } else {
            Seq::empty()
        }
    }

    /// The indices agree with the entries, and the name with the path.
    #[verifier::type_invariant]
    closed spec fn is_indexed(&self) -> bool {
        &&& is_index(self.index@, self.entries@, self.entries@.len() as int)
        &&& is_index(self.outside_index@, self.outside@, self.outside@.len() as int)
        &&& self.root_name@ == if self.home@.len() > 0 {
            rows(self.home@).last()
        } else {
            Seq::empty()
        }
    }

    /// The project at `location`, a path from the root of the file system, with its entries and
    /// those of the file system around it.
    pub fn new(location: &str, entries: Vec<TreeEntry>, outside: Vec<TreeEntry>) -> (tree:
        ProjectTree)
        ensures
            tree@.home == components(location@),
            tree@.entries == entries@,
            tree@.outside == outside@,
    {
        let home = parts_of(location);
        let index = index_of_paths(&entries);
        let outside_index = index_of_paths(&outside);
        let n: usize = home.len();
        let root_name = if n > 0 {
            assert(rows(home@).last() == home@[n - 1]@);
            text_of(&home[n - 1])
        } else {
            let none = String::new();
            assert(none@ =~= Seq::<char>::empty());
            none
        };
        ProjectTree { home, root_name, entries, index, outside, outside_index }
    }

    /// The name of the root directory.
    pub fn root_name(&self) -> (r: &str)
        ensures
            r@ == self.root(),
    {
        proof {
            use_type_invariant(self);
        }
        self.root_name.as_str()
    }

    /// The components of the path of the project root.
    pub fn home(&self) -> (r: &Vec<Vec<char>>)
        ensures
            rows(r@) == self@.home,
    {
        &self.home
    }

    /// The entries of the project, in the order in which they were found.
    pub fn entries(&self) -> (r: &Vec<TreeEntry>)
        ensures
            r@ == self@.entries,
    {
        &self.entries
    }

    /// The first entry of the project at `path`.
    pub fn find(&self, path: &str) -> (r: Option<usize>)
        ensures
            match r {
                Some(i) => {
                    &&& entry_at(self@.entries, path@, self@.entries.len() as int) == Some(i as int)
                    &&& i < self@.entries.len()
                    &&& self@.entries[i as int].path@ == path@
                },
                None => entry_at(self@.entries, path@, self@.entries.len() as int) is None,
            },
    {
        proof {
            use_type_invariant(self);
            entry_is_there(self@.entries, path@, self@.entries.len() as int);
        }
        match self.index.get(path) {
            Some(i) => Some(*i),
            None => None,
        }
    }

    /// Whether the place `at` is the project root or below it.
    pub fn holds(&self, at: &Vec<Vec<char>>) -> (r: bool)
        ensures
            r == is_within(self@, rows(at@)),
    {
        assert(rows(at@).len() == at@.len());
        assert(self@.home.len() == self.home@.len());
        self.home.len() <= at.len() && same_parts(&first_parts(at, self.home.len()), &self.home)
    }

    /// Whether the place `at` is the project root or above it.
    fn is_below(&self, at: &Vec<Vec<char>>) -> (r: bool)
        ensures
            r == is_above(self@, rows(at@)),
    {
        assert(rows(at@).len() == at@.len());
        assert(self@.home.len() == self.home@.len());
        at.len() <= self.home.len() && same_parts(&first_parts(&self.home, at.len()), at)
    }

    /// The entries among which the place `at` is found.
    pub fn shelf_of(&self, at: &Vec<Vec<char>>) -> (r: &Vec<TreeEntry>)
        ensures
            r@ == shelf(self@, rows(at@)),
    {
        if self.holds(at) {
            &self.entries
        } else {
            &self.outside
        }
    }

    /// The components of the place `at` in the paths of these entries.
    pub fn place_of(&self, at: &Vec<Vec<char>>) -> (r: Vec<Vec<char>>)
        ensures
            rows(r@) == place(self@, rows(at@)),
    {
        assert(rows(at@).len() == at@.len());
        assert(self@.home.len() == self.home@.len());
        if self.holds(at) {
            last_parts(at, self.home.len())
        } else {
            assert(rows(at@).skip(0) =~= rows(at@));
            last_parts(at, 0)
        }
    }

    /// The path by which the place `at` is known.
    pub fn path_for(&self, at: &Vec<Vec<char>>) -> (r: String)
        ensures
            r@ == name_of(self@, rows(at@)),
    {
        let path = path_text(&self.place_of(at));
        if self.holds(at) {
            path
        } else {
            concat2("/", path.as_str())
        }
    }

    /// The path by which the entry `name` of the directory at the place `at` is known.
    pub fn path_in(&self, at: &Vec<Vec<char>>, name: &Vec<char>) -> (r: String)
        ensures
            r@ == name_in(self@, rows(at@), name@),
    {
        let path = path_text(&with_part(&self.place_of(at), name));
        if self.holds(at) {
            path
        } else {
            concat2("/", path.as_str())
        }
    }

    /// What stands at the place `at`.
    pub fn entry(&self, at: &Vec<Vec<char>>) -> (r: Option<&TreeEntry>)
        ensures
            match r {
                Some(e) => entry_for(self@, rows(at@)) == Some(*e),
                None => entry_for(self@, rows(at@)) is None,
            },
    {
        let path = self.path_for(at);
        proof {
            use_type_invariant(self);
            entry_is_there(self@.entries, path@, self@.entries.len() as int);
            entry_is_there(self@.outside, path@, self@.outside.len() as int);
        }
        if self.holds(at) {
            match self.index.get(path.as_str()) {
                Some(i) => Some(&self.entries[*i]),
                None => None,
            }
        } else {
            match self.outside_index.get(path.as_str()) {
                Some(i) => Some(&self.outside[*i]),
                None => None,
            }
        }
    }

    /// Whether there is a directory at the place `at`.
    pub fn is_dir_at(&self, at: &Vec<Vec<char>>) -> (r: bool)
        ensures
            r == dir_at(self@, rows(at@)),
    {
        if self.is_below(at) {
            return true;
        }
        match self.entry(at) {
            Some(e) => e.is_dir,
            None => false,
        }
    }

    /// The place that `parts` leads to from the root of the file system.
    pub fn locate(&self, parts: &Vec<Vec<char>>) -> (r: Option<Vec<Vec<char>>>)
        ensures
            match r {
                Some(at) => located(self@, rows(parts@)) == Some(rows(at@)),
                None => located(self@, rows(parts@)) is None,
            },
    {
        let ghost all = rows(parts@);
        let mut at: Vec<Vec<char>> = Vec::new();
        let mut i: usize = 0;
        assert(all.take(0).len() == 0);
        assert(rows(at@) =~= Seq::<Seq<char>>::empty());
        while i < parts.len()
            invariant
                0 <= i <= parts@.len(),
                all == rows(parts@),
                located(self@, all.take(i as int)) == Some(rows(at@)),
            decreases parts@.len() - i,
        {
            let ghost now = all.take(i + 1);
            let ghost before = rows(at@);
            assert(now.drop_last() =~= all.take(i as int));
            assert(now.last() == parts@[i as int]@);
            if is_dot_dot(&parts[i]) {
                if !self.is_dir_at(&at) {
                    proof {
                        lost_stays_lost(self@, all, i + 1);
                    }
                    return None;
                }
                if at.len() > 0 {
                    at.pop();
                    assert(rows(at@) =~= before.drop_last());
                }
            } else {
                at.push(copy_chars(&parts[i]));
                assert(rows(at@) =~= before.push(parts@[i as int]@));
            }
            i += 1;
        }
        assert(all.take(i as int) =~= all);
        Some(at)
    }

    /// The file that `parts` leads to from the root of the file system.
    pub fn file_of(&self, parts: &Vec<Vec<char>>) -> (r: Option<String>)
        ensures
            match r {
                Some(path) => file_of(self@, rows(parts@)) == Some(path@),
                None => file_of(self@, rows(parts@)) is None,
            },
    {
        match self.locate(parts) {
            Some(at) => {
                if self.is_below(&at) {
                    return None;
                }
                match self.entry(&at) {
                    Some(e) => if e.is_dir {
                        None
                    } else {
                        Some(self.path_for(&at))
                    },
                    None => None,
                }
            },
            None => None,
        }
    }

    /// Whether `parts` leads to a directory from the root of the file system.
    pub fn dir_of(&self, parts: &Vec<Vec<char>>) -> (r: bool)
        ensures
            r == dir_of(self@, rows(parts@)),
    {
        match self.locate(parts) {
            Some(at) => self.is_dir_at(&at),
            None => false,
        }
    }

    /// The text of the file that `parts` leads to from the root of the file system.
    pub fn text_of(&self, parts: &Vec<Vec<char>>) -> (r: Option<&String>)
        ensures
            match r {
                Some(text) => text_at(self@, rows(parts@)) == Some(text@),
                None => text_at(self@, rows(parts@)) is None,
            },
    {
        match self.locate(parts) {
            Some(at) => match self.entry(&at) {
                Some(e) => e.contents.as_ref(),
                None => None,
            },
            None => None,
        }
    }

    /// `parts` from the root of the file system, where they start at the project root.
    pub fn from_home(&self, parts: &Vec<Vec<char>>) -> (r: Vec<Vec<char>>)
        ensures
            rows(r@) == self@.home + rows(parts@),
    {
        joined_parts(&self.home, parts)
    }

    /// The file that `parts` leads to from the project root.
    pub fn file(&self, parts: &Vec<Vec<char>>) -> (r: Option<String>)
        ensures
            match r {
                Some(path) => file_for(self@, rows(parts@)) == Some(path@),
                None => file_for(self@, rows(parts@)) is None,
            },
    {
        self.file_of(&self.from_home(parts))
    }

    /// Whether `parts` leads to a directory from the project root.
    pub fn has_dir(&self, parts: &Vec<Vec<char>>) -> (r: bool)
        ensures
            r == leads_to_dir(self@, rows(parts@)),
    {
        self.dir_of(&self.from_home(parts))
    }

    /// Whether `parts` leads to a file or directory from the project root.
    pub fn has_any(&self, parts: &Vec<Vec<char>>) -> (r: bool)
        ensures
            r == leads_anywhere(self@, rows(parts@)),
    {
        self.has_dir(parts) || self.file(parts).is_some()
    }
}

/// An entry that was found is one of the entries.
pub proof fn entry_is_there(entries: Seq<TreeEntry>, path: Seq<char>, n: int)
    ensures
        match entry_at(entries, path, n) {
            Some(i) => 0 <= i < n && entries[i].path@ == path,
            None => true,
        },
    decreases n,
{
    if n > 0 {
        entry_is_there(entries, path, n - 1);
    }
}

proof fn lost_stays_lost(files: Files, parts: Seq<Seq<char>>, n: int)
    requires
        0 <= n <= parts.len(),
        located(files, parts.take(n)) is None,
    ensures
        located(files, parts) is None,
    decreases parts.len() - n,
{
    if n < parts.len() {
        assert(parts.take(n + 1).drop_last() =~= parts.take(n));
        lost_stays_lost(files, parts, n + 1);
    } else {
        assert(parts.take(n) =~= parts);
    }
}

} // verus!
