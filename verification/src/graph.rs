//! The import graph: which files import which, and what a change reaches.
use vstd::hash_map::StringHashMap;
use vstd::prelude::*;

use crate::paths::{canonical, canonicalize_relative};
use crate::text::listed;

verus! {

/// An import: the importing file, then the imported one.
pub type Edge = (Seq<char>, Seq<char>);

/// `from` imports `to`, directly or through others, over at most `hops` imports.
pub open spec fn depends(edges: Set<Edge>, from: Seq<char>, to: Seq<char>, hops: nat) -> bool
    decreases hops,
{
    hops > 0 && (edges.contains((from, to)) || exists|mid: Seq<char>| #[trigger]
        edges.contains((from, mid)) && depends(edges, mid, to, (hops - 1) as nat))
}

/// The files that take part in some import.
pub open spec fn nodes_of(edges: Set<Edge>) -> Set<Seq<char>> {
    Set::new(|f: Seq<char>| exists|e: Edge| #[trigger] edges.contains(e) && (e.0 == f || e.1 == f))
}

/// Which files import which. Files are named in canonical form.
pub struct ImportGraph {
    names: Vec<String>,
    index: StringHashMap<usize>,
    /// For each file, the files that import it.
    importers: Vec<Vec<usize>>,
    /// Each import once.
    list: Vec<(usize, usize)>,
}

spec fn named(names: Seq<String>, list: Seq<(usize, usize)>) -> Seq<Edge> {
    Seq::new(list.len(), |j: int| (names[list[j].0 as int]@, names[list[j].1 as int]@))
}

impl View for ImportGraph {
    type V = Set<Edge>;

    closed spec fn view(&self) -> Set<Edge> {
        named(self.names@, self.list@).to_set()
    }
}

impl ImportGraph {
    /// Names and numbers correspond, and the two forms of the imports agree.
    spec fn is_linked(&self) -> bool {
        let names = self.names@;
        let list = self.list@;
        &&& self.importers@.len() == names.len()
        &&& forall|i: int|
            0 <= i < names.len() ==> self.index@.contains_key(#[trigger] names[i]@)
                && self.index@[names[i]@] == i
        &&& forall|s: Seq<char>| #[trigger]
            self.index@.contains_key(s) ==> self.index@[s] < names.len()
                && names[self.index@[s] as int]@ == s
        &&& forall|j: int|
            0 <= j < list.len() ==> (#[trigger] list[j]).0 < names.len() && list[j].1 < names.len()
        &&& list.no_duplicates()
        &&& forall|j: int|
            0 <= j < list.len() ==> self.importers@[(#[trigger] list[j]).1 as int]@.contains(
                list[j].0,
            )
        &&& forall|k: int, b: int|
            0 <= k < names.len() && 0 <= b < self.importers@[k]@.len() ==> list.contains(
                (#[trigger] self.importers@[k]@[b], k as usize),
            )
    }

    /// File number `i` takes part in some import.
    spec fn is_used(&self, i: int) -> bool {
        exists|j: int|
            0 <= j < self.list@.len() && ((#[trigger] self.list@[j]).0 == i || self.list@[j].1
                == i)
    }

    /// The graph is in order: what every operation relies on and keeps.
    pub closed spec fn wf(&self) -> bool {
        self.is_linked() && forall|i: int| 0 <= i < self.names@.len() ==> #[trigger] self.is_used(i)
    }

    /// The graph without imports.
    pub fn new() -> (g: ImportGraph)
        ensures
            g.wf(),
            g@ == Set::<Edge>::empty(),
    {
        let g = ImportGraph {
            names: Vec::new(),
            index: StringHashMap::new(),
            importers: Vec::new(),
            list: Vec::new(),
        };
        assert(g@ =~= Set::<Edge>::empty());
        g
    }

    /// How many files take part in some import.
    pub fn node_count(&self) -> (n: usize)
        requires
            self.wf(),
        ensures
            n == nodes_of(self@).len(),
            nodes_of(self@).finite(),
    {
        proof {
            let names = Seq::new(self.names@.len(), |i: int| self.names@[i]@);
            assert(names.no_duplicates()) by {
                assert forall|i: int, j: int|
                    0 <= i < names.len() && 0 <= j < names.len() && i != j implies names[i]
                    != names[j] by {
                    assert(self.index@[self.names@[i]@] == i);
                    assert(self.index@[self.names@[j]@] == j);
                }
            }
            names.unique_seq_to_set();
            let edges = named(self.names@, self.list@);
            assert forall|f: Seq<char>| names.to_set().contains(f) <==> nodes_of(self@).contains(
                f,
            ) by {
                if names.to_set().contains(f) {
                    let i = choose|i: int| 0 <= i < names.len() && names[i] == f;
                    assert(self.is_used(i));
                    let j = choose|j: int|
                        0 <= j < self.list@.len() && ((#[trigger] self.list@[j]).0 == i
                            || self.list@[j].1 == i);
                    assert(edges[j].0 == f || edges[j].1 == f);
                    assert(self@.contains(edges[j]));
                }
                if nodes_of(self@).contains(f) {
                    let e = choose|e: Edge| #[trigger]
                        self@.contains(e) && (e.0 == f || e.1 == f);
                    let j = choose|j: int| 0 <= j < edges.len() && edges[j] == e;
                    let l = self.list@[j];
                    assert(names[l.0 as int] == e.0 && names[l.1 as int] == e.1);
                }
            }
            assert(names.to_set() =~= nodes_of(self@));
        }
        self.names.len()
    }

    /// How many imports there are.
    pub fn edge_count(&self) -> (n: usize)
        requires
            self.wf(),
        ensures
            n == self@.len(),
            self@.finite(),
    {
        proof {
            let edges = named(self.names@, self.list@);
            assert(edges.no_duplicates()) by {
                assert forall|i: int, j: int|
                    0 <= i < edges.len() && 0 <= j < edges.len() && i != j implies edges[i]
                    != edges[j] by {
                    let a = self.list@[i];
                    let b = self.list@[j];
                    assert(a != b);
                    assert(self.index@[self.names@[a.0 as int]@] == a.0);
                    assert(self.index@[self.names@[b.0 as int]@] == b.0);
                    assert(self.index@[self.names@[a.1 as int]@] == a.1);
                    assert(self.index@[self.names@[b.1 as int]@] == b.1);
                }
            }
            edges.unique_seq_to_set();
        }
        self.list.len()
    }

    /// The number of the file `name`, which gets one if it has none.
    fn intern(&mut self, name: &String) -> (id: usize)
        requires
            old(self).is_linked(),
        ensures
            final(self).is_linked(),
            final(self).list == old(self).list,
            old(self).names@.len() <= final(self).names@.len() <= old(self).names@.len() + 1,
            forall|i: int|
                0 <= i < old(self).names@.len() ==> #[trigger] final(self).names@[i] == old(
                    self,
                ).names@[i],
            id < final(self).names@.len(),
            final(self).names@[id as int]@ == name@,
            final(self).names@.len() > old(self).names@.len() ==> id == old(self).names@.len(),
    {
        match self.index.get(name.as_str()) {
            Some(i) => {
                return *i;
            },
            None => {},
        }
        let id: usize = self.names.len();
        let ghost g0 = *self;
        self.names.push(name.clone());
        self.importers.push(Vec::new());
        self.index.insert(name.clone(), id);
        proof {
            assert forall|i: int| 0 <= i < self.names@.len() implies self.index@.contains_key(
                #[trigger] self.names@[i]@,
            ) && self.index@[self.names@[i]@] == i by {
                if i < id {
                    assert(g0.index@.contains_key(g0.names@[i]@));
                }
            }
            assert forall|j: int| 0 <= j < self.list@.len() implies self.importers@[(
            #[trigger] self.list@[j]).1 as int]@.contains(self.list@[j].0) by {
                assert(g0.importers@[g0.list@[j].1 as int]@.contains(g0.list@[j].0));
            }
            assert forall|k: int, b: int|
                0 <= k < self.names@.len() && 0 <= b < self.importers@[k]@.len() implies self.list@.contains(
                (#[trigger] self.importers@[k]@[b], k as usize)) by {
                assert(k < id);
                assert(g0.list@.contains((g0.importers@[k]@[b], k as usize)));
            }
        }
        id
    }

    /// Records that `from` imports `to`. Recording an import twice makes no difference.
    pub fn add_edge(&mut self, from: &str, to: &str)
        requires
            old(self).wf(),
        ensures
            final(self).wf(),
            final(self)@ == old(self)@.insert((canonical(from@), canonical(to@))),
    {
        let ghost g0 = *self;
        let a = canonicalize_relative(from);
        let b = canonicalize_relative(to);
        let ghost edge = (a@, b@);
        let i: usize = self.intern(&a);
        let ghost g1 = *self;
        let k: usize = self.intern(&b);
        let ghost g2 = *self;
        proof {
            assert(self.names@[i as int]@ == a@);
            assert(named(g2.names@, g2.list@) =~= named(g0.names@, g0.list@));
        }
        let mut known = false;
        let mut p: usize = 0;
        while p < self.importers[k].len()
            invariant
                0 <= p <= self.importers@[k as int]@.len(),
                k < self.importers@.len(),
                *self == g2,
                known ==> self.importers@[k as int]@.contains(i),
                !known ==> forall|q: int|
                    0 <= q < p ==> #[trigger] self.importers@[k as int]@[q] != i,
            decreases self.importers@[k as int]@.len() - p,
        {
            if self.importers[k][p] == i {
                assert(self.importers@[k as int]@[p as int] == i);
                known = true;
            }
            p += 1;
        }
        if known {
            proof {
                let q = choose|q: int|
                    0 <= q < g2.importers@[k as int]@.len() && g2.importers@[k as int]@[q] == i;
                assert(g2.list@.contains((g2.importers@[k as int]@[q], k)));
                let j = choose|j: int| 0 <= j < g2.list@.len() && g2.list@[j] == (i, k);
                assert(named(g2.names@, g2.list@)[j] == edge);
                assert(g0@.contains(edge));
                assert(g0@.insert(edge) =~= g0@);
                assert(self.wf()) by {
                    assert forall|n: int| 0 <= n < self.names@.len() implies #[trigger] self.is_used(
                        n,
                    ) by {
                        assert(g2.list@[j].0 == i && g2.list@[j].1 == k);
                        if n < g0.names@.len() {
                            assert(g0.is_used(n));
                        }
                    }
                }
            }
            return ;
        }
        self.importers[k].push(i);
        self.list.push((i, k));
        proof {
            let last = g2.list@.len() as int;
            assert(!g2.list@.contains((i, k))) by {
                if g2.list@.contains((i, k)) {
                    let j = choose|j: int| 0 <= j < g2.list@.len() && g2.list@[j] == (i, k);
                    assert(g2.importers@[g2.list@[j].1 as int]@.contains(i));
                }
            }
            assert(self.list@ == g2.list@.push((i, k)));
            assert(self.list@.no_duplicates());
            assert(self.importers@[k as int]@ == g2.importers@[k as int]@.push(i));
            assert forall|j: int| 0 <= j < self.list@.len() implies self.importers@[(
            #[trigger] self.list@[j]).1 as int]@.contains(self.list@[j].0) by {
                if j < last {
                    assert(g2.importers@[g2.list@[j].1 as int]@.contains(g2.list@[j].0));
                    if g2.list@[j].1 == k {
                        let q = choose|q: int|
                            0 <= q < g2.importers@[k as int]@.len() && g2.importers@[k as int]@[q]
                                == g2.list@[j].0;
                        assert(self.importers@[k as int]@[q] == g2.list@[j].0);
                    }
                } else {
                    assert(self.importers@[k as int]@[g2.importers@[k as int]@.len() as int] == i);
                }
            }
            assert forall|n: int, b: int|
                0 <= n < self.names@.len() && 0 <= b < self.importers@[n]@.len() implies self.list@.contains(
                (#[trigger] self.importers@[n]@[b], n as usize)) by {
                if n == k && b == g2.importers@[k as int]@.len() {
                    assert(self.list@[last] == (i, k));
                } else {
                    assert(g2.list@.contains((g2.importers@[n]@[b], n as usize)));
                    let j = choose|j: int|
                        0 <= j < g2.list@.len() && g2.list@[j] == (
                            g2.importers@[n]@[b],
                            n as usize,
                        );
                    assert(self.list@[j] == g2.list@[j]);
                }
            }
            assert forall|n: int| 0 <= n < self.names@.len() implies #[trigger] self.is_used(n) by {
                assert(self.list@[last] == (i, k));
                if n < g0.names@.len() {
                    assert(g0.is_used(n));
                    let j = choose|j: int|
                        0 <= j < g0.list@.len() && ((#[trigger] g0.list@[j]).0 == n || g0.list@[j].1
                            == n);
                    assert(self.list@[j] == g0.list@[j]);
                } else {
                    assert(n == i || n == k);
                }
            }
            let was = named(g0.names@, g0.list@);
            assert(named(self.names@, self.list@) =~= was.push(edge));
            assert(was.push(edge).to_set() =~= was.to_set().insert(edge)) by {
                assert forall|e: Edge| was.push(edge).to_set().contains(e) <==> was.to_set().insert(
                    edge,
                ).contains(e) by {
                    if was.to_set().contains(e) {
                        let j = choose|j: int| 0 <= j < was.len() && was[j] == e;
                        assert(was.push(edge)[j] == e);
                    }
                    assert(was.push(edge)[was.len() as int] == edge);
                    if was.push(edge).to_set().contains(e) {
                        let j = choose|j: int|
                            0 <= j < was.push(edge).len() && was.push(edge)[j] == e;
                        if j < was.len() {
                            assert(was[j] == e);
                        }
                    }
                }
            }
        }
    }

    /// Every import of the graph, by number.
    proof fn edges_are_listed(&self, from: Seq<char>, to: Seq<char>)
        requires
            self.wf(),
            self@.contains((from, to)),
        ensures
            self.index@.contains_key(from),
            self.index@.contains_key(to),
            self.importers@[self.index@[to] as int]@.contains(self.index@[from]),
    {
        let edges = named(self.names@, self.list@);
        let j = choose|j: int| 0 <= j < edges.len() && edges[j] == (from, to);
        let l = self.list@[j];
        assert(self.index@.contains_key(self.names@[l.0 as int]@));
        assert(self.index@.contains_key(self.names@[l.1 as int]@));
    }

    /// An importer, by number, stands for an import.
    proof fn importers_are_edges(&self, k: int, b: int)
        requires
            self.wf(),
            0 <= k < self.names@.len(),
            0 <= b < self.importers@[k]@.len(),
        ensures
            self.importers@[k]@[b] < self.names@.len(),
            self@.contains((self.names@[self.importers@[k]@[b] as int]@, self.names@[k]@)),
    {
        let e = (self.importers@[k]@[b], k as usize);
        assert(self.list@.contains(e));
        let j = choose|j: int| 0 <= j < self.list@.len() && self.list@[j] == e;
        assert(named(self.names@, self.list@)[j] == (
            self.names@[self.importers@[k]@[b] as int]@,
            self.names@[k]@,
        ));
    }

    /// All files that import `target`, directly or through others, over at most `max_depth`
    /// imports. `target` itself is not among them.
    pub fn reverse_reachable(&self, target: &str, max_depth: usize) -> (out: Vec<String>)
        requires
            self.wf(),
        ensures
            out.deep_view().no_duplicates(),
            forall|f: Seq<char>| #[trigger]
                listed(out.deep_view(), f) <==> (f != canonical(target@) && depends(
                    self@,
                    f,
                    canonical(target@),
                    max_depth as nat,
                )),
    {
        let name = canonicalize_relative(target);
        let ghost goal = name@;
        let start: usize = match self.index.get(name.as_str()) {
            Some(i) => *i,
            None => {
                proof {
                    assert forall|f: Seq<char>| !depends(self@, f, goal, max_depth as nat) by {
                        if depends(self@, f, goal, max_depth as nat) {
                            dependents_end_in_an_edge(self@, f, goal, max_depth as nat);
                            let mid = choose|mid: Seq<char>| #[trigger] self@.contains((mid, goal));
                            self.edges_are_listed(mid, goal);
                        }
                    }
                }
                return Vec::new();
            },
        };
        let n: usize = self.names.len();
        let mut seen: Vec<bool> = Vec::new();
        let mut i: usize = 0;
        while i < n
            invariant
                0 <= i <= n,
                seen@.len() == i,
                forall|j: int| 0 <= j < i ==> #[trigger] seen@[j] == (j == start),
            decreases n - i,
        {
            seen.push(i == start);
            i += 1;
        }
        let mut found: Vec<usize> = Vec::new();
        let mut frontier: Vec<usize> = vec![start];
        let mut depth: usize = 0;
        while depth < max_depth && frontier.len() > 0
            invariant
                self.wf(),
                n == self.names@.len() == seen@.len(),
                start < n,
                self.names@[start as int]@ == goal,
                depth <= max_depth,
                seen@[start as int],
                forall|x: int|
                    0 <= x < n ==> (#[trigger] seen@[x] <==> (x == start || depends(
                        self@,
                        self.names@[x]@,
                        goal,
                        depth as nat,
                    ))),
                forall|a: int|
                    0 <= a < frontier@.len() ==> #[trigger] frontier@[a] < n
                        && seen@[frontier@[a] as int],
                self.is_closed(seen@, frontier@),
                found@.no_duplicates(),
                forall|x: usize| #[trigger]
                    found@.contains(x) <==> (x < n && seen@[x as int] && x != start),
            decreases max_depth - depth,
        {
            let ghost seen0 = seen@;
            let mut next: Vec<usize> = Vec::new();
            let mut a: usize = 0;
            while a < frontier.len()
                invariant
                    self.wf(),
                    n == self.names@.len() == seen@.len() == seen0.len(),
                    start < n,
                    self.names@[start as int]@ == goal,
                    seen0[start as int],
                    0 <= a <= frontier@.len(),
                    forall|x: int|
                        0 <= x < n ==> (#[trigger] seen0[x] <==> (x == start || depends(
                            self@,
                            self.names@[x]@,
                            goal,
                            depth as nat,
                        ))),
                    forall|q: int|
                        0 <= q < frontier@.len() ==> #[trigger] frontier@[q] < n
                            && seen0[frontier@[q] as int],
                    forall|x: int| 0 <= x < n && seen0[x] ==> #[trigger] seen@[x],
                    forall|x: int|
                        0 <= x < n && #[trigger] seen@[x] && !seen0[x] ==> next@.contains(
                            x as usize,
                        ) && depends(self@, self.names@[x]@, goal, depth as nat + 1),
                    forall|q: int|
                        0 <= q < next@.len() ==> #[trigger] next@[q] < n && seen@[next@[q] as int],
                    forall|q: int, b: int|
                        0 <= q < a && 0 <= b < self.importers@[frontier@[q] as int]@.len()
                            ==> seen@[#[trigger] self.importers@[frontier@[q] as int]@[b] as int],
                    found@.no_duplicates(),
                    forall|x: usize| #[trigger]
                        found@.contains(x) <==> (x < n && seen@[x as int] && x != start),
                decreases frontier@.len() - a,
            {
                let f: usize = frontier[a];
                let ghost rest = self.importers@[f as int]@;
                let mut b: usize = 0;
                while b < self.importers[f].len()
                    invariant
                        self.wf(),
                        n == self.names@.len() == seen@.len() == seen0.len(),
                        start < n,
                        f < n,
                        0 <= a < frontier@.len(),
                        f == frontier@[a as int],
                        rest == self.importers@[f as int]@,
                        self.names@[start as int]@ == goal,
                        seen0[start as int],
                        seen0[f as int],
                        0 <= b <= rest.len(),
                        forall|q: int| 0 <= q < frontier@.len() ==> #[trigger] frontier@[q] < n,
                        forall|x: int|
                            0 <= x < n ==> (#[trigger] seen0[x] <==> (x == start || depends(
                                self@,
                                self.names@[x]@,
                                goal,
                                depth as nat,
                            ))),
                        forall|x: int| 0 <= x < n && seen0[x] ==> #[trigger] seen@[x],
                        forall|x: int|
                            0 <= x < n && #[trigger] seen@[x] && !seen0[x] ==> next@.contains(
                                x as usize,
                            ) && depends(self@, self.names@[x]@, goal, depth as nat + 1),
                        forall|q: int|
                            0 <= q < next@.len() ==> #[trigger] next@[q] < n
                                && seen@[next@[q] as int],
                        forall|q: int, c: int|
                            0 <= q < a && 0 <= c < self.importers@[frontier@[q] as int]@.len()
                                ==> seen@[#[trigger] self.importers@[frontier@[q] as int]@[c] as int],
                        forall|c: int| 0 <= c < b ==> seen@[#[trigger] rest[c] as int],
                        found@.no_duplicates(),
                        forall|x: usize| #[trigger]
                            found@.contains(x) <==> (x < n && seen@[x as int] && x != start),
                    decreases rest.len() - b,
                {
                    let x: usize = self.importers[f][b];
                    proof {
                        self.importers_are_edges(f as int, b as int);
                        assert(self@.contains((self.names@[x as int]@, self.names@[f as int]@)));
                        assert(depends(self@, self.names@[x as int]@, goal, depth as nat + 1)) by {
                            if f != start {
                                assert(depends(self@, self.names@[f as int]@, goal, depth as nat));
                            }
                        }
                    }
                    if !seen[x] {
                        let ghost seen1 = seen@;
                        let ghost next1 = next@;
                        let ghost found1 = found@;
                        seen.set(x, true);
                        next.push(x);
                        found.push(x);
                        proof {
                            assert(!found1.contains(x));
                            assert forall|q: int, c: int|
                                0 <= q < a && 0 <= c < self.importers@[frontier@[q] as int]@.len()
                                    implies seen@[
                                #[trigger] self.importers@[frontier@[q] as int]@[c] as int] by {
                                self.importers_are_edges(frontier@[q] as int, c);
                                assert(seen1[self.importers@[frontier@[q] as int]@[c] as int]);
                            }
                            assert forall|y: int| 0 <= y < n && #[trigger] seen@[y] && !seen0[y]
                                implies next@.contains(y as usize) && depends(
                                self@,
                                self.names@[y]@,
                                goal,
                                depth as nat + 1,
                            ) by {
                                if y == x {
                                    assert(next@[next1.len() as int] == x);
                                } else {
                                    assert(seen1[y]);
                                    let q = choose|q: int|
                                        0 <= q < next1.len() && next1[q] == y as usize;
                                    assert(next@[q] == y as usize);
                                }
                            }
                            assert forall|y: usize| #[trigger] found@.contains(y) <==> (y < n
                                && seen@[y as int] && y != start) by {
                                if found1.contains(y) {
                                    let q = choose|q: int|
                                        0 <= q < found1.len() && found1[q] == y;
                                    assert(found@[q] == y);
                                }
                                if y == x {
                                    assert(found@[found1.len() as int] == y);
                                }
                                if found@.contains(y) && y != x {
                                    let q = choose|q: int| 0 <= q < found@.len() && found@[q] == y;
                                    assert(found1[q] == y);
                                }
                            }
                        }
                    }
                    b += 1;
                }
                a += 1;
            }
            proof {
                assert forall|x: int| 0 <= x < n implies (#[trigger] seen@[x] <==> (x == start
                    || depends(self@, self.names@[x]@, goal, depth as nat + 1))) by {
                    if seen0[x] && x != start {
                        dependence_grows(self@, self.names@[x]@, goal, depth as nat, depth as nat + 1);
                    }
                    if depends(self@, self.names@[x]@, goal, depth as nat + 1) {
                        let from = self.names@[x]@;
                        let mid = if self@.contains((from, goal)) {
                            goal
                        } else {
                            choose|mid: Seq<char>| #[trigger]
                                self@.contains((from, mid)) && depends(
                                    self@,
                                    mid,
                                    goal,
                                    depth as nat,
                                )
                        };
                        self.edges_are_listed(from, mid);
                        let m = self.index@[mid] as int;
                        assert(self.names@[m]@ == mid);
                        assert(self.index@[from] == x);
                        assert(self.index@[goal] == start);
                        assert(seen0[m]);
                        let c = choose|c: int|
                            0 <= c < self.importers@[m]@.len() && self.importers@[m]@[c]
                                == self.index@[from];
                        if frontier@.contains(m as usize) {
                            let q = choose|q: int|
                                0 <= q < frontier@.len() && frontier@[q] == m as usize;
                            assert(seen@[self.importers@[frontier@[q] as int]@[c] as int]);
                        } else {
                            assert(seen0[self.importers@[m]@[c] as int]);
                        }
                    }
                }
                assert(self.is_closed(seen@, next@)) by {
                    assert forall|k: int, c: int|
                        0 <= k < n && seen@[k] && !next@.contains(k as usize) && 0 <= c
                            < self.importers@[k]@.len() implies seen@[
                        #[trigger] self.importers@[k]@[c] as int] by {
                        self.importers_are_edges(k, c);
                        assert(seen0[k]);
                        if frontier@.contains(k as usize) {
                            let q = choose|q: int|
                                0 <= q < frontier@.len() && frontier@[q] == k as usize;
                            assert(seen@[self.importers@[frontier@[q] as int]@[c] as int]);
                        } else {
                            assert(seen0[self.importers@[k]@[c] as int]);
                        }
                    }
                }
            }
            frontier = next;
            depth += 1;
        }
        proof {
            assert forall|x: int| 0 <= x < n implies (#[trigger] seen@[x] <==> (x == start || depends(
                self@,
                self.names@[x]@,
                goal,
                max_depth as nat,
            ))) by {
                if seen@[x] && x != start {
                    dependence_grows(self@, self.names@[x]@, goal, depth as nat, max_depth as nat);
                }
                if depth < max_depth && depends(self@, self.names@[x]@, goal, max_depth as nat) {
                    assert(frontier@ =~= Seq::<usize>::empty());
                    self.closed_holds_dependents(seen@, goal, self.names@[x]@, max_depth as nat);
                    assert(self.index@[self.names@[x]@] == x);
                }
            }
        }
        let mut out: Vec<String> = Vec::new();
        let mut p: usize = 0;
        while p < found.len()
            invariant
                0 <= p <= found@.len(),
                n == self.names@.len() == seen@.len(),
                forall|x: usize| #[trigger]
                    found@.contains(x) <==> (x < n && seen@[x as int] && x != start),
                out@.len() == p,
                forall|q: int|
                    0 <= q < p ==> (#[trigger] out@[q])@ == self.names@[found@[q] as int]@,
            decreases found@.len() - p,
        {
            assert(found@.contains(found@[p as int]));
            out.push(self.names[found[p]].clone());
            p += 1;
        }
        proof {
            let v = out.deep_view();
            assert forall|q: int, r: int| 0 <= q < v.len() && 0 <= r < v.len() && q != r implies v[q]
                != v[r] by {
                assert(found@.contains(found@[q]));
                assert(found@.contains(found@[r]));
                assert(v[q] == out@[q]@ && v[r] == out@[r]@);
                assert(self.index@[self.names@[found@[q] as int]@] == found@[q]);
                assert(self.index@[self.names@[found@[r] as int]@] == found@[r]);
            }
            assert forall|f: Seq<char>| #[trigger] listed(v, f) <==> (f != goal && depends(
                self@,
                f,
                goal,
                max_depth as nat,
            )) by {
                if listed(v, f) {
                    let q = choose|q: int| 0 <= q < v.len() && #[trigger] v[q] == f;
                    assert(v[q] == out@[q]@);
                    assert(found@.contains(found@[q]));
                    let x = found@[q] as int;
                    assert(seen@[x]);
                    assert(self.index@[self.names@[x]@] == x);
                    assert(self.index@[goal] == start);
                }
                if f != goal && depends(self@, f, goal, max_depth as nat) {
                    dependents_start_an_edge(self@, f, goal, max_depth as nat);
                    let mid = choose|mid: Seq<char>| #[trigger] self@.contains((f, mid));
                    self.edges_are_listed(f, mid);
                    let x = self.index@[f];
                    assert(self.names@[x as int]@ == f);
                    assert(seen@[x as int]);
                    assert(found@.contains(x));
                    let q = choose|q: int| 0 <= q < found@.len() && found@[q] == x;
                    assert(v[q] == out@[q]@);
                    assert(v[q] == f);
                }
            }
        }
        out
    }

    /// All importers of seen files outside `open` are seen.
    spec fn is_closed(&self, seen: Seq<bool>, open: Seq<usize>) -> bool {
        forall|k: int, c: int|
            0 <= k < self.names@.len() && seen[k] && !open.contains(k as usize) && 0 <= c
                < self.importers@[k]@.len() ==> seen[#[trigger] self.importers@[k]@[c] as int]
    }

    proof fn closed_holds_dependents(
        &self,
        seen: Seq<bool>,
        goal: Seq<char>,
        f: Seq<char>,
        hops: nat,
    )
        requires
            self.wf(),
            seen.len() == self.names@.len(),
            self.index@.contains_key(goal),
            seen[self.index@[goal] as int],
            self.is_closed(seen, Seq::empty()),
            depends(self@, f, goal, hops),
        ensures
            self.index@.contains_key(f),
            seen[self.index@[f] as int],
        decreases hops,
    {
        let mid = if self@.contains((f, goal)) {
            goal
        } else {
            choose|mid: Seq<char>| #[trigger]
                self@.contains((f, mid)) && depends(self@, mid, goal, (hops - 1) as nat)
        };
        self.edges_are_listed(f, mid);
        if mid != goal {
            self.closed_holds_dependents(seen, goal, mid, (hops - 1) as nat);
        }
        let m = self.index@[mid] as int;
        assert(self.names@[m]@ == mid);
        let c = choose|c: int|
            0 <= c < self.importers@[m]@.len() && self.importers@[m]@[c] == self.index@[f];
        assert(!Seq::<usize>::empty().contains(m as usize));
        assert(seen[self.importers@[m]@[c] as int]);
    }
}

// ---------------------------------------------------------------------------------------------
// Laws
// ---------------------------------------------------------------------------------------------
/// What is reached over few imports is reached over more.
pub proof fn dependence_grows(edges: Set<Edge>, from: Seq<char>, to: Seq<char>, few: nat, more: nat)
    requires
        few <= more,
        depends(edges, from, to, few),
    ensures
        depends(edges, from, to, more),
    decreases few,
{
    if !edges.contains((from, to)) {
        let mid = choose|mid: Seq<char>| #[trigger]
            edges.contains((from, mid)) && depends(edges, mid, to, (few - 1) as nat);
        dependence_grows(edges, mid, to, (few - 1) as nat, (more - 1) as nat);
    }
}

/// Recording more imports never takes a dependence away.
pub proof fn more_edges_keep_dependence(
    edges: Set<Edge>,
    more: Set<Edge>,
    from: Seq<char>,
    to: Seq<char>,
    hops: nat,
)
    requires
        edges.subset_of(more),
        depends(edges, from, to, hops),
    ensures
        depends(more, from, to, hops),
    decreases hops,
{
    if !edges.contains((from, to)) {
        let mid = choose|mid: Seq<char>| #[trigger]
            edges.contains((from, mid)) && depends(edges, mid, to, (hops - 1) as nat);
        more_edges_keep_dependence(edges, more, mid, to, (hops - 1) as nat);
        assert(more.contains((from, mid)));
    }
}

/// A chain of imports from `a` to `b` and one from `b` to `c` make one from `a` to `c`.
pub proof fn dependence_composes(
    edges: Set<Edge>,
    a: Seq<char>,
    b: Seq<char>,
    c: Seq<char>,
    first: nat,
    second: nat,
)
    requires
        depends(edges, a, b, first),
        depends(edges, b, c, second),
    ensures
        depends(edges, a, c, first + second),
    decreases first,
{
    if edges.contains((a, b)) {
        dependence_grows(edges, b, c, second, (first + second - 1) as nat);
    } else {
        let mid = choose|mid: Seq<char>| #[trigger]
            edges.contains((a, mid)) && depends(edges, mid, b, (first - 1) as nat);
        dependence_composes(edges, mid, b, c, (first - 1) as nat, second);
    }
}

/// Within one import, exactly the direct importers are reached.
pub proof fn one_hop_is_direct_import(edges: Set<Edge>, from: Seq<char>, to: Seq<char>)
    ensures
        depends(edges, from, to, 1) <==> edges.contains((from, to)),
        !depends(edges, from, to, 0),
{
    reveal_with_fuel(depends, 2);
}

proof fn dependents_end_in_an_edge(edges: Set<Edge>, from: Seq<char>, to: Seq<char>, hops: nat)
    requires
        depends(edges, from, to, hops),
    ensures
        exists|mid: Seq<char>| #[trigger] edges.contains((mid, to)),
    decreases hops,
{
    if !edges.contains((from, to)) {
        let mid = choose|mid: Seq<char>| #[trigger]
            edges.contains((from, mid)) && depends(edges, mid, to, (hops - 1) as nat);
        dependents_end_in_an_edge(edges, mid, to, (hops - 1) as nat);
    }
}

proof fn dependents_start_an_edge(edges: Set<Edge>, from: Seq<char>, to: Seq<char>, hops: nat)
    requires
        depends(edges, from, to, hops),
    ensures
        exists|mid: Seq<char>| #[trigger] edges.contains((from, mid)),
{
    if !edges.contains((from, to)) {
        let mid = choose|mid: Seq<char>| #[trigger]
            edges.contains((from, mid)) && depends(edges, mid, to, (hops - 1) as nat);
    }
}

} // verus!
