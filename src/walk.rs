use vstd::prelude::*;

use crate::exclude::{excluded_by, is_excluded};
use crate::paths::{contains_path, views};

verus! {

/// What the file system says a path met during a walk is.
#[derive(PartialEq, Eq, Structural, Clone, Copy, Debug)]
pub enum NodeKind {
    File,
    Directory,
    Other,
}

/// What a walk did with one path.
#[derive(PartialEq, Eq, Structural, Clone, Copy, Debug)]
pub enum Visit {
    /// The path matches an exclusion pattern: nothing under it is taken.
    Pruned,
    /// A regular file not found before, added to the files found.
    Collected,
    /// A regular file already found under another path (a link to it).
    Duplicate,
    /// A directory seen for the first time: its entries are to be listed
    /// and handed to `descend`.
    Descend,
    /// A directory already entered once in this walk (a link cycle).
    Revisited,
    /// Neither a file nor a directory.
    Ignored,
}

/// What happens to a path of kind `kind` met in a walk, given whether it is
/// excluded, the directories already entered and the files already found.
pub open spec fn visit_of(
    canonical: Seq<u8>,
    kind: NodeKind,
    excluded: bool,
    visited: Seq<Seq<u8>>,
    files: Seq<Seq<u8>>,
) -> Visit {
    if excluded {
        Visit::Pruned
    } else {
        match kind {
            NodeKind::File => if files.contains(canonical) {
                Visit::Duplicate
            } else {
                Visit::Collected
            },
            NodeKind::Directory => if visited.contains(canonical) {
                Visit::Revisited
            } else {
                Visit::Descend
            },
            NodeKind::Other => Visit::Ignored,
        }
    }
}

/// No path of `paths` matches any of `patterns`.
pub open spec fn none_excluded(paths: Seq<Seq<u8>>, patterns: Seq<Seq<u8>>) -> bool {
    forall|i: int| 0 <= i < paths.len() ==> !excluded_by(#[trigger] paths[i], patterns)
}

/// The state of a walk: the canonical exclusion patterns; the paths still to
/// look at, next first; the canonical directories entered; the canonical
/// files found, in order.
pub struct WalkView {
    pub patterns: Seq<Seq<u8>>,
    pub pending: Seq<Seq<u8>>,
    pub visited: Seq<Seq<u8>>,
    pub files: Seq<Seq<u8>>,
}

/// A depth-first walk of a directory tree, driven from outside: `next_path`
/// hands out a path, the caller resolves it and reports its kind to `visit`,
/// and for a directory to enter lists its entries to `descend`. Files come
/// out in the order of a pre-order traversal with entries in listing order,
/// each file once even where links reach it by several routes; excluded
/// subtrees are never entered, nor is any directory twice.
pub struct Walk {
    patterns: Vec<Vec<u8>>,
    pending: Vec<Vec<u8>>,
    visited: Vec<Vec<u8>>,
    files: Vec<Vec<u8>>,
}

impl View for Walk {
    type V = WalkView;

    closed spec fn view(&self) -> WalkView {
        WalkView {
            patterns: views(self.patterns@),
            pending: views(self.pending@),
            visited: views(self.visited@),
            files: views(self.files@),
        }
    }
}

impl Walk {
    /// The invariant: no file found and no directory entered matches an
    /// exclusion pattern, no file is found twice and no directory is entered
    /// twice.
    pub open spec fn wf(&self) -> bool {
        &&& none_excluded(self@.files, self@.patterns)
        &&& none_excluded(self@.visited, self@.patterns)
        &&& self@.files.no_duplicates()
        &&& self@.visited.no_duplicates()
    }

    /// A walk that starts at `root` and prunes what matches `patterns`.
    pub fn new(root: Vec<u8>, patterns: Vec<Vec<u8>>) -> (r: Walk)
        ensures
            r.wf(),
            r@.patterns == views(patterns@),
            r@.pending == seq![root@],
            r@.visited.len() == 0,
            r@.files.len() == 0,
    {
        let mut pending: Vec<Vec<u8>> = Vec::new();
        pending.push(root);
        let r = Walk { patterns, pending, visited: Vec::new(), files: Vec::new() };
        assert(r@.pending =~= seq![root@]);
        r
    }

    /// The next path to look at, taken off the pending list; `None` once the
    /// walk is over.
    pub fn next_path(&mut self) -> (r: Option<Vec<u8>>)
        requires
            old(self).wf(),
        ensures
            final(self).wf(),
            final(self)@.patterns == old(self)@.patterns,
            old(self)@.pending.len() == 0 ==> r is None && final(self)@ == old(self)@,
            old(self)@.pending.len() > 0 ==> (r matches Some(p) && p@ == old(self)@.pending[0]
                && final(self)@.pending == old(self)@.pending.drop_first()),
            final(self)@.visited == old(self)@.visited,
            final(self)@.files == old(self)@.files,
    {
        if self.pending.len() == 0 {
            None
        } else {
            let p = self.pending.remove(0);
            assert(views(self.pending@) =~= views(old(self).pending@).drop_first());
            Some(p)
        }
    }

    /// Takes in the path handed out last, by its canonical form and kind: an
    /// excluded path is pruned; a file not found before is added to the
    /// files found; a directory not entered before is marked as entered.
    pub fn visit(&mut self, canonical: Vec<u8>, kind: NodeKind) -> (r: Visit)
        requires
            old(self).wf(),
        ensures
            final(self).wf(),
            final(self)@.patterns == old(self)@.patterns,
            r == visit_of(
                canonical@,
                kind,
                excluded_by(canonical@, old(self)@.patterns),
                old(self)@.visited,
                old(self)@.files,
            ),
            final(self)@.pending == old(self)@.pending,
            r == Visit::Collected ==> final(self)@.files == old(self)@.files.push(canonical@),
            r != Visit::Collected ==> final(self)@.files == old(self)@.files,
            r == Visit::Descend ==> final(self)@.visited == old(self)@.visited.push(canonical@),
            r != Visit::Descend ==> final(self)@.visited == old(self)@.visited,
    {
        if is_excluded(canonical.as_slice(), &self.patterns) {
            return Visit::Pruned;
        }
        match kind {
            NodeKind::File => {
                if contains_path(&self.files, canonical.as_slice()) {
                    Visit::Duplicate
                } else {
                    self.files.push(canonical);
                    assert(views(self.files@) =~= views(old(self).files@).push(canonical@));
                    Visit::Collected
                }
            },
            NodeKind::Directory => {
                if contains_path(&self.visited, canonical.as_slice()) {
                    Visit::Revisited
                } else {
                    self.visited.push(canonical);
                    assert(views(self.visited@) =~= views(old(self).visited@).push(canonical@));
                    Visit::Descend
                }
            },
            NodeKind::Other => Visit::Ignored,
        }
    }

    /// Puts the entries of the directory just entered in front of the
    /// pending paths, in listing order, so that they are looked at next.
    pub fn descend(&mut self, entries: Vec<Vec<u8>>)
        requires
            old(self).wf(),
        ensures
            final(self).wf(),
            final(self)@.patterns == old(self)@.patterns,
            final(self)@.pending == views(entries@) + old(self)@.pending,
            final(self)@.visited == old(self)@.visited,
            final(self)@.files == old(self)@.files,
    {
        let mut front = entries;
        front.append(&mut self.pending);
        self.pending = front;
        assert(views(self.pending@) =~= views(entries@) + views(old(self).pending@));
    }

    /// The files found, in the order they were found.
    pub fn into_files(self) -> (r: Vec<Vec<u8>>)
        requires
            self.wf(),
        ensures
            views(r@) == self@.files,
            views(r@).no_duplicates(),
            none_excluded(views(r@), self@.patterns),
    {
        self.files
    }
}

/// A directory tree as the file system reports it, each node under its
/// canonical path, with a directory's entries in listing order.
pub enum FsTree {
    File(Seq<u8>),
    Dir(Seq<u8>, Seq<FsTree>),
    Other(Seq<u8>),
}

impl FsTree {
    pub open spec fn path(self) -> Seq<u8> {
        match self {
            FsTree::File(p) => p,
            FsTree::Dir(p, _) => p,
            FsTree::Other(p) => p,
        }
    }

    pub open spec fn kind(self) -> NodeKind {
        match self {
            FsTree::File(_) => NodeKind::File,
            FsTree::Dir(_, _) => NodeKind::Directory,
            FsTree::Other(_) => NodeKind::Other,
        }
    }

    pub open spec fn entries(self) -> Seq<FsTree> {
        match self {
            FsTree::Dir(_, cs) => cs,
            _ => Seq::empty(),
        }
    }
}

/// The regular files of a tree that lie under no excluded path, in
/// pre-order with entries in listing order.
pub open spec fn tree_files(t: FsTree, patterns: Seq<Seq<u8>>) -> Seq<Seq<u8>>
    decreases t,
{
    if excluded_by(t.path(), patterns) {
        Seq::empty()
    } else {
        match t {
            FsTree::File(p) => seq![p],
            FsTree::Dir(_, cs) => forest_files(cs, patterns),
            FsTree::Other(_) => Seq::empty(),
        }
    }
}

/// The files of each tree of `ts` in turn.
pub open spec fn forest_files(ts: Seq<FsTree>, patterns: Seq<Seq<u8>>) -> Seq<Seq<u8>>
    decreases ts,
{
    if ts.len() == 0 {
        Seq::empty()
    } else {
        tree_files(ts[0], patterns) + forest_files(ts.drop_first(), patterns)
    }
}

/// The directories of a tree that lie under no excluded path, in pre-order.
pub open spec fn tree_dirs(t: FsTree, patterns: Seq<Seq<u8>>) -> Seq<Seq<u8>>
    decreases t,
{
    if excluded_by(t.path(), patterns) {
        Seq::empty()
    } else {
        match t {
            FsTree::Dir(p, cs) => seq![p] + forest_dirs(cs, patterns),
            _ => Seq::empty(),
        }
    }
}

/// The directories of each tree of `ts` in turn.
pub open spec fn forest_dirs(ts: Seq<FsTree>, patterns: Seq<Seq<u8>>) -> Seq<Seq<u8>>
    decreases ts,
{
    if ts.len() == 0 {
        Seq::empty()
    } else {
        tree_dirs(ts[0], patterns) + forest_dirs(ts.drop_first(), patterns)
    }
}

/// How many paths a walk looks at in a tree: one for each node that lies
/// under no excluded path.
pub open spec fn tree_steps(t: FsTree, patterns: Seq<Seq<u8>>) -> nat
    decreases t,
{
    if excluded_by(t.path(), patterns) {
        1
    } else {
        match t {
            FsTree::Dir(_, cs) => 1 + forest_steps(cs, patterns),
            _ => 1,
        }
    }
}

/// The steps of each tree of `ts` in turn.
pub open spec fn forest_steps(ts: Seq<FsTree>, patterns: Seq<Seq<u8>>) -> nat
    decreases ts,
{
    if ts.len() == 0 {
        0
    } else {
        tree_steps(ts[0], patterns) + forest_steps(ts.drop_first(), patterns)
    }
}

/// The directories entered and the files found after `fuel` rounds of a walk
/// whose pending paths are the roots of `pending`, each round answered from
/// the trees: `next_path` hands out the first root, `visit` is told its kind,
/// and a directory entered has its entries handed to `descend`.
pub open spec fn walk_run(
    patterns: Seq<Seq<u8>>,
    pending: Seq<FsTree>,
    visited: Seq<Seq<u8>>,
    files: Seq<Seq<u8>>,
    fuel: nat,
) -> (Seq<Seq<u8>>, Seq<Seq<u8>>)
    decreases fuel,
{
    if fuel == 0 || pending.len() == 0 {
        (visited, files)
    } else {
        let t = pending[0];
        match visit_of(t.path(), t.kind(), excluded_by(t.path(), patterns), visited, files) {
            Visit::Collected => walk_run(patterns, pending.drop_first(), visited, files.push(t.path()), (fuel - 1) as nat),
            Visit::Descend => walk_run(patterns, t.entries() + pending.drop_first(), visited.push(t.path()), files, (fuel - 1) as nat),
            _ => walk_run(patterns, pending.drop_first(), visited, files, (fuel - 1) as nat),
        }
    }
}

proof fn lemma_forest_concat(a: Seq<FsTree>, b: Seq<FsTree>, patterns: Seq<Seq<u8>>)
    ensures
        forest_files(a + b, patterns) == forest_files(a, patterns) + forest_files(b, patterns),
        forest_dirs(a + b, patterns) == forest_dirs(a, patterns) + forest_dirs(b, patterns),
        forest_steps(a + b, patterns) == forest_steps(a, patterns) + forest_steps(b, patterns),
    decreases a.len(),
{
    if a.len() == 0 {
        assert(a + b =~= b);
        assert(forest_files(a, patterns) + forest_files(b, patterns) =~= forest_files(b, patterns));
        assert(forest_dirs(a, patterns) + forest_dirs(b, patterns) =~= forest_dirs(b, patterns));
    } else {
        assert((a + b).drop_first() =~= a.drop_first() + b);
        assert((a + b)[0] == a[0]);
        lemma_forest_concat(a.drop_first(), b, patterns);
        assert(forest_files(a + b, patterns) =~= forest_files(a, patterns) + forest_files(b, patterns));
        assert(forest_dirs(a + b, patterns) =~= forest_dirs(a, patterns) + forest_dirs(b, patterns));
    }
}

/// `found` followed by the paths of `more` that are neither in `found` nor
/// earlier in `more`: each path once, where it first occurs.
pub open spec fn first_occurrences(found: Seq<Seq<u8>>, more: Seq<Seq<u8>>) -> Seq<Seq<u8>>
    decreases more.len(),
{
    if more.len() == 0 {
        found
    } else if found.contains(more[0]) {
        first_occurrences(found, more.drop_first())
    } else {
        first_occurrences(found.push(more[0]), more.drop_first())
    }
}

proof fn lemma_first_occurrences_unique(found: Seq<Seq<u8>>, more: Seq<Seq<u8>>)
    requires
        found.no_duplicates(),
    ensures
        first_occurrences(found, more).no_duplicates(),
    decreases more.len(),
{
    if more.len() > 0 && !found.contains(more[0]) {
        let next = found.push(more[0]);
        assert forall|i: int, j: int| 0 <= i < next.len() && 0 <= j < next.len() && i != j
            implies next[i] != next[j] by {
            if i == found.len() as int {
                assert(found[j] == next[j]);
            } else if j == found.len() as int {
                assert(found[i] == next[i]);
            }
        }
        lemma_first_occurrences_unique(next, more.drop_first());
    } else if more.len() > 0 {
        lemma_first_occurrences_unique(found, more.drop_first());
    }
}

proof fn lemma_walk_forest(
    patterns: Seq<Seq<u8>>,
    ts: Seq<FsTree>,
    rest: Seq<FsTree>,
    visited: Seq<Seq<u8>>,
    files: Seq<Seq<u8>>,
    fuel: nat,
)
    requires
        fuel >= forest_steps(ts, patterns),
        (visited + forest_dirs(ts, patterns)).no_duplicates(),
    ensures
        walk_run(patterns, ts + rest, visited, files, fuel) == walk_run(
            patterns,
            rest,
            visited + forest_dirs(ts, patterns),
            first_occurrences(files, forest_files(ts, patterns)),
            (fuel - forest_steps(ts, patterns)) as nat,
        ),
    decreases forest_steps(ts, patterns),
{
    if ts.len() == 0 {
        assert(ts + rest =~= rest);
        assert(visited + forest_dirs(ts, patterns) =~= visited);
    } else {
        let t = ts[0];
        let tail = ts.drop_first();
        assert((ts + rest)[0] == t);
        assert((ts + rest).drop_first() =~= tail + rest);
        assert(tree_steps(t, patterns) >= 1);
        if excluded_by(t.path(), patterns) || t.kind() != NodeKind::Directory {
            assert(tree_dirs(t, patterns) =~= Seq::<Seq<u8>>::empty());
            assert(forest_dirs(ts, patterns) =~= forest_dirs(tail, patterns));
            if !excluded_by(t.path(), patterns) && t.kind() == NodeKind::File {
                let p = t.path();
                let next = if files.contains(p) { files } else { files.push(p) };
                assert(tree_files(t, patterns) =~= seq![p]);
                let all = forest_files(ts, patterns);
                assert(all =~= seq![p] + forest_files(tail, patterns));
                assert(all[0] == p);
                assert(all.drop_first() =~= forest_files(tail, patterns));
                assert(first_occurrences(files, all) == first_occurrences(next, forest_files(tail, patterns)));
                lemma_walk_forest(patterns, tail, rest, visited, next, (fuel - 1) as nat);
            } else {
                assert(tree_files(t, patterns) =~= Seq::<Seq<u8>>::empty());
                assert(forest_files(ts, patterns) =~= forest_files(tail, patterns));
                lemma_walk_forest(patterns, tail, rest, visited, files, (fuel - 1) as nat);
            }
        } else {
            let cs = t.entries();
            let p = t.path();
            let all = visited + forest_dirs(ts, patterns);
            assert(tree_dirs(t, patterns) == seq![p] + forest_dirs(cs, patterns));
            assert(tree_files(t, patterns) == forest_files(cs, patterns));
            assert(tree_steps(t, patterns) == 1 + forest_steps(cs, patterns));
            assert(forest_dirs(ts, patterns) =~= seq![p] + forest_dirs(cs, patterns) + forest_dirs(tail, patterns));
            assert(all[visited.len() as int] == p);
            assert(!visited.contains(p)) by {
                if visited.contains(p) {
                    let j = choose|j: int| 0 <= j < visited.len() && visited[j] == p;
                    assert(all[j] == p);
                }
            }
            lemma_forest_concat(cs, tail, patterns);
            assert(cs + tail + rest =~= cs + (tail + rest));
            assert(visited.push(p) + forest_dirs(cs + tail, patterns) =~= all);
            lemma_walk_forest(patterns, cs + tail, rest, visited.push(p), files, (fuel - 1) as nat);
            assert(forest_files(cs + tail, patterns) =~= forest_files(ts, patterns));
        }
    }
}

/// A walk of a directory tree, given one round for each path that lies under
/// no excluded path, finds the regular files that lie under no excluded
/// path, each once, where it first occurs in pre-order with entries in
/// listing order, and nothing from an excluded subtree; it enters each
/// directory under no excluded path once. This holds where no directory of
/// the tree is met twice (no link leads back into it); a file met twice (a
/// link to it) is found once.
pub proof fn lemma_walk_finds_tree_files(t: FsTree, patterns: Seq<Seq<u8>>, fuel: nat)
    requires
        fuel >= tree_steps(t, patterns),
        tree_dirs(t, patterns).no_duplicates(),
    ensures
        walk_run(patterns, seq![t], Seq::empty(), Seq::empty(), fuel) == (
            tree_dirs(t, patterns),
            first_occurrences(Seq::empty(), tree_files(t, patterns)),
        ),
        first_occurrences(Seq::empty(), tree_files(t, patterns)).no_duplicates(),
{
    let ts = seq![t];
    assert(ts.drop_first() =~= Seq::<FsTree>::empty());
    assert(forest_files(ts.drop_first(), patterns) =~= Seq::<Seq<u8>>::empty());
    assert(forest_dirs(ts.drop_first(), patterns) =~= Seq::<Seq<u8>>::empty());
    assert(forest_steps(ts.drop_first(), patterns) == 0);
    assert(forest_files(ts, patterns) =~= tree_files(t, patterns));
    assert(forest_dirs(ts, patterns) =~= tree_dirs(t, patterns));
    assert(Seq::<Seq<u8>>::empty() + forest_dirs(ts, patterns) =~= tree_dirs(t, patterns));
    assert(ts + Seq::<FsTree>::empty() =~= ts);
    lemma_walk_forest(patterns, ts, Seq::empty(), Seq::empty(), Seq::empty(), fuel);
    lemma_first_occurrences_unique(Seq::empty(), tree_files(t, patterns));
}

} // verus!
