//! The walk below a copy rule's source, as a worklist of directories: the
//! caller lists each directory that the walk hands out, and the walk records
//! the entries with their paths relative to the source.
use vstd::prelude::*;

use crate::deps::string_views;
use crate::graph::{entry_views, tree_wf, SourceEntry};
use crate::text::{concat_str, contains_char, starts_with};

verus! {

/// The relative path of entry `name` of directory `dir`.
pub open spec fn child_rel(dir: Seq<char>, name: Seq<char>) -> Seq<char> {
    if dir.len() == 0 {
        name
    } else {
        dir + seq!['/'] + name
    }
}

/// The children of one directory: non-empty names without `/`, no two alike.
pub open spec fn names_valid(children: Seq<(Seq<char>, bool)>) -> bool {
    &&& forall|i: int|
        0 <= i < children.len() ==> #[trigger] children[i].0.len() > 0 && !contains_char(
            children[i].0,
            '/',
        )
    &&& forall|i: int, j: int|
        0 <= i < children.len() && 0 <= j < children.len() && i != j ==> children[i].0
            != children[j].0
}

/// The entries recorded for the children of `dir`.
pub open spec fn expanded(dir: Seq<char>, children: Seq<(Seq<char>, bool)>) -> Seq<(Seq<char>, bool)> {
    children.map_values(|c: (Seq<char>, bool)| (child_rel(dir, c.0), c.1))
}

/// The relative paths of the children of `dir` that are directories, in order.
pub open spec fn expanded_dirs(dir: Seq<char>, children: Seq<(Seq<char>, bool)>) -> Seq<Seq<char>>
    decreases children.len(),
{
    if children.len() == 0 {
        seq![]
    } else {
        let rest = expanded_dirs(dir, children.drop_last());
        if children.last().1 {
            rest.push(child_rel(dir, children.last().0))
        } else {
            rest
        }
    }
}

/// Position of the last `/` in `s`, or -1.
pub open spec fn last_slash(s: Seq<char>) -> int
    decreases s.len(),
{
    if s.len() == 0 {
        -1
    } else if s.last() == '/' {
        s.len() - 1
    } else {
        last_slash(s.drop_last())
    }
}

/// The directory part of a relative path: before its last `/`, or empty.
pub open spec fn parent_of(s: Seq<char>) -> Seq<char> {
    if last_slash(s) < 0 {
        seq![]
    } else {
        s.take(last_slash(s))
    }
}

pub open spec fn rels(f: Seq<(Seq<char>, bool)>) -> Seq<Seq<char>> {
    f.map_values(|e: (Seq<char>, bool)| e.0)
}

/// The walk's invariant over what it found, what is left to list, and what
/// was listed: the entries are a well-formed walk; every entry but the
/// source lies in a listed directory; listed and pending directories are
/// entries; pending ones are distinct and not listed yet.
pub open spec fn walk_wf(f: Seq<(Seq<char>, bool)>, p: Seq<Seq<char>>, v: Set<Seq<char>>) -> bool {
    &&& tree_wf(f)
    &&& forall|i: int| 0 <= i < f.len() ==> #[trigger] f[i].0.len() == 0 || v.contains(parent_of(f[i].0))
    &&& forall|x: Seq<char>| v.contains(x) ==> rels(f).contains(x)
    &&& forall|j: int| 0 <= j < p.len() ==> rels(f).contains(#[trigger] p[j]) && !v.contains(p[j])
    &&& p.no_duplicates()
}

proof fn lemma_last_slash_append(x: Seq<char>, y: Seq<char>)
    requires
        !contains_char(y, '/'),
    ensures
        last_slash(x + y) == last_slash(x),
    decreases y.len(),
{
    if y.len() > 0 {
        assert((x + y).drop_last() == x + y.drop_last());
        assert((x + y).last() == y.last());
        assert(!contains_char(y.drop_last(), '/')) by {
            if contains_char(y.drop_last(), '/') {
                let w = choose|i: int| 0 <= i < y.drop_last().len() && y.drop_last()[i] == '/';
                assert(y[w] == '/');
            }
        }
        if y.last() == '/' {
            assert(y[y.len() - 1] == '/');
        }
        lemma_last_slash_append(x, y.drop_last());
    } else {
        assert(x + y == x);
    }
}

proof fn lemma_parent_of_child(dir: Seq<char>, name: Seq<char>)
    requires
        name.len() > 0,
        !contains_char(name, '/'),
    ensures
        parent_of(child_rel(dir, name)) == dir,
        child_rel(dir, name).len() > dir.len(),
{
    if dir.len() == 0 {
        lemma_last_slash_append(seq![], name);
        assert(Seq::<char>::empty() + name == name);
    } else {
        let x = dir + seq!['/'];
        lemma_last_slash_append(x, name);
        assert(x.drop_last() == dir);
        assert(last_slash(x) == dir.len());
        assert((x + name).take(dir.len() as int) =~= dir);
    }
}

proof fn lemma_child_rel_injective(dir: Seq<char>, a: Seq<char>, b: Seq<char>)
    requires
        child_rel(dir, a) == child_rel(dir, b),
    ensures
        a == b,
{
    if dir.len() > 0 {
        let k = dir.len() + 1int;
        assert(child_rel(dir, a).skip(k) =~= a);
        assert(child_rel(dir, b).skip(k) =~= b);
    }
}

/// `x` is the path of a child directory listed in `c`.
pub open spec fn from_child_dir(dir: Seq<char>, c: Seq<(Seq<char>, bool)>, x: Seq<char>) -> bool {
    exists|i: int| 0 <= i < c.len() && c[i].1 && x == child_rel(dir, #[trigger] c[i].0)
}

proof fn lemma_expanded_dirs(dir: Seq<char>, c: Seq<(Seq<char>, bool)>)
    ensures
        forall|j: int|
            0 <= j < expanded_dirs(dir, c).len() ==> from_child_dir(
                dir,
                c,
                #[trigger] expanded_dirs(dir, c)[j],
            ),
        expanded_dirs(dir, c).no_duplicates() || !names_valid(c),
    decreases c.len(),
{
    if c.len() > 0 {
        let init = c.drop_last();
        lemma_expanded_dirs(dir, init);
        let ed = expanded_dirs(dir, c);
        let ei = expanded_dirs(dir, init);
        assert forall|j: int| 0 <= j < ed.len() implies from_child_dir(dir, c, #[trigger] ed[j]) by {
            if j < ei.len() {
                assert(ed[j] == ei[j]);
                assert(from_child_dir(dir, init, ei[j]));
                let i = choose|i: int|
                    0 <= i < init.len() && init[i].1 && ei[j] == child_rel(dir, #[trigger] init[i].0);
                assert(c[i] == init[i]);
            } else {
                let n = c.len() - 1;
                assert(ed[j] == child_rel(dir, c[n].0));
                assert(c[n].1);
            }
        }
        if names_valid(c) {
            assert(names_valid(init)) by {
                assert forall|i: int| 0 <= i < init.len() implies #[trigger] init[i].0.len() > 0
                    && !contains_char(init[i].0, '/') by {
                    assert(init[i] == c[i]);
                }
                assert forall|i: int, j: int|
                    0 <= i < init.len() && 0 <= j < init.len() && i != j implies init[i].0
                    != init[j].0 by {
                    assert(init[i] == c[i] && init[j] == c[j]);
                }
            }
            if c.last().1 {
                let n = c.len() - 1;
                assert forall|a: int, b: int|
                    0 <= a < ed.len() && 0 <= b < ed.len() && a != b implies ed[a] != ed[b] by {
                    if a < ei.len() && b < ei.len() {
                        assert(ed[a] == ei[a] && ed[b] == ei[b]);
                    } else {
                        let x = if a < ei.len() {
                            a
                        } else {
                            b
                        };
                        if x < ei.len() {
                            assert(ed[x] == ei[x]);
                            assert(from_child_dir(dir, init, ei[x]));
                            let i = choose|i: int|
                                0 <= i < init.len() && init[i].1 && ei[x] == child_rel(
                                    dir,
                                    #[trigger] init[i].0,
                                );
                            assert(init[i] == c[i]);
                            if ed[a] == ed[b] {
                                lemma_child_rel_injective(dir, c[i].0, c[n].0);
                                assert(c[i].0 != c[n].0);
                            }
                        }
                    }
                }
            }
        }
    }
}

/// One step of the walk keeps its invariant: the last pending directory is
/// listed, its children recorded, and its subdirectories become pending.
proof fn lemma_expand_wf(
    f: Seq<(Seq<char>, bool)>,
    p: Seq<Seq<char>>,
    v: Set<Seq<char>>,
    c: Seq<(Seq<char>, bool)>,
)
    requires
        walk_wf(f, p, v),
        p.len() > 0,
        names_valid(c),
    ensures
        walk_wf(
            f + expanded(p.last(), c),
            p.drop_last() + expanded_dirs(p.last(), c),
            v.insert(p.last()),
        ),
{
    let d = p.last();
    let e = expanded(d, c);
    let f2 = f + e;
    let p2 = p.drop_last() + expanded_dirs(d, c);
    let v2 = v.insert(d);
    lemma_expanded_dirs(d, c);
    assert(rels(f).contains(d)) by {
        assert(p[p.len() - 1] == d);
    }
    let di = choose|i: int| 0 <= i < rels(f).len() && rels(f)[i] == d;
    assert(f[di].0 == d);
    assert(!v.contains(d)) by {
        assert(p[p.len() - 1] == d);
    }
    // facts about each new entry
    assert forall|k: int| 0 <= k < e.len() implies #[trigger] e[k].0.len() > 0 && parent_of(e[k].0)
        == d && !starts_with(e[k].0, seq!['/']) && !rels(f).contains(e[k].0) by {
        assert(e[k] == (child_rel(d, c[k].0), c[k].1));
        assert(c[k].0.len() > 0 && !contains_char(c[k].0, '/'));
        lemma_parent_of_child(d, c[k].0);
        if starts_with(e[k].0, seq!['/']) {
            assert(e[k].0.subrange(0, 1)[0] == e[k].0[0]);
            assert(e[k].0[0] == '/');
            if d.len() == 0 {
                assert(c[k].0[0] == '/');
            } else {
                assert(e[k].0[0] == d[0]);
                assert(!starts_with(f[di].0, seq!['/']));
                assert(f[di].0.subrange(0, 1) =~= seq!['/']);
            }
        }
        if rels(f).contains(e[k].0) {
            let w = choose|w: int| 0 <= w < rels(f).len() && rels(f)[w] == e[k].0;
            assert(f[w].0 == e[k].0);
            assert(v.contains(parent_of(f[w].0)));
        }
    }
    // tree_wf of the new entries
    assert forall|a: int, b: int|
        0 <= a < f2.len() && 0 <= b < f2.len() && a != b implies f2[a].0 != f2[b].0 by {
        if a < f.len() && b < f.len() {
            assert(f2[a] == f[a] && f2[b] == f[b]);
        } else if a >= f.len() && b >= f.len() {
            let ka = a - f.len();
            let kb = b - f.len();
            assert(f2[a] == e[ka] && f2[b] == e[kb]);
            assert(e[ka].0 == child_rel(d, c[ka].0));
            assert(e[kb].0 == child_rel(d, c[kb].0));
            if f2[a].0 == f2[b].0 {
                lemma_child_rel_injective(d, c[ka].0, c[kb].0);
            }
        } else {
            let (o, n) = if a < f.len() {
                (a, b)
            } else {
                (b, a)
            };
            assert(f2[o] == f[o]);
            assert(f2[n] == e[n - f.len()]);
            assert(rels(f)[o] == f[o].0);
        }
    }
    assert forall|i: int| 0 <= i < f2.len() implies !starts_with(#[trigger] f2[i].0, seq!['/']) by {
        if i < f.len() {
            assert(f2[i] == f[i]);
        } else {
            assert(f2[i] == e[i - f.len()]);
        }
    }
    assert forall|i: int| 0 <= i < f2.len() implies #[trigger] f2[i].0.len() == 0 || v2.contains(
        parent_of(f2[i].0),
    ) by {
        if i < f.len() {
            assert(f2[i] == f[i]);
        } else {
            assert(f2[i] == e[i - f.len()]);
        }
    }
    assert forall|x: Seq<char>| v2.contains(x) implies rels(f2).contains(x) by {
        let w = if x == d {
            di
        } else {
            choose|w: int| 0 <= w < rels(f).len() && rels(f)[w] == x
        };
        assert(rels(f2)[w] == rels(f)[w]);
    }
    let ed = expanded_dirs(d, c);
    assert forall|j: int| 0 <= j < p2.len() implies rels(f2).contains(#[trigger] p2[j]) && !v2.contains(
        p2[j],
    ) by {
        if j < p.len() - 1 {
            assert(p2[j] == p[j]);
            let w = choose|w: int| 0 <= w < rels(f).len() && rels(f)[w] == p[j];
            assert(rels(f2)[w] == rels(f)[w]);
            assert(p[j] != d) by {
                assert(p[p.len() - 1] == d);
            }
        } else {
            let q = j - (p.len() - 1);
            assert(p2[j] == ed[q]);
            assert(from_child_dir(d, c, ed[q]));
            let i = choose|i: int| 0 <= i < c.len() && c[i].1 && ed[q] == child_rel(d, #[trigger] c[i].0);
            assert(e[i].0 == ed[q]);
            assert(rels(f2)[f.len() + i] == e[i].0);
            assert(!rels(f).contains(e[i].0));
            if v2.contains(p2[j]) {
                if p2[j] == d {
                    assert(rels(f)[di] == d);
                } else {
                    assert(rels(f).contains(p2[j]));
                }
            }
        }
    }
    assert(p2.no_duplicates()) by {
        assert forall|a: int, b: int|
            0 <= a < p2.len() && 0 <= b < p2.len() && a != b implies p2[a] != p2[b] by {
            let m = p.len() - 1;
            if a < m && b < m {
                assert(p2[a] == p[a] && p2[b] == p[b]);
            } else if a >= m && b >= m {
                assert(p2[a] == ed[a - m] && p2[b] == ed[b - m]);
            } else {
                let (o, n) = if a < m {
                    (a, b)
                } else {
                    (b, a)
                };
                assert(p2[o] == p[o]);
                assert(rels(f).contains(p[o]));
                let q = n - m;
                assert(p2[n] == ed[q]);
                assert(from_child_dir(d, c, ed[q]));
                let i = choose|i: int| 0 <= i < c.len() && c[i].1 && ed[q] == child_rel(d, #[trigger] c[i].0);
                assert(e[i].0 == ed[q]);
                assert(!rels(f).contains(e[i].0));
            }
        }
    }
}

pub open spec fn child_views(v: Seq<(String, bool)>) -> Seq<(Seq<char>, bool)> {
    v.map_values(|c: (String, bool)| (c.0@, c.1))
}

/// Whether a directory's listing can be handed to `TreeWalk::expand`.
pub fn children_valid(children: &Vec<(String, bool)>) -> (r: bool)
    ensures
        r == names_valid(child_views(children@)),
{
    let ghost cv = child_views(children@);
    let mut i: usize = 0;
    while i < children.len()
        invariant
            i <= children@.len(),
            cv == child_views(children@),
            forall|k: int| 0 <= k < i ==> #[trigger] cv[k].0.len() > 0 && !contains_char(cv[k].0, '/'),
            forall|a: int, b: int| 0 <= a < i && 0 <= b < i && a != b ==> cv[a].0 != cv[b].0,
        decreases children@.len() - i,
    {
        let name = &children[i].0;
        let c = crate::text::chars_of(name.as_str());
        proof {
            assert(cv[i as int].0 == name@);
        }
        if c.len() == 0 || crate::text::find_char(&c, '/') < c.len() {
            proof {
                crate::text::lemma_index_of(c@, '/');
            }
            return false;
        }
        proof {
            crate::text::lemma_index_of(c@, '/');
        }
        let mut j: usize = 0;
        while j < i
            invariant
                j <= i < children@.len(),
                cv == child_views(children@),
                forall|b: int| 0 <= b < j ==> cv[b].0 != cv[i as int].0,
            decreases i - j,
        {
            if children[j].0 == children[i].0 {
                proof {
                    assert(cv[j as int].0 == children@[j as int].0@);
                    assert(cv[i as int].0 == children@[i as int].0@);
                    assert(cv[j as int].0 == cv[i as int].0);
                }
                return false;
            }
            j = j + 1;
        }
        i = i + 1;
    }
    true
}

/// A walk below one source, as a worklist of directories still to list.
pub struct TreeWalk {
    pending: Vec<String>,
    found: Vec<SourceEntry>,
    listed: Ghost<Set<Seq<char>>>,
}

impl TreeWalk {
    /// The entries found so far, the source first.
    pub closed spec fn found(&self) -> Seq<(Seq<char>, bool)> {
        entry_views(self.found@)
    }

    /// The directories still to list; the last is listed next.
    pub closed spec fn pending(&self) -> Seq<Seq<char>> {
        string_views(self.pending@)
    }

    pub closed spec fn wf(&self) -> bool {
        walk_wf(self.found(), self.pending(), self.listed@)
    }

    /// A walk of a source that is a directory or a single file.
    pub fn new(source_is_dir: bool) -> (r: TreeWalk)
        ensures
            r.wf(),
            r.found() == seq![(Seq::<char>::empty(), source_is_dir)],
            r.pending() == if source_is_dir {
                seq![Seq::<char>::empty()]
            } else {
                Seq::<Seq<char>>::empty()
            },
    {
        let mut pending: Vec<String> = Vec::new();
        if source_is_dir {
            pending.push(String::new());
        }
        let mut found: Vec<SourceEntry> = Vec::new();
        found.push(SourceEntry { rel: String::new(), is_dir: source_is_dir });
        let ghost none: Set<Seq<char>> = Set::empty();
        let r = TreeWalk { pending, found, listed: Ghost(none) };
        proof {
            assert(r.found() =~= seq![(Seq::<char>::empty(), source_is_dir)]);
            if source_is_dir {
                assert(r.pending() =~= seq![Seq::<char>::empty()]);
                assert(rels(r.found())[0] == Seq::<char>::empty());
            } else {
                assert(r.pending() =~= Seq::<Seq<char>>::empty());
            }
        }
        r
    }

    /// The directory to list next, relative to the source; `None` when the
    /// walk is done.
    pub fn next_dir(&self) -> (r: Option<String>)
        ensures
            r is None <==> self.pending().len() == 0,
            r matches Some(d) ==> d@ == self.pending().last(),
    {
        if self.pending.len() == 0 {
            None
        } else {
            Some(self.pending[self.pending.len() - 1].clone())
        }
    }

    /// Records the listing of the directory that `next_dir` gave: each child
    /// as an entry, each child directory as pending.
    pub fn expand(&mut self, children: Vec<(String, bool)>)
        requires
            old(self).wf(),
            old(self).pending().len() > 0,
            names_valid(child_views(children@)),
        ensures
            final(self).wf(),
            final(self).found() == old(self).found() + expanded(
                old(self).pending().last(),
                child_views(children@),
            ),
            final(self).pending() == old(self).pending().drop_last() + expanded_dirs(
                old(self).pending().last(),
                child_views(children@),
            ),
    {
        let ghost f0 = self.found();
        let ghost p0 = self.pending();
        let ghost v0 = self.listed@;
        let ghost cv = child_views(children@);
        let d = self.pending.pop().unwrap();
        proof {
            assert(self.pending() =~= p0.drop_last());
            reveal_strlit("/");
        }
        let d_empty = d.as_str().unicode_len() == 0;
        let mut dirs: Vec<String> = Vec::new();
        let mut i: usize = 0;
        proof {
            assert(cv.take(0) =~= Seq::<(Seq<char>, bool)>::empty());
            assert(f0 + expanded(d@, cv.take(0)) =~= f0);
            assert(string_views(dirs@) =~= Seq::<Seq<char>>::empty());
        }
        while i < children.len()
            invariant
                i <= children@.len(),
                cv == child_views(children@),
                d_empty == (d@.len() == 0),
                "/"@ == seq!['/'],
                self.found() == f0 + expanded(d@, cv.take(i as int)),
                string_views(dirs@) == expanded_dirs(d@, cv.take(i as int)),
                self.pending() == p0.drop_last(),
            decreases children@.len() - i,
        {
            let ghost fv = self.found();
            let ghost dv = string_views(dirs@);
            let rel = if d_empty {
                children[i].0.clone()
            } else {
                concat_str(concat_str(d.as_str(), "/").as_str(), children[i].0.as_str())
            };
            let is_dir = children[i].1;
            proof {
                assert(cv[i as int] == (children@[i as int].0@, is_dir));
                assert(rel@ == child_rel(d@, cv[i as int].0));
                assert(cv.take(i + 1).drop_last() == cv.take(i as int));
                assert(cv.take(i + 1).last() == cv[i as int]);
            }
            self.found.push(SourceEntry { rel: rel.clone(), is_dir });
            proof {
                assert(self.found() =~= fv.push((rel@, is_dir)));
                assert(expanded(d@, cv.take(i + 1)) =~= expanded(d@, cv.take(i as int)).push(
                    (rel@, is_dir),
                ));
                assert(self.found() =~= f0 + expanded(d@, cv.take(i + 1)));
            }
            if is_dir {
                let ghost rv = rel@;
                dirs.push(rel);
                proof {
                    assert(string_views(dirs@) =~= dv.push(rv));
                }
            }
            i = i + 1;
        }
        proof {
            assert(cv.take(i as int) == cv);
        }
        let ghost pd = self.pending();
        let mut k: usize = 0;
        while k < dirs.len()
            invariant
                k <= dirs@.len(),
                self.pending() == pd + string_views(dirs@).take(k as int),
                self.found() == f0 + expanded(d@, cv),
            decreases dirs@.len() - k,
        {
            let ghost before = self.pending();
            self.pending.push(dirs[k].clone());
            proof {
                assert(self.pending() =~= before.push(dirs@[k as int]@));
                assert(string_views(dirs@).take(k + 1) =~= string_views(dirs@).take(k as int).push(
                    dirs@[k as int]@,
                ));
            }
            k = k + 1;
        }
        proof {
            assert(string_views(dirs@).take(k as int) == string_views(dirs@));
            lemma_expand_wf(f0, p0, v0, cv);
        }
        self.listed = Ghost(v0.insert(d@));
    }

    /// The entries of the walk: distinct relative paths, none absolute.
    pub fn finish(self) -> (r: Vec<SourceEntry>)
        requires
            self.wf(),
        ensures
            entry_views(r@) == self.found(),
            tree_wf(entry_views(r@)),
    {
        self.found
    }
}

} // verus!
