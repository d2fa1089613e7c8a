//! The copy build graph: one edge per regular file under each copy rule's
//! source, and its text for the incremental build executor.
use vstd::prelude::*;

use crate::deps::string_views;
use crate::error::{ErrorKind, SyncError};
use crate::manifest::{CopySpec, Mcmod, RETIRED_SOURCE};
use crate::text::{chars_of, push_all, starts_with, string_of};
use ninja_writer::{BuildVariables, Ninja, RuleRef, RuleVariables};

verus! {

/// `rel` appended to `base` as `PathBuf::push` does on Unix: an absolute `rel`
/// replaces `base`, otherwise one `/` separates them.
pub open spec fn joined(base: Seq<char>, rel: Seq<char>) -> Seq<char> {
    if rel.len() > 0 && rel[0] == '/' {
        rel
    } else if base.len() == 0 || base.last() == '/' {
        base + rel
    } else {
        base + seq!['/'] + rel
    }
}

/// The path of an entry below `base`; the empty relative path is `base` itself.
pub open spec fn entry_path(base: Seq<char>, rel: Seq<char>) -> Seq<char> {
    if rel.len() == 0 {
        base
    } else {
        joined(base, rel)
    }
}

/// Joins two paths as `joined` states it.
pub fn join_path(base: &str, rel: &str) -> (r: String)
    ensures
        r@ == joined(base@, rel@),
{
    let b = chars_of(base);
    let x = chars_of(rel);
    let mut out: Vec<char>;
    if x.len() > 0 && x[0] == '/' {
        out = x;
    } else if b.len() == 0 || b[b.len() - 1] == '/' {
        out = b;
        push_all(&mut out, &x);
    } else {
        out = b;
        out.push('/');
        push_all(&mut out, &x);
    }
    string_of(&out)
}

fn entry_path_exec(base: &str, rel: &str) -> (r: String)
    ensures
        r@ == entry_path(base@, rel@),
{
    let x = chars_of(rel);
    if x.len() == 0 {
        base.to_string()
    } else {
        join_path(base, rel)
    }
}

/// One entry found below a copy rule's source: its path relative to the
/// source (empty for the source itself) and whether it is a directory.
#[derive(Clone, Debug)]
pub struct SourceEntry {
    pub rel: String,
    pub is_dir: bool,
}

pub open spec fn entry_views(v: Seq<SourceEntry>) -> Seq<(Seq<char>, bool)> {
    v.map_values(|e: SourceEntry| (e.rel@, e.is_dir))
}

/// The entries of one walk below a source: distinct relative paths, none of
/// them absolute.
pub open spec fn tree_wf(entries: Seq<(Seq<char>, bool)>) -> bool {
    &&& forall|i: int, j: int|
        0 <= i < entries.len() && 0 <= j < entries.len() && i != j ==> entries[i].0 != entries[j].0
    &&& forall|i: int| 0 <= i < entries.len() ==> !starts_with(#[trigger] entries[i].0, seq!['/'])
}

/// The number of regular files among the entries.
pub open spec fn file_count(entries: Seq<(Seq<char>, bool)>) -> nat
    decreases entries.len(),
{
    if entries.len() == 0 {
        0
    } else {
        file_count(entries.drop_last()) + if entries.last().1 {
            0nat
        } else {
            1nat
        }
    }
}

/// A copy edge: (source file, target file).
pub type Edge = (Seq<char>, Seq<char>);

/// The copy edges of the regular files among the entries, in order.
pub open spec fn file_edges(sb: Seq<char>, tb: Seq<char>, entries: Seq<(Seq<char>, bool)>) -> Seq<Edge>
    decreases entries.len(),
{
    if entries.len() == 0 {
        seq![]
    } else {
        let rest = file_edges(sb, tb, entries.drop_last());
        let e = entries.last();
        if e.1 {
            rest
        } else {
            rest.push((entry_path(sb, e.0), entry_path(tb, e.0)))
        }
    }
}

/// The target directories of the directories among the entries, in order.
pub open spec fn dir_targets(tb: Seq<char>, entries: Seq<(Seq<char>, bool)>) -> Seq<Seq<char>>
    decreases entries.len(),
{
    if entries.len() == 0 {
        seq![]
    } else {
        let rest = dir_targets(tb, entries.drop_last());
        let e = entries.last();
        if e.1 {
            rest.push(entry_path(tb, e.0))
        } else {
            rest
        }
    }
}

/// No two edges write the same target.
pub open spec fn targets_distinct(edges: Seq<Edge>) -> bool {
    forall|i: int, j: int| 0 <= i < edges.len() && 0 <= j < edges.len() && i != j ==> edges[i].1 != edges[j].1
}

/// A planned file copy.
#[derive(Clone, Debug)]
pub struct CopyEdge {
    pub source: String,
    pub target: String,
}

pub open spec fn edge_views(v: Seq<CopyEdge>) -> Seq<Edge> {
    v.map_values(|e: CopyEdge| (e.source@, e.target@))
}

proof fn lemma_entry_path_injective(base: Seq<char>, a: Seq<char>, b: Seq<char>)
    requires
        !starts_with(a, seq!['/']),
        !starts_with(b, seq!['/']),
        entry_path(base, a) == entry_path(base, b),
    ensures
        a == b,
{
    if a.len() > 0 && a[0] == '/' {
        assert(a.subrange(0, 1) =~= seq!['/']);
    }
    if b.len() > 0 && b[0] == '/' {
        assert(b.subrange(0, 1) =~= seq!['/']);
    }
    let pa = entry_path(base, a);
    if a.len() > 0 && b.len() > 0 {
        let k = if base.len() == 0 || base.last() == '/' {
            base.len() as int
        } else {
            base.len() + 1int
        };
        assert(pa.subrange(k, pa.len() as int) =~= a);
        assert(pa.subrange(k, pa.len() as int) =~= b);
    }
}

proof fn lemma_file_edges_facts(sb: Seq<char>, tb: Seq<char>, entries: Seq<(Seq<char>, bool)>)
    ensures
        file_edges(sb, tb, entries).len() == file_count(entries),
        forall|i: int|
            0 <= i < file_edges(sb, tb, entries).len() ==> exists|j: int|
                0 <= j < entries.len() && !entries[j].1 && #[trigger] file_edges(sb, tb, entries)[i]
                    == (entry_path(sb, entries[j].0), entry_path(tb, entries[j].0)),
    decreases entries.len(),
{
    if entries.len() > 0 {
        let init = entries.drop_last();
        lemma_file_edges_facts(sb, tb, init);
        let fe = file_edges(sb, tb, entries);
        assert forall|i: int| 0 <= i < fe.len() implies exists|j: int|
            0 <= j < entries.len() && !entries[j].1 && #[trigger] fe[i] == (
                entry_path(sb, entries[j].0),
                entry_path(tb, entries[j].0),
            ) by {
            if i < file_edges(sb, tb, init).len() {
                let j = choose|j: int|
                    0 <= j < init.len() && !init[j].1 && #[trigger] file_edges(sb, tb, init)[i] == (
                        entry_path(sb, init[j].0),
                        entry_path(tb, init[j].0),
                    );
                assert(entries[j] == init[j]);
            } else {
                let j = entries.len() - 1;
                assert(fe[i] == (entry_path(sb, entries[j].0), entry_path(tb, entries[j].0)));
            }
        }
    }
}

/// The number of regular files that the first `n` rules copy: those found
/// below each source that exists, none for a rule whose source is `null`.
pub open spec fn graph_file_count(
    rules: Seq<CopySpec>,
    trees: Seq<Option<Vec<SourceEntry>>>,
    n: nat,
) -> nat
    decreases n,
{
    if n == 0 {
        0
    } else {
        graph_file_count(rules, trees, (n - 1) as nat) + match tree_view(trees[n - 1]) {
            Some(t) => if is_skipped(rules[n - 1]) {
                0nat
            } else {
                file_count(t)
            },
            None => 0nat,
        }
    }
}

/// A graph has one edge per regular file found below the rules' sources.
pub proof fn lemma_graph_edge_count(
    root: Seq<char>,
    target_root: Seq<char>,
    rules: Seq<CopySpec>,
    trees: Seq<Option<Vec<SourceEntry>>>,
    n: nat,
)
    ensures
        graph_edges(root, target_root, rules, trees, n).len() == graph_file_count(rules, trees, n),
    decreases n,
{
    if n > 0 {
        lemma_graph_edge_count(root, target_root, rules, trees, (n - 1) as nat);
        let rule = rules[n - 1];
        if let Some(t) = tree_view(trees[n - 1]) {
            lemma_file_edges_facts(
                joined(root, rule_source(rule)),
                joined(target_root, rule_target(rule)),
                t,
            );
        }
    }
}

/// The copy edges of one walk: one per regular file, and no two write the
/// same target.
pub proof fn lemma_tree_edges(sb: Seq<char>, tb: Seq<char>, entries: Seq<(Seq<char>, bool)>)
    requires
        tree_wf(entries),
    ensures
        file_edges(sb, tb, entries).len() == file_count(entries),
        targets_distinct(file_edges(sb, tb, entries)),
    decreases entries.len(),
{
    lemma_file_edges_facts(sb, tb, entries);
    if entries.len() > 0 {
        let init = entries.drop_last();
        assert(tree_wf(init)) by {
            assert forall|i: int| 0 <= i < init.len() implies !starts_with(
                #[trigger] init[i].0,
                seq!['/'],
            ) by {
                assert(init[i] == entries[i]);
            }
        }
        lemma_tree_edges(sb, tb, init);
        lemma_file_edges_facts(sb, tb, init);
        let fe = file_edges(sb, tb, entries);
        let last = entries.last();
        if !last.1 {
            let fi = file_edges(sb, tb, init);
            assert forall|i: int, j: int|
                0 <= i < fe.len() && 0 <= j < fe.len() && i != j implies fe[i].1 != fe[j].1 by {
                if i < fi.len() && j < fi.len() {
                    assert(fe[i] == fi[i] && fe[j] == fi[j]);
                } else {
                    let (a, b) = if i < fi.len() {
                        (i, j)
                    } else {
                        (j, i)
                    };
                    assert(fe[a] == fi[a]);
                    let w = choose|w: int|
                        0 <= w < init.len() && !init[w].1 && #[trigger] fi[a] == (
                            entry_path(sb, init[w].0),
                            entry_path(tb, init[w].0),
                        );
                    assert(init[w] == entries[w]);
                    let n = entries.len() - 1;
                    assert(!starts_with(entries[w].0, seq!['/']));
                    assert(!starts_with(entries[n].0, seq!['/']));
                    if fe[a].1 == fe[b].1 {
                        lemma_entry_path_injective(tb, entries[w].0, entries[n].0);
                    }
                }
            }
        }
    }
}

pub open spec fn rule_source(r: CopySpec) -> Seq<char> {
    match r {
        CopySpec::Simple(s) => s@,
        CopySpec::SourceTarget(s, _) => s@,
    }
}

pub open spec fn rule_target(r: CopySpec) -> Seq<char> {
    match r {
        CopySpec::Simple(s) => s@,
        CopySpec::SourceTarget(_, t) => t@,
    }
}

/// A rule whose source is the sentinel `null`: it copies nothing.
pub open spec fn is_skipped(r: CopySpec) -> bool {
    rule_source(r) == RETIRED_SOURCE@
}

/// A rule with a target whose source is the sentinel: its target is deleted.
pub open spec fn is_retired(r: CopySpec) -> bool {
    r is SourceTarget && is_skipped(r)
}

pub open spec fn tree_view(t: Option<Vec<SourceEntry>>) -> Option<Seq<(Seq<char>, bool)>> {
    match t {
        Some(v) => Some(entry_views(v@)),
        None => None,
    }
}

/// The edges of one rule, given what was found at its source.
pub open spec fn rule_edges(
    root: Seq<char>,
    target_root: Seq<char>,
    rule: CopySpec,
    tree: Option<Vec<SourceEntry>>,
) -> Seq<Edge> {
    match tree_view(tree) {
        Some(t) => if is_skipped(rule) {
            seq![]
        } else {
            file_edges(joined(root, rule_source(rule)), joined(target_root, rule_target(rule)), t)
        },
        None => seq![],
    }
}

/// The target directories of one rule, given what was found at its source.
pub open spec fn rule_dirs(
    target_root: Seq<char>,
    rule: CopySpec,
    tree: Option<Vec<SourceEntry>>,
) -> Seq<Seq<char>> {
    match tree_view(tree) {
        Some(t) => if is_skipped(rule) {
            seq![]
        } else {
            dir_targets(joined(target_root, rule_target(rule)), t)
        },
        None => seq![],
    }
}

/// The edges of the first `n` rules, in order.
pub open spec fn graph_edges(
    root: Seq<char>,
    target_root: Seq<char>,
    rules: Seq<CopySpec>,
    trees: Seq<Option<Vec<SourceEntry>>>,
    n: nat,
) -> Seq<Edge>
    decreases n,
{
    if n == 0 {
        seq![]
    } else {
        graph_edges(root, target_root, rules, trees, (n - 1) as nat) + rule_edges(
            root,
            target_root,
            rules[n - 1],
            trees[n - 1],
        )
    }
}

/// The target directories of the first `n` rules, in order.
pub open spec fn graph_dirs(
    target_root: Seq<char>,
    rules: Seq<CopySpec>,
    trees: Seq<Option<Vec<SourceEntry>>>,
    n: nat,
) -> Seq<Seq<char>>
    decreases n,
{
    if n == 0 {
        seq![]
    } else {
        graph_dirs(target_root, rules, trees, (n - 1) as nat) + rule_dirs(
            target_root,
            rules[n - 1],
            trees[n - 1],
        )
    }
}

/// Some rule whose source is not `null` has a source that does not exist.
pub open spec fn missing_source(rules: Seq<CopySpec>, trees: Seq<Option<Vec<SourceEntry>>>) -> bool {
    exists|i: int| 0 <= i < rules.len() && !is_skipped(rules[i]) && #[trigger] trees[i] is None
}

pub open spec fn is_prefix<T>(p: Seq<T>, t: Seq<T>) -> bool {
    p.len() <= t.len() && t.subrange(0, p.len() as int) == p
}

proof fn lemma_prefix_trans<T>(a: Seq<T>, b: Seq<T>, c: Seq<T>)
    requires
        is_prefix(a, b),
        is_prefix(b, c),
    ensures
        is_prefix(a, c),
{
    assert(c.subrange(0, a.len() as int) =~= b.subrange(0, a.len() as int));
}

proof fn lemma_file_edges_prefix(sb: Seq<char>, tb: Seq<char>, t: Seq<(Seq<char>, bool)>, j: int)
    requires
        0 <= j <= t.len(),
    ensures
        is_prefix(file_edges(sb, tb, t.take(j)), file_edges(sb, tb, t)),
    decreases t.len() - j,
{
    if j == t.len() {
        assert(t.take(j) == t);
        let f = file_edges(sb, tb, t);
        assert(f.subrange(0, f.len() as int) == f);
    } else {
        lemma_file_edges_prefix(sb, tb, t, j + 1);
        assert(t.take(j + 1).drop_last() == t.take(j));
        let a = file_edges(sb, tb, t.take(j));
        let b = file_edges(sb, tb, t.take(j + 1));
        assert(is_prefix(a, b)) by {
            assert(b.subrange(0, a.len() as int) =~= a);
        }
        lemma_prefix_trans(a, b, file_edges(sb, tb, t));
    }
}

proof fn lemma_graph_edges_prefix(
    root: Seq<char>,
    target_root: Seq<char>,
    rules: Seq<CopySpec>,
    trees: Seq<Option<Vec<SourceEntry>>>,
    i: nat,
    n: nat,
)
    requires
        i <= n,
    ensures
        is_prefix(
            graph_edges(root, target_root, rules, trees, i),
            graph_edges(root, target_root, rules, trees, n),
        ),
    decreases n,
{
    let b = graph_edges(root, target_root, rules, trees, n);
    if i == n {
        assert(b.subrange(0, b.len() as int) == b);
    } else {
        lemma_graph_edges_prefix(root, target_root, rules, trees, i, (n - 1) as nat);
        let a = graph_edges(root, target_root, rules, trees, i);
        let m = graph_edges(root, target_root, rules, trees, (n - 1) as nat);
        assert(is_prefix(m, b)) by {
            assert(b.subrange(0, m.len() as int) =~= m);
        }
        lemma_prefix_trans(a, m, b);
    }
}

proof fn lemma_duplicate_in_prefix(p: Seq<Edge>, t: Seq<Edge>)
    requires
        is_prefix(p, t),
        !targets_distinct(p),
    ensures
        !targets_distinct(t),
{
    let (i, j) = choose|i: int, j: int|
        0 <= i < p.len() && 0 <= j < p.len() && i != j && p[i].1 == p[j].1;
    assert(t[i] == p[i] && t[j] == p[j]) by {
        assert(t.subrange(0, p.len() as int)[i] == t[i]);
        assert(t.subrange(0, p.len() as int)[j] == t[j]);
    }
}

fn is_skipped_exec(rule: &CopySpec) -> (r: bool)
    ensures
        r == is_skipped(*rule),
{
    let (s, _) = rule_paths(rule);
    *s == RETIRED_SOURCE.to_string()
}

fn is_retired_exec(rule: &CopySpec) -> (r: bool)
    ensures
        r == is_retired(*rule),
{
    match rule {
        CopySpec::Simple(_) => false,
        CopySpec::SourceTarget(s, _) => *s == RETIRED_SOURCE.to_string(),
    }
}

/// The source and the target that a rule names.
pub fn rule_paths(rule: &CopySpec) -> (r: (&String, &String))
    ensures
        r.0@ == rule_source(*rule),
        r.1@ == rule_target(*rule),
{
    match rule {
        CopySpec::Simple(s) => (s, s),
        CopySpec::SourceTarget(s, t) => (s, t),
    }
}

/// The targets that the first `n` rules retire, in order.
pub open spec fn retired_upto(target_root: Seq<char>, rules: Seq<CopySpec>, n: nat) -> Seq<Seq<char>>
    decreases n,
{
    if n == 0 {
        seq![]
    } else {
        let rest = retired_upto(target_root, rules, (n - 1) as nat);
        if is_retired(rules[n - 1]) {
            rest.push(joined(target_root, rule_target(rules[n - 1])))
        } else {
            rest
        }
    }
}

/// The targets that retiring rules delete before the graph is built.
pub fn retired_targets(target_root: &str, rules: &Vec<CopySpec>) -> (r: Vec<String>)
    ensures
        string_views(r@) == retired_upto(target_root@, rules@, rules@.len()),
{
    let mut r: Vec<String> = Vec::new();
    let mut i: usize = 0;
    proof {
        assert(string_views(r@) =~= Seq::<Seq<char>>::empty());
    }
    while i < rules.len()
        invariant
            i <= rules@.len(),
            string_views(r@) == retired_upto(target_root@, rules@, i as nat),
        decreases rules@.len() - i,
    {
        let ghost before = string_views(r@);
        if is_retired_exec(&rules[i]) {
            let (_, t) = rule_paths(&rules[i]);
            let x = join_path(target_root, t.as_str());
            let ghost xv = x@;
            r.push(x);
            proof {
                assert(string_views(r@) =~= before.push(xv));
            }
        }
        i = i + 1;
    }
    r
}

/// The copy graph: its edges, and the target directories that must exist.
#[derive(Clone, Debug)]
pub struct BuildGraph {
    pub edges: Vec<CopyEdge>,
    pub dirs: Vec<String>,
}

fn target_taken(edges: &Vec<CopyEdge>, target: &String) -> (r: Option<usize>)
    ensures
        r is None ==> forall|k: int| 0 <= k < edges@.len() ==> edges@[k].target@ != target@,
        r matches Some(k) ==> k < edges@.len() && edges@[k as int].target@ == target@,
{
    let mut k: usize = 0;
    while k < edges.len()
        invariant
            k <= edges@.len(),
            forall|x: int| 0 <= x < k ==> edges@[x].target@ != target@,
        decreases edges@.len() - k,
    {
        if edges[k].target == *target {
            return Some(k);
        }
        k = k + 1;
    }
    None
}

proof fn lemma_prefix_concat<T>(a: Seq<T>, p: Seq<T>, q: Seq<T>)
    requires
        is_prefix(p, q),
    ensures
        is_prefix(a + p, a + q),
{
    assert((a + q).subrange(0, (a + p).len() as int) =~= a + p);
}

/// Builds the copy graph of the rules below `root` into `target_root`, where
/// `trees[i]` is what a walk found at the source of `rules[i]` (`None` where
/// the source does not exist). Rules whose source is `null` add nothing. Fails with
/// `NotFound` exactly when a rule that is not retired has no source, and
/// otherwise with `AlreadyExists` exactly when two edges would write the
/// same target.
pub fn build_graph(
    root: &str,
    target_root: &str,
    rules: &Vec<CopySpec>,
    trees: &Vec<Option<Vec<SourceEntry>>>,
) -> (r: Result<BuildGraph, SyncError>)
    requires
        rules@.len() == trees@.len(),
    ensures
        ({
            let n = rules@.len();
            let edges = graph_edges(root@, target_root@, rules@, trees@, n);
            &&& (r matches Err(e) && e.kind == ErrorKind::NotFound) <==> missing_source(rules@, trees@)
            &&& (r matches Err(e) && e.kind == ErrorKind::AlreadyExists) <==> (!missing_source(
                rules@,
                trees@,
            ) && !targets_distinct(edges))
            &&& r is Ok <==> (!missing_source(rules@, trees@) && targets_distinct(edges))
            &&& r matches Ok(g) ==> {
                &&& edge_views(g.edges@) == edges
                &&& string_views(g.dirs@) == graph_dirs(target_root@, rules@, trees@, n)
            }
        }),
{
    let mut i: usize = 0;
    while i < rules.len()
        invariant
            i <= rules@.len(),
            rules@.len() == trees@.len(),
            forall|j: int| 0 <= j < i ==> is_skipped(rules@[j]) || #[trigger] trees@[j] is Some,
        decreases rules@.len() - i,
    {
        if !is_skipped_exec(&rules[i]) && trees[i].is_none() {
            let (src, _) = rule_paths(&rules[i]);
            let path = join_path(root, src.as_str());
            let mut msg = String::from_str("source path '");
            msg.append(path.as_str());
            msg.append("' does not exist; remove it from the manifest");
            proof {
                assert(missing_source(rules@, trees@));
            }
            return Err(SyncError::new(ErrorKind::NotFound, msg));
        }
        i = i + 1;
    }
    let ghost n = rules@.len();
    let ghost total = graph_edges(root@, target_root@, rules@, trees@, n as nat);
    let mut edges: Vec<CopyEdge> = Vec::new();
    let mut dirs: Vec<String> = Vec::new();
    proof {
        assert(edge_views(edges@) =~= Seq::<Edge>::empty());
        assert(string_views(dirs@) =~= Seq::<Seq<char>>::empty());
    }
    i = 0;
    while i < rules.len()
        invariant
            i <= rules@.len(),
            n == rules@.len(),
            rules@.len() == trees@.len(),
            !missing_source(rules@, trees@),
            total == graph_edges(root@, target_root@, rules@, trees@, n as nat),
            edge_views(edges@) == graph_edges(root@, target_root@, rules@, trees@, i as nat),
            string_views(dirs@) == graph_dirs(target_root@, rules@, trees@, i as nat),
            targets_distinct(edge_views(edges@)),
        decreases rules@.len() - i,
    {
        let ghost e0 = edge_views(edges@);
        let ghost d0 = string_views(dirs@);
        if !is_skipped_exec(&rules[i]) {
            match &trees[i] {
                Some(t) => {
                    let ghost tv = entry_views(t@);
                    let (src, tgt) = rule_paths(&rules[i]);
                    let sb = join_path(root, src.as_str());
                    let tb = join_path(target_root, tgt.as_str());
                    let mut j: usize = 0;
                    proof {
                        assert(tv.take(0) =~= Seq::<(Seq<char>, bool)>::empty());
                        assert(e0 + file_edges(sb@, tb@, tv.take(0)) =~= e0);
                        assert(d0 + dir_targets(tb@, tv.take(0)) =~= d0);
                    }
                    while j < t.len()
                        invariant
                            j <= t@.len(),
                            i < rules@.len(),
                            n == rules@.len(),
                            rules@.len() == trees@.len(),
                            !missing_source(rules@, trees@),
                            total == graph_edges(root@, target_root@, rules@, trees@, n as nat),
                            e0 == graph_edges(root@, target_root@, rules@, trees@, i as nat),
                            !is_skipped(rules@[i as int]),
                            trees@[i as int] == Some(*t),
                            sb@ == joined(root@, rule_source(rules@[i as int])),
                            tb@ == joined(target_root@, rule_target(rules@[i as int])),
                            tv == entry_views(t@),
                            edge_views(edges@) == e0 + file_edges(sb@, tb@, tv.take(j as int)),
                            string_views(dirs@) == d0 + dir_targets(tb@, tv.take(j as int)),
                            targets_distinct(edge_views(edges@)),
                        decreases t@.len() - j,
                    {
                        let ghost ev = edge_views(edges@);
                        let ghost dv = string_views(dirs@);
                        proof {
                            assert(tv.take(j + 1).drop_last() == tv.take(j as int));
                            assert(tv.take(j + 1).last() == (t@[j as int].rel@, t@[j as int].is_dir));
                        }
                        let target = entry_path_exec(tb.as_str(), t[j].rel.as_str());
                        if t[j].is_dir {
                            let ghost tg = target@;
                            dirs.push(target);
                            proof {
                                assert(string_views(dirs@) =~= dv.push(tg));
                            }
                        } else {
                            let source = entry_path_exec(sb.as_str(), t[j].rel.as_str());
                            let ghost pair = (source@, target@);
                            match target_taken(&edges, &target) {
                                Some(k) => {
                                    proof {
                                        let pv = ev.push(pair);
                                        assert(pv[k as int].1 == pv[ev.len() as int].1);
                                        assert(!targets_distinct(pv));
                                        lemma_file_edges_prefix(sb@, tb@, tv, j + 1);
                                        lemma_prefix_concat(
                                            e0,
                                            file_edges(sb@, tb@, tv.take(j + 1)),
                                            file_edges(sb@, tb@, tv),
                                        );
                                        assert(pv =~= e0 + file_edges(sb@, tb@, tv.take(j + 1)));
                                        assert(graph_edges(root@, target_root@, rules@, trees@, (i + 1) as nat)
                                            == e0 + file_edges(sb@, tb@, tv));
                                        lemma_graph_edges_prefix(root@, target_root@, rules@, trees@, (i + 1) as nat, n as nat);
                                        lemma_prefix_trans(
                                            pv,
                                            e0 + file_edges(sb@, tb@, tv),
                                            total,
                                        );
                                        lemma_duplicate_in_prefix(pv, total);
                                    }
                                    let mut msg = String::from_str("two copy rules write '");
                                    msg.append(target.as_str());
                                    msg.append("'");
                                    return Err(SyncError::new(ErrorKind::AlreadyExists, msg));
                                },
                                None => {
                                    edges.push(CopyEdge { source, target });
                                    proof {
                                        assert(edge_views(edges@) =~= ev.push(pair));
                                    }
                                },
                            }
                        }
                        j = j + 1;
                    }
                    proof {
                        assert(tv.take(t@.len() as int) == tv);
                    }
                },
                None => {},
            }
        }
        proof {
            assert(graph_edges(root@, target_root@, rules@, trees@, (i + 1) as nat) =~= e0 + rule_edges(
                root@,
                target_root@,
                rules@[i as int],
                trees@[i as int],
            ));
            assert(graph_dirs(target_root@, rules@, trees@, (i + 1) as nat) =~= d0 + rule_dirs(
                target_root@,
                rules@[i as int],
                trees@[i as int],
            ));
            if !is_skipped(rules@[i as int]) {
                assert(trees@[i as int] is Some);
            } else {
                assert(rule_edges(root@, target_root@, rules@[i as int], trees@[i as int]) =~= Seq::<Edge>::empty());
                assert(rule_dirs(target_root@, rules@[i as int], trees@[i as int]) =~= Seq::<Seq<char>>::empty());
            }
        }
        i = i + 1;
    }
    Ok(BuildGraph { edges, dirs })
}

/// A path as the build description writes it: `$`, line feed, space and `:`
/// each preceded by `$`.
pub open spec fn ninja_escaped(s: Seq<char>) -> Seq<char>
    decreases s.len(),
{
    if s.len() == 0 {
        seq![]
    } else {
        let c = s.last();
        let rest = ninja_escaped(s.drop_last());
        if c == '$' || c == '\n' || c == ' ' || c == ':' {
            rest + seq!['$', c]
        } else {
            rest.push(c)
        }
    }
}

/// Relies on `ninja_writer::escape_build`: each `$`, line feed, space and `:`
/// gets a `$` before it; every other character is kept.
#[verifier::external_body]
fn escape_build(s: &str) -> (r: String)
    ensures
        r@ == ninja_escaped(s@),
{
    ninja_writer::escape_build(s).into_owned()
}

/// A statement of a build description, as `(kind, a, b, c)`: kind 0 is the
/// comment `a`; kind 1 is the rule named `a` with command `b` and description
/// `c`; kind 2 is a build of the file's rule with the one output `a` and the
/// one input `b`.
pub type NinjaStmt = (nat, Seq<char>, Seq<char>, Seq<char>);

/// A build description under construction with `ninja_writer`, holding its
/// one rule. The `Ninja` shares its statement list with the rule's handle
/// through a reference-counted cell, so a build added through the handle
/// changes the `Ninja`: the two are kept together here, where only the
/// wrappers below touch them.
#[verifier::external_body]
pub struct NinjaFile {
    ninja: Ninja,
    rule: RuleRef,
}

/// The statements of a build description under construction, in order.
pub uninterp spec fn ninja_statements(f: NinjaFile) -> Seq<NinjaStmt>;

/// The name of the last rule among the statements, or empty.
pub open spec fn last_rule_name(stmts: Seq<NinjaStmt>) -> Seq<char>
    decreases stmts.len(),
{
    if stmts.len() == 0 {
        seq![]
    } else if stmts.last().0 == 1 {
        stmts.last().1
    } else {
        last_rule_name(stmts.drop_last())
    }
}

/// The lines of one statement; a build names the rule before it.
pub open spec fn stmt_text(s: NinjaStmt, rule: Seq<char>) -> Seq<char> {
    if s.0 == 0 {
        "# "@ + s.1 + "\n"@
    } else if s.0 == 1 {
        "rule "@ + s.1 + "\n  command = "@ + s.2 + "\n  description = "@ + s.3 + "\n"@
    } else {
        "build "@ + s.1 + ": "@ + rule + " "@ + s.2 + "\n"@
    }
}

/// The text that `ninja_writer` prints for these statements: the lines of
/// each, with an empty line before the first statement, before each rule,
/// and wherever the kind of statement changes.
pub open spec fn ninja_rendered(stmts: Seq<NinjaStmt>) -> Seq<char>
    decreases stmts.len(),
{
    if stmts.len() == 0 {
        seq![]
    } else {
        let init = stmts.drop_last();
        let s = stmts.last();
        let gap = if s.0 == 1 || init.len() == 0 || init.last().0 != s.0 {
            "\n"@
        } else {
            Seq::<char>::empty()
        };
        ninja_rendered(init) + gap + stmt_text(s, last_rule_name(init))
    }
}

impl NinjaFile {
    /// Relies on `Ninja::new`, `Ninja::comment`, `Ninja::rule` and
    /// `RuleVariables::description`: a file with the comments, in order, then
    /// one rule with its command and description.
    #[verifier::external_body]
    fn new(comments: &Vec<String>, name: &str, command: &str, description: &str) -> (r: NinjaFile)
        ensures
            ninja_statements(r) == comments@.map_values(
                |c: String| (0nat, c@, Seq::<char>::empty(), Seq::<char>::empty()),
            ) + seq![(1nat, name@, command@, description@)],
    {
        let ninja = Ninja::new();
        for c in comments.iter() {
            ninja.comment(c.as_str());
        }
        let rule = ninja.rule(name, command).description(description);
        NinjaFile { ninja, rule }
    }

    /// Relies on `RuleRef::build` and `BuildVariables::with`: one more build
    /// of the file's rule, with one output and one input.
    #[verifier::external_body]
    fn build(&mut self, output: &str, input: &str)
        ensures
            ninja_statements(*final(self)) == ninja_statements(*old(self)).push(
                (2nat, output@, input@, Seq::<char>::empty()),
            ),
    {
        self.rule.build([output]).with([input]);
    }

    /// Relies on `Display` for `Ninja` (with those of `Rule`, `Build` and
    /// `Variable`): the text of the statements, as `ninja_rendered` states it.
    #[verifier::external_body]
    fn text(&self) -> (r: String)
        ensures
            r@ == ninja_rendered(ninja_statements(*self)),
    {
        self.ninja.to_string()
    }
}

/// The comments at the top of every build description.
pub const BUILD_COMMENT: &'static str = "Incremental build file for copying source and assets";

pub const BUILD_COMMENT_SYNC: &'static str = "Please run `mcmod sync` to update this file when mcmod.yaml, or when the file structure changes";

/// The copy command: `coreutils cp` on Windows, `cp` elsewhere.
pub open spec fn copy_command(windows: bool) -> Seq<char> {
    if windows {
        "coreutils cp $in $out"@
    } else {
        "cp $in $out"@
    }
}

/// The statements of the build description of a graph: two comments, the
/// one rule `cp`, and one build of it per edge with the escaped target as
/// output and the escaped source as input.
pub open spec fn description_statements(edges: Seq<Edge>, windows: bool) -> Seq<NinjaStmt> {
    seq![
        (0nat, BUILD_COMMENT@, Seq::<char>::empty(), Seq::<char>::empty()),
        (0nat, BUILD_COMMENT_SYNC@, Seq::<char>::empty(), Seq::<char>::empty()),
        (1nat, "cp"@, copy_command(windows), "Copying $in"@),
    ] + edges.map_values(
        |e: Edge| (2nat, ninja_escaped(e.1), ninja_escaped(e.0), Seq::<char>::empty()),
    )
}

/// The build description of a graph.
pub open spec fn description_text(edges: Seq<Edge>, windows: bool) -> Seq<char> {
    ninja_rendered(description_statements(edges, windows))
}

impl BuildGraph {
    /// The text of the build description, for Windows or another system.
    pub fn render(&self, windows: bool) -> (r: String)
        ensures
            r@ == description_text(edge_views(self.edges@), windows),
    {
        let mut comments: Vec<String> = Vec::new();
        comments.push(BUILD_COMMENT.to_string());
        comments.push(BUILD_COMMENT_SYNC.to_string());
        let command = if windows {
            "coreutils cp $in $out"
        } else {
            "cp $in $out"
        };
        let mut file = NinjaFile::new(&comments, "cp", command, "Copying $in");
        let ghost ev = edge_views(self.edges@);
        let ghost head = ninja_statements(file);
        let ghost f = |e: Edge| (2nat, ninja_escaped(e.1), ninja_escaped(e.0), Seq::<char>::empty());
        proof {
            assert(head =~= description_statements(ev.take(0), windows));
        }
        let mut i: usize = 0;
        while i < self.edges.len()
            invariant
                i <= self.edges@.len(),
                ev == edge_views(self.edges@),
                ninja_statements(file) == description_statements(ev.take(i as int), windows),
            decreases self.edges@.len() - i,
        {
            let t = escape_build(self.edges[i].target.as_str());
            let s = escape_build(self.edges[i].source.as_str());
            let ghost before = ninja_statements(file);
            file.build(t.as_str(), s.as_str());
            proof {
                assert(ev.take(i + 1) =~= ev.take(i as int).push(ev[i as int]));
                assert(description_statements(ev.take(i + 1), windows) =~= before.push(
                    (2nat, t@, s@, Seq::<char>::empty()),
                ));
            }
            i = i + 1;
        }
        proof {
            assert(ev.take(i as int) == ev);
        }
        file.text()
    }
}

impl Mcmod {
    /// The build description of the manifest's copy rules below `root` into
    /// `target_root`, given what a walk found at each rule's source, for
    /// Windows or another system; fails as `build_graph` does.
    pub fn create_build_ninja(
        &self,
        root: &str,
        target_root: &str,
        trees: &Vec<Option<Vec<SourceEntry>>>,
        windows: bool,
    ) -> (r: Result<String, SyncError>)
        requires
            self.copy_paths@.len() == trees@.len(),
        ensures
            ({
                let edges = graph_edges(root@, target_root@, self.copy_paths@, trees@, trees@.len());
                &&& r is Ok <==> (!missing_source(self.copy_paths@, trees@) && targets_distinct(edges))
                &&& (r matches Err(e) && e.kind == ErrorKind::NotFound) <==> missing_source(
                    self.copy_paths@,
                    trees@,
                )
                &&& r matches Ok(text) ==> text@ == description_text(edges, windows)
            }),
    {
        match build_graph(root, target_root, &self.copy_paths, trees) {
            Ok(g) => Ok(g.render(windows)),
            Err(e) => Err(e),
        }
    }
}

} // verus!
