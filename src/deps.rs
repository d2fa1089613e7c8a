//! Reconciling a declared set of dependency references with the files of a
//! directory: which entries are stale, which references still have to be
//! fetched or copied, and how the outcomes of the fetches are gathered.
use vstd::prelude::*;

use crate::error::{ErrorKind, SyncError};
use crate::text::{chars_of, contains_char, push_all, starts_with, string_of};
use crate::walk::last_slash;

verus! {

/// What `Path::file_name` gives for a path: its last component where that is
/// a normal one, as text.
pub uninterp spec fn path_file_name(p: Seq<char>) -> Option<Seq<char>>;

/// The part of a path after its last `/`.
pub open spec fn last_segment(p: Seq<char>) -> Seq<char> {
    p.skip(last_slash(p) + 1)
}

/// A path whose final component is plainly the part after its last `/`, on
/// every platform: the path holds no `\\` anywhere (so no Windows verbatim
/// or UNC prefix) and does not start with `//`; the part after its last `/`
/// is not empty, `.` or `..`, and holds no `:`.
pub open spec fn plain_file_path(p: Seq<char>) -> bool {
    let s = last_segment(p);
    &&& s.len() > 0
    &&& s != "."@
    &&& s != ".."@
    &&& !contains_char(p, '\\')
    &&& !contains_char(s, ':')
    &&& !starts_with(p, "//"@)
}

/// Relies on `std::path::Path::file_name` (then `OsStr::to_str`): the final
/// component of the path, if there is one, which for a plain file path is
/// the part after the last `/`. A component of a `&str` is text.
#[verifier::external_body]
pub(crate) fn file_name_of_path(p: &str) -> (r: Option<String>)
    ensures
        r is Some <==> path_file_name(p@) is Some,
        r matches Some(n) ==> path_file_name(p@) == Some(n@),
        r is Some || !plain_file_path(p@),
        r matches Some(n) ==> (plain_file_path(p@) ==> n@ == last_segment(p@)),
{
    std::path::Path::new(p).file_name().and_then(|s| s.to_str()).map(|s| s.to_string())
}

pub open spec fn local_marker() -> Seq<char> {
    seq!['.', '/']
}

pub open spec fn url_marker() -> Seq<char> {
    seq!['h', 't', 't', 'p']
}

/// A reference to a file in the project, copied rather than fetched.
pub open spec fn is_local_ref(r: Seq<char>) -> bool {
    starts_with(r, local_marker())
}

/// A reference that is a url of its own.
pub open spec fn is_url_ref(r: Seq<char>) -> bool {
    !is_local_ref(r) && starts_with(r, url_marker())
}

/// The name of the file that a reference puts in the directory: the last path
/// segment of a local path or url, the reference itself for a bare name.
pub open spec fn target_name(r: Seq<char>) -> Option<Seq<char>> {
    if is_local_ref(r) || starts_with(r, url_marker()) {
        path_file_name(r)
    } else {
        Some(r)
    }
}

/// Position of the first pending reference whose file is `name`, or the
/// number of pending references where none is.
pub open spec fn first_match(pending: Seq<Seq<char>>, name: Seq<char>) -> nat
    decreases pending.len(),
{
    if pending.len() == 0 {
        0
    } else if target_name(pending[0]) == Some(name) {
        0
    } else {
        1 + first_match(pending.drop_first(), name)
    }
}

/// The pass over the existing entries, in order: an entry that a pending
/// reference names takes that reference off the list; any other entry is
/// stale. The result is the stale entries and the references left to fetch.
pub open spec fn scan(existing: Seq<Seq<char>>, pending: Seq<Seq<char>>) -> (
    Seq<Seq<char>>,
    Seq<Seq<char>>,
)
    decreases existing.len(),
{
    if existing.len() == 0 {
        (seq![], pending)
    } else {
        let e = existing[0];
        let i = first_match(pending, e);
        if i < pending.len() {
            scan(existing.drop_first(), pending.remove(i as int))
        } else {
            let r = scan(existing.drop_first(), pending);
            (seq![e] + r.0, r.1)
        }
    }
}

/// Every reference has a file name.
pub open spec fn all_named(refs: Seq<Seq<char>>) -> bool {
    forall|i: int| 0 <= i < refs.len() ==> target_name(#[trigger] refs[i]) is Some
}

/// How one missing dependency is brought into the directory.
#[derive(Clone, Debug)]
pub enum FetchAction {
    /// Copy the project file `source` to `file_name`.
    Copy { source: String, file_name: String },
    /// Download `url` into `file_name`.
    Download { url: String, file_name: String },
}

impl FetchAction {
    /// The name of the file that the action writes.
    pub open spec fn file_name(self) -> String {
        match self {
            FetchAction::Copy { file_name, .. } => file_name,
            FetchAction::Download { file_name, .. } => file_name,
        }
    }
}

/// The spec form of a fetch action: (is a copy, source or url, file name).
pub open spec fn action_view(a: FetchAction) -> (bool, Seq<char>, Seq<char>) {
    match a {
        FetchAction::Copy { source, file_name } => (true, source@, file_name@),
        FetchAction::Download { url, file_name } => (false, url@, file_name@),
    }
}

/// The action for a pending reference whose file name is known.
pub open spec fn action_for(r: Seq<char>, url_prefix: Seq<char>) -> (bool, Seq<char>, Seq<char>) {
    if is_local_ref(r) {
        (true, r, target_name(r)->0)
    } else if is_url_ref(r) {
        (false, r, target_name(r)->0)
    } else {
        (false, url_prefix + r, r)
    }
}

/// What reconciliation does to a directory: entries to delete, then
/// references to fetch or copy.
#[derive(Clone, Debug)]
pub struct ReconcilePlan {
    pub remove: Vec<String>,
    pub fetch: Vec<FetchAction>,
}

pub open spec fn string_views(v: Seq<String>) -> Seq<Seq<char>> {
    v.map_values(|s: String| s@)
}

fn has_prefix(s: &Vec<char>, p: &Vec<char>) -> (r: bool)
    ensures
        r == starts_with(s@, p@),
{
    if p.len() > s.len() {
        return false;
    }
    let mut i: usize = 0;
    while i < p.len()
        invariant
            i <= p@.len() <= s@.len(),
            forall|j: int| 0 <= j < i ==> s@[j] == p@[j],
        decreases p@.len() - i,
    {
        if s[i] != p[i] {
            proof {
                assert(s@.subrange(0, p@.len() as int)[i as int] != p@[i as int]);
            }
            return false;
        }
        i = i + 1;
    }
    proof {
        assert(s@.subrange(0, p@.len() as int) =~= p@);
    }
    true
}

/// Whether the reference is a local path, and whether it is a url.
fn ref_form(r: &str) -> (res: (bool, bool))
    ensures
        res.0 == is_local_ref(r@),
        res.1 == starts_with(r@, url_marker()),
{
    let c = chars_of(r);
    let local = vec!['.', '/'];
    let url = vec!['h', 't', 't', 'p'];
    proof {
        assert(local@ =~= local_marker());
        assert(url@ =~= url_marker());
    }
    (has_prefix(&c, &local), has_prefix(&c, &url))
}

/// The name of the file that a reference puts in the directory.
pub fn reference_file_name(r: &str) -> (n: Option<String>)
    ensures
        n is Some <==> target_name(r@) is Some,
        n matches Some(x) ==> target_name(r@) == Some(x@),
{
    let (local, url) = ref_form(r);
    if local || url {
        file_name_of_path(r)
    } else {
        Some(r.to_string())
    }
}

fn first_match_exec(pending: &Vec<String>, name: &String) -> (r: usize)
    ensures
        r == first_match(string_views(pending@), name@),
{
    let ghost p = string_views(pending@);
    let mut i: usize = 0;
    proof {
        assert(p.skip(0) == p);
    }
    while i < pending.len()
        invariant
            i <= pending@.len(),
            p == string_views(pending@),
            first_match(p, name@) == i + first_match(p.skip(i as int), name@),
        decreases pending@.len() - i,
    {
        proof {
            assert(p.skip(i as int)[0] == pending@[i as int]@);
            assert(p.skip(i as int).drop_first() == p.skip(i + 1));
        }
        match reference_file_name(pending[i].as_str()) {
            Some(n) => {
                if n == *name {
                    return i;
                }
            },
            None => {},
        }
        i = i + 1;
    }
    proof {
        assert(p.skip(i as int).len() == 0);
    }
    i
}

/// Plans the reconciliation of a directory whose entries are `existing` with
/// the `declared` references: each entry that a still pending reference
/// names is kept and takes that reference off the list, each other entry is
/// removed; every reference left is copied (a local path) or downloaded (its
/// own url, or `url_prefix` followed by the bare name). Fails with
/// `InvalidData` where a local path or url that is left has no file name.
pub fn plan_reconcile(existing: &Vec<String>, declared: &Vec<String>, url_prefix: &str) -> (r:
    Result<ReconcilePlan, SyncError>)
    ensures
        ({
            let s = scan(string_views(existing@), string_views(declared@));
            &&& r is Ok <==> all_named(s.1)
            &&& (forall|i: int|
                0 <= i < s.1.len() && (is_local_ref(s.1[i]) || starts_with(s.1[i], url_marker()))
                    ==> plain_file_path(#[trigger] s.1[i])) ==> r is Ok
            &&& r matches Ok(plan) ==> {
                &&& string_views(plan.remove@) == s.0
                &&& plan.fetch@.len() == s.1.len()
                &&& forall|i: int|
                    0 <= i < s.1.len() ==> action_view(#[trigger] plan.fetch@[i]) == action_for(
                        s.1[i],
                        url_prefix@,
                    )
                &&& forall|i: int|
                    0 <= i < s.1.len() && (starts_with(s.1[i], url_marker()) || is_local_ref(s.1[i]))
                        ==> (plain_file_path(s.1[i]) ==> (#[trigger] plan.fetch@[i]).file_name()@
                        == last_segment(s.1[i]))
            }
            &&& r matches Err(e) ==> e.kind == ErrorKind::InvalidData
        }),
{
    let ghost ex = string_views(existing@);
    let ghost total = scan(ex, string_views(declared@));
    let mut pending: Vec<String> = Vec::new();
    let mut k: usize = 0;
    while k < declared.len()
        invariant
            k <= declared@.len(),
            pending@ == declared@.subrange(0, k as int),
        decreases declared@.len() - k,
    {
        pending.push(declared[k].clone());
        k = k + 1;
        proof {
            assert(pending@ =~= declared@.subrange(0, k as int));
        }
    }
    proof {
        assert(pending@ =~= declared@);
        assert(ex.skip(0) == ex);
    }
    let mut remove: Vec<String> = Vec::new();
    let mut i: usize = 0;
    while i < existing.len()
        invariant
            i <= existing@.len(),
            ex == string_views(existing@),
            total == scan(ex, string_views(declared@)),
            total == (
                string_views(remove@) + scan(ex.skip(i as int), string_views(pending@)).0,
                scan(ex.skip(i as int), string_views(pending@)).1,
            ),
        decreases existing@.len() - i,
    {
        let ghost p = string_views(pending@);
        let ghost rest = ex.skip(i as int);
        proof {
            assert(rest[0] == existing@[i as int]@);
            assert(rest.drop_first() == ex.skip(i + 1));
        }
        let j = first_match_exec(&pending, &existing[i]);
        if j < pending.len() {
            pending.remove(j);
            proof {
                assert(string_views(pending@) =~= p.remove(j as int));
            }
        } else {
            let ghost before = string_views(remove@);
            remove.push(existing[i].clone());
            proof {
                let r1 = scan(rest.drop_first(), p);
                assert(string_views(remove@) =~= before.push(rest[0]));
                assert(string_views(remove@) + r1.0 =~= before + (seq![rest[0]] + r1.0));
            }
        }
        i = i + 1;
    }
    proof {
        assert(ex.skip(i as int).len() == 0);
        assert(string_views(remove@) + Seq::<Seq<char>>::empty() =~= string_views(remove@));
    }
    let ghost left = string_views(pending@);
    let mut fetch: Vec<FetchAction> = Vec::new();
    let mut x: usize = 0;
    while x < pending.len()
        invariant
            x <= pending@.len(),
            left == string_views(pending@),
            left == total.1,
            total == scan(string_views(existing@), string_views(declared@)),
            fetch@.len() == x,
            forall|y: int| 0 <= y < x ==> target_name(#[trigger] left[y]) is Some,
            forall|y: int|
                0 <= y < x ==> action_view(#[trigger] fetch@[y]) == action_for(left[y], url_prefix@),
            forall|y: int|
                0 <= y < x && (starts_with(left[y], url_marker()) || is_local_ref(left[y])) ==> (
                plain_file_path(left[y]) ==> (#[trigger] fetch@[y]).file_name()@ == last_segment(
                    left[y],
                )),
        decreases pending@.len() - x,
    {
        let r = pending[x].as_str();
        proof {
            assert(left[x as int] == r@);
        }
        let (local, url) = ref_form(r);
        let name = if local || url {
            file_name_of_path(r)
        } else {
            Some(r.to_string())
        };
        if name.is_none() {
            proof {
                assert(x < total.1.len());
                assert(target_name(total.1[x as int]) is None);
                assert(!all_named(total.1));
                assert(local || url);
                assert(!plain_file_path(total.1[x as int]));
            }
            let mut msg = String::from_str("cannot find a file name in '");
            msg.append(r);
            msg.append("'");
            return Err(SyncError::new(ErrorKind::InvalidData, msg));
        }
        let n = name.unwrap();
        let action = if local {
            FetchAction::Copy { source: r.to_string(), file_name: n }
        } else if url {
            FetchAction::Download { url: r.to_string(), file_name: n }
        } else {
            let c = chars_of(url_prefix);
            let mut u = c;
            let rc = chars_of(r);
            push_all(&mut u, &rc);
            FetchAction::Download { url: string_of(&u), file_name: n }
        };
        fetch.push(action);
        x = x + 1;
    }
    Ok(ReconcilePlan { remove, fetch })
}

/// The file names that the references put in the directory.
pub open spec fn named_set(refs: Seq<Seq<char>>) -> Set<Seq<char>> {
    Set::new(|n: Seq<char>| exists|i: int| 0 <= i < refs.len() && target_name(refs[i]) == Some(n))
}

/// Every reference has a file name and no two share one.
pub open spec fn names_distinct(refs: Seq<Seq<char>>) -> bool {
    &&& all_named(refs)
    &&& forall|i: int, j: int|
        0 <= i < refs.len() && 0 <= j < refs.len() && i != j ==> target_name(refs[i])
            != target_name(refs[j])
}

proof fn lemma_first_match(p: Seq<Seq<char>>, name: Seq<char>)
    ensures
        first_match(p, name) <= p.len(),
        first_match(p, name) < p.len() ==> target_name(p[first_match(p, name) as int]) == Some(name),
        first_match(p, name) < p.len() <==> named_set(p).contains(name),
    decreases p.len(),
{
    if p.len() > 0 {
        lemma_first_match(p.drop_first(), name);
        if named_set(p).contains(name) {
            let w = choose|i: int| 0 <= i < p.len() && target_name(p[i]) == Some(name);
            if w > 0 && target_name(p[0]) != Some(name) {
                assert(target_name(p.drop_first()[w - 1]) == Some(name));
            }
        }
        if first_match(p, name) < p.len() && target_name(p[0]) != Some(name) {
            let k = first_match(p.drop_first(), name) as int;
            assert(p[k + 1] == p.drop_first()[k]);
        }
    }
}

proof fn lemma_remove_named(p: Seq<Seq<char>>, i: int)
    requires
        names_distinct(p),
        0 <= i < p.len(),
    ensures
        names_distinct(p.remove(i)),
        named_set(p.remove(i)) == named_set(p).remove(target_name(p[i])->0),
{
    let q = p.remove(i);
    assert forall|j: int| 0 <= j < q.len() implies q[j] == (if j < i {
        p[j]
    } else {
        p[j + 1]
    }) by {}
    assert forall|a: int, b: int|
        0 <= a < q.len() && 0 <= b < q.len() && a != b implies target_name(q[a]) != target_name(
        q[b],
    ) by {
        let a1 = if a < i {
            a
        } else {
            a + 1
        };
        let b1 = if b < i {
            b
        } else {
            b + 1
        };
        assert(q[a] == p[a1] && q[b] == p[b1]);
    }
    assert forall|j: int| 0 <= j < q.len() implies target_name(#[trigger] q[j]) is Some by {
        if j < i {
            assert(q[j] == p[j]);
        } else {
            assert(q[j] == p[j + 1]);
        }
    }
    let gone = target_name(p[i])->0;
    assert forall|n: Seq<char>| named_set(q).contains(n) <==> named_set(p).remove(gone).contains(
        n,
    ) by {
        if named_set(q).contains(n) {
            let w = choose|j: int| 0 <= j < q.len() && target_name(q[j]) == Some(n);
            let w1 = if w < i {
                w
            } else {
                w + 1
            };
            assert(q[w] == p[w1]);
            assert(target_name(p[w1]) == Some(n));
            assert(w1 != i);
        }
        if named_set(p).remove(gone).contains(n) {
            let w = choose|j: int| 0 <= j < p.len() && target_name(p[j]) == Some(n);
            assert(w != i);
            if w < i {
                assert(q[w] == p[w]);
            } else {
                assert(q[w - 1] == p[w]);
            }
        }
    }
    assert(named_set(q) =~= named_set(p).remove(gone));
}

proof fn lemma_scan(existing: Seq<Seq<char>>, pending: Seq<Seq<char>>)
    requires
        existing.no_duplicates(),
        names_distinct(pending),
    ensures
        scan(existing, pending).0.to_set() == existing.to_set().difference(named_set(pending)),
        named_set(scan(existing, pending).1) == named_set(pending).difference(existing.to_set()),
    decreases existing.len(),
{
    if existing.len() > 0 {
        let e = existing[0];
        let rest = existing.drop_first();
        assert(rest.no_duplicates());
        assert(!rest.contains(e)) by {
            if rest.contains(e) {
                let w = choose|j: int| 0 <= j < rest.len() && rest[j] == e;
                assert(existing[w + 1] == e);
            }
        }
        assert(existing.to_set() =~= rest.to_set().insert(e)) by {
            assert forall|x: Seq<char>| existing.contains(x) implies rest.to_set().insert(e).contains(x) by {
                let w = choose|j: int| 0 <= j < existing.len() && existing[j] == x;
                if w > 0 {
                    assert(rest[w - 1] == x);
                }
            }
            assert forall|x: Seq<char>| rest.to_set().insert(e).contains(x) implies existing.contains(x) by {
                if x != e {
                    let w = choose|j: int| 0 <= j < rest.len() && rest[j] == x;
                    assert(existing[w + 1] == x);
                } else {
                    assert(existing[0] == x);
                }
            }
        }
        lemma_first_match(pending, e);
        let i = first_match(pending, e);
        if i < pending.len() {
            lemma_remove_named(pending, i as int);
            lemma_scan(rest, pending.remove(i as int));
            let r = scan(rest, pending.remove(i as int));
            assert(r.0.to_set() =~= existing.to_set().difference(named_set(pending)));
            assert(named_set(r.1) =~= named_set(pending).difference(existing.to_set()));
        } else {
            lemma_scan(rest, pending);
            let r = scan(rest, pending);
            assert((seq![e] + r.0).to_set() =~= r.0.to_set().insert(e)) by {
                assert forall|x: Seq<char>| (seq![e] + r.0).contains(x) implies r.0.to_set().insert(e).contains(x) by {
                    let w = choose|j: int| 0 <= j < (seq![e] + r.0).len() && (seq![e] + r.0)[j] == x;
                    if w > 0 {
                        assert(r.0[w - 1] == x);
                    }
                }
                assert forall|x: Seq<char>| r.0.to_set().insert(e).contains(x) implies (seq![e] + r.0).contains(x) by {
                    if x != e {
                        let w = choose|j: int| 0 <= j < r.0.len() && r.0[j] == x;
                        assert((seq![e] + r.0)[w + 1] == x);
                    } else {
                        assert((seq![e] + r.0)[0] == x);
                    }
                }
            }
            assert(scan(existing, pending).0.to_set() =~= existing.to_set().difference(named_set(pending)));
            assert(named_set(r.1) =~= named_set(pending).difference(existing.to_set()));
        }
    } else {
        assert(scan(existing, pending).0.to_set() =~= existing.to_set().difference(named_set(pending)));
        assert(named_set(pending) =~= named_set(pending).difference(existing.to_set()));
    }
}

/// Reconciliation leaves the directory with exactly the declared file names:
/// the entries removed are those that no reference names, the entries that a
/// reference names stay and are not fetched again, and the references fetched
/// bring in the rest. Directory entries are distinct, and so are the declared
/// references' file names.
pub proof fn lemma_reconcile_outcome(existing: Seq<Seq<char>>, declared: Seq<Seq<char>>)
    requires
        existing.no_duplicates(),
        names_distinct(declared),
    ensures
        ({
            let s = scan(existing, declared);
            &&& s.0.to_set() == existing.to_set().difference(named_set(declared))
            &&& named_set(s.1).disjoint(existing.to_set())
            &&& existing.to_set().difference(s.0.to_set()).union(named_set(s.1)) == named_set(
                declared,
            )
        }),
{
    lemma_scan(existing, declared);
    let s = scan(existing, declared);
    assert(existing.to_set().difference(s.0.to_set()).union(named_set(s.1)) =~= named_set(
        declared,
    ));
}

/// What a set of fetches came to, in the order their outcomes arrived: the
/// first failure, or the list of what was fetched when none failed.
pub open spec fn outcome_of(outcomes: Seq<Result<String, SyncError>>) -> Result<Seq<Seq<char>>, SyncError>
    decreases outcomes.len(),
{
    if outcomes.len() == 0 {
        Ok(seq![])
    } else {
        match outcomes.last() {
            Err(e) => match outcome_of(outcomes.drop_last()) {
                Ok(_) => Err(e),
                Err(f) => Err(f),
            },
            Ok(u) => match outcome_of(outcomes.drop_last()) {
                Ok(v) => Ok(v.push(u@)),
                Err(f) => Err(f),
            },
        }
    }
}

/// Gathers the outcomes of concurrent fetches as they arrive. The first
/// failure is kept and closes the aggregator: outcomes that arrive after it
/// are dropped.
pub struct FetchAggregator {
    error: Option<SyncError>,
    fetched: Vec<String>,
    received: Ghost<Seq<Result<String, SyncError>>>,
}

impl FetchAggregator {
    /// The outcomes handed to `receive` so far, in order.
    pub closed spec fn received(&self) -> Seq<Result<String, SyncError>> {
        self.received@
    }

    pub closed spec fn wf(&self) -> bool {
        match outcome_of(self.received@) {
            Ok(v) => self.error is None && string_views(self.fetched@) == v,
            Err(e) => self.error == Some(e),
        }
    }

    pub fn new() -> (r: FetchAggregator)
        ensures
            r.wf(),
            r.received() == Seq::<Result<String, SyncError>>::empty(),
    {
        let ghost none: Seq<Result<String, SyncError>> = Seq::empty();
        let r = FetchAggregator { error: None, fetched: Vec::new(), received: Ghost(none) };
        proof {
            assert(string_views(r.fetched@) =~= Seq::<Seq<char>>::empty());
        }
        r
    }

    /// Whether a failure has been received, after which nothing more is taken in.
    pub fn is_closed(&self) -> (r: bool)
        requires
            self.wf(),
        ensures
            r == outcome_of(self.received()) is Err,
    {
        self.error.is_some()
    }

    /// Takes in one outcome; returns whether it was consumed (false once closed).
    pub fn receive(&mut self, outcome: Result<String, SyncError>) -> (consumed: bool)
        requires
            old(self).wf(),
        ensures
            final(self).wf(),
            final(self).received() == old(self).received().push(outcome),
            consumed == (outcome_of(old(self).received()) is Ok),
    {
        let ghost before = self.received@;
        proof {
            let s = before.push(outcome);
            assert(s.drop_last() == before);
        }
        self.received = Ghost(before.push(outcome));
        if self.error.is_some() {
            return false;
        }
        match outcome {
            Ok(url) => {
                let ghost old_fetched = string_views(self.fetched@);
                let ghost u = url@;
                self.fetched.push(url);
                proof {
                    assert(string_views(self.fetched@) =~= old_fetched.push(u));
                }
            },
            Err(e) => {
                self.error = Some(e);
            },
        }
        true
    }

    /// The first failure received, or what was fetched when there was none.
    pub fn finish(self) -> (r: Result<Vec<String>, SyncError>)
        requires
            self.wf(),
        ensures
            r is Err <==> outcome_of(self.received()) is Err,
            r matches Err(e) ==> outcome_of(self.received()) == Err::<Seq<Seq<char>>, SyncError>(e),
            r matches Ok(v) ==> outcome_of(self.received()) == Ok::<Seq<Seq<char>>, SyncError>(
                string_views(v@),
            ),
    {
        match self.error {
            Some(e) => Err(e),
            None => Ok(self.fetched),
        }
    }
}

/// Where some outcome is a failure, what the fetches come to is the first
/// failure, and nothing else: it is reported once, and later outcomes do not
/// change it.
pub proof fn lemma_first_failure_reported(outcomes: Seq<Result<String, SyncError>>, k: int)
    requires
        0 <= k < outcomes.len(),
        outcomes[k] is Err,
        forall|j: int| 0 <= j < k ==> outcomes[j] is Ok,
    ensures
        outcome_of(outcomes) == Err::<Seq<Seq<char>>, SyncError>(outcomes[k]->Err_0),
    decreases outcomes.len(),
{
    if k < outcomes.len() - 1 {
        lemma_first_failure_reported(outcomes.drop_last(), k);
    } else {
        lemma_all_ok(outcomes.drop_last());
    }
}

proof fn lemma_all_ok(outcomes: Seq<Result<String, SyncError>>)
    requires
        forall|j: int| 0 <= j < outcomes.len() ==> outcomes[j] is Ok,
    ensures
        outcome_of(outcomes) is Ok,
    decreases outcomes.len(),
{
    if outcomes.len() > 0 {
        lemma_all_ok(outcomes.drop_last());
    }
}

} // verus!
