//! Merging generated `key = value` pairs into a hand-edited properties file.
use vstd::prelude::*;

use crate::text::{
    chars_of, contains_char, copy_range, find_char, index_of, is_space, join_lines,
    lemma_index_of, lemma_join_lines_push, lemma_split_join, lemma_split_lines_no_newline,
    lines_of, push_all, split_lines, starts_with, string_of, strip_cr, trim, trim_end, trim_range,
    trim_start, views,
};

verus! {

/// A key and its value, as character sequences.
pub type Entry = (Seq<char>, Seq<char>);

pub open spec fn entry_views(v: Seq<(String, String)>) -> Seq<Entry> {
    v.map_values(|e: (String, String)| (e.0@, e.1@))
}

pub open spec fn keys_distinct(m: Seq<Entry>) -> bool {
    forall|i: int, j: int| 0 <= i < m.len() && 0 <= j < m.len() && i != j ==> m[i].0 != m[j].0
}

pub open spec fn has_key(m: Seq<Entry>, k: Seq<char>) -> bool {
    exists|i: int| 0 <= i < m.len() && m[i].0 == k
}

/// Where `k` stands in `m` (meaningful where `has_key(m, k)` and the keys are distinct).
pub open spec fn key_index(m: Seq<Entry>, k: Seq<char>) -> int {
    choose|i: int| 0 <= i < m.len() && m[i].0 == k
}

/// The order of strings: lexicographic by character code point, which is the
/// order of their UTF-8 bytes and so the order of `String`.
pub open spec fn text_lt(a: Seq<char>, b: Seq<char>) -> bool
    decreases a.len(),
{
    if b.len() == 0 {
        false
    } else if a.len() == 0 {
        true
    } else if a[0] != b[0] {
        a[0] < b[0]
    } else {
        text_lt(a.drop_first(), b.drop_first())
    }
}

pub proof fn lemma_text_lt_irreflexive(a: Seq<char>)
    ensures
        !text_lt(a, a),
    decreases a.len(),
{
    if a.len() > 0 {
        lemma_text_lt_irreflexive(a.drop_first());
    }
}

pub proof fn lemma_text_lt_transitive(a: Seq<char>, b: Seq<char>, c: Seq<char>)
    requires
        text_lt(a, b),
        text_lt(b, c),
    ensures
        text_lt(a, c),
    decreases a.len(),
{
    if a.len() > 0 && b.len() > 0 && c.len() > 0 && a[0] == b[0] && b[0] == c[0] {
        lemma_text_lt_transitive(a.drop_first(), b.drop_first(), c.drop_first());
    }
}

pub proof fn lemma_text_lt_total(a: Seq<char>, b: Seq<char>)
    requires
        a != b,
    ensures
        text_lt(a, b) || text_lt(b, a),
    decreases a.len(),
{
    if a.len() > 0 && b.len() > 0 && a[0] == b[0] {
        if a.drop_first() == b.drop_first() {
            assert(a =~= seq![a[0]] + a.drop_first());
            assert(b =~= seq![b[0]] + b.drop_first());
        }
        lemma_text_lt_total(a.drop_first(), b.drop_first());
    } else if a.len() == 0 && b.len() == 0 {
        assert(a =~= b);
    }
}

/// The keys are in increasing order.
pub open spec fn keys_sorted(m: Seq<Entry>) -> bool {
    forall|i: int, j: int| 0 <= i < j < m.len() ==> text_lt(m[i].0, m[j].0)
}

proof fn lemma_sorted_distinct(m: Seq<Entry>)
    requires
        keys_sorted(m),
    ensures
        keys_distinct(m),
{
    assert forall|i: int, j: int| 0 <= i < m.len() && 0 <= j < m.len() && i != j implies m[i].0
        != m[j].0 by {
        lemma_text_lt_irreflexive(m[i].0);
        if i < j {
            assert(text_lt(m[i].0, m[j].0));
        } else {
            assert(text_lt(m[j].0, m[i].0));
        }
    }
}

/// Where `k` goes among sorted keys: after every key below it.
pub open spec fn insert_pos(m: Seq<Entry>, k: Seq<char>) -> nat
    decreases m.len(),
{
    if m.len() == 0 {
        0
    } else if text_lt(m[0].0, k) {
        1 + insert_pos(m.drop_first(), k)
    } else {
        0
    }
}

/// `m` with `k` set to `v`: in place where `k` is already there, else at its
/// place in key order.
pub open spec fn with_entry(m: Seq<Entry>, k: Seq<char>, v: Seq<char>) -> Seq<Entry> {
    if has_key(m, k) {
        m.update(key_index(m, k), (k, v))
    } else {
        m.insert(insert_pos(m, k) as int, (k, v))
    }
}

proof fn lemma_insert_pos(m: Seq<Entry>, k: Seq<char>, i: int)
    requires
        0 <= i <= m.len(),
        forall|j: int| 0 <= j < i ==> text_lt(#[trigger] m[j].0, k),
        i < m.len() ==> !text_lt(m[i].0, k),
    ensures
        insert_pos(m, k) == i,
    decreases i,
{
    if i > 0 {
        assert forall|j: int| 0 <= j < i - 1 implies text_lt(#[trigger] m.drop_first()[j].0, k) by {
            assert(m.drop_first()[j] == m[j + 1]);
        }
        assert(text_lt(m[0].0, k));
        lemma_insert_pos(m.drop_first(), k, i - 1);
    }
}

/// Whether `a` comes before `b` in key order.
pub fn key_less(a: &String, b: &String) -> (r: bool)
    ensures
        r == text_lt(a@, b@),
{
    let x = chars_of(a.as_str());
    let y = chars_of(b.as_str());
    let mut i: usize = 0;
    proof {
        assert(x@.skip(0) == x@);
        assert(y@.skip(0) == y@);
    }
    while i < x.len() && i < y.len() && x[i] == y[i]
        invariant
            i <= x@.len(),
            i <= y@.len(),
            text_lt(x@, y@) == text_lt(x@.skip(i as int), y@.skip(i as int)),
        decreases x@.len() - i,
    {
        proof {
            assert(x@.skip(i as int).drop_first() == x@.skip(i + 1));
            assert(y@.skip(i as int).drop_first() == y@.skip(i + 1));
        }
        i = i + 1;
    }
    if i == y.len() {
        false
    } else if i == x.len() {
        true
    } else {
        x[i] < y[i]
    }
}

/// `m` with the pairs set in order.
pub open spec fn insert_all(m: Seq<Entry>, pairs: Seq<Entry>) -> Seq<Entry>
    decreases pairs.len(),
{
    if pairs.len() == 0 {
        m
    } else {
        with_entry(insert_all(m, pairs.drop_last()), pairs.last().0, pairs.last().1)
    }
}

/// Position of `key` among the entries of `v`, whose keys are distinct.
fn find_entry(v: &Vec<(String, String)>, key: &String) -> (r: Option<usize>)
    requires
        keys_distinct(entry_views(v@)),
    ensures
        r is None <==> !has_key(entry_views(v@), key@),
        r matches Some(i) ==> i < v@.len() && entry_views(v@)[i as int].0 == key@ && key_index(
            entry_views(v@),
            key@,
        ) == i,
{
    let ghost m = entry_views(v@);
    let mut i: usize = 0;
    while i < v.len()
        invariant
            i <= m.len(),
            m == entry_views(v@),
            keys_distinct(m),
            m.len() == v@.len(),
            forall|j: int| 0 <= j < i ==> m[j].0 != key@,
        decreases v@.len() - i,
    {
        proof {
            assert(m[i as int] == (v@[i as int].0@, v@[i as int].1@));
        }
        if v[i].0 == *key {
            proof {
                assert(has_key(m, key@));
                let c = key_index(m, key@);
                assert(m[c].0 == key@);
                if c != i {
                    assert(m[c].0 != m[i as int].0);
                }
            }
            return Some(i);
        }
        i = i + 1;
    }
    None
}

/// A map from keys to values, with its entries in increasing key order.
#[derive(Clone, Debug)]
pub struct PropertyMap {
    entries: Vec<(String, String)>,
}

impl View for PropertyMap {
    type V = Seq<Entry>;

    closed spec fn view(&self) -> Seq<Entry> {
        entry_views(self.entries@)
    }
}

impl PropertyMap {
    /// The keys are in increasing order, hence distinct.
    pub closed spec fn wf(&self) -> bool {
        keys_sorted(self@) && keys_distinct(self@)
    }

    /// A well-formed map has distinct keys, as the merge laws ask.
    pub proof fn lemma_wf_keys_distinct(&self)
        requires
            self.wf(),
        ensures
            keys_distinct(self@),
            keys_sorted(self@),
    {
    }

    pub fn new() -> (r: PropertyMap)
        ensures
            r.wf(),
            r@ == Seq::<Entry>::empty(),
    {
        let r = PropertyMap { entries: Vec::new() };
        proof {
            assert(r@ =~= Seq::<Entry>::empty());
            lemma_sorted_distinct(r@);
        }
        r
    }

    /// Position of `key` among the entries, if it is there.
    fn position(&self, key: &String) -> (r: Option<usize>)
        requires
            self.wf(),
        ensures
            r is None <==> !has_key(self@, key@),
            r matches Some(i) ==> i < self@.len() && self@[i as int].0 == key@ && key_index(
                self@,
                key@,
            ) == i,
    {
        find_entry(&self.entries, key)
    }

    /// Sets `key` to `value`: in place where the key is there, else at its
    /// place in key order.
    pub fn insert(&mut self, key: String, value: String)
        requires
            old(self).wf(),
        ensures
            final(self).wf(),
            final(self)@ == with_entry(old(self)@, key@, value@),
    {
        let ghost m = self@;
        let ghost k = key@;
        let ghost v = value@;
        let mut i: usize = 0;
        while i < self.entries.len() && key_less(&self.entries[i].0, &key)
            invariant
                i <= m.len(),
                m == self@,
                m.len() == self.entries@.len(),
                k == key@,
                forall|j: int| 0 <= j < i ==> text_lt(#[trigger] m[j].0, k),
            decreases m.len() - i,
        {
            proof {
                assert(m[i as int].0 == self.entries@[i as int].0@);
            }
            i = i + 1;
        }
        proof {
            if i < m.len() {
                assert(m[i as int].0 == self.entries@[i as int].0@);
            }
            lemma_insert_pos(m, k, i as int);
        }
        if i < self.entries.len() && self.entries[i].0 == key {
            proof {
                assert(m[i as int].0 == k);
                assert(has_key(m, k));
                let c = key_index(m, k);
                if c != i {
                    assert(m[c].0 != m[i as int].0);
                }
            }
            self.entries.set(i, (key, value));
            proof {
                assert(self@ =~= m.update(i as int, (k, v)));
            }
        } else {
            proof {
                if i < m.len() {
                    assert(m[i as int].0 == self.entries@[i as int].0@);
                    lemma_text_lt_total(m[i as int].0, k);
                }
                // every later key is above `k`
                assert forall|j: int| i <= j < m.len() implies text_lt(k, #[trigger] m[j].0) by {
                    if j > i {
                        lemma_text_lt_transitive(k, m[i as int].0, m[j].0);
                    }
                }
                assert(!has_key(m, k)) by {
                    if has_key(m, k) {
                        let w = choose|w: int| 0 <= w < m.len() && m[w].0 == k;
                        lemma_text_lt_irreflexive(k);
                        if w >= i {
                            assert(text_lt(k, m[w].0));
                        } else {
                            assert(text_lt(m[w].0, k));
                        }
                    }
                }
            }
            self.entries.insert(i, (key, value));
            proof {
                let n = m.insert(i as int, (k, v));
                assert(self@ =~= n);
                assert forall|a: int, b: int| 0 <= a < b < n.len() implies text_lt(n[a].0, n[b].0) by {
                    if b < i {
                        assert(n[a] == m[a] && n[b] == m[b]);
                    } else if b == i {
                        assert(n[a] == m[a]);
                    } else if a > i {
                        assert(n[a] == m[a - 1] && n[b] == m[b - 1]);
                    } else if a == i {
                        assert(n[b] == m[b - 1]);
                    } else {
                        assert(n[a] == m[a] && n[b] == m[b - 1]);
                    }
                }
            }
        }
        proof {
            lemma_sorted_distinct(self@);
        }
    }

    /// The value of `key`, if it is there.
    pub fn get(&self, key: &str) -> (r: Option<String>)
        requires
            self.wf(),
        ensures
            r is None <==> !has_key(self@, key@),
            r matches Some(v) ==> v@ == self@[key_index(self@, key@)].1,
    {
        let k = key.to_string();
        match self.position(&k) {
            Some(i) => Some(self.entries[i].1.clone()),
            None => None,
        }
    }

    /// The map with the pairs inserted in order; a later pair sets the value
    /// of an earlier one with the same key.
    pub fn from_pairs(pairs: Vec<(String, String)>) -> (r: PropertyMap)
        ensures
            r.wf(),
            r@ == insert_all(Seq::empty(), entry_views(pairs@)),
    {
        let mut r = PropertyMap::new();
        r.insert_pairs(pairs);
        r
    }

    /// Inserts the pairs in order.
    pub fn insert_pairs(&mut self, pairs: Vec<(String, String)>)
        requires
            old(self).wf(),
        ensures
            final(self).wf(),
            final(self)@ == insert_all(old(self)@, entry_views(pairs@)),
    {
        let ghost start = self@;
        let ghost pv = entry_views(pairs@);
        let mut i: usize = 0;
        while i < pairs.len()
            invariant
                self.wf(),
                i <= pairs@.len(),
                pv == entry_views(pairs@),
                self@ == insert_all(start, pv.take(i as int)),
            decreases pairs@.len() - i,
        {
            proof {
                assert(pv.take(i + 1).drop_last() == pv.take(i as int));
                assert(pv[i as int] == (pairs@[i as int].0@, pairs@[i as int].1@));
            }
            self.insert(pairs[i].0.clone(), pairs[i].1.clone());
            i = i + 1;
        }
        proof {
            assert(pv.take(i as int) == pv);
        }
    }

    /// Sets every key of `other` to its value there, in `other`'s order.
    pub fn extend(&mut self, other: &PropertyMap)
        requires
            old(self).wf(),
        ensures
            final(self).wf(),
            final(self)@ == insert_all(old(self)@, other@),
    {
        let pairs = other.entries();
        self.insert_pairs(pairs);
    }

    pub fn len(&self) -> (r: usize)
        ensures
            r == self@.len(),
    {
        self.entries.len()
    }

    /// The entries, in order.
    pub fn entries(&self) -> (r: Vec<(String, String)>)
        ensures
            entry_views(r@) == self@,
    {
        let mut r: Vec<(String, String)> = Vec::new();
        let mut i: usize = 0;
        while i < self.entries.len()
            invariant
                i <= self.entries@.len(),
                r@ == self.entries@.subrange(0, i as int),
            decreases self.entries@.len() - i,
        {
            let e = (self.entries[i].0.clone(), self.entries[i].1.clone());
            r.push(e);
            i = i + 1;
            proof {
                assert(r@ =~= self.entries@.subrange(0, i as int));
            }
        }
        proof {
            assert(self.entries@.subrange(0, i as int) == self.entries@);
        }
        r
    }
}

/// The key that a properties line sets: the text before its first `=`, trimmed,
/// without a leading `# ` that comments it out. A line without `=` sets none.
pub open spec fn key_of_line(line: Seq<char>) -> Option<Seq<char>> {
    let e = index_of(line, '=');
    if e < line.len() {
        let k = trim(line.take(e as int));
        if starts_with(k, seq!['#', ' ']) {
            Some(k.skip(2))
        } else {
            Some(k)
        }
    } else {
        None
    }
}

/// The line that the merge writes for a key it found: `key = value`.
pub open spec fn active_line(k: Seq<char>, v: Seq<char>) -> Seq<char> {
    k + seq![' ', '=', ' '] + v
}

/// The line that the merge appends for a key it did not find: `key=value`.
pub open spec fn appended_line(k: Seq<char>, v: Seq<char>) -> Seq<char> {
    k + seq!['='] + v
}

/// One line against the keys still pending: the line written, and the keys left.
pub open spec fn merge_step(line: Seq<char>, pending: Seq<Entry>) -> (Seq<char>, Seq<Entry>) {
    match key_of_line(line) {
        Some(k) => if has_key(pending, k) {
            let i = key_index(pending, k);
            (active_line(k, pending[i].1), pending.remove(i))
        } else {
            (line, pending)
        },
        None => (line, pending),
    }
}

/// The lines written for `lines`, in order, and the keys that none of them set.
pub open spec fn merge_lines(lines: Seq<Seq<char>>, pending: Seq<Entry>) -> (Seq<Seq<char>>, Seq<Entry>)
    decreases lines.len(),
{
    if lines.len() == 0 {
        (seq![], pending)
    } else {
        let first = merge_step(lines[0], pending);
        let rest = merge_lines(lines.drop_first(), first.1);
        (seq![first.0] + rest.0, rest.1)
    }
}

/// The lines of the merged file: the existing lines, merged, then a line for
/// each key that none of them set, in the map's order.
pub open spec fn merged_lines(existing: Seq<char>, m: Seq<Entry>) -> Seq<Seq<char>> {
    let r = merge_lines(split_lines(existing), m);
    r.0 + r.1.map_values(|e: Entry| appended_line(e.0, e.1))
}

/// The text of the merged file.
pub open spec fn merged_text(existing: Seq<char>, m: Seq<Entry>) -> Seq<char> {
    join_lines(merged_lines(existing, m))
}

/// The key that `line` sets, as `key_of_line` states it.
fn line_key(line: &Vec<char>) -> (r: Option<String>)
    ensures
        r is None <==> key_of_line(line@) is None,
        r matches Some(k) ==> key_of_line(line@) == Some(k@),
{
    let e = find_char(line, '=');
    proof {
        lemma_index_of(line@, '=');
    }
    if e >= line.len() {
        return None;
    }
    let k = trim_range(line, 0, e);
    proof {
        assert(line@.take(e as int) == line@.subrange(0, e as int));
    }
    if k.len() >= 2 && k[0] == '#' && k[1] == ' ' {
        let rest = copy_range(&k, 2, k.len());
        proof {
            assert(k@.subrange(0, 2) =~= seq!['#', ' ']);
            assert(rest@ == k@.skip(2));
        }
        Some(string_of(&rest))
    } else {
        proof {
            if starts_with(k@, seq!['#', ' ']) {
                assert(k@.subrange(0, 2)[0] == k@[0]);
                assert(k@.subrange(0, 2)[1] == k@[1]);
            }
        }
        Some(string_of(&k))
    }
}

/// Merges `to_merge` into the text of a properties file (empty where the file
/// is absent). Each line that sets a pending key, commented out or not, becomes
/// `key = value` and takes the key off the pending list; every other line is
/// kept as it is. The keys still pending are appended as `key=value`, in the
/// map's order. Every line of the result ends with `\n`.
pub fn merge_properties(existing: &str, to_merge: &PropertyMap) -> (r: String)
    requires
        to_merge.wf(),
    ensures
        r@ == merged_text(existing@, to_merge@),
{
    let chars = chars_of(existing);
    let lines = lines_of(&chars);
    let ghost all_lines = split_lines(existing@);
    let ghost m = to_merge@;
    let mut pending = to_merge.entries();
    let mut out: Vec<char> = Vec::new();
    let ghost mut outl: Seq<Seq<char>> = seq![];
    let mut i: usize = 0;
    proof {
        assert(all_lines.skip(0) == all_lines);
        assert(outl + merge_lines(all_lines, m).0 =~= merge_lines(all_lines, m).0);
    }
    while i < lines.len()
        invariant
            views(lines@) == all_lines,
            i <= all_lines.len(),
            keys_distinct(entry_views(pending@)),
            merge_lines(all_lines, m) == (
                outl + merge_lines(all_lines.skip(i as int), entry_views(pending@)).0,
                merge_lines(all_lines.skip(i as int), entry_views(pending@)).1,
            ),
            out@ == join_lines(outl),
        decreases all_lines.len() - i,
    {
        let ghost p = entry_views(pending@);
        let ghost rest = all_lines.skip(i as int);
        proof {
            assert(rest[0] == lines@[i as int]@);
            assert(rest.drop_first() == all_lines.skip(i + 1));
        }
        let line = &lines[i];
        let mut written = line.clone();
        match line_key(line) {
            Some(k) => {
                match find_entry(&pending, &k) {
                    Some(j) => {
                        let e = pending.remove(j);
                        proof {
                            assert(entry_views(pending@) =~= p.remove(j as int));
                        }
                        let mut l = chars_of(k.as_str());
                        l.push(' ');
                        l.push('=');
                        l.push(' ');
                        let v = chars_of(e.1.as_str());
                        push_all(&mut l, &v);
                        proof {
                            assert(l@ =~= active_line(k@, p[j as int].1));
                        }
                        written = l;
                    },
                    None => {},
                }
            },
            None => {},
        }
        push_all(&mut out, &written);
        out.push('\n');
        proof {
            lemma_join_lines_push(outl, written@);
            assert(merge_step(rest[0], p) == (written@, entry_views(pending@)));
            let r1 = merge_lines(rest.drop_first(), entry_views(pending@));
            assert(merge_lines(rest, p) == (seq![written@] + r1.0, r1.1));
            assert(outl.push(written@) + r1.0 =~= outl + (seq![written@] + r1.0));
            outl = outl.push(written@);
        }
        i = i + 1;
    }
    proof {
        assert(all_lines.skip(i as int).len() == 0);
        assert(outl + Seq::<Seq<char>>::empty() =~= outl);
    }
    let ghost left = entry_views(pending@);
    let ghost done = outl;
    let mut j: usize = 0;
    while j < pending.len()
        invariant
            j <= pending@.len(),
            left == entry_views(pending@),
            out@ == join_lines(
                done + left.take(j as int).map_values(|e: Entry| appended_line(e.0, e.1)),
            ),
        decreases pending@.len() - j,
    {
        let mut l = chars_of(pending[j].0.as_str());
        l.push('=');
        let v = chars_of(pending[j].1.as_str());
        push_all(&mut l, &v);
        push_all(&mut out, &l);
        out.push('\n');
        proof {
            let f = |e: Entry| appended_line(e.0, e.1);
            let before = done + left.take(j as int).map_values(f);
            lemma_join_lines_push(before, l@);
            assert(l@ =~= appended_line(left[j as int].0, left[j as int].1));
            assert(before.push(l@) =~= done + left.take(j + 1).map_values(f));
        }
        j = j + 1;
    }
    proof {
        assert(left.take(j as int) == left);
    }
    string_of(&out)
}

proof fn lemma_remove_keeps(p: Seq<Entry>, i: int)
    requires
        0 <= i < p.len(),
    ensures
        forall|j: int|
            0 <= j < p.len() - 1 ==> #[trigger] p.remove(i)[j] == (if j < i {
                p[j]
            } else {
                p[j + 1]
            }),
        keys_distinct(p) ==> keys_distinct(p.remove(i)),
        keys_distinct(p) ==> !has_key(p.remove(i), p[i].0),
        forall|k: Seq<char>| has_key(p.remove(i), k) ==> has_key(p, k),
{
    let q = p.remove(i);
    assert forall|k: Seq<char>| has_key(q, k) implies has_key(p, k) by {
        let w = choose|j: int| 0 <= j < q.len() && q[j].0 == k;
        if w < i {
            assert(p[w].0 == k);
        } else {
            assert(p[w + 1].0 == k);
        }
    }
    if keys_distinct(p) {
        assert forall|a: int, b: int|
            0 <= a < q.len() && 0 <= b < q.len() && a != b implies q[a].0 != q[b].0 by {
            let a1 = if a < i {
                a
            } else {
                a + 1
            };
            let b1 = if b < i {
                b
            } else {
                b + 1
            };
            assert(q[a] == p[a1]);
            assert(q[b] == p[b1]);
        }
        if has_key(q, p[i].0) {
            let w = choose|j: int| 0 <= j < q.len() && q[j].0 == p[i].0;
            if w < i {
                assert(q[w] == p[w]);
            } else {
                assert(q[w] == p[w + 1]);
            }
        }
    }
}

proof fn lemma_step_shrinks(line: Seq<char>, p: Seq<Entry>)
    requires
        keys_distinct(p),
    ensures
        keys_distinct(merge_step(line, p).1),
        forall|k: Seq<char>| has_key(merge_step(line, p).1, k) ==> has_key(p, k),
        key_of_line(line) matches Some(k) ==> !has_key(merge_step(line, p).1, k),
        entries_well_formed(p) ==> entries_well_formed(merge_step(line, p).1),
{
    match key_of_line(line) {
        Some(k) => {
            if has_key(p, k) {
                let i = key_index(p, k);
                lemma_remove_keeps(p, i);
                let q = p.remove(i);
                if entries_well_formed(p) {
                    assert forall|j: int| 0 <= j < q.len() implies key_well_formed(
                        #[trigger] q[j].0,
                    ) && !contains_char(q[j].1, '\n') by {
                        if j < i {
                            assert(q[j] == p[j]);
                        } else {
                            assert(q[j] == p[j + 1]);
                        }
                    }
                }
            }
        },
        None => {},
    }
}

/// Line `i` sets no key, or a key that is not pending, or a key that an
/// earlier line sets.
pub open spec fn unrelated_line(lines: Seq<Seq<char>>, m: Seq<Entry>, i: int) -> bool {
    match key_of_line(lines[i]) {
        None => true,
        Some(k) => !has_key(m, k) || exists|j: int| 0 <= j < i && key_of_line(#[trigger] lines[j]) == Some(k),
    }
}

proof fn lemma_merge_lines_keeps(lines: Seq<Seq<char>>, p: Seq<Entry>, i: int)
    requires
        keys_distinct(p),
        0 <= i < lines.len(),
        unrelated_line(lines, p, i),
    ensures
        merge_lines(lines, p).0.len() == lines.len(),
        merge_lines(lines, p).0[i] == lines[i],
    decreases lines.len(),
{
    let first = merge_step(lines[0], p);
    lemma_step_shrinks(lines[0], p);
    let tail = lines.drop_first();
    if i > 0 {
        assert(tail[i - 1] == lines[i]);
        assert(unrelated_line(tail, first.1, i - 1)) by {
            if let Some(k) = key_of_line(lines[i]) {
                if has_key(first.1, k) {
                    assert(has_key(p, k));
                    let j = choose|j: int| 0 <= j < i && key_of_line(#[trigger] lines[j]) == Some(k);
                    if j == 0 {
                        assert(!has_key(first.1, k));
                    } else {
                        assert(tail[j - 1] == lines[j]);
                    }
                }
            }
        }
        lemma_merge_lines_keeps(tail, first.1, i - 1);
    } else {
        lemma_merge_lines_len(tail, first.1);
    }
}

proof fn lemma_merge_lines_len(lines: Seq<Seq<char>>, p: Seq<Entry>)
    ensures
        merge_lines(lines, p).0.len() == lines.len(),
    decreases lines.len(),
{
    if lines.len() > 0 {
        lemma_merge_lines_len(lines.drop_first(), merge_step(lines[0], p).1);
    }
}

/// Merging keeps, byte for byte and at its place, every existing line that
/// sets no key of the map (blank lines and lines without `=` among them) or a
/// key that an earlier line already set. The existing lines, merged, come
/// first and in their order; appended lines only follow them.
pub proof fn lemma_merge_keeps_unrelated_lines(existing: Seq<char>, m: Seq<Entry>, i: int)
    requires
        keys_distinct(m),
        0 <= i < split_lines(existing).len(),
        unrelated_line(split_lines(existing), m, i),
    ensures
        merge_lines(split_lines(existing), m).0.len() == split_lines(existing).len(),
        merged_lines(existing, m) == merge_lines(split_lines(existing), m).0 + merge_lines(
            split_lines(existing),
            m,
        ).1.map_values(|e: Entry| appended_line(e.0, e.1)),
        merged_lines(existing, m)[i] == split_lines(existing)[i],
{
    lemma_merge_lines_keeps(split_lines(existing), m, i);
}

/// A key that the merge writes back as it reads it: no line break, no `=`, no
/// white space at either end, no leading `# `.
pub open spec fn key_well_formed(k: Seq<char>) -> bool {
    &&& !contains_char(k, '\n')
    &&& !contains_char(k, '=')
    &&& (k.len() > 0 ==> !is_space(k[0]) && !is_space(k.last()))
    &&& !starts_with(k, seq!['#', ' '])
}

pub open spec fn entries_well_formed(m: Seq<Entry>) -> bool {
    forall|i: int|
        0 <= i < m.len() ==> key_well_formed(#[trigger] m[i].0) && !contains_char(m[i].1, '\n')
}

proof fn lemma_trim_pad(k: Seq<char>)
    requires
        k.len() > 0 ==> !is_space(k[0]) && !is_space(k.last()),
    ensures
        trim(k.push(' ')) == k,
{
    let s = k.push(' ');
    assert(s.drop_last() == k);
    if k.len() == 0 {
        assert(s.drop_first().len() == 0);
        assert(trim_start(s) == trim_start(s.drop_first()));
        assert(trim_start(s) =~= k);
    } else {
        assert(s[0] == k[0]);
        assert(trim_start(s) == s);
        assert(trim_end(s) == trim_end(k));
    }
}

proof fn lemma_key_of_active_line(k: Seq<char>, w: Seq<char>)
    requires
        key_well_formed(k),
    ensures
        key_of_line(active_line(k, w)) == Some(k),
{
    let s = active_line(k, w);
    assert forall|j: int| 0 <= j < k.len() + 1 implies s[j] != '=' by {
        if j < k.len() {
            assert(s[j] == k[j]);
            if k[j] == '=' {
                assert(contains_char(k, '='));
            }
        }
    }
    assert(s[k.len() + 1int] == '=');
    crate::text::lemma_index_of_at(s, '=', k.len() + 1int);
    assert(s.take(k.len() + 1int) =~= k.push(' '));
    lemma_trim_pad(k);
}

proof fn lemma_no_newline_active(k: Seq<char>, v: Seq<char>)
    requires
        !contains_char(k, '\n'),
        !contains_char(v, '\n'),
    ensures
        !contains_char(active_line(k, v), '\n'),
{
    let s = active_line(k, v);
    if contains_char(s, '\n') {
        let w = choose|j: int| 0 <= j < s.len() && s[j] == '\n';
        if w < k.len() {
            assert(s[w] == k[w]);
        } else if w >= k.len() + 3 {
            assert(s[w] == v[w - k.len() - 3]);
        }
    }
}

/// Reading the merged lines back (each without a final `\r`) and merging them
/// again writes the same lines and leaves the same keys.
proof fn lemma_merge_again(lines: Seq<Seq<char>>, p: Seq<Entry>)
    requires
        keys_distinct(p),
        entries_well_formed(p),
        forall|i: int| 0 <= i < lines.len() ==> strip_cr(#[trigger] lines[i]) == lines[i],
        forall|i: int| 0 <= i < lines.len() ==> !contains_char(#[trigger] lines[i], '\n'),
    ensures
        merge_lines(merge_lines(lines, p).0.map_values(|l: Seq<char>| strip_cr(l)), p)
            == merge_lines(lines, p),
        forall|i: int|
            0 <= i < merge_lines(lines, p).0.len() ==> !contains_char(
                #[trigger] merge_lines(lines, p).0[i],
                '\n',
            ),
    decreases lines.len(),
{
    let o = merge_lines(lines, p).0;
    let so = o.map_values(|l: Seq<char>| strip_cr(l));
    if lines.len() > 0 {
        let first = merge_step(lines[0], p);
        let tail = lines.drop_first();
        lemma_step_shrinks(lines[0], p);
        let q = first.1;
        assert forall|i: int| 0 <= i < tail.len() implies strip_cr(#[trigger] tail[i]) == tail[i]
            && !contains_char(tail[i], '\n') by {
            assert(tail[i] == lines[i + 1]);
        }
        lemma_merge_again(tail, q);
        let rest = merge_lines(tail, q);
        assert(o == seq![first.0] + rest.0);
        // the first line merges the same way the second time
        match key_of_line(lines[0]) {
            Some(k) => {
                if has_key(p, k) {
                    let x = key_index(p, k);
                    assert(key_well_formed(p[x].0));
                    let v = p[x].1;
                    let a = active_line(k, v);
                    assert(first.0 == a);
                    assert(strip_cr(a) == active_line(k, strip_cr(v))) by {
                        if v.len() > 0 && v.last() == '\r' {
                            assert(a.drop_last() =~= active_line(k, v.drop_last()));
                        } else {
                            assert(v.len() > 0 ==> a.last() == v.last());
                        }
                    }
                    lemma_key_of_active_line(k, strip_cr(v));
                    lemma_no_newline_active(k, v);
                } else {
                }
            },
            None => {},
        }
        assert(merge_step(so[0], p) == first);
        assert(so.drop_first() =~= rest.0.map_values(|l: Seq<char>| strip_cr(l)));
        assert forall|i: int| 0 <= i < o.len() implies !contains_char(#[trigger] o[i], '\n') by {
            if i > 0 {
                assert(o[i] == rest.0[i - 1]);
            }
        }
    }
}

proof fn lemma_left_keys_unset(lines: Seq<Seq<char>>, p: Seq<Entry>)
    requires
        keys_distinct(p),
    ensures
        forall|x: int|
            0 <= x < merge_lines(lines, p).1.len() ==> has_key(
                p,
                #[trigger] merge_lines(lines, p).1[x].0,
            ) && forall|j: int|
                0 <= j < lines.len() ==> key_of_line(lines[j]) != Some(
                    merge_lines(lines, p).1[x].0,
                ),
    decreases lines.len(),
{
    if lines.len() > 0 {
        let first = merge_step(lines[0], p);
        lemma_step_shrinks(lines[0], p);
        lemma_left_keys_unset(lines.drop_first(), first.1);
        let left = merge_lines(lines, p).1;
        assert(left == merge_lines(lines.drop_first(), first.1).1);
        assert forall|x: int| 0 <= x < left.len() implies has_key(p, #[trigger] left[x].0)
            && forall|j: int| 0 <= j < lines.len() ==> key_of_line(lines[j]) != Some(left[x].0) by {
            assert(has_key(first.1, left[x].0));
            assert forall|j: int| 0 <= j < lines.len() implies key_of_line(lines[j]) != Some(
                left[x].0,
            ) by {
                if j == 0 {
                    if key_of_line(lines[0]) == Some(left[x].0) {
                        assert(!has_key(first.1, left[x].0));
                    }
                } else {
                    assert(lines.drop_first()[j - 1] == lines[j]);
                }
            }
        }
    }
}

/// Merging a second time changes nothing, where every key of the map already
/// has a line in the existing text (otherwise the first merge appends it as
/// `key=value` and the second rewrites it as `key = value`), the keys are
/// written back as they are read, no value holds a line break, and no existing
/// line ends with a stray `\r`.
pub proof fn lemma_merge_idempotent(existing: Seq<char>, m: Seq<Entry>)
    requires
        keys_distinct(m),
        entries_well_formed(m),
        forall|i: int|
            0 <= i < m.len() ==> exists|j: int|
                0 <= j < split_lines(existing).len() && key_of_line(split_lines(existing)[j])
                    == Some(#[trigger] m[i].0),
        forall|j: int|
            0 <= j < split_lines(existing).len() ==> strip_cr(#[trigger] split_lines(existing)[j])
                == split_lines(existing)[j],
    ensures
        merged_text(merged_text(existing, m), m) == merged_text(existing, m),
{
    let lines = split_lines(existing);
    lemma_split_lines_no_newline(existing);
    lemma_left_keys_unset(lines, m);
    let r = merge_lines(lines, m);
    if r.1.len() > 0 {
        assert(has_key(m, r.1[0].0));
        let i = choose|i: int| 0 <= i < m.len() && m[i].0 == r.1[0].0;
        let j = choose|j: int|
            0 <= j < lines.len() && key_of_line(lines[j]) == Some(#[trigger] m[i].0);
        assert(key_of_line(lines[j]) != Some(r.1[0].0));
    }
    let f = |e: Entry| appended_line(e.0, e.1);
    assert(merged_lines(existing, m) =~= r.0);
    lemma_merge_again(lines, m);
    lemma_split_join(r.0);
    let text = merged_text(existing, m);
    assert(split_lines(text) == r.0.map_values(|l: Seq<char>| strip_cr(l)));
    assert(merged_lines(text, m) =~= r.0);
}

} // verus!
