//! Character-level helpers on strings, with their mathematical models.
use vstd::prelude::*;
use vstd::std_specs::iter::IteratorSpec;

verus! {

/// The characters of the string, in order.
pub(crate) fn chars_of(s: &str) -> (r: Vec<char>)
    ensures
        r@ == s@,
{
    let mut it = s.chars();
    let mut r: Vec<char> = Vec::new();
    proof {
        assert(r@ + it.remaining() =~= s@);
    }
    loop
        invariant
            r@ + it.remaining() == s@,
            it.decrease() is Some,
        decreases it.decrease()->0,
    {
        match it.next() {
            Some(c) => {
                r.push(c);
                proof {
                    assert(r@ + it.remaining() =~= s@);
                }
            },
            None => {
                proof {
                    assert(r@ =~= s@);
                }
                return r;
            },
        }
    }
}

/// Relies on `FromIterator<&char>` for `String`: the string made of the characters, in order.
#[verifier::external_body]
pub(crate) fn string_of(v: &Vec<char>) -> (r: String)
    ensures
        r@ == v@,
{
    v.iter().collect()
}

/// Unicode `White_Space`, the set that `str::trim` removes.
pub open spec fn is_space(c: char) -> bool {
    ||| c == ' '
    ||| ('\t' <= c && c <= '\r')
    ||| c == '\u{85}'
    ||| c == '\u{A0}'
    ||| c == '\u{1680}'
    ||| ('\u{2000}' <= c && c <= '\u{200A}')
    ||| c == '\u{2028}'
    ||| c == '\u{2029}'
    ||| c == '\u{202F}'
    ||| c == '\u{205F}'
    ||| c == '\u{3000}'
}

pub fn char_is_space(c: char) -> (r: bool)
    ensures
        r == is_space(c),
{
    c == ' ' || ('\t' <= c && c <= '\r') || c == '\u{85}' || c == '\u{A0}' || c == '\u{1680}'
        || ('\u{2000}' <= c && c <= '\u{200A}') || c == '\u{2028}' || c == '\u{2029}'
        || c == '\u{202F}' || c == '\u{205F}' || c == '\u{3000}'
}

/// `s` without its leading white space.
pub open spec fn trim_start(s: Seq<char>) -> Seq<char>
    decreases s.len(),
{
    if s.len() > 0 && is_space(s[0]) {
        trim_start(s.drop_first())
    } else {
        s
    }
}

/// `s` without its trailing white space.
pub open spec fn trim_end(s: Seq<char>) -> Seq<char>
    decreases s.len(),
{
    if s.len() > 0 && is_space(s.last()) {
        trim_end(s.drop_last())
    } else {
        s
    }
}

/// `s` without white space at either end.
pub open spec fn trim(s: Seq<char>) -> Seq<char> {
    trim_end(trim_start(s))
}

pub open spec fn starts_with(s: Seq<char>, p: Seq<char>) -> bool {
    p.len() <= s.len() && s.subrange(0, p.len() as int) == p
}

pub open spec fn ends_with(s: Seq<char>, p: Seq<char>) -> bool {
    p.len() <= s.len() && s.subrange(s.len() - p.len(), s.len() as int) == p
}

pub open spec fn contains_char(s: Seq<char>, c: char) -> bool {
    exists|i: int| 0 <= i < s.len() && s[i] == c
}

proof fn lemma_trim_start_suffix(s: Seq<char>, i: int)
    requires
        0 <= i <= s.len(),
        forall|j: int| 0 <= j < i ==> is_space(s[j]),
    ensures
        trim_start(s) == trim_start(s.subrange(i, s.len() as int)),
    decreases i,
{
    if i > 0 {
        assert(s.drop_first() == s.subrange(1, s.len() as int));
        lemma_trim_start_suffix(s.drop_first(), i - 1);
        assert(s.drop_first().subrange(i - 1, s.drop_first().len() as int) == s.subrange(
            i,
            s.len() as int,
        ));
    } else {
        assert(s.subrange(0, s.len() as int) == s);
    }
}

proof fn lemma_trim_end_prefix(s: Seq<char>, j: int)
    requires
        0 <= j <= s.len(),
        forall|k: int| j <= k < s.len() ==> is_space(s[k]),
    ensures
        trim_end(s) == trim_end(s.subrange(0, j)),
    decreases s.len() - j,
{
    if j < s.len() {
        assert(s.drop_last() == s.subrange(0, s.len() - 1));
        lemma_trim_end_prefix(s.drop_last(), j);
        assert(s.drop_last().subrange(0, j) == s.subrange(0, j));
    } else {
        assert(s.subrange(0, j) == s);
    }
}

/// The characters of `s` from `lo` to `hi`, with white space removed at both ends.
pub fn trim_range(s: &Vec<char>, lo: usize, hi: usize) -> (r: Vec<char>)
    requires
        lo <= hi <= s@.len(),
    ensures
        r@ == trim(s@.subrange(lo as int, hi as int)),
{
    let ghost t = s@.subrange(lo as int, hi as int);
    let mut a: usize = lo;
    while a < hi && char_is_space(s[a])
        invariant
            lo <= a <= hi <= s@.len(),
            t == s@.subrange(lo as int, hi as int),
            forall|j: int| lo <= j < a ==> is_space(s@[j]),
        decreases hi - a,
    {
        a = a + 1;
    }
    proof {
        lemma_trim_start_suffix(t, a - lo);
        assert(t.subrange(a - lo, t.len() as int) == s@.subrange(a as int, hi as int));
    }
    let mut b: usize = hi;
    while b > a && char_is_space(s[b - 1])
        invariant
            a <= b <= hi <= s@.len(),
            forall|k: int| b <= k < hi ==> is_space(s@[k]),
        decreases b - a,
    {
        b = b - 1;
    }
    let ghost u = s@.subrange(a as int, hi as int);
    proof {
        lemma_trim_end_prefix(u, b - a);
        assert(u.subrange(0, b - a) == s@.subrange(a as int, b as int));
        if a < hi && !is_space(s@[a as int]) {
            assert(trim_start(u) == u);
        } else {
            assert(u.len() == 0);
        }
    }
    let mut r: Vec<char> = Vec::new();
    let mut k: usize = a;
    while k < b
        invariant
            a <= k <= b <= s@.len(),
            r@ == s@.subrange(a as int, k as int),
        decreases b - k,
    {
        r.push(s[k]);
        k = k + 1;
        assert(r@ == s@.subrange(a as int, k as int));
    }
    r
}

/// Position of the first `c` in `s`, or the length of `s` where there is none.
pub open spec fn index_of(s: Seq<char>, c: char) -> nat
    decreases s.len(),
{
    if s.len() == 0 {
        0
    } else if s[0] == c {
        0
    } else {
        1 + index_of(s.drop_first(), c)
    }
}

pub proof fn lemma_index_of(s: Seq<char>, c: char)
    ensures
        index_of(s, c) <= s.len(),
        forall|j: int| 0 <= j < index_of(s, c) ==> s[j] != c,
        index_of(s, c) < s.len() ==> s[index_of(s, c) as int] == c,
        index_of(s, c) == s.len() <==> !contains_char(s, c),
    decreases s.len(),
{
    if s.len() > 0 && s[0] != c {
        lemma_index_of(s.drop_first(), c);
        assert forall|j: int| 0 <= j < index_of(s, c) implies s[j] != c by {
            if j > 0 {
                assert(s[j] == s.drop_first()[j - 1]);
            }
        }
        if contains_char(s, c) {
            let w = choose|i: int| 0 <= i < s.len() && s[i] == c;
            assert(s.drop_first()[w - 1] == c);
        }
        if contains_char(s.drop_first(), c) {
            let w = choose|i: int| 0 <= i < s.drop_first().len() && s.drop_first()[i] == c;
            assert(s[w + 1] == c);
        }
    } else if s.len() > 0 {
        assert(contains_char(s, c)) by {
            assert(s[0] == c);
        }
    }
}

pub proof fn lemma_index_of_at(s: Seq<char>, c: char, i: int)
    requires
        0 <= i <= s.len(),
        forall|j: int| 0 <= j < i ==> s[j] != c,
        i < s.len() ==> s[i] == c,
    ensures
        index_of(s, c) == i,
{
    lemma_index_of(s, c);
    if index_of(s, c) < i {
        assert(s[index_of(s, c) as int] != c);
    }
    if index_of(s, c) > i {
        assert(s[i] != c);
    }
}

/// A line without the carriage return of a `\r\n` ending.
pub open spec fn strip_cr(l: Seq<char>) -> Seq<char> {
    if l.len() > 0 && l.last() == '\r' {
        l.drop_last()
    } else {
        l
    }
}

/// The lines of a text as `str::lines` gives them: split at `\n`, a `\r` before
/// the `\n` dropped, and no empty line after a final `\n`.
pub open spec fn split_lines(s: Seq<char>) -> Seq<Seq<char>>
    decreases s.len(),
{
    if s.len() == 0 {
        seq![]
    } else {
        let k = index_of(s, '\n');
        if k >= s.len() {
            seq![s]
        } else {
            seq![strip_cr(s.take(k as int))] + split_lines(s.skip(k + 1int))
        }
    }
}

/// Each line followed by `\n`, all in order.
pub open spec fn join_lines(ls: Seq<Seq<char>>) -> Seq<char>
    decreases ls.len(),
{
    if ls.len() == 0 {
        seq![]
    } else {
        ls[0] + seq!['\n'] + join_lines(ls.drop_first())
    }
}

pub proof fn lemma_join_lines_push(ls: Seq<Seq<char>>, l: Seq<char>)
    ensures
        join_lines(ls.push(l)) == join_lines(ls) + l + seq!['\n'],
    decreases ls.len(),
{
    if ls.len() == 0 {
        assert(ls.push(l).drop_first() == ls);
    } else {
        assert(ls.push(l).drop_first() == ls.drop_first().push(l));
        lemma_join_lines_push(ls.drop_first(), l);
    }
}

pub proof fn lemma_split_lines_no_newline(s: Seq<char>)
    ensures
        forall|i: int| 0 <= i < split_lines(s).len() ==> !contains_char(#[trigger] split_lines(s)[i], '\n'),
    decreases s.len(),
{
    if s.len() > 0 {
        let k = index_of(s, '\n');
        lemma_index_of(s, '\n');
        if k < s.len() {
            lemma_split_lines_no_newline(s.skip(k + 1int));
            let l = s.take(k as int);
            assert(!contains_char(strip_cr(l), '\n')) by {
                if contains_char(strip_cr(l), '\n') {
                    let w = choose|i: int| 0 <= i < strip_cr(l).len() && strip_cr(l)[i] == '\n';
                    assert(s[w] == '\n');
                }
            }
            assert forall|i: int| 0 <= i < split_lines(s).len() implies !contains_char(
                #[trigger] split_lines(s)[i],
                '\n',
            ) by {
                if i > 0 {
                    assert(split_lines(s)[i] == split_lines(s.skip(k + 1int))[i - 1]);
                }
            }
        }
    }
}

/// Splitting joined lines gives them back, each without a final `\r`.
pub proof fn lemma_split_join(ls: Seq<Seq<char>>)
    requires
        forall|i: int| 0 <= i < ls.len() ==> !contains_char(#[trigger] ls[i], '\n'),
    ensures
        split_lines(join_lines(ls)) == ls.map_values(|l: Seq<char>| strip_cr(l)),
    decreases ls.len(),
{
    let s = join_lines(ls);
    if ls.len() > 0 {
        let l = ls[0];
        let rest = join_lines(ls.drop_first());
        assert(s == l + seq!['\n'] + rest);
        assert forall|j: int| 0 <= j < l.len() implies s[j] != '\n' by {
            assert(s[j] == l[j]);
            if l[j] == '\n' {
                assert(contains_char(ls[0], '\n'));
            }
        }
        assert(s[l.len() as int] == '\n');
        lemma_index_of_at(s, '\n', l.len() as int);
        assert(s.take(l.len() as int) == l);
        assert(s.skip(l.len() + 1int) == rest);
        assert forall|i: int| 0 <= i < ls.drop_first().len() implies !contains_char(
            #[trigger] ls.drop_first()[i],
            '\n',
        ) by {
            assert(ls.drop_first()[i] == ls[i + 1]);
        }
        lemma_split_join(ls.drop_first());
        assert(split_lines(s) == seq![strip_cr(l)] + split_lines(rest));
        assert(split_lines(s) =~= ls.map_values(|l: Seq<char>| strip_cr(l)));
    } else {
        assert(split_lines(s) =~= ls.map_values(|l: Seq<char>| strip_cr(l)));
    }
}

/// Appends the characters of `s` to `out`.
pub fn push_all(out: &mut Vec<char>, s: &Vec<char>)
    ensures
        final(out)@ == old(out)@ + s@,
{
    let mut i: usize = 0;
    while i < s.len()
        invariant
            i <= s@.len(),
            out@ == old(out)@ + s@.subrange(0, i as int),
        decreases s@.len() - i,
    {
        out.push(s[i]);
        i = i + 1;
        assert(out@ == old(out)@ + s@.subrange(0, i as int));
    }
    assert(s@.subrange(0, s@.len() as int) == s@);
}

/// The characters of `s` from `lo` to `hi`.
pub fn copy_range(s: &Vec<char>, lo: usize, hi: usize) -> (r: Vec<char>)
    requires
        lo <= hi <= s@.len(),
    ensures
        r@ == s@.subrange(lo as int, hi as int),
{
    let mut r: Vec<char> = Vec::new();
    let mut k: usize = lo;
    while k < hi
        invariant
            lo <= k <= hi <= s@.len(),
            r@ == s@.subrange(lo as int, k as int),
        decreases hi - k,
    {
        r.push(s[k]);
        k = k + 1;
        assert(r@ == s@.subrange(lo as int, k as int));
    }
    r
}

/// Position of the first `c` in `s`, or the length of `s`.
pub fn find_char(s: &Vec<char>, c: char) -> (r: usize)
    ensures
        r == index_of(s@, c),
{
    let mut i: usize = 0;
    while i < s.len() && s[i] != c
        invariant
            i <= s@.len(),
            forall|j: int| 0 <= j < i ==> s@[j] != c,
        decreases s@.len() - i,
    {
        i = i + 1;
    }
    proof {
        lemma_index_of_at(s@, c, i as int);
    }
    i
}

/// The character sequences held by a vector of character vectors.
pub open spec fn views(v: Seq<Vec<char>>) -> Seq<Seq<char>> {
    v.map_values(|x: Vec<char>| x@)
}

/// The lines of a text, as `split_lines` states them.
pub fn lines_of(s: &Vec<char>) -> (r: Vec<Vec<char>>)
    ensures
        views(r@) == split_lines(s@),
{
    let mut r: Vec<Vec<char>> = Vec::new();
    let mut start: usize = 0;
    let n = s.len();
    proof {
        assert(s@.skip(0) == s@);
        assert(views(r@) + split_lines(s@) =~= split_lines(s@));
    }
    while start < n
        invariant
            n == s@.len(),
            start <= n,
            split_lines(s@) == views(r@) + split_lines(s@.skip(start as int)),
        decreases n - start,
    {
        let ghost t = s@.skip(start as int);
        let mut i: usize = start;
        while i < n && s[i] != '\n'
            invariant
                start <= i <= n,
                n == s@.len(),
                forall|j: int| start <= j < i ==> s@[j] != '\n',
            decreases n - i,
        {
            i = i + 1;
        }
        proof {
            assert forall|j: int| 0 <= j < i - start implies t[j] != '\n' by {
                assert(t[j] == s@[start + j]);
            }
            lemma_index_of_at(t, '\n', i - start);
        }
        let mut end = i;
        if i < n && end > start && s[end - 1] == '\r' {
            end = end - 1;
        }
        let line = copy_range(s, start, end);
        let ghost before = views(r@);
        r.push(line);
        proof {
            assert(views(r@) =~= before.push(line@));
            assert(views(r@) + split_lines(s@.skip(start as int)) =~= before + (seq![line@] + split_lines(s@.skip(start as int))));
            if i < n {
                assert(t.take(i - start) == s@.subrange(start as int, i as int));
                assert(line@ == strip_cr(t.take(i - start)));
                assert(t.skip(i - start + 1) == s@.skip(i + 1));
            } else {
                assert(line@ == t);
                assert(s@.skip(n as int).len() == 0);
            }
        }
        if i < n {
            start = i + 1;
        } else {
            start = n;
        }
    }
    proof {
        assert(split_lines(s@.skip(start as int)) == Seq::<Seq<char>>::empty());
        assert(views(r@) + Seq::<Seq<char>>::empty() == views(r@));
    }
    r
}

/// `s` with every `from` replaced by `to`.
pub open spec fn replace_char(s: Seq<char>, from: char, to: char) -> Seq<char> {
    s.map_values(|c: char| if c == from { to } else { c })
}

/// Replaces every `from` in `s` by `to`.
pub fn replace_char_exec(s: &str, from: char, to: char) -> (r: String)
    ensures
        r@ == replace_char(s@, from, to),
{
    let c = chars_of(s);
    let mut out: Vec<char> = Vec::new();
    let mut i: usize = 0;
    while i < c.len()
        invariant
            i <= c@.len(),
            c@ == s@,
            out@ == replace_char(s@.take(i as int), from, to),
        decreases c@.len() - i,
    {
        let x = c[i];
        out.push(if x == from { to } else { x });
        i = i + 1;
        assert(out@ =~= replace_char(s@.take(i as int), from, to));
    }
    assert(s@.take(i as int) == s@);
    string_of(&out)
}

/// `s` without the prefix `p`, where it starts with it.
pub open spec fn strip_prefix(s: Seq<char>, p: Seq<char>) -> Option<Seq<char>> {
    if starts_with(s, p) {
        Some(s.skip(p.len() as int))
    } else {
        None
    }
}

/// `s` without the prefix `p`, where it starts with it.
pub fn strip_prefix_exec(s: &str, p: &str) -> (r: Option<String>)
    ensures
        r is Some <==> strip_prefix(s@, p@) is Some,
        r matches Some(x) ==> strip_prefix(s@, p@) == Some(x@),
{
    let c = chars_of(s);
    let q = chars_of(p);
    if q.len() > c.len() {
        return None;
    }
    let mut i: usize = 0;
    while i < q.len()
        invariant
            i <= q@.len() <= c@.len(),
            c@ == s@,
            q@ == p@,
            forall|j: int| 0 <= j < i ==> c@[j] == q@[j],
        decreases q@.len() - i,
    {
        if c[i] != q[i] {
            proof {
                assert(c@.subrange(0, q@.len() as int)[i as int] != q@[i as int]);
            }
            return None;
        }
        i = i + 1;
    }
    proof {
        assert(c@.subrange(0, q@.len() as int) =~= q@);
    }
    let rest = copy_range(&c, q.len(), c.len());
    Some(string_of(&rest))
}

/// The words joined, with `sep` between each two.
pub open spec fn join_words(words: Seq<Seq<char>>, sep: Seq<char>) -> Seq<char>
    decreases words.len(),
{
    if words.len() == 0 {
        seq![]
    } else if words.len() == 1 {
        words[0]
    } else {
        join_words(words.drop_last(), sep) + sep + words.last()
    }
}

/// The strings joined, with `sep` between each two.
pub fn join_words_exec(words: &Vec<String>, sep: &str) -> (r: String)
    ensures
        r@ == join_words(words@.map_values(|w: String| w@), sep@),
{
    let ghost ws = words@.map_values(|w: String| w@);
    let sc = chars_of(sep);
    let mut out: Vec<char> = Vec::new();
    let mut i: usize = 0;
    while i < words.len()
        invariant
            i <= words@.len(),
            ws == words@.map_values(|w: String| w@),
            sc@ == sep@,
            out@ == join_words(ws.take(i as int), sep@),
        decreases words@.len() - i,
    {
        let ghost before = out@;
        if i > 0 {
            push_all(&mut out, &sc);
        }
        let wc = chars_of(words[i].as_str());
        push_all(&mut out, &wc);
        proof {
            assert(ws.take(i + 1).drop_last() == ws.take(i as int));
            assert(ws.take(i + 1).last() == words@[i as int]@);
            if i == 0 {
                assert(out@ =~= ws.take(1)[0]);
            } else {
                assert(out@ =~= before + sep@ + ws.take(i + 1).last());
            }
        }
        i = i + 1;
    }
    proof {
        assert(ws.take(i as int) == ws);
    }
    string_of(&out)
}

/// `a` followed by `b`.
pub fn concat_str(a: &str, b: &str) -> (r: String)
    ensures
        r@ == a@ + b@,
{
    let mut out = chars_of(a);
    let bc = chars_of(b);
    push_all(&mut out, &bc);
    string_of(&out)
}

/// Whether `s` is exactly `lit`.
pub fn text_is(s: &str, lit: &str) -> (r: bool)
    ensures
        r == (s@ == lit@),
{
    s.to_string() == lit.to_string()
}

/// `s` without white space at either end.
pub fn trim_str(s: &str) -> (r: String)
    ensures
        r@ == trim(s@),
{
    let c = chars_of(s);
    let t = trim_range(&c, 0, c.len());
    proof {
        assert(c@.subrange(0, c@.len() as int) == c@);
    }
    string_of(&t)
}

/// `s` with each occurrence of the non-empty `pat`, from the left and without
/// overlap, replaced by `to`, as `str::replace` does.
pub open spec fn replace_all(s: Seq<char>, pat: Seq<char>, to: Seq<char>) -> Seq<char>
    decreases s.len(),
{
    if pat.len() == 0 || s.len() < pat.len() {
        s
    } else if s.take(pat.len() as int) == pat {
        to + replace_all(s.skip(pat.len() as int), pat, to)
    } else {
        seq![s[0]] + replace_all(s.drop_first(), pat, to)
    }
}

fn matches_at(s: &Vec<char>, i: usize, pat: &Vec<char>) -> (r: bool)
    requires
        i + pat@.len() <= s@.len(),
    ensures
        r == (s@.skip(i as int).take(pat@.len() as int) == pat@),
{
    let n = s.len();
    let mut k: usize = 0;
    while k < pat.len()
        invariant
            k <= pat@.len(),
            n == s@.len(),
            i + pat@.len() <= s@.len(),
            forall|j: int| 0 <= j < k ==> s@[i + j] == pat@[j],
        decreases pat@.len() - k,
    {
        if s[i + k] != pat[k] {
            proof {
                assert(s@.skip(i as int).take(pat@.len() as int)[k as int] != pat@[k as int]);
            }
            return false;
        }
        k = k + 1;
    }
    assert(s@.skip(i as int).take(pat@.len() as int) =~= pat@);
    true
}

/// `s` with every occurrence of `pat` replaced by `to`, as `replace_all` states it.
pub fn replace_all_exec(s: &str, pat: &str, to: &str) -> (r: String)
    ensures
        r@ == replace_all(s@, pat@, to@),
{
    let c = chars_of(s);
    let p = chars_of(pat);
    let t = chars_of(to);
    let mut out: Vec<char> = Vec::new();
    let mut i: usize = 0;
    proof {
        assert(s@.skip(0) == s@);
        assert(out@ + replace_all(s@, pat@, to@) =~= replace_all(s@, pat@, to@));
    }
    while i < c.len()
        invariant
            i <= c@.len(),
            c@ == s@,
            p@ == pat@,
            t@ == to@,
            replace_all(s@, pat@, to@) == out@ + replace_all(s@.skip(i as int), pat@, to@),
        decreases c@.len() - i,
    {
        let ghost rest = s@.skip(i as int);
        if p.len() > 0 && p.len() <= c.len() - i && matches_at(&c, i, &p) {
            push_all(&mut out, &t);
            proof {
                assert(rest.skip(pat@.len() as int) == s@.skip(i + pat@.len()));
            }
            i = i + p.len();
        } else {
            if p.len() == 0 || p.len() > c.len() - i {
                proof {
                    assert(replace_all(rest, pat@, to@) == rest);
                    assert(out@ + rest =~= out@ + c@.skip(i as int));
                }
                let tail = copy_range(&c, i, c.len());
                push_all(&mut out, &tail);
                proof {
                    assert(s@.skip(c@.len() as int).len() == 0);
                    assert(replace_all(s@.skip(c@.len() as int), pat@, to@) =~= Seq::<char>::empty());
                    assert(out@ + Seq::<char>::empty() =~= out@);
                }
                i = c.len();
            } else {
                out.push(c[i]);
                proof {
                    assert(rest.drop_first() == s@.skip(i + 1));
                    assert(rest[0] == c@[i as int]);
                }
                i = i + 1;
            }
        }
    }
    proof {
        assert(s@.skip(i as int).len() == 0);
        assert(out@ + Seq::<char>::empty() =~= out@);
    }
    string_of(&out)
}

} // verus!
