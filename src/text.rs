//! Character-level helpers shared by the extractor and the patch engine.

use vstd::prelude::*;

verus! {

/// Unicode `White_Space`, the set that `char::is_whitespace` and the
/// `split_whitespace` / `trim` family of `str` use.
pub open spec fn is_ws(c: char) -> bool {
    ('\u{9}' <= c && c <= '\u{d}') || c == ' ' || c == '\u{85}' || c == '\u{a0}'
        || c == '\u{1680}' || ('\u{2000}' <= c && c <= '\u{200a}') || c == '\u{2028}'
        || c == '\u{2029}' || c == '\u{202f}' || c == '\u{205f}' || c == '\u{3000}'
}

pub fn char_is_ws(c: char) -> (r: bool)
    ensures
        r == is_ws(c),
{
    ('\u{9}' <= c && c <= '\u{d}') || c == ' ' || c == '\u{85}' || c == '\u{a0}'
        || c == '\u{1680}' || ('\u{2000}' <= c && c <= '\u{200a}') || c == '\u{2028}'
        || c == '\u{2029}' || c == '\u{202f}' || c == '\u{205f}' || c == '\u{3000}'
}

/// The characters of a string, in order.
pub fn chars_of(s: &str) -> (r: Vec<char>)
    ensures
        r@ == s@,
{
    let mut v: Vec<char> = Vec::new();
    for c in it: s.chars()
        invariant
            it.seq() == s@,
            v@ == it.seq().subrange(0, it.index() as int),
    {
        v.push(c);
    }
    v
}

/// Relies on `String::push`: appends one character.
#[verifier::external_body]
fn push_char(s: &mut String, c: char)
    ensures
        final(s)@ == old(s)@.push(c),
{
    s.push(c);
}

/// The string made of the given characters.
pub fn string_of(cs: &[char]) -> (r: String)
    ensures
        r@ == cs@,
{
    let mut s = String::new();
    let mut i: usize = 0;
    while i < cs.len()
        invariant
            i <= cs@.len(),
            s@ == cs@.subrange(0, i as int),
        decreases cs@.len() - i,
    {
        push_char(&mut s, cs[i]);
        i += 1;
    }
    s
}


/// The views of a sequence of character vectors.
pub open spec fn views(v: Seq<Vec<char>>) -> Seq<Seq<char>> {
    v.map_values(|x: Vec<char>| x@)
}

/// The views of a sequence of strings.
pub open spec fn string_views(v: Seq<String>) -> Seq<Seq<char>> {
    v.map_values(|x: String| x@)
}

/// `s` without trailing whitespace (`str::trim_end`).
pub open spec fn trim_end(s: Seq<char>) -> Seq<char>
    decreases s.len(),
{
    if s.len() > 0 && is_ws(s.last()) {
        trim_end(s.drop_last())
    } else {
        s
    }
}

/// `s` without leading whitespace (`str::trim_start`).
pub open spec fn trim_start(s: Seq<char>) -> Seq<char>
    decreases s.len(),
{
    if s.len() > 0 && is_ws(s[0]) {
        trim_start(s.drop_first())
    } else {
        s
    }
}

/// `s` without surrounding whitespace (`str::trim`).
pub open spec fn trim(s: Seq<char>) -> Seq<char> {
    trim_start(trim_end(s))
}

/// The end of `s[lo..hi]` once trailing whitespace is dropped.
pub fn trim_end_pos(s: &[char], lo: usize, hi: usize) -> (n: usize)
    requires
        lo <= hi <= s@.len(),
    ensures
        lo <= n <= hi,
        trim_end(s@.subrange(lo as int, hi as int)) == s@.subrange(lo as int, n as int),
{
    let mut n = hi;
    while n > lo && char_is_ws(s[n - 1])
        invariant
            lo <= n <= hi <= s@.len(),
            trim_end(s@.subrange(lo as int, hi as int)) == trim_end(s@.subrange(lo as int, n as int)),
        decreases n,
    {
        assert(s@.subrange(lo as int, n as int).drop_last() == s@.subrange(lo as int, n - 1));
        n -= 1;
    }
    n
}

/// The first index of `s[lo..hi]` that leading whitespace does not cover.
pub fn trim_start_pos(s: &[char], lo: usize, hi: usize) -> (i: usize)
    requires
        lo <= hi <= s@.len(),
    ensures
        lo <= i <= hi,
        trim_start(s@.subrange(lo as int, hi as int)) == s@.subrange(i as int, hi as int),
{
    let mut i = lo;
    while i < hi && char_is_ws(s[i])
        invariant
            lo <= i <= hi <= s@.len(),
            trim_start(s@.subrange(lo as int, hi as int)) == trim_start(
                s@.subrange(i as int, hi as int),
            ),
        decreases hi - i,
    {
        assert(s@.subrange(i as int, hi as int).drop_first() == s@.subrange(i + 1, hi as int));
        i += 1;
    }
    i
}

/// The whitespace-separated words of `s` (`str::split_whitespace`).
pub open spec fn words(s: Seq<char>) -> Seq<Seq<char>>
    decreases s.len(),
{
    if s.len() == 0 {
        seq![]
    } else {
        let w = words(s.drop_last());
        if is_ws(s.last()) {
            w
        } else if s.len() >= 2 && !is_ws(s[s.len() - 2]) {
            w.update(w.len() - 1, w.last().push(s.last()))
        } else {
            w.push(seq![s.last()])
        }
    }
}

/// Words in progress: the finished ones, then the open one if any.
pub open spec fn words_so_far(done: Seq<Seq<char>>, cur: Seq<char>) -> Seq<Seq<char>> {
    if cur.len() > 0 {
        done.push(cur)
    } else {
        done
    }
}

/// The whitespace-separated words of `s[lo..hi]`.
pub fn words_in(s: &[char], lo: usize, hi: usize) -> (r: Vec<Vec<char>>)
    requires
        lo <= hi <= s@.len(),
    ensures
        views(r@) == words(s@.subrange(lo as int, hi as int)),
{
    let mut done: Vec<Vec<char>> = Vec::new();
    let mut cur: Vec<char> = Vec::new();
    let mut i = lo;
    while i < hi
        invariant
            lo <= i <= hi <= s@.len(),
            words(s@.subrange(lo as int, i as int)) == words_so_far(views(done@), cur@),
            cur@.len() > 0 <==> (i > lo && !is_ws(s@[i - 1])),
        decreases hi - i,
    {
        let c = s[i];
        let ghost pre = s@.subrange(lo as int, i as int);
        let ghost next = s@.subrange(lo as int, i + 1);
        assert(next.drop_last() == pre);
        assert(next.last() == c);
        let ghost old_done = views(done@);
        if char_is_ws(c) {
            if cur.len() > 0 {
                let w = cur;
                cur = Vec::new();
                done.push(w);
                assert(views(done@) == old_done.push(w@));
            }
        } else {
            if cur.len() > 0 {
                assert(next[next.len() - 2] == s@[i - 1]);
                let ghost oc = cur@;
                cur.push(c);
                assert(old_done.push(oc).update(old_done.len() as int, oc.push(c)) =~= old_done.push(
                    cur@,
                ));
            } else {
                if i > lo {
                    assert(next[next.len() - 2] == s@[i - 1]);
                }
                cur.push(c);
                assert(cur@ =~= seq![c]);
            }
        }
        i += 1;
    }
    let ghost old_done = views(done@);
    if cur.len() > 0 {
        let ghost oc = cur@;
        done.push(cur);
        assert(views(done@) == old_done.push(oc));
    }
    done
}

/// Splits `s` at `'\n'`: the lines that a newline ended, each without one
/// trailing `'\r'`, and the text after the last newline.
pub open spec fn line_split(s: Seq<char>) -> (Seq<Seq<char>>, Seq<char>)
    decreases s.len(),
{
    if s.len() == 0 {
        (seq![], seq![])
    } else {
        let (done, cur) = line_split(s.drop_last());
        if s.last() == '\n' {
            (done.push(strip_cr(cur)), seq![])
        } else {
            (done, cur.push(s.last()))
        }
    }
}

/// `l` without one trailing carriage return.
pub open spec fn strip_cr(l: Seq<char>) -> Seq<char> {
    if l.len() > 0 && l.last() == '\r' {
        l.drop_last()
    } else {
        l
    }
}

/// The lines of `s` as `str::lines` yields them: split at `"\n"` or
/// `"\r\n"`, with no empty line after a final line ending.
pub open spec fn lines_of(s: Seq<char>) -> Seq<Seq<char>> {
    words_so_far(line_split(s).0, line_split(s).1)
}

/// `s` begins with `p`.
pub open spec fn starts_with(s: Seq<char>, p: Seq<char>) -> bool {
    p.len() <= s.len() && s.subrange(0, p.len() as int) == p
}

/// `p` stands in `s` at position `i`.
pub open spec fn occurs_at(s: Seq<char>, p: Seq<char>, i: int) -> bool {
    0 <= i && i + p.len() <= s.len() && s.subrange(i, i + p.len()) == p
}

/// `p` is a substring of `s` (`str::contains`).
pub open spec fn contains(s: Seq<char>, p: Seq<char>) -> bool {
    exists|i: int| #[trigger] occurs_at(s, p, i)
}


/// The lines of `s`, as `lines_of` states them.
pub fn lines_in(s: &[char]) -> (r: Vec<Vec<char>>)
    ensures
        views(r@) == lines_of(s@),
{
    let mut done: Vec<Vec<char>> = Vec::new();
    let mut cur: Vec<char> = Vec::new();
    let mut i: usize = 0;
    while i < s.len()
        invariant
            i <= s@.len(),
            line_split(s@.subrange(0, i as int)) == (views(done@), cur@),
        decreases s@.len() - i,
    {
        let c = s[i];
        assert(s@.subrange(0, i + 1).drop_last() == s@.subrange(0, i as int));
        let ghost old_done = views(done@);
        if c == '\n' {
            let mut line = cur;
            cur = Vec::new();
            if line.len() > 0 && line[line.len() - 1] == '\r' {
                let ghost ol = line@;
                line.pop();
                assert(line@ == ol.drop_last());
            }
            let ghost l = line@;
            done.push(line);
            assert(views(done@) == old_done.push(l));
        } else {
            cur.push(c);
        }
        i += 1;
    }
    assert(s@.subrange(0, s@.len() as int) == s@);
    let ghost old_done = views(done@);
    if cur.len() > 0 {
        let ghost oc = cur@;
        done.push(cur);
        assert(views(done@) == old_done.push(oc));
    }
    done
}

/// Whether `p` stands in `s` at position `i`.
pub fn occurs_at_pos(s: &[char], p: &[char], i: usize) -> (r: bool)
    ensures
        r == occurs_at(s@, p@, i as int),
{
    if i > s.len() || p.len() > s.len() - i {
        return false;
    }
    let mut k: usize = 0;
    while k < p.len()
        invariant
            i + p.len() <= s.len(),
            k <= p@.len(),
            forall|j: int| 0 <= j < k ==> s@[i + j] == p@[j],
        decreases p@.len() - k,
    {
        if s[i + k] != p[k] {
            assert(s@.subrange(i as int, i + p@.len())[k as int] != p@[k as int]);
            return false;
        }
        k += 1;
    }
    assert(s@.subrange(i as int, i + p@.len()) =~= p@);
    true
}

/// Whether `p` is a substring of `s`.
pub fn contains_chars(s: &[char], p: &[char]) -> (r: bool)
    ensures
        r == contains(s@, p@),
{
    if p.len() > s.len() {
        assert(forall|i: int| !#[trigger] occurs_at(s@, p@, i));
        return false;
    }
    let last = s.len() - p.len();
    let mut i: usize = 0;
    while i < last
        invariant
            p@.len() <= s@.len(),
            last == s@.len() - p@.len(),
            i <= last,
            forall|j: int| 0 <= j < i ==> !#[trigger] occurs_at(s@, p@, j),
        decreases last - i,
    {
        if occurs_at_pos(s, p, i) {
            return true;
        }
        i += 1;
    }
    if occurs_at_pos(s, p, last) {
        return true;
    }
    assert(forall|j: int| !#[trigger] occurs_at(s@, p@, j));
    false
}

/// `s` with each occurrence of `f` replaced by `r`, scanning from the left
/// without overlap (`str::replace`); an empty `f` matches before every
/// character and at the end.
pub open spec fn replaced(s: Seq<char>, f: Seq<char>, r: Seq<char>) -> Seq<char>
    decreases s.len(),
{
    if f.len() == 0 {
        if s.len() == 0 {
            r
        } else {
            r + seq![s[0]] + replaced(s.drop_first(), f, r)
        }
    } else if s.len() < f.len() {
        s
    } else if s.subrange(0, f.len() as int) == f {
        r + replaced(s.subrange(f.len() as int, s.len() as int), f, r)
    } else {
        seq![s[0]] + replaced(s.drop_first(), f, r)
    }
}

/// Appends `t[lo..hi]` to `v`.
pub fn extend_range(v: &mut Vec<char>, t: &[char], lo: usize, hi: usize)
    requires
        lo <= hi <= t@.len(),
    ensures
        final(v)@ == old(v)@ + t@.subrange(lo as int, hi as int),
{
    let mut k: usize = lo;
    while k < hi
        invariant
            lo <= k <= hi <= t@.len(),
            v@ == old(v)@ + t@.subrange(lo as int, k as int),
        decreases hi - k,
    {
        v.push(t[k]);
        k += 1;
        assert(t@.subrange(lo as int, k as int) == t@.subrange(lo as int, k - 1).push(t@[k - 1]));
    }
}

/// A copy of `t[lo..hi]`.
pub fn copy_range(t: &[char], lo: usize, hi: usize) -> (r: Vec<char>)
    requires
        lo <= hi <= t@.len(),
    ensures
        r@ == t@.subrange(lo as int, hi as int),
{
    let mut r: Vec<char> = Vec::new();
    extend_range(&mut r, t, lo, hi);
    r
}

/// Whether `a` holds exactly the characters of `b`.
pub fn same_chars(a: &[char], b: &[char]) -> (r: bool)
    ensures
        r == (a@ == b@),
{
    if a.len() != b.len() {
        return false;
    }
    let mut k: usize = 0;
    while k < a.len()
        invariant
            a@.len() == b@.len(),
            k <= a@.len(),
            forall|j: int| 0 <= j < k ==> a@[j] == b@[j],
        decreases a@.len() - k,
    {
        if a[k] != b[k] {
            return false;
        }
        k += 1;
    }
    assert(a@ =~= b@);
    true
}

/// `s` with every occurrence of `f` replaced by `r`.
pub fn replace_chars(s: &[char], f: &[char], r: &[char]) -> (out: Vec<char>)
    ensures
        out@ == replaced(s@, f@, r@),
{
    let mut out: Vec<char> = Vec::new();
    let mut i: usize = 0;
    assert(s@.subrange(0, s@.len() as int) == s@);
    while i < s.len()
        invariant
            i <= s@.len(),
            out@ + replaced(s@.subrange(i as int, s@.len() as int), f@, r@) == replaced(s@, f@, r@),
        decreases s@.len() - i,
    {
        let ghost rest = s@.subrange(i as int, s@.len() as int);
        if f.len() > 0 && f.len() <= s.len() - i && occurs_at_pos(s, f, i) {
            assert(rest.subrange(0, f@.len() as int) == s@.subrange(i as int, i + f@.len()));
            assert(rest.subrange(f@.len() as int, rest.len() as int) == s@.subrange(
                i + f@.len(),
                s@.len() as int,
            ));
            extend_range(&mut out, r, 0, r.len());
            i += f.len();
        } else {
            if f.len() == 0 {
                extend_range(&mut out, r, 0, r.len());
            } else if f.len() <= s.len() - i {
                assert(rest.subrange(0, f@.len() as int) == s@.subrange(i as int, i + f@.len()));
            }
            if f.len() > s.len() - i {
                assert(replaced(rest, f@, r@) == rest);
                assert(replaced(rest.drop_first(), f@, r@) == rest.drop_first());
                assert(rest == seq![s@[i as int]] + rest.drop_first());
            }
            assert(rest.drop_first() == s@.subrange(i + 1, s@.len() as int));
            out.push(s[i]);
            i += 1;
        }
    }
    let ghost tail = s@.subrange(i as int, s@.len() as int);
    assert(tail.len() == 0);
    if f.len() == 0 {
        extend_range(&mut out, r, 0, r.len());
    }
    out
}


pub proof fn lemma_contains_self(s: Seq<char>)
    ensures
        contains(s, s),
{
    assert(s.subrange(0, s.len() as int) == s);
    assert(occurs_at(s, s, 0));
}

pub proof fn lemma_contains_trans(a: Seq<char>, b: Seq<char>, m: Seq<char>)
    requires
        contains(a, b),
        contains(b, m),
    ensures
        contains(a, m),
{
    let i = choose|i: int| occurs_at(a, b, i);
    let j = choose|j: int| occurs_at(b, m, j);
    assert(a.subrange(i + j, i + j + m.len()) == b.subrange(j, j + m.len()));
    assert(occurs_at(a, m, i + j));
}

pub proof fn lemma_contains_within(p: Seq<char>, x: Seq<char>, q: Seq<char>, m: Seq<char>)
    requires
        contains(x, m),
    ensures
        contains(p + x + q, m),
{
    let i = choose|i: int| occurs_at(x, m, i);
    let s = p + x + q;
    assert(s.subrange(p.len() + i, p.len() + i + m.len()) == x.subrange(i, i + m.len()));
    assert(occurs_at(s, m, p.len() + i));
}

/// Text without a newline extends the open line.
pub proof fn lemma_line_split_extend(p: Seq<char>, x: Seq<char>)
    requires
        !x.contains('\n'),
    ensures
        line_split(p + x) == (line_split(p).0, line_split(p).1 + x),
    decreases x.len(),
{
    if x.len() == 0 {
        assert(p + x == p);
        assert(line_split(p).1 + x == line_split(p).1);
    } else {
        let y = x.drop_last();
        assert(!y.contains('\n')) by {
            if y.contains('\n') {
                let k = choose|k: int| 0 <= k < y.len() && y[k] == '\n';
                assert(x[k] == '\n');
            }
        }
        lemma_line_split_extend(p, y);
        assert((p + x).drop_last() == p + y);
        assert(x[x.len() - 1] != '\n');
        assert(line_split(p).1 + y.push(x.last()) == line_split(p).1 + x);
    }
}

/// No line of a text holds a newline.
pub proof fn lemma_lines_have_no_newline(s: Seq<char>)
    ensures
        forall|k: int| 0 <= k < line_split(s).0.len() ==> !(#[trigger] line_split(s).0[k]).contains('\n'),
        !line_split(s).1.contains('\n'),
        forall|k: int| 0 <= k < lines_of(s).len() ==> !(#[trigger] lines_of(s)[k]).contains('\n'),
    decreases s.len(),
{
    if s.len() > 0 {
        lemma_lines_have_no_newline(s.drop_last());
        let (d, c) = line_split(s.drop_last());
        if s.last() == '\n' {
            let l = strip_cr(c);
            assert(!l.contains('\n')) by {
                if l.contains('\n') {
                    let k = choose|k: int| 0 <= k < l.len() && l[k] == '\n';
                    assert(c[k] == '\n');
                }
            }
            assert forall|k: int| 0 <= k < d.push(l).len() implies !(#[trigger] d.push(l)[k]).contains('\n') by {
                if k < d.len() {
                    assert(d.push(l)[k] == d[k]);
                }
            }
        } else {
            let c2 = c.push(s.last());
            assert(!c2.contains('\n')) by {
                if c2.contains('\n') {
                    let k = choose|k: int| 0 <= k < c2.len() && c2[k] == '\n';
                    if k < c.len() {
                        assert(c[k] == '\n');
                    }
                }
            }
        }
    }
    let (d, c) = line_split(s);
    if c.len() > 0 {
        assert forall|k: int| 0 <= k < d.push(c).len() implies !(#[trigger] d.push(c)[k]).contains('\n') by {
            if k < d.len() {
                assert(d.push(c)[k] == d[k]);
            }
        }
    }
}

/// Where something was replaced, the replacement stands in the result.
pub proof fn lemma_replaced_shows_replacement(s: Seq<char>, f: Seq<char>, r: Seq<char>)
    requires
        f.len() == 0 || contains(s, f),
    ensures
        contains(replaced(s, f, r), r),
    decreases s.len(),
{
    lemma_contains_self(r);
    if f.len() == 0 {
        if s.len() == 0 {
        } else {
            lemma_contains_within(seq![], r, seq![s[0]] + replaced(s.drop_first(), f, r), r);
            assert(seq![] + r + (seq![s[0]] + replaced(s.drop_first(), f, r)) == replaced(s, f, r));
        }
    } else if s.len() < f.len() {
    } else if s.subrange(0, f.len() as int) == f {
        let rest = replaced(s.subrange(f.len() as int, s.len() as int), f, r);
        lemma_contains_within(seq![], r, rest, r);
        assert(seq![] + r + rest == replaced(s, f, r));
    } else {
        let i = choose|i: int| occurs_at(s, f, i);
        assert(i != 0);
        assert(s.drop_first().subrange(i - 1, i - 1 + f.len()) == s.subrange(i, i + f.len()));
        assert(occurs_at(s.drop_first(), f, i - 1));
        lemma_replaced_shows_replacement(s.drop_first(), f, r);
        let rest = replaced(s.drop_first(), f, r);
        lemma_contains_within(seq![s[0]], rest, seq![], r);
        assert(seq![s[0]] + rest + seq![] == replaced(s, f, r));
    }
}

/// Where nothing matches, replacing changes nothing.
pub proof fn lemma_replaced_nothing(s: Seq<char>, f: Seq<char>, r: Seq<char>)
    requires
        f.len() > 0,
        !contains(s, f),
    ensures
        replaced(s, f, r) == s,
    decreases s.len(),
{
    if s.len() >= f.len() {
        assert(!occurs_at(s, f, 0));
        assert(!contains(s.drop_first(), f)) by {
            if contains(s.drop_first(), f) {
                let i = choose|i: int| occurs_at(s.drop_first(), f, i);
                assert(s.subrange(i + 1, i + 1 + f.len()) == s.drop_first().subrange(i, i + f.len()));
                assert(occurs_at(s, f, i + 1));
            }
        }
        lemma_replaced_nothing(s.drop_first(), f, r);
        assert(seq![s[0]] + s.drop_first() == s);
    }
}

} // verus!
