//! Character-level helpers over `str`: whitespace, trimming, line splitting
//! and substring search, each specified over `Seq<char>`.

use vstd::prelude::*;

verus! {

/// The characters of an optional text.
pub open spec fn opt_view(o: Option<&str>) -> Option<Seq<char>> {
    match o {
        Some(s) => Some(s@),
        None => None,
    }
}

/// The views of a list of strings.
pub open spec fn views(v: Seq<String>) -> Seq<Seq<char>> {
    v.map_values(|s: String| s@)
}

/// Unicode `White_Space`, the property behind `char::is_whitespace`.
pub open spec fn is_ws(c: char) -> bool {
    ||| c == '\t'
    ||| c == '\n'
    ||| c == '\u{0B}'
    ||| c == '\u{0C}'
    ||| c == '\r'
    ||| c == ' '
    ||| c == '\u{85}'
    ||| c == '\u{A0}'
    ||| c == '\u{1680}'
    ||| ('\u{2000}' <= c && c <= '\u{200A}')
    ||| c == '\u{2028}'
    ||| c == '\u{2029}'
    ||| c == '\u{202F}'
    ||| c == '\u{205F}'
    ||| c == '\u{3000}'
}

/// `s` with leading whitespace removed.
pub open spec fn trim_start(s: Seq<char>) -> Seq<char>
    decreases s.len(),
{
    if s.len() > 0 && is_ws(s[0]) {
        trim_start(s.drop_first())
    } else {
        s
    }
}

/// `s` with trailing whitespace removed.
pub open spec fn trim_end(s: Seq<char>) -> Seq<char>
    decreases s.len(),
{
    if s.len() > 0 && is_ws(s.last()) {
        trim_end(s.drop_last())
    } else {
        s
    }
}

/// `s` with whitespace removed at both ends, as `str::trim` does.
pub open spec fn trim(s: Seq<char>) -> Seq<char> {
    trim_end(trim_start(s))
}

/// Whether `c` is a whitespace character.
pub fn char_is_ws(c: char) -> (res: bool)
    ensures
        res == is_ws(c),
{
    c == '\t' || c == '\n' || c == '\u{0B}' || c == '\u{0C}' || c == '\r' || c == ' '
        || c == '\u{85}' || c == '\u{A0}' || c == '\u{1680}' || ('\u{2000}' <= c && c
        <= '\u{200A}') || c == '\u{2028}' || c == '\u{2029}' || c == '\u{202F}' || c
        == '\u{205F}' || c == '\u{3000}'
}

/// The characters of `s`, in order.
pub fn chars_of(s: &str) -> (res: Vec<char>)
    ensures
        res@ == s@,
{
    let mut res: Vec<char> = Vec::new();
    for c in it: s.chars()
        invariant
            res@ == it.seq().take(it.index() as int),
            it.seq() == s@,
    {
        res.push(c);
    }
    res
}


pub proof fn lemma_trim_start_skip(s: Seq<char>, i: int)
    requires
        0 <= i <= s.len(),
        forall|j: int| 0 <= j < i ==> is_ws(#[trigger] s[j]),
        i == s.len() || !is_ws(s[i]),
    ensures
        trim_start(s) == s.skip(i),
    decreases i,
{
    if i > 0 {
        lemma_trim_start_skip(s.drop_first(), i - 1);
        assert(s.drop_first().skip(i - 1) =~= s.skip(i));
    } else {
        assert(s.skip(0) =~= s);
    }
}

pub proof fn lemma_trim_end_take(s: Seq<char>, j: int)
    requires
        0 <= j <= s.len(),
        forall|k: int| j <= k < s.len() ==> is_ws(#[trigger] s[k]),
        j == 0 || !is_ws(s[j - 1]),
    ensures
        trim_end(s) == s.take(j),
    decreases s.len() - j,
{
    if j < s.len() {
        lemma_trim_end_take(s.drop_last(), j);
        assert(s.drop_last().take(j) =~= s.take(j));
    } else {
        assert(s.take(j) =~= s);
    }
}

/// The bounds `(a, b)` of `trim(s@)` inside `s@`.
pub fn trim_bounds(cs: &Vec<char>) -> (res: (usize, usize))
    ensures
        res.0 <= res.1 <= cs@.len(),
        trim(cs@) == cs@.subrange(res.0 as int, res.1 as int),
{
    let n = cs.len();
    let mut a: usize = 0;
    while a < n && char_is_ws(cs[a])
        invariant
            a <= n == cs@.len(),
            forall|j: int| 0 <= j < a ==> is_ws(#[trigger] cs@[j]),
        decreases n - a,
    {
        a = a + 1;
    }
    proof {
        lemma_trim_start_skip(cs@, a as int);
    }
    let mut b: usize = n;
    while b > a && char_is_ws(cs[b - 1])
        invariant
            a <= b <= n == cs@.len(),
            forall|k: int| b <= k < n ==> is_ws(#[trigger] cs@[k]),
        decreases b,
    {
        b = b - 1;
    }
    proof {
        let t = cs@.skip(a as int);
        assert forall|k: int| (b - a) <= k < t.len() implies is_ws(#[trigger] t[k]) by {
            assert(t[k] == cs@[k + a]);
        }
        if b > a {
            assert(t[b - a - 1] == cs@[b - 1]);
        }
        lemma_trim_end_take(t, (b - a) as int);
        assert(t.take((b - a) as int) =~= cs@.subrange(a as int, b as int));
    }
    (a, b)
}

/// `s` without whitespace at either end.
pub fn trim_str(s: &str) -> (res: String)
    ensures
        res@ == trim(s@),
{
    let cs = chars_of(s);
    let (a, b) = trim_bounds(&cs);
    String::from_str(s.substring_char(a, b))
}

/// Position of the first `'\n'` in `s`, or `s.len()` when there is none.
pub open spec fn nl_index(s: Seq<char>) -> nat
    decreases s.len(),
{
    if s.len() == 0 {
        0
    } else if s[0] == '\n' {
        0
    } else {
        1 + nl_index(s.drop_first())
    }
}

pub proof fn lemma_nl_index_bound(s: Seq<char>)
    ensures
        nl_index(s) <= s.len(),
        nl_index(s) < s.len() ==> s[nl_index(s) as int] == '\n',
        forall|j: int| 0 <= j < nl_index(s) ==> s[j] != '\n',
    decreases s.len(),
{
    if s.len() > 0 && s[0] != '\n' {
        lemma_nl_index_bound(s.drop_first());
        assert forall|j: int| 0 <= j < nl_index(s) implies s[j] != '\n' by {
            if j > 0 {
                assert(s[j] == s.drop_first()[j - 1]);
            }
        }
    }
}

pub proof fn lemma_nl_index_at(s: Seq<char>, k: int)
    requires
        0 <= k <= s.len(),
        forall|j: int| 0 <= j < k ==> #[trigger] s[j] != '\n',
        k == s.len() || s[k] == '\n',
    ensures
        nl_index(s) == k,
    decreases k,
{
    if k > 0 {
        assert forall|j: int| 0 <= j < k - 1 implies #[trigger] s.drop_first()[j] != '\n' by {
            assert(s.drop_first()[j] == s[j + 1]);
        }
        lemma_nl_index_at(s.drop_first(), k - 1);
    }
}

/// A line without its `'\r'` terminator, when it has one.
pub open spec fn strip_cr(s: Seq<char>) -> Seq<char> {
    if s.len() > 0 && s.last() == '\r' {
        s.drop_last()
    } else {
        s
    }
}

/// The lines of `s`, as `str::lines` yields them: split at `'\n'`, a `'\r'`
/// before the `'\n'` dropped, and no empty line after a final `'\n'`.
pub open spec fn lines(s: Seq<char>) -> Seq<Seq<char>>
    decreases s.len(),
{
    if s.len() == 0 {
        seq![]
    } else {
        let k = nl_index(s);
        if k >= s.len() {
            seq![s]
        } else {
            seq![strip_cr(s.take(k as int))] + lines(s.skip(k as int + 1))
        }
    }
}

/// Splitting text that is empty or ends with a newline, then appending more
/// text, yields the lines of the first part followed by those of the second.
pub proof fn lemma_lines_append(a: Seq<char>, b: Seq<char>)
    requires
        a.len() == 0 || a.last() == '\n',
    ensures
        lines(a + b) == lines(a) + lines(b),
    decreases a.len(),
{
    if a.len() == 0 {
        assert(a + b =~= b);
        assert(lines(a) =~= Seq::<Seq<char>>::empty());
        assert(lines(b) =~= lines(a) + lines(b));
    } else {
        let k = nl_index(a);
        lemma_nl_index_bound(a);
        if k >= a.len() {
            assert(a[a.len() - 1] == '\n');
            assert(false);
        }
        let ab = a + b;
        assert forall|j: int| 0 <= j < k implies #[trigger] ab[j] != '\n' by {
            assert(ab[j] == a[j]);
        }
        lemma_nl_index_at(ab, k as int);
        assert(ab.take(k as int) =~= a.take(k as int));
        assert(ab.skip(k as int + 1) =~= a.skip(k as int + 1) + b);
        let rest = a.skip(k as int + 1);
        if rest.len() > 0 {
            assert(rest.last() == a.last());
        }
        lemma_lines_append(rest, b);
        assert(lines(ab) =~= lines(a) + lines(b));
    }
}

/// A newline appended to non-empty text that lacks one changes its lines at
/// most by dropping a final `'\r'` from the last line.
pub proof fn lemma_lines_push_newline(a: Seq<char>)
    requires
        a.len() > 0,
        a.last() != '\n',
    ensures
        lines(a.push('\n')).len() == lines(a).len(),
        lines(a).len() > 0,
        forall|i: int|
            0 <= i < lines(a).len() - 1 ==> #[trigger] lines(a.push('\n'))[i] == lines(a)[i],
        lines(a.push('\n'))[lines(a).len() - 1] == strip_cr(lines(a)[lines(a).len() - 1]),
    decreases a.len(),
{
    let an = a.push('\n');
    let k = nl_index(a);
    lemma_nl_index_bound(a);
    if k >= a.len() {
        assert forall|j: int| 0 <= j < a.len() implies #[trigger] an[j] != '\n' by {
            assert(an[j] == a[j]);
        }
        lemma_nl_index_at(an, a.len() as int);
        assert(an.take(a.len() as int) =~= a);
        assert(an.skip(a.len() as int + 1) =~= Seq::<char>::empty());
        assert(lines(an.skip(a.len() as int + 1)) =~= Seq::<Seq<char>>::empty());
        assert(lines(an) =~= seq![strip_cr(a)]);
    } else {
        assert forall|j: int| 0 <= j < k implies #[trigger] an[j] != '\n' by {
            assert(an[j] == a[j]);
        }
        lemma_nl_index_at(an, k as int);
        assert(an.take(k as int) =~= a.take(k as int));
        let rest = a.skip(k as int + 1);
        assert(rest.len() > 0) by {
            if rest.len() == 0 {
                assert(k == a.len() - 1);
            }
        }
        assert(rest.last() == a.last());
        assert(an.skip(k as int + 1) =~= rest.push('\n'));
        lemma_lines_push_newline(rest);
        assert forall|i: int|
            0 <= i < lines(a).len() - 1 implies #[trigger] lines(an)[i] == lines(a)[i] by {
            if i > 0 {
                assert(lines(an)[i] == lines(rest.push('\n'))[i - 1]);
                assert(lines(a)[i] == lines(rest)[i - 1]);
            }
        }
        assert(lines(an)[lines(a).len() - 1] == lines(rest.push('\n'))[lines(rest).len() - 1]);
    }
}

/// The lines of a single newline-terminated line.
pub proof fn lemma_lines_single(e: Seq<char>)
    requires
        forall|j: int| 0 <= j < e.len() ==> #[trigger] e[j] != '\n',
        e.len() == 0 || e.last() != '\r',
    ensures
        lines(e.push('\n')) == seq![e],
{
    let en = e.push('\n');
    assert forall|j: int| 0 <= j < e.len() implies #[trigger] en[j] != '\n' by {
        assert(en[j] == e[j]);
    }
    lemma_nl_index_at(en, e.len() as int);
    assert(en.take(e.len() as int) =~= e);
    assert(en.skip(e.len() as int + 1) =~= Seq::<char>::empty());
    assert(lines(en.skip(e.len() as int + 1)) =~= Seq::<Seq<char>>::empty());
    assert(lines(en) =~= seq![e]);
}

proof fn lemma_trim_start_push(y: Seq<char>, c: char)
    ensures
        trim_start(y.push(c)) == if trim_start(y).len() == 0 {
            trim_start(seq![c])
        } else {
            trim_start(y).push(c)
        },
    decreases y.len(),
{
    if y.len() == 0 {
        assert(y.push(c) =~= seq![c]);
    } else {
        assert(y.push(c)[0] == y[0]);
        if is_ws(y[0]) {
            assert(y.push(c).drop_first() =~= y.drop_first().push(c));
            lemma_trim_start_push(y.drop_first(), c);
        }
    }
}

/// Trimming ignores a final `'\r'`.
pub proof fn lemma_trim_strip_cr(x: Seq<char>)
    ensures
        trim(strip_cr(x)) == trim(x),
{
    if x.len() > 0 && x.last() == '\r' {
        let y = x.drop_last();
        assert(y.push('\r') =~= x);
        lemma_trim_start_push(y, '\r');
        if trim_start(y).len() == 0 {
            assert(seq!['\r'].drop_first() =~= Seq::<char>::empty());
            assert(trim_start(seq!['\r']) == trim_start(Seq::<char>::empty()));
        } else {
            assert(trim_start(y).push('\r').drop_last() =~= trim_start(y));
        }
    }
}

/// A sequence with no whitespace at either end is its own trim.
pub proof fn lemma_trim_id(s: Seq<char>)
    requires
        s.len() == 0 || (!is_ws(s[0]) && !is_ws(s.last())),
    ensures
        trim(s) == s,
{
    lemma_trim_start_skip(s, 0);
    assert(s.skip(0) =~= s);
    lemma_trim_end_take(s, s.len() as int);
    assert(s.take(s.len() as int) =~= s);
}

/// Each entry followed by a newline, concatenated.
pub open spec fn terminated_lines(entries: Seq<Seq<char>>) -> Seq<char>
    decreases entries.len(),
{
    if entries.len() == 0 {
        seq![]
    } else {
        terminated_lines(entries.drop_last()) + entries.last() + seq!['\n']
    }
}

/// A line that envlock can write on its own: no newline inside, no final
/// `'\r'`, and no whitespace at either end.
pub open spec fn plain_line(e: Seq<char>) -> bool {
    &&& e.len() > 0
    &&& forall|j: int| 0 <= j < e.len() ==> #[trigger] e[j] != '\n'
    &&& !is_ws(e[0])
    &&& !is_ws(e.last())
}

pub proof fn lemma_terminated_lines(es: Seq<Seq<char>>)
    requires
        forall|i: int| 0 <= i < es.len() ==> plain_line(#[trigger] es[i]),
    ensures
        lines(terminated_lines(es)) == es,
        es.len() == 0 ==> terminated_lines(es).len() == 0,
        es.len() > 0 ==> terminated_lines(es).len() > 0 && terminated_lines(es).last() == '\n',
    decreases es.len(),
{
    if es.len() == 0 {
        assert(lines(terminated_lines(es)) =~= es);
    } else {
        let init = es.drop_last();
        assert forall|i: int| 0 <= i < init.len() implies plain_line(#[trigger] init[i]) by {
            assert(init[i] == es[i]);
        }
        lemma_terminated_lines(init);
        let e = es.last();
        assert(plain_line(es[es.len() - 1]));
        assert(terminated_lines(es) =~= terminated_lines(init) + e.push('\n'));
        lemma_lines_append(terminated_lines(init), e.push('\n'));
        lemma_lines_single(e);
        assert(lines(terminated_lines(es)) =~= es);
    }
}

/// A sequence without whitespace is its own trim.
pub proof fn lemma_trim_no_ws(s: Seq<char>)
    requires
        forall|i: int| 0 <= i < s.len() ==> !is_ws(#[trigger] s[i]),
    ensures
        trim(s) == s,
{
    if s.len() > 0 {
        assert(!is_ws(s[s.len() - 1]));
    }
    lemma_trim_id(s);
}

/// Trimming the start keeps a suffix that starts with no whitespace.
pub proof fn lemma_trim_start_shape(s: Seq<char>)
    ensures
        trim_start(s).len() == 0 || !is_ws(trim_start(s)[0]),
        trim_start(s).len() <= s.len(),
        trim_start(s) == s.skip(s.len() - trim_start(s).len()),
    decreases s.len(),
{
    if s.len() > 0 && is_ws(s[0]) {
        lemma_trim_start_shape(s.drop_first());
        assert(s.drop_first().skip(s.drop_first().len() - trim_start(s).len()) =~= s.skip(
            s.len() - trim_start(s).len(),
        ));
    } else {
        assert(s.skip(0) =~= s);
    }
}

/// Trimming the end keeps a prefix that ends with no whitespace.
pub proof fn lemma_trim_end_shape(s: Seq<char>)
    ensures
        trim_end(s).len() == 0 || !is_ws(trim_end(s).last()),
        trim_end(s).len() <= s.len(),
        trim_end(s) == s.take(trim_end(s).len() as int),
    decreases s.len(),
{
    if s.len() > 0 && is_ws(s.last()) {
        lemma_trim_end_shape(s.drop_last());
        assert(s.drop_last().take(trim_end(s).len() as int) =~= s.take(trim_end(s).len() as int));
    } else {
        assert(s.take(s.len() as int) =~= s);
    }
}

/// A trimmed sequence is empty or has no whitespace at either end, so
/// trimming it again changes nothing.
pub proof fn lemma_trim_idempotent(s: Seq<char>)
    ensures
        trim(s).len() == 0 || (!is_ws(trim(s)[0]) && !is_ws(trim(s).last())),
        trim(trim(s)) == trim(s),
{
    let a = trim_start(s);
    lemma_trim_start_shape(s);
    lemma_trim_end_shape(a);
    let t = trim_end(a);
    if t.len() > 0 {
        assert(t[0] == a[0]);
    }
    lemma_trim_id(t);
}

/// What occurs in a piece of `s` occurs in `s`.
pub proof fn lemma_sub_of_subrange(s: Seq<char>, p: int, q: int, t: Seq<char>)
    requires
        0 <= p <= q <= s.len(),
        has_sub(s.subrange(p, q), t),
    ensures
        has_sub(s, t),
{
    let u = s.subrange(p, q);
    let i = choose|i: int| #[trigger] occurs_at(u, t, i);
    assert(s.subrange(p + i, p + i + t.len()) =~= u.subrange(i, i + t.len()));
    assert(occurs_at(s, t, p + i));
}

/// What occurs in the trimmed text occurs in the text.
pub proof fn lemma_sub_of_trim(s: Seq<char>, t: Seq<char>)
    requires
        has_sub(trim(s), t),
    ensures
        has_sub(s, t),
{
    let a = trim_start(s);
    lemma_trim_start_shape(s);
    lemma_trim_end_shape(a);
    let p = s.len() - a.len();
    let q = p + trim_end(a).len();
    assert(trim(s) =~= s.subrange(p, q));
    lemma_sub_of_subrange(s, p, q, t);
}

/// A line without a newline, trimmed, is a plain line unless it is blank.
pub proof fn lemma_trim_plain(l: Seq<char>)
    requires
        forall|j: int| 0 <= j < l.len() ==> #[trigger] l[j] != '\n',
        trim(l).len() > 0,
    ensures
        plain_line(trim(l)),
{
    lemma_trim_idempotent(l);
    let a = trim_start(l);
    lemma_trim_start_shape(l);
    lemma_trim_end_shape(a);
    let t = trim(l);
    let p = l.len() - a.len();
    assert forall|j: int| 0 <= j < t.len() implies #[trigger] t[j] != '\n' by {
        assert(t[j] == a[j]);
        assert(a[j] == l[p + j]);
    }
}

/// No line of `s` holds a newline.
pub proof fn lemma_lines_no_newline(s: Seq<char>)
    ensures
        forall|i: int, j: int|
            0 <= i < lines(s).len() && 0 <= j < lines(s)[i].len() ==> #[trigger] lines(s)[i][j]
                != '\n',
    decreases s.len(),
{
    if s.len() > 0 {
        let k = nl_index(s) as int;
        lemma_nl_index_bound(s);
        if k >= s.len() {
            assert(lines(s) == seq![s]);
        } else {
            let rest = s.skip(k + 1);
            lemma_lines_no_newline(rest);
            let seg = strip_cr(s.take(k));
            assert(lines(s) == seq![seg] + lines(rest));
            assert forall|i: int, j: int|
                0 <= i < lines(s).len() && 0 <= j < lines(s)[i].len() implies #[trigger] lines(s)[i][j]
                    != '\n' by {
                if i == 0 {
                    assert(lines(s)[0][j] == s[j]);
                } else {
                    assert(lines(s)[i] == lines(rest)[i - 1]);
                }
            }
        }
    }
}

/// Every line of `s` is a piece of `s`.
pub proof fn lemma_line_sub(s: Seq<char>, i: int, t: Seq<char>)
    requires
        0 <= i < lines(s).len(),
        has_sub(lines(s)[i], t),
    ensures
        has_sub(s, t),
    decreases s.len(),
{
    let k = nl_index(s) as int;
    lemma_nl_index_bound(s);
    if k >= s.len() {
        assert(lines(s) == seq![s]);
    } else {
        let rest = s.skip(k + 1);
        assert(lines(s) == seq![strip_cr(s.take(k))] + lines(rest));
        if i == 0 {
            let l = strip_cr(s.take(k));
            assert(l =~= s.subrange(0, l.len() as int));
            lemma_sub_of_subrange(s, 0, l.len() as int, t);
        } else {
            assert(lines(s)[i] == lines(rest)[i - 1]);
            lemma_line_sub(rest, i - 1, t);
            assert(rest =~= s.subrange(k + 1, s.len() as int));
            lemma_sub_of_subrange(s, k + 1, s.len() as int, t);
        }
    }
}

/// The lines of `s`.
pub fn split_lines(s: &str) -> (res: Vec<String>)
    ensures
        res@.len() == lines(s@).len(),
        forall|i: int| 0 <= i < res@.len() ==> #[trigger] res@[i]@ == lines(s@)[i],
{
    let cs = chars_of(s);
    let n = cs.len();
    let mut res: Vec<String> = Vec::new();
    let mut start: usize = 0;
    let mut i: usize = 0;
    assert(s@.skip(0) =~= s@);
    while i < n
        invariant
            start <= i <= n == cs@.len(),
            cs@ == s@,
            forall|j: int| start <= j < i ==> #[trigger] cs@[j] != '\n',
            res@.len() + lines(s@.skip(start as int)).len() == lines(s@).len(),
            forall|k: int| 0 <= k < res@.len() ==> #[trigger] res@[k]@ == lines(s@)[k],
            forall|k: int|
                0 <= k < lines(s@.skip(start as int)).len() ==> #[trigger] lines(
                    s@.skip(start as int),
                )[k] == lines(s@)[res@.len() + k],
        decreases n - i,
    {
        if cs[i] == '\n' {
            let ghost t = s@.skip(start as int);
            proof {
                assert forall|j: int| 0 <= j < i - start implies #[trigger] t[j] != '\n' by {
                    assert(t[j] == cs@[j + start]);
                }
                lemma_nl_index_at(t, (i - start) as int);
                assert(t.take((i - start) as int) =~= s@.subrange(start as int, i as int));
                assert(t.skip((i - start) + 1) =~= s@.skip(i + 1));
            }
            let mut end = i;
            if end > start && cs[end - 1] == '\r' {
                end = end - 1;
            }
            let line = String::from_str(s.substring_char(start, end));
            proof {
                assert(line@ == strip_cr(t.take((i - start) as int)));
                assert(lines(t) == seq![line@] + lines(s@.skip(i + 1)));
            }
            let ghost old_len = res@.len();
            proof {
                assert(lines(t)[0] == line@);
                assert(lines(s@)[old_len as int] == line@);
            }
            res.push(line);
            start = i + 1;
            proof {
                assert(res@[old_len as int]@ == lines(s@)[old_len as int]);
                assert forall|k: int|
                    0 <= k < lines(s@.skip(start as int)).len() implies #[trigger] lines(
                    s@.skip(start as int),
                )[k] == lines(s@)[res@.len() + k] by {
                    assert(lines(t)[k + 1] == lines(s@.skip(start as int))[k]);
                }
            }
        }
        i = i + 1;
    }
    if start < n {
        let ghost t = s@.skip(start as int);
        proof {
            assert forall|j: int| 0 <= j < n - start implies #[trigger] t[j] != '\n' by {
                assert(t[j] == cs@[j + start]);
            }
            lemma_nl_index_at(t, (n - start) as int);
            assert(lines(t) == seq![t]);
        }
        let line = String::from_str(s.substring_char(start, n));
        assert(line@ =~= t);
        let ghost old_len = res@.len();
        assert(lines(t)[0] == line@);
        assert(lines(s@)[old_len as int] == line@);
        res.push(line);
        assert(res@[old_len as int]@ == lines(s@)[old_len as int]);
    } else {
        assert(s@.skip(start as int) =~= Seq::<char>::empty());
    }
    res
}


/// Whether `t` occurs in `s` at position `i`.
pub open spec fn occurs_at(s: Seq<char>, t: Seq<char>, i: int) -> bool {
    0 <= i && i + t.len() <= s.len() && s.subrange(i, i + t.len()) == t
}

/// Whether `t` occurs anywhere in `s`, as `str::contains` tests.
pub open spec fn has_sub(s: Seq<char>, t: Seq<char>) -> bool {
    exists|i: int| #[trigger] occurs_at(s, t, i)
}

/// Whether `s` begins with `t`.
pub open spec fn has_prefix(s: Seq<char>, t: Seq<char>) -> bool {
    t.len() <= s.len() && s.take(t.len() as int) == t
}

/// Whether `s` ends with `t`.
pub open spec fn has_suffix(s: Seq<char>, t: Seq<char>) -> bool {
    t.len() <= s.len() && s.skip(s.len() - t.len()) == t
}

/// Whether `cs@` holds `ts@` at position `i`.
fn match_at(cs: &Vec<char>, ts: &Vec<char>, i: usize) -> (res: bool)
    requires
        i + ts@.len() <= cs@.len(),
    ensures
        res == occurs_at(cs@, ts@, i as int),
{
    let m = ts.len();
    let mut j: usize = 0;
    while j < m
        invariant
            j <= m == ts@.len(),
            i + m <= cs.len(),
            forall|k: int| 0 <= k < j ==> cs@[i + k] == ts@[k],
        decreases m - j,
    {
        if cs[i + j] != ts[j] {
            assert(cs@.subrange(i as int, i + m)[j as int] != ts@[j as int]);
            return false;
        }
        j = j + 1;
    }
    assert(cs@.subrange(i as int, i + m) =~= ts@);
    true
}

/// Whether `t` occurs in `s`.
pub fn contains_str(s: &str, t: &str) -> (res: bool)
    ensures
        res == has_sub(s@, t@),
{
    let cs = chars_of(s);
    let ts = chars_of(t);
    let n = cs.len();
    let m = ts.len();
    if m > n {
        return false;
    }
    if m == 0 {
        assert(s@.subrange(0, 0) =~= t@);
        assert(occurs_at(s@, t@, 0));
        return true;
    }
    let mut i: usize = 0;
    while i <= n - m
        invariant
            0 < m <= n,
            n == cs@.len(),
            m == ts@.len(),
            cs@ == s@,
            ts@ == t@,
            forall|k: int| 0 <= k < i ==> !#[trigger] occurs_at(s@, t@, k),
        decreases n - m + 1 - i,
    {
        if match_at(&cs, &ts, i) {
            assert(occurs_at(s@, t@, i as int));
            return true;
        }
        i = i + 1;
    }
    false
}

/// Whether `s` begins with `t`.
pub fn starts_with_str(s: &str, t: &str) -> (res: bool)
    ensures
        res == has_prefix(s@, t@),
{
    let cs = chars_of(s);
    let ts = chars_of(t);
    if ts.len() > cs.len() {
        return false;
    }
    let r = match_at(&cs, &ts, 0);
    assert(s@.subrange(0, t@.len() as int) =~= s@.take(t@.len() as int));
    r
}

/// Whether `s` ends with `t`.
pub fn ends_with_str(s: &str, t: &str) -> (res: bool)
    ensures
        res == has_suffix(s@, t@),
{
    let cs = chars_of(s);
    let ts = chars_of(t);
    if ts.len() > cs.len() {
        return false;
    }
    let r = match_at(&cs, &ts, cs.len() - ts.len());
    assert(s@.subrange(s@.len() - t@.len(), s@.len() as int) =~= s@.skip(
        s@.len() - t@.len(),
    ));
    r
}

/// Whether `a` and `b` hold the same characters.
pub fn str_eq(a: &str, b: &str) -> (res: bool)
    ensures
        res == (a@ == b@),
{
    let cs = chars_of(a);
    let ts = chars_of(b);
    if cs.len() != ts.len() {
        return false;
    }
    let r = match_at(&cs, &ts, 0);
    assert(a@.subrange(0, b@.len() as int) =~= a@);
    r
}

/// The decimal digits of `n`, most significant first.
pub open spec fn decimal(n: nat) -> Seq<char>
    decreases n,
{
    if n < 10 {
        seq![digit_char(n)]
    } else {
        decimal(n / 10) + seq![digit_char(n % 10)]
    }
}

/// The character of the decimal digit `d`.
pub open spec fn digit_char(d: nat) -> char {
    if d == 0 { '0' }
    else if d == 1 { '1' }
    else if d == 2 { '2' }
    else if d == 3 { '3' }
    else if d == 4 { '4' }
    else if d == 5 { '5' }
    else if d == 6 { '6' }
    else if d == 7 { '7' }
    else if d == 8 { '8' }
    else { '9' }
}

fn digit_str(d: usize) -> (res: &'static str)
    requires
        d < 10,
    ensures
        res@ == seq![digit_char(d as nat)],
{
    proof {
        reveal_strlit("0");
        reveal_strlit("1");
        reveal_strlit("2");
        reveal_strlit("3");
        reveal_strlit("4");
        reveal_strlit("5");
        reveal_strlit("6");
        reveal_strlit("7");
        reveal_strlit("8");
        reveal_strlit("9");
    }
    if d == 0 { "0" }
    else if d == 1 { "1" }
    else if d == 2 { "2" }
    else if d == 3 { "3" }
    else if d == 4 { "4" }
    else if d == 5 { "5" }
    else if d == 6 { "6" }
    else if d == 7 { "7" }
    else if d == 8 { "8" }
    else { "9" }
}

/// The octal digits of `n`, most significant first.
pub open spec fn octal(n: nat) -> Seq<char>
    decreases n,
{
    if n < 8 {
        seq![digit_char(n)]
    } else {
        octal(n / 8) + seq![digit_char(n % 8)]
    }
}

/// `n` written in octal.
pub fn u32_to_octal(n: u32) -> (res: String)
    ensures
        res@ == octal(n as nat),
    decreases n,
{
    if n < 8 {
        String::from_str(digit_str(n as usize))
    } else {
        let mut s = u32_to_octal(n / 8);
        s.append(digit_str((n % 8) as usize));
        s
    }
}

/// `a` followed by `b`.
pub fn cat2(a: &str, b: &str) -> (res: String)
    ensures
        res@ == a@ + b@,
{
    let mut s = String::from_str(a);
    s.append(b);
    s
}

/// `a`, `b` and `c`, one after the other.
pub fn cat3(a: &str, b: &str, c: &str) -> (res: String)
    ensures
        res@ == a@ + b@ + c@,
{
    let mut s = cat2(a, b);
    s.append(c);
    s
}

/// `a`, `b`, `c` and `d`, one after the other.
pub fn cat4(a: &str, b: &str, c: &str, d: &str) -> (res: String)
    ensures
        res@ == a@ + b@ + c@ + d@,
{
    let mut s = cat3(a, b, c);
    s.append(d);
    s
}

/// Appends the line `line` to `out`.
pub fn push_line(out: &mut Vec<String>, line: &str)
    ensures
        final(out)@.len() == old(out)@.len() + 1,
        forall|k: int| 0 <= k < old(out)@.len() ==> #[trigger] final(out)@[k] == old(out)@[k],
        final(out)@[old(out)@.len() as int]@ == line@,
{
    out.push(String::from_str(line));
}

/// The items of `ls` with `sep` between each two.
pub open spec fn join_with(ls: Seq<Seq<char>>, sep: Seq<char>) -> Seq<char>
    decreases ls.len(),
{
    if ls.len() == 0 {
        seq![]
    } else if ls.len() == 1 {
        ls[0]
    } else {
        join_with(ls.drop_last(), sep) + sep + ls.last()
    }
}

/// The items of `items` with `sep` between each two.
pub fn join_strings(items: &Vec<String>, sep: &str) -> (res: String)
    ensures
        res@ == join_with(views(items@), sep@),
{
    let ghost vs = views(items@);
    let mut out = String::new();
    assert(vs.take(0) =~= Seq::<Seq<char>>::empty());
    for i in 0..items.len()
        invariant
            vs == views(items@),
            out@ == join_with(vs.take(i as int), sep@),
    {
        assert(vs.take(i + 1).drop_last() =~= vs.take(i as int));
        assert(vs.take(i + 1).last() == items@[i as int]@);
        if i > 0 {
            out.append(sep);
        }
        out.append(items[i].as_str());
        assert(out@ =~= join_with(vs.take(i + 1), sep@));
    }
    assert(vs.take(vs.len() as int) =~= vs);
    out
}

/// `n` written in decimal.
pub fn usize_to_decimal(n: usize) -> (res: String)
    ensures
        res@ == decimal(n as nat),
    decreases n,
{
    if n < 10 {
        String::from_str(digit_str(n))
    } else {
        let mut s = usize_to_decimal(n / 10);
        s.append(digit_str(n % 10));
        s
    }
}

} // verus!
