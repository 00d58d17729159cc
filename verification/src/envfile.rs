//! Reading `.env` content: the checks envlock makes around the dotenvy
//! parser, line by line with line numbers, or over the whole content.

use vstd::prelude::*;
use vstd::utf8::{decode_utf8, encode_scalar, encode_utf8, valid_utf8};
use crate::envmap::keys_of;
use crate::error::Error;
use crate::text::{contains_str, has_sub, lines, split_lines, trim, trim_str, views};

verus! {

/// A key that dotenvy accepts: an ASCII letter or `_`, then ASCII letters,
/// digits, `_` and `.`.
pub open spec fn is_env_key(k: Seq<char>) -> bool {
    &&& k.len() > 0
    &&& (('a' <= k[0] && k[0] <= 'z') || ('A' <= k[0] && k[0] <= 'Z') || k[0] == '_')
    &&& forall|i: int|
        0 <= i < k.len() ==> {
            let c = #[trigger] k[i];
            ('a' <= c && c <= 'z') || ('A' <= c && c <= 'Z') || ('0' <= c && c <= '9') || c
                == '_' || c == '.'
        }
}

/// What dotenvy yields for one item of `.env` content: a key and value, or
/// the text of its error.
pub type EnvItem = Result<(String, String), String>;

/// For each item that `dotenvy::from_read_iter` yields over `content`, in
/// order: the item's key and value, or the message of its error.
pub uninterp spec fn dotenvy_shape(content: Seq<u8>) -> Seq<Result<(Seq<char>, Seq<char>), Seq<char>>>;

/// The key, or the error message, of each item of `sh`.
pub open spec fn key_shape(sh: Seq<Result<(Seq<char>, Seq<char>), Seq<char>>>) -> Seq<Result<Seq<char>, Seq<char>>> {
    sh.map_values(
        |it: Result<(Seq<char>, Seq<char>), Seq<char>>|
            match it {
                Ok(kv) => Ok::<Seq<char>, Seq<char>>(kv.0),
                Err(m) => Err::<Seq<char>, Seq<char>>(m),
            },
    )
}

/// For each item that `dotenvy::from_read_iter` yields over `content`, in
/// order: the item's key, or the message of its error.
pub open spec fn dotenvy_keys(content: Seq<u8>) -> Seq<Result<Seq<char>, Seq<char>>> {
    key_shape(dotenvy_shape(content))
}

/// The key and value, or the error message, of each of `items`.
pub open spec fn pairs_of_items(items: Seq<EnvItem>) -> Seq<Result<(Seq<char>, Seq<char>), Seq<char>>> {
    items.map_values(
        |it: EnvItem|
            match it {
                Ok(kv) => Ok::<(Seq<char>, Seq<char>), Seq<char>>((kv.0@, kv.1@)),
                Err(m) => Err::<(Seq<char>, Seq<char>), Seq<char>>(m@),
            },
    )
}

/// The byte of `$`, the only character that makes dotenvy read the
/// environment.
pub open spec fn dollar_byte() -> u8 {
    36u8
}

/// The key, or the error message, of each of `items`.
pub open spec fn shape_of(items: Seq<EnvItem>) -> Seq<Result<Seq<char>, Seq<char>>> {
    items.map_values(
        |it: EnvItem|
            match it {
                Ok(kv) => Ok::<Seq<char>, Seq<char>>(kv.0@),
                Err(m) => Err::<Seq<char>, Seq<char>>(m@),
            },
    )
}

/// Every item that `dotenvy::from_read_iter` yields over `content`, in
/// order, with each error turned into its message.
///
/// Which items come, their keys and their errors follow from the content
/// alone, and every key is well formed, as dotenvy's key parser ensures.
/// The values follow from the content alone when it holds no `$`: dotenvy
/// reads the process environment only to substitute a `$NAME` (apart from
/// an empty name, which no environment holds). So the values are stated
/// only for such content; for other content nothing is said of them.
#[verifier::external_body]
fn dotenvy_items(content: &[u8]) -> (res: Vec<EnvItem>)
    ensures
        shape_of(res@) == dotenvy_keys(content@),
        !content@.contains(dollar_byte()) ==> pairs_of_items(res@) == dotenvy_shape(content@),
        forall|i: int|
            0 <= i < res@.len() ==> (#[trigger] res@[i] matches Ok(kv) ==> is_env_key(kv.0@)),
{
    dotenvy::from_read_iter(content).map(|item| item.map_err(|e| e.to_string())).collect()
}

/// The UTF-8 encoding of a scalar other than `$` holds no `$` byte: a
/// one-byte encoding is the scalar itself, and every byte of a longer one
/// has its high bit set.
proof fn lemma_scalar_no_dollar(v: u32)
    requires
        v != 36,
    ensures
        !encode_scalar(v).contains(dollar_byte()),
{
    let e = encode_scalar(v);
    assert(v <= 0x7F ==> ((v & 0x7F) as u8) != 36u8) by (bit_vector)
        requires
            v != 36u32,
    ;
    assert(((v >> 6) & 0x1F) as u8 <= 0xFFu8);
    assert(forall|x: u8| #![trigger (0x80u8 | x)] (0x80u8 | x) >= 0x80u8) by (bit_vector);
    assert(forall|x: u8| #![trigger (0xC0u8 | x)] (0xC0u8 | x) >= 0x80u8) by (bit_vector);
    assert(forall|x: u8| #![trigger (0xE0u8 | x)] (0xE0u8 | x) >= 0x80u8) by (bit_vector);
    assert(forall|x: u8| #![trigger (0xF0u8 | x)] (0xF0u8 | x) >= 0x80u8) by (bit_vector);
    assert forall|i: int| 0 <= i < e.len() implies e[i] != dollar_byte() by {}
}

/// The UTF-8 encoding of a text without `$` holds no `$` byte.
pub proof fn lemma_encode_no_dollar(t: Seq<char>)
    requires
        !t.contains('$'),
    ensures
        !encode_utf8(t).contains(dollar_byte()),
    decreases t.len(),
{
    if t.len() > 0 {
        let rest = t.drop_first();
        assert(!rest.contains('$')) by {
            if rest.contains('$') {
                let i = choose|i: int| 0 <= i < rest.len() && rest[i] == '$';
                assert(t[i + 1] == '$');
            }
        }
        lemma_encode_no_dollar(rest);
        assert(t[0] != '$');
        vstd::utf8::char_u32_cast(t[0], t[0] as u32);
        vstd::utf8::char_u32_cast('$', '$' as u32);
        assert(('$' as u32) == 36u32);
        assert((t[0] as u32) != 36u32);
        lemma_scalar_no_dollar(t[0] as u32);
        let a = encode_scalar(t[0] as u32);
        let b = encode_utf8(rest);
        assert(encode_utf8(t) == a + b);
        if (a + b).contains(dollar_byte()) {
            let i = choose|i: int| 0 <= i < (a + b).len() && (a + b)[i] == dollar_byte();
            if i < a.len() {
                assert(a[i] == dollar_byte());
            } else {
                assert(b[i - a.len()] == dollar_byte());
            }
        }
    }
}

/// `bytes` read as UTF-8 text, as `std::str::from_utf8` reads it.
#[verifier::external_body]
fn utf8_text(bytes: &[u8]) -> (res: Option<String>)
    ensures
        res is Some <==> valid_utf8(bytes@),
        res matches Some(s) ==> s@ == decode_utf8(bytes@),
{
    std::str::from_utf8(bytes).ok().map(|s| s.to_string())
}

/// The keys of `sh` when none of its items is an error; otherwise the
/// first error.
pub open spec fn shape_collect(sh: Seq<Result<Seq<char>, Seq<char>>>) -> Result<Seq<Seq<char>>, Seq<char>>
    decreases sh.len(),
{
    if sh.len() == 0 {
        Ok(seq![])
    } else {
        match shape_collect(sh.drop_last()) {
            Err(m) => Err(m),
            Ok(ks) => match sh.last() {
                Ok(k) => Ok(ks.push(k)),
                Err(m) => Err(m),
            },
        }
    }
}

/// The keys among `sh`, errors left out.
pub open spec fn shape_keys(sh: Seq<Result<Seq<char>, Seq<char>>>) -> Seq<Seq<char>>
    decreases sh.len(),
{
    if sh.len() == 0 {
        seq![]
    } else {
        shape_keys(sh.drop_last()) + match sh.last() {
            Ok(k) => seq![k],
            Err(_) => Seq::<Seq<char>>::empty(),
        }
    }
}

/// Whether a trimmed line is blank or a comment.
pub open spec fn is_skipped(t: Seq<char>) -> bool {
    t.len() == 0 || t[0] == '#'
}

/// What dotenvy makes of the first item of the text `t`: its key, its
/// error, or nothing when it yields no item.
pub open spec fn first_item(t: Seq<char>) -> Option<Result<Seq<char>, Seq<char>>> {
    let sh = dotenvy_keys(encode_utf8(t));
    if sh.len() == 0 {
        None
    } else {
        Some(sh[0])
    }
}

/// What dotenvy yields first for the text `t`: its key and value, its
/// error, or nothing when it yields no item.
pub open spec fn first_entry(t: Seq<char>) -> Option<Result<(Seq<char>, Seq<char>), Seq<char>>> {
    let sh = dotenvy_shape(encode_utf8(t));
    if sh.len() == 0 {
        None
    } else {
        Some(sh[0])
    }
}

/// Why a line of `.env` content was refused, with its (1-based) number and
/// its trimmed text.
pub enum LineFault {
    /// The line holds no `=`.
    MissingEquals(nat, Seq<char>),
    /// dotenvy refused the line, for the given reason.
    Rejected(nat, Seq<char>, Seq<char>),
    /// dotenvy found no assignment on the line.
    NoAssignment(nat, Seq<char>),
}

/// Reading the first `n` lines of `ls` one by one: the keys that their
/// assignments set, in order, or the first line that is refused. Blank
/// lines and comments are skipped; a line without `=` is refused before
/// dotenvy sees it.
pub open spec fn spec_parse_lines(ls: Seq<Seq<char>>, n: int) -> Result<Seq<Seq<char>>, LineFault>
    decreases n,
{
    if n <= 0 {
        Ok(seq![])
    } else {
        match spec_parse_lines(ls, n - 1) {
            Err(f) => Err(f),
            Ok(ks) => {
                let t = trim(ls[n - 1]);
                if is_skipped(t) {
                    Ok(ks)
                } else if !has_sub(t, "="@) {
                    Err(LineFault::MissingEquals(n as nat, t))
                } else {
                    match first_item(t) {
                        None => Err(LineFault::NoAssignment(n as nat, t)),
                        Some(Err(m)) => Err(LineFault::Rejected(n as nat, t, m)),
                        Some(Ok(k)) => Ok(ks.push(k)),
                    }
                }
            },
        }
    }
}

/// Whether `e` is the error for the refused line `f`.
pub open spec fn reports_fault(e: Error, f: LineFault) -> bool {
    match f {
        LineFault::MissingEquals(n, t) => e matches Error::MissingEquals(n2, t2) && n2 == n && t2@ == t,
        LineFault::Rejected(n, t, m) => e matches Error::LineRejected(n2, t2, m2) && n2 == n && t2@ == t
            && m2@ == m,
        LineFault::NoAssignment(n, t) => e matches Error::NoAssignment(n2, t2) && n2 == n && t2@ == t,
    }
}

/// What dotenvy yielded first for a line, as a mathematical value: nothing,
/// a key and value, or the message of its error.
pub open spec fn item_view(it: Option<EnvItem>) -> Option<Result<(Seq<char>, Seq<char>), Seq<char>>> {
    match it {
        None => None,
        Some(Ok(kv)) => Some(Ok((kv.0@, kv.1@))),
        Some(Err(m)) => Some(Err(m@)),
    }
}

/// The views of what dotenvy yielded first for each line.
pub open spec fn items_view(fs: Seq<Option<EnvItem>>) -> Seq<
    Option<Result<(Seq<char>, Seq<char>), Seq<char>>>,
> {
    fs.map_values(|f: Option<EnvItem>| item_view(f))
}

/// The key, or the error, of a first item.
pub open spec fn item_shape(f: Option<Result<(Seq<char>, Seq<char>), Seq<char>>>) -> Option<
    Result<Seq<char>, Seq<char>>,
> {
    match f {
        None => None,
        Some(Ok(kv)) => Some(Ok(kv.0)),
        Some(Err(m)) => Some(Err(m)),
    }
}

/// Whether a trimmed line goes to dotenvy: it is neither blank nor a
/// comment, and it holds `=`.
pub open spec fn is_candidate(t: Seq<char>) -> bool {
    !is_skipped(t) && has_sub(t, "="@)
}

/// Whether `fs` holds, for each line of `ls` that goes to dotenvy, the first
/// item dotenvy yields for the trimmed line, with a well-formed key: its key
/// or error always, and its value too where the line holds no `$` (the
/// value of a `$NAME` depends on the environment).
pub open spec fn fits_lines(
    ls: Seq<Seq<char>>,
    fs: Seq<Option<Result<(Seq<char>, Seq<char>), Seq<char>>>>,
) -> bool {
    &&& fs.len() == ls.len()
    &&& forall|i: int|
        0 <= i < ls.len() && is_candidate(trim(ls[i])) ==> item_shape(#[trigger] fs[i]) == first_item(
            trim(ls[i]),
        )
    &&& forall|i: int| 0 <= i < fs.len() ==> (#[trigger] fs[i] matches Some(Ok(kv)) ==> is_env_key(kv.0))
    &&& forall|i: int|
        0 <= i < ls.len() && is_candidate(trim(ls[i])) && !trim(ls[i]).contains('$') ==> #[trigger] fs[i]
            == first_entry(trim(ls[i]))
}

/// Reading the first `n` lines of `ls` one by one, `fs[i]` being what dotenvy
/// yielded first for line `i`: the pairs of the assignments, in order, or the
/// first line that is refused. Blank lines and comments are skipped; a line
/// without `=` is refused before dotenvy sees it.
pub open spec fn spec_assemble(
    ls: Seq<Seq<char>>,
    fs: Seq<Option<Result<(Seq<char>, Seq<char>), Seq<char>>>>,
    n: int,
) -> Result<Seq<(Seq<char>, Seq<char>)>, LineFault>
    decreases n,
{
    if n <= 0 {
        Ok(seq![])
    } else {
        match spec_assemble(ls, fs, n - 1) {
            Err(f) => Err(f),
            Ok(ps) => {
                let t = trim(ls[n - 1]);
                if is_skipped(t) {
                    Ok(ps)
                } else if !has_sub(t, "="@) {
                    Err(LineFault::MissingEquals(n as nat, t))
                } else {
                    match if n - 1 < fs.len() { fs[n - 1] } else { None } {
                        None => Err(LineFault::NoAssignment(n as nat, t)),
                        Some(Err(m)) => Err(LineFault::Rejected(n as nat, t, m)),
                        Some(Ok(kv)) => Ok(ps.push(kv)),
                    }
                }
            },
        }
    }
}

/// Whether `res` is the outcome `r`: the same pairs, or the error for the
/// same refused line.
pub open spec fn reports_outcome(
    res: Result<Vec<(String, String)>, Error>,
    r: Result<Seq<(Seq<char>, Seq<char>)>, LineFault>,
) -> bool {
    match r {
        Ok(ps) => res matches Ok(v) && pairs_view(v@) == ps,
        Err(f) => res matches Err(e) && reports_fault(e, f),
    }
}

/// The pair or error for line `line_num` (1-based), whose trimmed text is
/// `trimmed`, given what dotenvy yielded first for that text.
pub fn env_line_pair(line_num: usize, trimmed: &str, first: &Option<EnvItem>) -> (res: Result<
    (String, String),
    Error,
>)
    ensures
        match item_view(*first) {
            Some(Ok(kv)) => res matches Ok(p) && p.0@ == kv.0 && p.1@ == kv.1,
            Some(Err(m)) => res matches Err(Error::LineRejected(n, t, e)) && n == line_num && t@
                == trimmed@ && e@ == m,
            None => res matches Err(Error::NoAssignment(n, t)) && n == line_num && t@ == trimmed@,
        },
{
    match first {
        Some(Ok(kv)) => Ok((kv.0.clone(), kv.1.clone())),
        Some(Err(m)) => Err(Error::LineRejected(line_num, String::from_str(trimmed), m.clone())),
        None => Err(Error::NoAssignment(line_num, String::from_str(trimmed))),
    }
}

proof fn lemma_assemble_err(
    ls: Seq<Seq<char>>,
    fs: Seq<Option<Result<(Seq<char>, Seq<char>), Seq<char>>>>,
    k: int,
    n: int,
    f: LineFault,
)
    requires
        0 <= k <= n,
        spec_assemble(ls, fs, k) == Err::<Seq<(Seq<char>, Seq<char>)>, LineFault>(f),
    ensures
        spec_assemble(ls, fs, n) == Err::<Seq<(Seq<char>, Seq<char>)>, LineFault>(f),
    decreases n - k,
{
    if k < n {
        lemma_assemble_err(ls, fs, k + 1, n, f);
    }
}

/// The pairs of the lines `ls`, given in `firsts[i]` what dotenvy yielded
/// first for the trimmed text of line `i` (a missing entry counts as
/// nothing): the pair of each assignment line, in order, or the error for
/// the first line that is refused, named by its (1-based) number and text.
pub fn assemble_lines(ls: &Vec<String>, firsts: &Vec<Option<EnvItem>>) -> (res: Result<
    Vec<(String, String)>,
    Error,
>)
    ensures
        reports_outcome(res, spec_assemble(views(ls@), items_view(firsts@), ls@.len() as int)),
{
    let ghost vs = views(ls@);
    let ghost fv = items_view(firsts@);
    proof {
        reveal_strlit("=");
    }
    let mut pairs: Vec<(String, String)> = Vec::new();
    let mut i: usize = 0;
    assert(pairs_view(pairs@) =~= Seq::<(Seq<char>, Seq<char>)>::empty());
    while i < ls.len()
        invariant
            i <= ls@.len() == vs.len(),
            vs == views(ls@),
            fv == items_view(firsts@),
            spec_assemble(vs, fv, i as int) == Ok::<Seq<(Seq<char>, Seq<char>)>, LineFault>(
                pairs_view(pairs@),
            ),
        decreases ls@.len() - i,
    {
        let t = trim_str(ls[i].as_str());
        assert(vs[i as int] == ls@[i as int]@);
        let ghost before = pairs_view(pairs@);
        let skip = t.as_str().unicode_len() == 0 || t.as_str().get_char(0) == '#';
        if !skip {
            if !contains_str(t.as_str(), "=") {
                proof {
                    lemma_assemble_err(vs, fv, i + 1, vs.len() as int,
                        LineFault::MissingEquals((i + 1) as nat, t@));
                }
                return Err(Error::MissingEquals(i + 1, t));
            }
            let pair = if i < firsts.len() {
                assert(fv[i as int] == item_view(firsts@[i as int]));
                env_line_pair(i + 1, t.as_str(), &firsts[i])
            } else {
                env_line_pair(i + 1, t.as_str(), &None)
            };
            match pair {
                Ok(p) => {
                    pairs.push(p);
                    assert(pairs_view(pairs@) =~= before.push((pairs@.last().0@, pairs@.last().1@)));
                },
                Err(e) => {
                    proof {
                        let f = spec_assemble(vs, fv, i + 1)->Err_0;
                        lemma_assemble_err(vs, fv, i + 1, vs.len() as int, f);
                    }
                    return Err(e);
                },
            }
        }
        i = i + 1;
    }
    Ok(pairs)
}

/// What dotenvy yields first for each line of `ls` that goes to it
/// (`None` for the others).
fn first_items(ls: &Vec<String>) -> (res: Vec<Option<EnvItem>>)
    ensures
        fits_lines(views(ls@), items_view(res@)),
{
    let ghost vs = views(ls@);
    let mut out: Vec<Option<EnvItem>> = Vec::new();
    proof {
        reveal_strlit("=");
    }
    for i in 0..ls.len()
        invariant
            vs == views(ls@),
            out@.len() == i,
            forall|k: int|
                0 <= k < i && is_candidate(trim(vs[k])) ==> item_shape(item_view(#[trigger] out@[k]))
                    == first_item(trim(vs[k])),
            forall|k: int|
                0 <= k < i ==> (item_view(#[trigger] out@[k]) matches Some(Ok(kv)) ==> is_env_key(kv.0)),
            forall|k: int|
                0 <= k < i && is_candidate(trim(vs[k])) && !trim(vs[k]).contains('$') ==> item_view(
                    #[trigger] out@[k],
                ) == first_entry(trim(vs[k])),
    {
        let t = trim_str(ls[i].as_str());
        assert(vs[i as int] == ls@[i as int]@);
        let skip = t.as_str().unicode_len() == 0 || t.as_str().get_char(0) == '#';
        if !skip && contains_str(t.as_str(), "=") {
            let mut items = dotenvy_items(t.as_str().as_bytes());
            let ghost sh = shape_of(items@);
            proof {
                if !t@.contains('$') {
                    lemma_encode_no_dollar(t@);
                }
                assert(sh.len() == items@.len());
                assert(dotenvy_keys(encode_utf8(t@)).len() == dotenvy_shape(encode_utf8(t@)).len());
            }
            if items.len() > 0 {
                proof {
                    if !t@.contains('$') {
                        assert(pairs_of_items(items@)[0] == dotenvy_shape(encode_utf8(t@))[0]);
                    }
                }
                let ghost it0 = items@[0];
                assert(sh[0] == match it0 {
                    Ok(kv) => Ok::<Seq<char>, Seq<char>>(kv.0@),
                    Err(m) => Err::<Seq<char>, Seq<char>>(m@),
                });
                let first = items.remove(0);
                out.push(Some(first));
            } else {
                out.push(None);
            }
        } else {
            out.push(None);
        }
    }
    proof {
        let fv = items_view(out@);
        assert forall|k: int| 0 <= k < vs.len() && is_candidate(trim(vs[k])) implies item_shape(
            #[trigger] fv[k],
        ) == first_item(trim(vs[k])) by {
            assert(fv[k] == item_view(out@[k]));
        }
        assert forall|k: int| 0 <= k < fv.len() implies (#[trigger] fv[k] matches Some(Ok(kv)) ==> is_env_key(
            kv.0,
        )) by {
            assert(fv[k] == item_view(out@[k]));
        }
        assert forall|k: int|
            0 <= k < vs.len() && is_candidate(trim(vs[k])) && !trim(vs[k]).contains('$') implies #[trigger] fv[k]
                == first_entry(trim(vs[k])) by {
            assert(fv[k] == item_view(out@[k]));
        }
    }
    out
}

/// What dotenvy yields first for each line of `ls` that goes to it, the
/// other lines giving nothing.
pub open spec fn dotenvy_firsts(ls: Seq<Seq<char>>) -> Seq<Option<Result<(Seq<char>, Seq<char>), Seq<char>>>> {
    Seq::new(ls.len(), |i: int| if is_candidate(trim(ls[i])) { first_entry(trim(ls[i])) } else { None })
}

proof fn lemma_assemble_prefix(
    ls: Seq<Seq<char>>,
    fs: Seq<Option<Result<(Seq<char>, Seq<char>), Seq<char>>>>,
    k: int,
    m: int,
)
    requires
        0 <= k <= m,
        spec_assemble(ls, fs, m) is Ok,
    ensures
        spec_assemble(ls, fs, k) is Ok,
        spec_assemble(ls, fs, k)->Ok_0.len() <= spec_assemble(ls, fs, m)->Ok_0.len(),
        spec_assemble(ls, fs, m)->Ok_0.take(spec_assemble(ls, fs, k)->Ok_0.len() as int)
            == spec_assemble(ls, fs, k)->Ok_0,
    decreases m - k,
{
    if k < m {
        lemma_assemble_prefix(ls, fs, k + 1, m);
        let a = spec_assemble(ls, fs, k)->Ok_0;
        let b = spec_assemble(ls, fs, k + 1)->Ok_0;
        let c = spec_assemble(ls, fs, m)->Ok_0;
        assert(b.take(a.len() as int) =~= a);
        assert(c.take(a.len() as int) =~= c.take(b.len() as int).take(a.len() as int));
    } else {
        let c = spec_assemble(ls, fs, m)->Ok_0;
        assert(c.take(c.len() as int) =~= c);
    }
}

/// Reading lines one by one gives, for every assignment line without `$`,
/// exactly the key and value that dotenvy yields for its trimmed text
/// (quotes removed, a trailing comment dropped): when the lines are
/// accepted, that pair is among the pairs injected.
pub proof fn injected_pair_is_dotenvys(
    ls: Seq<Seq<char>>,
    fs: Seq<Option<Result<(Seq<char>, Seq<char>), Seq<char>>>>,
    i: int,
)
    requires
        fits_lines(ls, fs),
        0 <= i < ls.len(),
        is_candidate(trim(ls[i])),
        !trim(ls[i]).contains('$'),
        spec_assemble(ls, fs, ls.len() as int) is Ok,
    ensures
        first_entry(trim(ls[i])) matches Some(Ok(kv)) && spec_assemble(ls, fs, ls.len() as int)->Ok_0.contains(kv),
{
    lemma_assemble_prefix(ls, fs, i + 1, ls.len() as int);
    lemma_assemble_prefix(ls, fs, i, i + 1);
    assert(fs[i] == first_entry(trim(ls[i])));
    let b = spec_assemble(ls, fs, i + 1)->Ok_0;
    let c = spec_assemble(ls, fs, ls.len() as int)->Ok_0;
    let kv = b.last();
    assert(c.take(b.len() as int)[b.len() - 1] == kv);
    assert(c[b.len() - 1] == kv);
}

/// When no line holds `$`, reading the lines one by one gives exactly what
/// reading dotenvy's own first item of each line gives: the pairs, their
/// values included, and the refused line are all dotenvy's.
pub proof fn line_values_are_dotenvys(
    ls: Seq<Seq<char>>,
    fs: Seq<Option<Result<(Seq<char>, Seq<char>), Seq<char>>>>,
    n: int,
)
    requires
        fits_lines(ls, fs),
        0 <= n <= ls.len(),
        forall|i: int| 0 <= i < n ==> !(#[trigger] trim(ls[i])).contains('$'),
    ensures
        spec_assemble(ls, fs, n) == spec_assemble(ls, dotenvy_firsts(ls), n),
    decreases n,
{
    if n > 0 {
        line_values_are_dotenvys(ls, fs, n - 1);
        let t = trim(ls[n - 1]);
        assert(!t.contains('$'));
        if is_candidate(t) {
            assert(fs[n - 1] == first_entry(t));
            assert(dotenvy_firsts(ls)[n - 1] == first_entry(t));
        }
    }
}

proof fn lemma_assemble_keys(
    ls: Seq<Seq<char>>,
    fs: Seq<Option<Result<(Seq<char>, Seq<char>), Seq<char>>>>,
    n: int,
)
    requires
        fits_lines(ls, fs),
        0 <= n <= ls.len(),
    ensures
        match spec_assemble(ls, fs, n) {
            Ok(ps) => spec_parse_lines(ls, n) == Ok::<Seq<Seq<char>>, LineFault>(keys_of(ps))
                && forall|j: int| 0 <= j < ps.len() ==> is_env_key(#[trigger] ps[j].0),
            Err(f) => spec_parse_lines(ls, n) == Err::<Seq<Seq<char>>, LineFault>(f),
        },
    decreases n,
{
    if n == 0 {
        assert(keys_of(Seq::<(Seq<char>, Seq<char>)>::empty()) =~= Seq::<Seq<char>>::empty());
    } else {
        lemma_assemble_keys(ls, fs, n - 1);
        if let Ok(ps) = spec_assemble(ls, fs, n - 1) {
            let t = trim(ls[n - 1]);
            assert(n - 1 < fs.len());
            if !is_skipped(t) && has_sub(t, "="@) {
                assert(is_candidate(t));
                assert(item_shape(fs[n - 1]) == first_item(t));
                if let Some(Ok(kv)) = fs[n - 1] {
                    assert(keys_of(ps.push(kv)) =~= keys_of(ps).push(kv.0));
                    assert(is_env_key(kv.0));
                    let ps2 = ps.push(kv);
                    assert forall|j: int| 0 <= j < ps2.len() implies is_env_key(#[trigger] ps2[j].0) by {
                        if j < ps.len() {
                            assert(ps2[j] == ps[j]);
                        }
                    }
                }
            }
        }
    }
}

/// Parses decrypted `.env` content into key-value pairs, line by line, so
/// that an error names the line (1-based) and its text. Blank lines and
/// comments are skipped; a line without `=` is refused before dotenvy sees
/// it; each other line gives the first pair dotenvy yields for it.
pub fn parse_env_lines(plaintext: &[u8]) -> (res: Result<Vec<(String, String)>, Error>)
    ensures
        (res matches Err(Error::NotUtf8)) <==> !valid_utf8(plaintext@),
        valid_utf8(plaintext@) ==> ({
            let ls = lines(decode_utf8(plaintext@));
            exists|fs: Seq<Option<Result<(Seq<char>, Seq<char>), Seq<char>>>>|
                #[trigger] fits_lines(ls, fs) && reports_outcome(res, spec_assemble(ls, fs, ls.len() as int))
        }),
        valid_utf8(plaintext@) ==> ({
            let ls = lines(decode_utf8(plaintext@));
            match spec_parse_lines(ls, ls.len() as int) {
                Ok(ks) => res matches Ok(ps) && keys_of(pairs_view(ps@)) == ks,
                Err(f) => res matches Err(e) && reports_fault(e, f),
            }
        }),
        valid_utf8(plaintext@) ==> ({
            let ls = lines(decode_utf8(plaintext@));
            (forall|i: int| 0 <= i < ls.len() ==> !(#[trigger] trim(ls[i])).contains('$'))
                ==> reports_outcome(res, spec_assemble(ls, dotenvy_firsts(ls), ls.len() as int))
        }),
        res matches Ok(ps) ==> forall|j: int| 0 <= j < ps@.len() ==> is_env_key(#[trigger] ps@[j].0@),
{
    let text = match utf8_text(plaintext) {
        Some(t) => t,
        None => return Err(Error::NotUtf8),
    };
    let ls = split_lines(text.as_str());
    let firsts = first_items(&ls);
    let res = assemble_lines(&ls, &firsts);
    proof {
        let sl = lines(text@);
        assert(views(ls@) =~= sl) by {
            assert forall|k: int| 0 <= k < sl.len() implies #[trigger] views(ls@)[k] == sl[k] by {
                assert(views(ls@)[k] == ls@[k]@);
            }
        }
        let fv = items_view(firsts@);
        lemma_assemble_keys(sl, fv, sl.len() as int);
        assert(fits_lines(sl, fv));
        if forall|i: int| 0 <= i < sl.len() ==> !(#[trigger] trim(sl[i])).contains('$') {
            line_values_are_dotenvys(sl, fv, sl.len() as int);
        }
        if res is Ok {
            let ps = res->Ok_0;
            let pv = pairs_view(ps@);
            assert forall|j: int| 0 <= j < ps@.len() implies is_env_key(#[trigger] ps@[j].0@) by {
                assert(pv[j].0 == ps@[j].0@);
            }
            assert(keys_of(pairs_view(ps@)) =~= keys_of(pv));
        }
    }
    res
}

/// The pairs of `items` when none is an error; otherwise the first error.
pub open spec fn spec_collect_items(items: Seq<EnvItem>) -> Result<Seq<(Seq<char>, Seq<char>)>, Seq<char>>
    decreases items.len(),
{
    if items.len() == 0 {
        Ok(seq![])
    } else {
        match spec_collect_items(items.drop_last()) {
            Err(m) => Err(m),
            Ok(ps) => match items.last() {
                Ok(kv) => Ok(ps.push((kv.0@, kv.1@))),
                Err(m) => Err(m@),
            },
        }
    }
}

/// The pairs among `items`, errors left out.
pub open spec fn spec_ok_items(items: Seq<EnvItem>) -> Seq<(Seq<char>, Seq<char>)>
    decreases items.len(),
{
    if items.len() == 0 {
        seq![]
    } else {
        spec_ok_items(items.drop_last()) + match items.last() {
            Ok(kv) => seq![(kv.0@, kv.1@)],
            Err(_) => Seq::<(Seq<char>, Seq<char>)>::empty(),
        }
    }
}

/// The pairs of `sh` when none of its items is an error; otherwise the
/// first error.
pub open spec fn spec_collect_pairs(sh: Seq<Result<(Seq<char>, Seq<char>), Seq<char>>>) -> Result<Seq<(Seq<char>, Seq<char>)>, Seq<char>>
    decreases sh.len(),
{
    if sh.len() == 0 {
        Ok(seq![])
    } else {
        match spec_collect_pairs(sh.drop_last()) {
            Err(m) => Err(m),
            Ok(ps) => match sh.last() {
                Ok(kv) => Ok(ps.push(kv)),
                Err(m) => Err(m),
            },
        }
    }
}

/// The pairs among `sh`, errors left out.
pub open spec fn spec_ok_pairs(sh: Seq<Result<(Seq<char>, Seq<char>), Seq<char>>>) -> Seq<(Seq<char>, Seq<char>)>
    decreases sh.len(),
{
    if sh.len() == 0 {
        seq![]
    } else {
        spec_ok_pairs(sh.drop_last()) + match sh.last() {
            Ok(kv) => seq![kv],
            Err(_) => Seq::<(Seq<char>, Seq<char>)>::empty(),
        }
    }
}

proof fn lemma_items_pairs(items: Seq<EnvItem>)
    ensures
        spec_collect_items(items) == spec_collect_pairs(pairs_of_items(items)),
        spec_ok_items(items) == spec_ok_pairs(pairs_of_items(items)),
    decreases items.len(),
{
    if items.len() > 0 {
        lemma_items_pairs(items.drop_last());
        assert(pairs_of_items(items).drop_last() =~= pairs_of_items(items.drop_last()));
    }
}

/// The views of a list of key-value pairs.
pub open spec fn pairs_view(ps: Seq<(String, String)>) -> Seq<(Seq<char>, Seq<char>)> {
    ps.map_values(|p: (String, String)| (p.0@, p.1@))
}

proof fn lemma_collect_err_prefix(items: Seq<EnvItem>, k: int, m: Seq<char>)
    requires
        0 <= k <= items.len(),
        spec_collect_items(items.take(k)) == Err::<Seq<(Seq<char>, Seq<char>)>, Seq<char>>(m),
    ensures
        spec_collect_items(items) == Err::<Seq<(Seq<char>, Seq<char>)>, Seq<char>>(m),
    decreases items.len() - k,
{
    if k < items.len() {
        assert(items.take(k + 1).drop_last() =~= items.take(k));
        lemma_collect_err_prefix(items, k + 1, m);
    } else {
        assert(items.take(k) =~= items);
    }
}

/// All pairs of `items`, or the first error among them.
pub fn collect_env_items(items: &Vec<EnvItem>) -> (res: Result<Vec<(String, String)>, Error>)
    ensures
        match spec_collect_items(items@) {
            Ok(ps) => res matches Ok(v) && pairs_view(v@) == ps,
            Err(m) => res matches Err(Error::EnvParse(e)) && e@ == m,
        },
{
    let mut out: Vec<(String, String)> = Vec::new();
    let n = items.len();
    assert(items@.take(0) =~= Seq::<EnvItem>::empty());
    assert(pairs_view(out@) =~= Seq::<(Seq<char>, Seq<char>)>::empty());
    for i in 0..n
        invariant
            n == items@.len(),
            spec_collect_items(items@.take(i as int)) == Ok::<
                Seq<(Seq<char>, Seq<char>)>,
                Seq<char>,
            >(pairs_view(out@)),
    {
        assert(items@.take(i + 1).drop_last() =~= items@.take(i as int));
        assert(items@.take(i + 1).last() == items@[i as int]);
        let ghost before = out@;
        match &items[i] {
            Ok(kv) => {
                let k = kv.0.clone();
                let v = kv.1.clone();
                out.push((k, v));
                assert(pairs_view(out@) =~= pairs_view(before).push((kv.0@, kv.1@)));
            },
            Err(m) => {
                proof {
                    lemma_collect_err_prefix(items@, (i + 1) as int, m@);
                }
                return Err(Error::EnvParse(m.clone()));
            },
        }
    }
    assert(items@.take(n as int) =~= items@);
    Ok(out)
}

/// The pairs among `items`, errors left out.
pub fn ok_env_items(items: &Vec<EnvItem>) -> (res: Vec<(String, String)>)
    ensures
        pairs_view(res@) == spec_ok_items(items@),
{
    let mut out: Vec<(String, String)> = Vec::new();
    let n = items.len();
    assert(items@.take(0) =~= Seq::<EnvItem>::empty());
    assert(pairs_view(out@) =~= Seq::<(Seq<char>, Seq<char>)>::empty());
    for i in 0..n
        invariant
            n == items@.len(),
            spec_ok_items(items@.take(i as int)) == pairs_view(out@),
    {
        assert(items@.take(i + 1).drop_last() =~= items@.take(i as int));
        assert(items@.take(i + 1).last() == items@[i as int]);
        let ghost before = out@;
        match &items[i] {
            Ok(kv) => {
                let k = kv.0.clone();
                let v = kv.1.clone();
                out.push((k, v));
                assert(pairs_view(out@) =~= pairs_view(before).push((kv.0@, kv.1@)));
            },
            Err(_) => {
                assert(spec_ok_items(items@.take(i + 1)) =~= spec_ok_items(items@.take(i as int)));
            },
        }
    }
    assert(items@.take(n as int) =~= items@);
    out
}

proof fn lemma_shape_drop_last(items: Seq<EnvItem>)
    requires
        items.len() > 0,
    ensures
        shape_of(items).drop_last() == shape_of(items.drop_last()),
        shape_of(items).last() == match items.last() {
            Ok(kv) => Ok::<Seq<char>, Seq<char>>(kv.0@),
            Err(m) => Err::<Seq<char>, Seq<char>>(m@),
        },
{
    assert(shape_of(items).drop_last() =~= shape_of(items.drop_last()));
}

proof fn lemma_collect_shape(items: Seq<EnvItem>)
    ensures
        match spec_collect_items(items) {
            Ok(ps) => shape_collect(shape_of(items)) == Ok::<Seq<Seq<char>>, Seq<char>>(
                ps.map_values(|p: (Seq<char>, Seq<char>)| p.0),
            ),
            Err(m) => shape_collect(shape_of(items)) == Err::<Seq<Seq<char>>, Seq<char>>(m),
        },
    decreases items.len(),
{
    if items.len() == 0 {
        assert(spec_collect_items(items)->Ok_0.map_values(|p: (Seq<char>, Seq<char>)| p.0)
            =~= Seq::<Seq<char>>::empty());
    } else {
        lemma_collect_shape(items.drop_last());
        lemma_shape_drop_last(items);
        if let Ok(ps) = spec_collect_items(items.drop_last()) {
            if let Ok(kv) = items.last() {
                assert(ps.push((kv.0@, kv.1@)).map_values(|p: (Seq<char>, Seq<char>)| p.0)
                    =~= ps.map_values(|p: (Seq<char>, Seq<char>)| p.0).push(kv.0@));
            }
        }
    }
}

proof fn lemma_ok_shape(items: Seq<EnvItem>)
    ensures
        spec_ok_items(items).map_values(|p: (Seq<char>, Seq<char>)| p.0) == shape_keys(shape_of(items)),
    decreases items.len(),
{
    if items.len() == 0 {
        assert(spec_ok_items(items).map_values(|p: (Seq<char>, Seq<char>)| p.0) =~= Seq::<Seq<char>>::empty());
    } else {
        lemma_ok_shape(items.drop_last());
        lemma_shape_drop_last(items);
        let prev = spec_ok_items(items.drop_last());
        match items.last() {
            Ok(kv) => {
                assert(spec_ok_items(items) == prev + seq![(kv.0@, kv.1@)]);
                assert((prev + seq![(kv.0@, kv.1@)]).map_values(|p: (Seq<char>, Seq<char>)| p.0)
                    =~= prev.map_values(|p: (Seq<char>, Seq<char>)| p.0) + seq![kv.0@]);
            },
            Err(_) => {
                assert(spec_ok_items(items) =~= prev);
                assert(shape_keys(shape_of(items)) =~= shape_keys(shape_of(items.drop_last())));
            },
        }
    }
}

/// The key-value pairs of `.env` content, parsed whole by dotenvy (so that
/// quoted values may span lines), or the first error it reports.
pub fn parse_env(content: &[u8]) -> (res: Result<Vec<(String, String)>, Error>)
    ensures
        match shape_collect(dotenvy_keys(content@)) {
            Ok(ks) => res matches Ok(ps) && keys_of(pairs_view(ps@)) == ks,
            Err(m) => res matches Err(Error::EnvParse(e)) && e@ == m,
        },
        !content@.contains(dollar_byte()) ==> match spec_collect_pairs(dotenvy_shape(content@)) {
            Ok(ps) => res matches Ok(v) && pairs_view(v@) == ps,
            Err(m) => res matches Err(Error::EnvParse(e)) && e@ == m,
        },
        res matches Ok(ps) ==> forall|j: int| 0 <= j < ps@.len() ==> is_env_key(#[trigger] ps@[j].0@),
{
    let items = dotenvy_items(content);
    let r = collect_env_items(&items);
    proof {
        lemma_items_pairs(items@);
        lemma_collect_keys(items@);
        lemma_collect_shape(items@);
        if r is Ok {
            let ps = r->Ok_0;
            assert(keys_of(pairs_view(ps@)) =~= pairs_view(ps@).map_values(|p: (Seq<char>, Seq<char>)| p.0));
            assert forall|j: int| 0 <= j < ps@.len() implies is_env_key(#[trigger] ps@[j].0@) by {
                assert(pairs_view(ps@)[j].0 == ps@[j].0@);
            }
        }
    }
    r
}

/// The key-value pairs of `.env` content that dotenvy parses, the items it
/// rejects left out.
pub fn parse_env_lenient(content: &[u8]) -> (res: Vec<(String, String)>)
    ensures
        keys_of(pairs_view(res@)) == shape_keys(dotenvy_keys(content@)),
        !content@.contains(dollar_byte()) ==> pairs_view(res@) == spec_ok_pairs(dotenvy_shape(content@)),
        forall|j: int| 0 <= j < res@.len() ==> is_env_key(#[trigger] res@[j].0@),
{
    let items = dotenvy_items(content);
    let r = ok_env_items(&items);
    proof {
        lemma_items_pairs(items@);
        lemma_ok_keys(items@);
        lemma_ok_shape(items@);
        assert(keys_of(pairs_view(r@)) =~= pairs_view(r@).map_values(|p: (Seq<char>, Seq<char>)| p.0));
        assert forall|j: int| 0 <= j < r@.len() implies is_env_key(#[trigger] r@[j].0@) by {
            assert(pairs_view(r@)[j].0 == r@[j].0@);
        }
    }
    r
}

proof fn lemma_collect_keys(items: Seq<EnvItem>)
    requires
        forall|i: int| 0 <= i < items.len() ==> (#[trigger] items[i] matches Ok(kv) ==> is_env_key(kv.0@)),
    ensures
        spec_collect_items(items) matches Ok(ps) ==> forall|j: int| 0 <= j < ps.len() ==> is_env_key(#[trigger] ps[j].0),
    decreases items.len(),
{
    if items.len() > 0 {
        let init = items.drop_last();
        assert forall|i: int| 0 <= i < init.len() implies (#[trigger] init[i] matches Ok(kv) ==> is_env_key(kv.0@)) by {
            assert(init[i] == items[i]);
        }
        lemma_collect_keys(init);
        assert(items[items.len() - 1] == items.last());
    }
}

proof fn lemma_ok_keys(items: Seq<EnvItem>)
    requires
        forall|i: int| 0 <= i < items.len() ==> (#[trigger] items[i] matches Ok(kv) ==> is_env_key(kv.0@)),
    ensures
        forall|j: int| 0 <= j < spec_ok_items(items).len() ==> is_env_key(#[trigger] spec_ok_items(items)[j].0),
    decreases items.len(),
{
    if items.len() > 0 {
        let init = items.drop_last();
        assert forall|i: int| 0 <= i < init.len() implies (#[trigger] init[i] matches Ok(kv) ==> is_env_key(kv.0@)) by {
            assert(init[i] == items[i]);
        }
        lemma_ok_keys(init);
        assert(items[items.len() - 1] == items.last());
        let s = spec_ok_items(items);
        assert forall|j: int| 0 <= j < s.len() implies is_env_key(#[trigger] s[j].0) by {
            if j < spec_ok_items(init).len() {
                assert(s[j] == spec_ok_items(init)[j]);
            }
        }
    }
}

} // verus!
