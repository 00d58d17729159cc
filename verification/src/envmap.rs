//! `.env` pairs as a map: later assignments to a key replace earlier ones,
//! and keys are listed in ascending order (as an ordered map lists them).

use vstd::prelude::*;
use crate::text::{chars_of, str_eq};
use crate::envfile::pairs_view;

verus! {

/// Lexicographic order on character sequences: the order of `String` keys
/// (UTF-8 byte order and code point order agree).
pub open spec fn lex_lt(a: Seq<char>, b: Seq<char>) -> bool
    decreases a.len(),
{
    if b.len() == 0 {
        false
    } else if a.len() == 0 {
        true
    } else if a[0] != b[0] {
        a[0] < b[0]
    } else {
        lex_lt(a.drop_first(), b.drop_first())
    }
}

pub proof fn lemma_lex_irreflexive(a: Seq<char>)
    ensures
        !lex_lt(a, a),
    decreases a.len(),
{
    if a.len() > 0 {
        lemma_lex_irreflexive(a.drop_first());
    }
}

pub proof fn lemma_lex_total(a: Seq<char>, b: Seq<char>)
    ensures
        a == b || lex_lt(a, b) || lex_lt(b, a),
    decreases a.len(),
{
    if a.len() > 0 && b.len() > 0 && a[0] == b[0] {
        lemma_lex_total(a.drop_first(), b.drop_first());
        if a.drop_first() == b.drop_first() {
            assert(a =~= seq![a[0]] + a.drop_first());
            assert(b =~= seq![b[0]] + b.drop_first());
        }
    } else if a.len() == 0 && b.len() == 0 {
        assert(a =~= b);
    } else if a.len() > 0 && b.len() > 0 {
    }
}

pub proof fn lemma_lex_asym(a: Seq<char>, b: Seq<char>)
    ensures
        lex_lt(a, b) ==> !lex_lt(b, a),
    decreases a.len(),
{
    if a.len() > 0 && b.len() > 0 && a[0] == b[0] {
        lemma_lex_asym(a.drop_first(), b.drop_first());
    }
}

pub proof fn lemma_lex_trans(a: Seq<char>, b: Seq<char>, c: Seq<char>)
    requires
        lex_lt(a, b),
        lex_lt(b, c),
    ensures
        lex_lt(a, c),
    decreases a.len(),
{
    if a.len() > 0 && b.len() > 0 && c.len() > 0 && a[0] == b[0] && b[0] == c[0] {
        lemma_lex_trans(a.drop_first(), b.drop_first(), c.drop_first());
    }
}

/// Whether `a` comes before `b`.
pub fn str_lt(a: &str, b: &str) -> (res: bool)
    ensures
        res == lex_lt(a@, b@),
{
    let xs = chars_of(a);
    let ys = chars_of(b);
    let mut i: usize = 0;
    assert(a@.skip(0) =~= a@);
    assert(b@.skip(0) =~= b@);
    while i < xs.len() && i < ys.len() && xs[i] == ys[i]
        invariant
            i <= xs@.len(),
            i <= ys@.len(),
            xs@ == a@,
            ys@ == b@,
            lex_lt(a@, b@) == lex_lt(a@.skip(i as int), b@.skip(i as int)),
        decreases xs@.len() - i,
    {
        assert(a@.skip(i as int).drop_first() =~= a@.skip(i + 1));
        assert(b@.skip(i as int).drop_first() =~= b@.skip(i + 1));
        i = i + 1;
    }
    if i == ys.len() {
        false
    } else if i == xs.len() {
        true
    } else {
        assert(a@.skip(i as int)[0] == xs@[i as int]);
        assert(b@.skip(i as int)[0] == ys@[i as int]);
        xs[i] < ys[i]
    }
}

/// The map that the pairs `ps` assign: a later pair for a key wins.
pub open spec fn env_map(ps: Seq<(Seq<char>, Seq<char>)>) -> Map<Seq<char>, Seq<char>>
    decreases ps.len(),
{
    if ps.len() == 0 {
        Map::empty()
    } else {
        env_map(ps.drop_last()).insert(ps.last().0, ps.last().1)
    }
}

/// The keys of a list of pairs.
pub open spec fn keys_of(ps: Seq<(Seq<char>, Seq<char>)>) -> Seq<Seq<char>> {
    ps.map_values(|p: (Seq<char>, Seq<char>)| p.0)
}

/// A key is assigned by `ps` exactly when some pair of `ps` has it.
pub proof fn lemma_env_map_keys(ps: Seq<(Seq<char>, Seq<char>)>, k: Seq<char>)
    ensures
        env_map(ps).contains_key(k) <==> keys_of(ps).contains(k),
    decreases ps.len(),
{
    if ps.len() > 0 {
        let init = ps.drop_last();
        lemma_env_map_keys(init, k);
        let ks = keys_of(ps);
        assert(keys_of(init) =~= ks.drop_last());
        if keys_of(init).contains(k) {
            let i = choose|i: int| 0 <= i < keys_of(init).len() && keys_of(init)[i] == k;
            assert(ks[i] == k);
        }
        if ks.contains(k) {
            let i = choose|i: int| 0 <= i < ks.len() && ks[i] == k;
            if i < ks.len() - 1 {
                assert(keys_of(init)[i] == k);
            } else {
                assert(ps.last().0 == k);
            }
        }
        if ps.last().0 == k {
            assert(ks[ks.len() - 1] == k);
        }
    }
}

/// A listing sorted by strictly ascending key.
pub open spec fn sorted_by_key(ps: Seq<(Seq<char>, Seq<char>)>) -> bool {
    forall|i: int, j: int| 0 <= i < j < ps.len() ==> lex_lt(#[trigger] ps[i].0, #[trigger] ps[j].0)
}

/// Whether `ps` lists exactly the entries of `m`.
pub open spec fn lists_map(ps: Seq<(Seq<char>, Seq<char>)>, m: Map<Seq<char>, Seq<char>>) -> bool {
    &&& forall|i: int| 0 <= i < ps.len() ==> m.contains_key(#[trigger] ps[i].0) && m[ps[i].0] == ps[i].1
    &&& forall|k: Seq<char>| #[trigger] m.contains_key(k) ==> exists|i: int| 0 <= i < ps.len() && ps[i].0 == k
}

/// The entries assigned by `pairs`, in ascending key order, the last value
/// given for a key winning.
pub fn sorted_env_map(pairs: &Vec<(String, String)>) -> (res: Vec<(String, String)>)
    ensures
        sorted_by_key(pairs_view(res@)),
        lists_map(pairs_view(res@), env_map(pairs_view(pairs@))),
{
    let ghost ps = pairs_view(pairs@);
    let mut out: Vec<(String, String)> = Vec::new();
    assert(ps.take(0) =~= Seq::<(Seq<char>, Seq<char>)>::empty());
    for i in 0..pairs.len()
        invariant
            ps == pairs_view(pairs@),
            sorted_by_key(pairs_view(out@)),
            lists_map(pairs_view(out@), env_map(ps.take(i as int))),
    {
        assert(ps.take(i + 1).drop_last() =~= ps.take(i as int));
        assert(ps.take(i + 1).last() == ps[i as int]);
        let k = &pairs[i].0;
        let v = &pairs[i].1;
        let ghost m = env_map(ps.take(i as int));
        let ghost m2 = env_map(ps.take(i + 1));
        assert(m2 == m.insert(k@, v@));
        let ghost o = pairs_view(out@);
        // Find the first listed key that is not before `k`.
        let mut p: usize = 0;
        while p < out.len() && str_lt(out[p].0.as_str(), k.as_str())
            invariant
                p <= out@.len(),
                o == pairs_view(out@),
                forall|q: int| 0 <= q < p ==> lex_lt(#[trigger] o[q].0, k@),
            decreases out@.len() - p,
        {
            p = p + 1;
        }
        if p < out.len() && str_eq(out[p].0.as_str(), k.as_str()) {
            out.set(p, (k.clone(), v.clone()));
            let ghost o2 = pairs_view(out@);
            assert(o2 =~= o.update(p as int, (k@, v@)));
            proof {
                assert forall|a: int, b: int| 0 <= a < b < o2.len() implies lex_lt(
                    #[trigger] o2[a].0,
                    #[trigger] o2[b].0,
                ) by {
                    assert(o2[a].0 == o[a].0);
                    assert(o2[b].0 == o[b].0);
                }
                assert forall|q: int| 0 <= q < o2.len() implies m2.contains_key(#[trigger] o2[q].0)
                    && m2[o2[q].0] == o2[q].1 by {
                    if q != p {
                        assert(o2[q] == o[q]);
                        lemma_lex_irreflexive(k@);
                        if o[q].0 == k@ {
                            assert(lex_lt(o[q].0, o[p as int].0) || lex_lt(o[p as int].0, o[q].0));
                        }
                    }
                }
                assert forall|key: Seq<char>| #[trigger] m2.contains_key(key) implies exists|q: int|
                    0 <= q < o2.len() && o2[q].0 == key by {
                    if key == k@ {
                        assert(o2[p as int].0 == key);
                    } else {
                        let q = choose|q: int| 0 <= q < o.len() && o[q].0 == key;
                        assert(o2[q].0 == key);
                    }
                }
            }
        } else {
            out.insert(p, (k.clone(), v.clone()));
            let ghost o2 = pairs_view(out@);
            assert(o2 =~= o.insert(p as int, (k@, v@)));
            proof {
                if p < o.len() {
                    lemma_lex_total(o[p as int].0, k@);
                    assert(lex_lt(k@, o[p as int].0));
                }
                assert forall|q: int| p <= q < o.len() implies lex_lt(k@, #[trigger] o[q].0) by {
                    if q > p {
                        lemma_lex_trans(k@, o[p as int].0, o[q].0);
                    }
                }
                assert forall|a: int, b: int| 0 <= a < b < o2.len() implies lex_lt(
                    #[trigger] o2[a].0,
                    #[trigger] o2[b].0,
                ) by {
                    if a < p && b < p {
                        assert(o2[a] == o[a] && o2[b] == o[b]);
                    } else if a < p && b == p {
                    } else if a < p && b > p {
                        assert(o2[b] == o[b - 1]);
                        lemma_lex_trans(o[a].0, k@, o[b - 1].0);
                    } else if a == p {
                        assert(o2[b] == o[b - 1]);
                    } else {
                        assert(o2[a] == o[a - 1] && o2[b] == o[b - 1]);
                    }
                }
                assert forall|q: int| 0 <= q < o.len() implies o[q].0 != k@ by {
                    lemma_lex_irreflexive(k@);
                    if q >= p {
                        assert(lex_lt(k@, o[q].0));
                    }
                }
                assert forall|q: int| 0 <= q < o2.len() implies m2.contains_key(#[trigger] o2[q].0)
                    && m2[o2[q].0] == o2[q].1 by {
                    if q < p {
                        assert(o2[q] == o[q]);
                    } else if q > p {
                        assert(o2[q] == o[q - 1]);
                    }
                }
                assert forall|key: Seq<char>| #[trigger] m2.contains_key(key) implies exists|q: int|
                    0 <= q < o2.len() && o2[q].0 == key by {
                    if key == k@ {
                        assert(o2[p as int].0 == key);
                    } else {
                        let q = choose|q: int| 0 <= q < o.len() && o[q].0 == key;
                        if q < p {
                            assert(o2[q].0 == key);
                        } else {
                            assert(o2[q + 1].0 == key);
                        }
                    }
                }
            }
        }
    }
    assert(ps.take(ps.len() as int) =~= ps);
    out
}


/// A strictly ascending list of keys.
pub open spec fn ascending(ks: Seq<Seq<char>>) -> bool {
    forall|i: int, j: int| 0 <= i < j < ks.len() ==> lex_lt(#[trigger] ks[i], #[trigger] ks[j])
}

/// Two strictly ascending lists with the same members are the same list.
pub proof fn ascending_unique(a: Seq<Seq<char>>, b: Seq<Seq<char>>)
    requires
        ascending(a),
        ascending(b),
        forall|k: Seq<char>| a.contains(k) <==> b.contains(k),
    ensures
        a == b,
    decreases a.len(),
{
    if a.len() == 0 {
        if b.len() > 0 {
            assert(b.contains(b[0]));
        }
        assert(a =~= b);
    } else if b.len() == 0 {
        assert(a.contains(a[0]));
    } else {
        assert(a.contains(a[0]));
        let j = choose|j: int| 0 <= j < b.len() && b[j] == a[0];
        assert(b.contains(b[0]));
        let k = choose|k: int| 0 <= k < a.len() && a[k] == b[0];
        if j > 0 {
            assert(lex_lt(b[0], b[j]));
            if k > 0 {
                assert(lex_lt(a[0], a[k]));
                lemma_lex_asym(a[0], b[0]);
            } else {
                lemma_lex_irreflexive(a[0]);
            }
        }
        assert(a[0] == b[0]);
        let a1 = a.drop_first();
        let b1 = b.drop_first();
        assert forall|x: Seq<char>| a1.contains(x) <==> b1.contains(x) by {
            if a1.contains(x) {
                let i = choose|i: int| 0 <= i < a1.len() && a1[i] == x;
                assert(a[i + 1] == x);
                assert(lex_lt(a[0], a[i + 1]));
                lemma_lex_irreflexive(x);
                assert(b.contains(x));
                let q = choose|q: int| 0 <= q < b.len() && b[q] == x;
                assert(q != 0);
                assert(b1[q - 1] == x);
            }
            if b1.contains(x) {
                let i = choose|i: int| 0 <= i < b1.len() && b1[i] == x;
                assert(b[i + 1] == x);
                assert(lex_lt(b[0], b[i + 1]));
                lemma_lex_irreflexive(x);
                assert(a.contains(x));
                let q = choose|q: int| 0 <= q < a.len() && a[q] == x;
                assert(q != 0);
                assert(a1[q - 1] == x);
            }
        }
        assert forall|x: int, y: int| 0 <= x < y < a1.len() implies lex_lt(#[trigger] a1[x], #[trigger] a1[y]) by {
            assert(a1[x] == a[x + 1] && a1[y] == a[y + 1]);
        }
        assert forall|x: int, y: int| 0 <= x < y < b1.len() implies lex_lt(#[trigger] b1[x], #[trigger] b1[y]) by {
            assert(b1[x] == b[x + 1] && b1[y] == b[y + 1]);
        }
        ascending_unique(a1, b1);
        assert(a =~= seq![a[0]] + a1);
        assert(b =~= seq![b[0]] + b1);
    }
}

/// A map has exactly one listing sorted by key.
pub proof fn sorted_listing_unique(
    a: Seq<(Seq<char>, Seq<char>)>,
    b: Seq<(Seq<char>, Seq<char>)>,
    m: Map<Seq<char>, Seq<char>>,
)
    requires
        sorted_by_key(a),
        sorted_by_key(b),
        lists_map(a, m),
        lists_map(b, m),
    ensures
        a == b,
{
    let ka = keys_of(a);
    let kb = keys_of(b);
    assert forall|i: int, j: int| 0 <= i < j < ka.len() implies lex_lt(#[trigger] ka[i], #[trigger] ka[j]) by {
        assert(ka[i] == a[i].0 && ka[j] == a[j].0);
    }
    assert forall|i: int, j: int| 0 <= i < j < kb.len() implies lex_lt(#[trigger] kb[i], #[trigger] kb[j]) by {
        assert(kb[i] == b[i].0 && kb[j] == b[j].0);
    }
    assert forall|k: Seq<char>| ka.contains(k) <==> kb.contains(k) by {
        if ka.contains(k) {
            let i = choose|i: int| 0 <= i < ka.len() && ka[i] == k;
            assert(a[i].0 == k);
            assert(m.contains_key(a[i].0));
            let q = choose|q: int| 0 <= q < b.len() && b[q].0 == k;
            assert(kb[q] == k);
        }
        if kb.contains(k) {
            let i = choose|i: int| 0 <= i < kb.len() && kb[i] == k;
            assert(b[i].0 == k);
            assert(m.contains_key(b[i].0));
            let q = choose|q: int| 0 <= q < a.len() && a[q].0 == k;
            assert(ka[q] == k);
        }
    }
    ascending_unique(ka, kb);
    assert forall|i: int| 0 <= i < a.len() implies a[i] == b[i] by {
        assert(ka[i] == kb[i]);
        assert(a[i].0 == b[i].0);
        assert(m[a[i].0] == a[i].1);
        assert(m[b[i].0] == b[i].1);
    }
    assert(a =~= b);
}

/// The position of `key` in a listing, if it is there.
pub fn find_key(list: &Vec<(String, String)>, key: &str) -> (res: Option<usize>)
    ensures
        match res {
            Some(i) => i < list@.len() && list@[i as int].0@ == key@,
            None => forall|i: int| 0 <= i < list@.len() ==> #[trigger] list@[i].0@ != key@,
        },
{
    for i in 0..list.len()
        invariant
            forall|q: int| 0 <= q < i ==> #[trigger] list@[q].0@ != key@,
    {
        if str_eq(list[i].0.as_str(), key) {
            return Some(i);
        }
    }
    None
}

} // verus!
