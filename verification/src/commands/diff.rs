//! `envlock diff A B`: which keys two vaults add, remove or change, with
//! their values never shown.

use vstd::prelude::*;
use crate::envfile::{dollar_byte, dotenvy_keys, dotenvy_shape, is_env_key, pairs_view, parse_env, shape_collect, spec_collect_pairs};
use crate::envmap::{
    ascending, env_map, find_key, keys_of, lex_lt, lists_map, sorted_by_key, sorted_env_map,
};
use crate::error::{Error, Purpose};
use crate::text::{decimal, push_line, str_eq, usize_to_decimal, views};
use crate::commands::check::{append_all, frame_all, framed};
use crate::envmap::ascending_unique;

verus! {

/// The keys that `diff` reports, each list in ascending order.
pub struct KeyDiff {
    /// Keys only in the second vault.
    pub added: Vec<String>,
    /// Keys only in the first vault.
    pub removed: Vec<String>,
    /// Keys in both vaults whose values differ.
    pub changed: Vec<String>,
}

/// Keys of `b` that `a` lacks.
pub open spec fn is_added(a: Map<Seq<char>, Seq<char>>, b: Map<Seq<char>, Seq<char>>, k: Seq<char>) -> bool {
    b.contains_key(k) && !a.contains_key(k)
}

/// Keys of both whose values differ.
pub open spec fn is_changed(a: Map<Seq<char>, Seq<char>>, b: Map<Seq<char>, Seq<char>>, k: Seq<char>) -> bool {
    a.contains_key(k) && b.contains_key(k) && a[k] != b[k]
}

/// `ks` lists, in ascending order, exactly the keys that satisfy `p`.
pub open spec fn lists_keys(ks: Seq<Seq<char>>, p: spec_fn(Seq<char>) -> bool) -> bool {
    &&& ascending(ks)
    &&& forall|i: int| 0 <= i < ks.len() ==> p(#[trigger] ks[i])
    &&& forall|k: Seq<char>| #[trigger] p(k) ==> ks.contains(k)
}

/// Whether `ks` takes its keys, in order, from the entries of `pb` at the
/// positions `idx`, each of them kept.
pub open spec fn drawn_from(
    ks: Seq<Seq<char>>,
    idx: Seq<int>,
    pa: Seq<(Seq<char>, Seq<char>)>,
    pb: Seq<(Seq<char>, Seq<char>)>,
    want_absent: bool,
    bound: int,
) -> bool {
    &&& ks.len() == idx.len()
    &&& forall|i: int| 0 <= i < idx.len() ==> 0 <= #[trigger] idx[i] < bound && ks[i] == pb[idx[i]].0
        && keep_entry(pa, pb[idx[i]], want_absent)
}

/// The ascending keys of the entries of the sorted listing `lb` that
/// `keep_entry` keeps against the sorted listing `la`.
fn select_keys(la: &Vec<(String, String)>, lb: &Vec<(String, String)>, want_absent: bool) -> (res: (Vec<String>, Ghost<Seq<int>>))
    requires
        sorted_by_key(pairs_view(la@)),
        sorted_by_key(pairs_view(lb@)),
    ensures
        ascending(views(res.0@)),
        drawn_from(views(res.0@), res.1@, pairs_view(la@), pairs_view(lb@), want_absent, lb@.len() as int),
        forall|q: int| 0 <= q < pairs_view(lb@).len() && keep_entry(pairs_view(la@), #[trigger] pairs_view(lb@)[q], want_absent)
            ==> views(res.0@).contains(pairs_view(lb@)[q].0),
{
    let ghost pa = pairs_view(la@);
    let ghost pb = pairs_view(lb@);
    let mut out: Vec<String> = Vec::new();
    let ghost mut idx: Seq<int> = Seq::empty();
    for q in 0..lb.len()
        invariant
            pa == pairs_view(la@),
            pb == pairs_view(lb@),
            pb.len() == lb@.len(),
            sorted_by_key(pa),
            sorted_by_key(pb),
            ascending(views(out@)),
            drawn_from(views(out@), idx, pa, pb, want_absent, q as int),
            forall|r: int| 0 <= r < q && keep_entry(pa, #[trigger] pb[r], want_absent) ==> views(out@).contains(pb[r].0),
    {
        let found = find_key(la, lb[q].0.as_str());
        let keep = match found {
            None => want_absent,
            Some(i) => !want_absent && !str_eq(la[i].1.as_str(), lb[q].1.as_str()),
        };
        let ghost e = pb[q as int];
        proof {
            assert(e == (lb@[q as int].0@, lb@[q as int].1@));
            match found {
                None => {
                    assert forall|i: int| 0 <= i < pa.len() implies #[trigger] pa[i].0 != e.0 by {
                        assert(pa[i].0 == la@[i].0@);
                    }
                },
                Some(i) => {
                    assert(pa[i as int].0 == e.0);
                    if !want_absent {
                        assert forall|j: int| 0 <= j < pa.len() && #[trigger] pa[j].0 == e.0 implies j == i by {
                            if j < i {
                                assert(lex_lt(pa[j].0, pa[i as int].0));
                                crate::envmap::lemma_lex_irreflexive(e.0);
                            } else if j > i {
                                assert(lex_lt(pa[i as int].0, pa[j].0));
                                crate::envmap::lemma_lex_irreflexive(e.0);
                            }
                        }
                        assert(pa[i as int].1 == la@[i as int].1@);
                    }
                },
            }
            assert(keep == keep_entry(pa, e, want_absent));
        }
        let ghost before = views(out@);
        if keep {
            out.push(lb[q].0.clone());
            assert(views(out@) =~= before.push(e.0));
            proof {
                let old_idx = idx;
                idx = idx.push(q as int);
                assert forall|i: int, j: int| 0 <= i < j < views(out@).len() implies lex_lt(
                    #[trigger] views(out@)[i], #[trigger] views(out@)[j]) by {
                    if j == views(out@).len() - 1 {
                        assert(before[i] == pb[old_idx[i]].0);
                        assert(lex_lt(pb[old_idx[i]].0, pb[q as int].0));
                    } else {
                        assert(views(out@)[i] == before[i]);
                        assert(views(out@)[j] == before[j]);
                    }
                }
                assert forall|i: int| 0 <= i < idx.len() implies 0 <= #[trigger] idx[i] < q + 1 && views(out@)[i] == pb[idx[i]].0
                    && keep_entry(pa, pb[idx[i]], want_absent) by {
                    if i < idx.len() - 1 {
                        assert(idx[i] == old_idx[i]);
                        assert(views(out@)[i] == before[i]);
                    }
                }
                assert forall|r: int| 0 <= r < q + 1 && keep_entry(pa, #[trigger] pb[r], want_absent) implies views(out@).contains(pb[r].0) by {
                    if r == q {
                        assert(views(out@)[views(out@).len() - 1] == pb[r].0);
                    } else {
                        let i = choose|i: int| 0 <= i < before.len() && before[i] == pb[r].0;
                        assert(views(out@)[i] == before[i]);
                    }
                }
            }
        }
    }
    (out, Ghost(idx))
}

/// Whether an entry of the second listing is kept: when `want_absent`, its
/// key is missing from the first listing; otherwise the key is there with
/// another value.
pub open spec fn keep_entry(la: Seq<(Seq<char>, Seq<char>)>, e: (Seq<char>, Seq<char>), want_absent: bool) -> bool {
    if want_absent {
        forall|i: int| 0 <= i < la.len() ==> #[trigger] la[i].0 != e.0
    } else {
        exists|i: int| 0 <= i < la.len() && #[trigger] la[i].0 == e.0 && la[i].1 != e.1
    }
}

/// The keys that two sets of pairs add, remove and change, each in
/// ascending order: `added` lists the keys of `b` alone, `removed` those of
/// `a` alone, `changed` those of both with different values.
pub fn diff_pairs(a: &Vec<(String, String)>, b: &Vec<(String, String)>) -> (res: KeyDiff)
    ensures
        ({
            let ma = env_map(pairs_view(a@));
            let mb = env_map(pairs_view(b@));
            &&& lists_keys(views(res.added@), |k: Seq<char>| is_added(ma, mb, k))
            &&& lists_keys(views(res.removed@), |k: Seq<char>| is_added(mb, ma, k))
            &&& lists_keys(views(res.changed@), |k: Seq<char>| is_changed(ma, mb, k))
        }),
{
    let la = sorted_env_map(a);
    let lb = sorted_env_map(b);
    let (added, Ghost(i1)) = select_keys(&la, &lb, true);
    let (removed, Ghost(i2)) = select_keys(&lb, &la, true);
    let (changed, Ghost(i3)) = select_keys(&lb, &la, false);
    proof {
        let ma = env_map(pairs_view(a@));
        let mb = env_map(pairs_view(b@));
        let pa = pairs_view(la@);
        let pb = pairs_view(lb@);
        lemma_select_lists(pa, pb, ma, mb, views(added@), i1, true);
        lemma_select_lists(pb, pa, mb, ma, views(removed@), i2, true);
        lemma_select_lists(pb, pa, mb, ma, views(changed@), i3, false);
        let p1 = |k: Seq<char>| is_changed(mb, ma, k);
        let p2 = |k: Seq<char>| is_changed(ma, mb, k);
        assert forall|k: Seq<char>| #[trigger] p1(k) == p2(k) by {}
        assert(p1 =~= p2);
    }
    KeyDiff { added, removed, changed }
}

proof fn lemma_select_lists(
    pa: Seq<(Seq<char>, Seq<char>)>,
    pb: Seq<(Seq<char>, Seq<char>)>,
    ma: Map<Seq<char>, Seq<char>>,
    mb: Map<Seq<char>, Seq<char>>,
    ks: Seq<Seq<char>>,
    idx: Seq<int>,
    want_absent: bool,
)
    requires
        lists_map(pa, ma),
        lists_map(pb, mb),
        ascending(ks),
        drawn_from(ks, idx, pa, pb, want_absent, pb.len() as int),
        forall|q: int| 0 <= q < pb.len() && keep_entry(pa, #[trigger] pb[q], want_absent) ==> ks.contains(pb[q].0),
    ensures
        want_absent ==> lists_keys(ks, |k: Seq<char>| is_added(ma, mb, k)),
        !want_absent ==> lists_keys(ks, |k: Seq<char>| is_changed(ma, mb, k)),
{
    assert forall|q: int| 0 <= q < pb.len() implies (keep_entry(pa, #[trigger] pb[q], want_absent) <==> (if want_absent {
        is_added(ma, mb, pb[q].0)
    } else {
        is_changed(ma, mb, pb[q].0)
    })) by {
        let e = pb[q];
        assert(mb.contains_key(e.0) && mb[e.0] == e.1);
        if ma.contains_key(e.0) {
            let i = choose|i: int| 0 <= i < pa.len() && pa[i].0 == e.0;
            assert(pa[i].1 == ma[e.0]);
        } else {
            assert forall|i: int| 0 <= i < pa.len() implies #[trigger] pa[i].0 != e.0 by {
                assert(ma.contains_key(pa[i].0));
            }
        }
    }
    if want_absent {
        let p = |k: Seq<char>| is_added(ma, mb, k);
        assert forall|k: Seq<char>| #[trigger] p(k) implies ks.contains(k) by {
            let q = choose|q: int| 0 <= q < pb.len() && pb[q].0 == k;
            assert(keep_entry(pa, pb[q], want_absent));
        }
        assert forall|i: int| 0 <= i < ks.len() implies p(#[trigger] ks[i]) by {
            assert(0 <= idx[i] < pb.len());
        }
    } else {
        let p = |k: Seq<char>| is_changed(ma, mb, k);
        assert forall|k: Seq<char>| #[trigger] p(k) implies ks.contains(k) by {
            let q = choose|q: int| 0 <= q < pb.len() && pb[q].0 == k;
            assert(keep_entry(pa, pb[q], want_absent));
        }
        assert forall|i: int| 0 <= i < ks.len() implies p(#[trigger] ks[i]) by {
            assert(0 <= idx[i] < pb.len());
        }
    }
}


/// The pairs of one vault to compare, from its decrypted `plaintext`; an
/// empty vault is refused, naming `vault`.
pub fn diff_vault_pairs(plaintext: &[u8], vault: &str) -> (res: Result<Vec<(String, String)>, Error>)
    ensures
        plaintext@.len() == 0 ==> (res matches Err(Error::EmptyVault(v, p)) && v@ == vault@ && p
            == Purpose::Diff),
        plaintext@.len() > 0 ==> match shape_collect(dotenvy_keys(plaintext@)) {
            Err(m) => res matches Err(Error::EnvParse(e)) && e@ == m,
            Ok(ks) => res matches Ok(ps) && keys_of(pairs_view(ps@)) == ks,
        },
        plaintext@.len() > 0 && !plaintext@.contains(dollar_byte()) ==> (spec_collect_pairs(
            dotenvy_shape(plaintext@),
        ) matches Ok(ps) ==> res matches Ok(v) && pairs_view(v@) == ps),
        res matches Ok(ps) ==> forall|j: int| 0 <= j < ps@.len() ==> is_env_key(#[trigger] ps@[j].0@),
{
    if plaintext.len() == 0 {
        return Err(Error::EmptyVault(String::from_str(vault), Purpose::Diff));
    }
    parse_env(plaintext)
}

/// What `diff` prints for the key differences `d` between the vaults named
/// `a` and `b`.
pub open spec fn spec_diff_report(a: Seq<char>, b: Seq<char>, d: KeyDiff) -> Seq<Seq<char>> {
    if d.added@.len() == 0 && d.removed@.len() == 0 && d.changed@.len() == 0 {
        seq!["No differences found."@]
    } else {
        seq!["Comparing "@ + a + " \u{2194} "@ + b, ""@]
            + framed(views(d.added@), "+ "@, ""@)
            + framed(views(d.removed@), "- "@, ""@)
            + framed(views(d.changed@), "~ "@, " (value differs)"@)
            + seq![""@, "Summary: "@ + decimal(d.added@.len()) + " added, "@ + decimal(d.removed@.len())
                + " removed, "@ + decimal(d.changed@.len()) + " changed"@]
    }
}

/// The lines that `diff` prints; values never appear, only keys.
pub fn diff_report(a: &str, b: &str, d: &KeyDiff) -> (res: Vec<String>)
    ensures
        views(res@) == spec_diff_report(a@, b@, *d),
{
    let mut out: Vec<String> = Vec::new();
    if d.added.len() == 0 && d.removed.len() == 0 && d.changed.len() == 0 {
        push_line(&mut out, "No differences found.");
        assert(views(out@) =~= seq!["No differences found."@]);
        return out;
    }
    let mut h = String::from_str("Comparing ");
    h.append(a);
    h.append(" \u{2194} ");
    h.append(b);
    out.push(h);
    push_line(&mut out, "");
    assert(views(out@) =~= seq!["Comparing "@ + a@ + " \u{2194} "@ + b@, ""@]);
    append_all(&mut out, frame_all(&d.added, "+ ", ""));
    append_all(&mut out, frame_all(&d.removed, "- ", ""));
    append_all(&mut out, frame_all(&d.changed, "~ ", " (value differs)"));
    let ghost before = views(out@);
    push_line(&mut out, "");
    let mut sm = String::from_str("Summary: ");
    let n1 = usize_to_decimal(d.added.len());
    sm.append(n1.as_str());
    sm.append(" added, ");
    let n2 = usize_to_decimal(d.removed.len());
    sm.append(n2.as_str());
    sm.append(" removed, ");
    let n3 = usize_to_decimal(d.changed.len());
    sm.append(n3.as_str());
    sm.append(" changed");
    let ghost last = sm@;
    out.push(sm);
    assert(views(out@) =~= before + seq![""@, last]);
    out
}

/// The report says "No differences found." exactly when no key was added,
/// removed or changed; otherwise it lists every added key as `+ KEY`, every
/// removed key as `- KEY` and every changed key as `~ KEY (value differs)`.
pub proof fn diff_report_lists_every_difference(a: Seq<char>, b: Seq<char>, d: KeyDiff)
    ensures
        (spec_diff_report(a, b, d) == seq!["No differences found."@]) <==> (d.added@.len() == 0
            && d.removed@.len() == 0 && d.changed@.len() == 0),
        forall|i: int| 0 <= i < d.added@.len() ==> spec_diff_report(a, b, d).contains(
            "+ "@ + (#[trigger] d.added@[i])@),
        forall|i: int| 0 <= i < d.removed@.len() ==> spec_diff_report(a, b, d).contains(
            "- "@ + (#[trigger] d.removed@[i])@),
        forall|i: int| 0 <= i < d.changed@.len() ==> spec_diff_report(a, b, d).contains(
            "~ "@ + (#[trigger] d.changed@[i])@ + " (value differs)"@),
        !(d.added@.len() == 0 && d.removed@.len() == 0 && d.changed@.len() == 0) ==> spec_diff_report(a, b, d).last()
            == "Summary: "@ + decimal(d.added@.len()) + " added, "@ + decimal(d.removed@.len()) + " removed, "@
            + decimal(d.changed@.len()) + " changed"@,
{
    reveal_strlit("");
    let r = spec_diff_report(a, b, d);
    let empty = d.added@.len() == 0 && d.removed@.len() == 0 && d.changed@.len() == 0;
    if !empty {
        let head = seq!["Comparing "@ + a + " \u{2194} "@ + b, ""@];
        let fa = framed(views(d.added@), "+ "@, ""@);
        let fr = framed(views(d.removed@), "- "@, ""@);
        let fc = framed(views(d.changed@), "~ "@, " (value differs)"@);
        let tail = seq![""@, "Summary: "@ + decimal(d.added@.len()) + " added, "@ + decimal(d.removed@.len())
            + " removed, "@ + decimal(d.changed@.len()) + " changed"@];
        assert(r == head + fa + fr + fc + tail);
        assert(r.len() >= 4);
        assert(r != seq!["No differences found."@]) by {
            assert(seq!["No differences found."@].len() == 1);
        }
        assert forall|i: int| 0 <= i < d.added@.len() implies r.contains("+ "@ + (#[trigger] d.added@[i])@) by {
            assert(fa[i] == "+ "@ + views(d.added@)[i] + ""@);
            assert("+ "@ + d.added@[i]@ + ""@ =~= "+ "@ + d.added@[i]@);
            assert(r[2 + i] == fa[i]);
        }
        assert forall|i: int| 0 <= i < d.removed@.len() implies r.contains("- "@ + (#[trigger] d.removed@[i])@) by {
            assert(fr[i] == "- "@ + views(d.removed@)[i] + ""@);
            assert("- "@ + d.removed@[i]@ + ""@ =~= "- "@ + d.removed@[i]@);
            assert(r[2 + fa.len() + i] == fr[i]);
        }
        assert forall|i: int| 0 <= i < d.changed@.len() implies r.contains(
            "~ "@ + (#[trigger] d.changed@[i])@ + " (value differs)"@) by {
            assert(fc[i] == "~ "@ + views(d.changed@)[i] + " (value differs)"@);
            assert(r[2 + fa.len() + fr.len() + i] == fc[i]);
        }
    }
}

/// A vault compared with one holding the same entries shows no difference.
pub proof fn diff_same_is_empty(m: Map<Seq<char>, Seq<char>>, added: Seq<Seq<char>>, changed: Seq<Seq<char>>)
    requires
        lists_keys(added, |k: Seq<char>| is_added(m, m, k)),
        lists_keys(changed, |k: Seq<char>| is_changed(m, m, k)),
    ensures
        added.len() == 0,
        changed.len() == 0,
{
    if added.len() > 0 {
        assert(is_added(m, m, added[0]));
    }
    if changed.len() > 0 {
        assert(is_changed(m, m, changed[0]));
    }
}

/// Comparing the vaults the other way round swaps the added and removed
/// keys and keeps the changed ones.
pub proof fn diff_swapped(
    ma: Map<Seq<char>, Seq<char>>,
    mb: Map<Seq<char>, Seq<char>>,
    ab: (Seq<Seq<char>>, Seq<Seq<char>>, Seq<Seq<char>>),
    ba: (Seq<Seq<char>>, Seq<Seq<char>>, Seq<Seq<char>>),
)
    requires
        lists_keys(ab.0, |k: Seq<char>| is_added(ma, mb, k)),
        lists_keys(ab.1, |k: Seq<char>| is_added(mb, ma, k)),
        lists_keys(ab.2, |k: Seq<char>| is_changed(ma, mb, k)),
        lists_keys(ba.0, |k: Seq<char>| is_added(mb, ma, k)),
        lists_keys(ba.1, |k: Seq<char>| is_added(ma, mb, k)),
        lists_keys(ba.2, |k: Seq<char>| is_changed(mb, ma, k)),
    ensures
        ab.0 == ba.1,
        ab.1 == ba.0,
        ab.2 == ba.2,
{
    lemma_same_listing(ab.0, ba.1, |k: Seq<char>| is_added(ma, mb, k));
    lemma_same_listing(ab.1, ba.0, |k: Seq<char>| is_added(mb, ma, k));
    let p = |k: Seq<char>| is_changed(ma, mb, k);
    let q = |k: Seq<char>| is_changed(mb, ma, k);
    assert forall|k: Seq<char>| #[trigger] q(k) implies ba.2.contains(k) by {}
    assert forall|k: Seq<char>| #[trigger] p(k) == q(k) by {}
    assert(p =~= q);
    lemma_same_listing(ab.2, ba.2, p);
}

proof fn lemma_same_listing(a: Seq<Seq<char>>, b: Seq<Seq<char>>, p: spec_fn(Seq<char>) -> bool)
    requires
        lists_keys(a, p),
        lists_keys(b, p),
    ensures
        a == b,
{
    assert forall|k: Seq<char>| a.contains(k) <==> b.contains(k) by {
        if a.contains(k) {
            let i = choose|i: int| 0 <= i < a.len() && a[i] == k;
            assert(p(a[i]));
        }
        if b.contains(k) {
            let i = choose|i: int| 0 <= i < b.len() && b[i] == k;
            assert(p(b[i]));
        }
    }
    ascending_unique(a, b);
}

} // verus!
