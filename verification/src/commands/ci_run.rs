//! `envlock ci run --prefix P -- <command...>`: the variables that CI
//! provides under a prefix, stripped of it, with a vault's values filling in
//! the keys that CI does not set.

use vstd::prelude::*;
use crate::commands::common::{open_vault, spec_open_vault};
use crate::envfile::{dollar_byte, dotenvy_keys, dotenvy_shape, is_env_key, pairs_view, parse_env_lenient, shape_keys, spec_ok_pairs};
use crate::envmap::keys_of;
use crate::error::Error;
use crate::text::{has_prefix, starts_with_str, str_eq};

verus! {

/// The pairs of `vars` whose key starts with `prefix` and is longer than it,
/// with the prefix taken off the key.
pub open spec fn spec_strip_prefixed(vars: Seq<(Seq<char>, Seq<char>)>, prefix: Seq<char>) -> Seq<(Seq<char>, Seq<char>)>
    decreases vars.len(),
{
    if vars.len() == 0 {
        seq![]
    } else {
        let (k, v) = vars.last();
        spec_strip_prefixed(vars.drop_last(), prefix) + if has_prefix(k, prefix) && k.len() > prefix.len() {
            seq![(k.skip(prefix.len() as int), v)]
        } else {
            Seq::<(Seq<char>, Seq<char>)>::empty()
        }
    }
}

/// `ps` followed by the pairs of `extra` whose key is not yet present.
pub open spec fn spec_merge_missing(ps: Seq<(Seq<char>, Seq<char>)>, extra: Seq<(Seq<char>, Seq<char>)>) -> Seq<(Seq<char>, Seq<char>)>
    decreases extra.len(),
{
    if extra.len() == 0 {
        ps
    } else {
        let merged = spec_merge_missing(ps, extra.drop_last());
        if keys_of(merged).contains(extra.last().0) {
            merged
        } else {
            merged.push(extra.last())
        }
    }
}

/// The pairs of `vars` whose key starts with `prefix`, prefix removed; a key
/// that is the prefix alone is skipped.
pub fn strip_prefixed(vars: &Vec<(String, String)>, prefix: &str) -> (res: Vec<(String, String)>)
    ensures
        pairs_view(res@) == spec_strip_prefixed(pairs_view(vars@), prefix@),
{
    let ghost vs = pairs_view(vars@);
    let n = prefix.unicode_len();
    let mut out: Vec<(String, String)> = Vec::new();
    assert(vs.take(0) =~= Seq::<(Seq<char>, Seq<char>)>::empty());
    for i in 0..vars.len()
        invariant
            vs == pairs_view(vars@),
            n == prefix@.len(),
            pairs_view(out@) == spec_strip_prefixed(vs.take(i as int), prefix@),
    {
        assert(vs.take(i + 1).drop_last() =~= vs.take(i as int));
        assert(vs.take(i + 1).last() == (vars@[i as int].0@, vars@[i as int].1@));
        let k = vars[i].0.as_str();
        let ghost before = pairs_view(out@);
        if starts_with_str(k, prefix) && k.unicode_len() > n {
            let rest = String::from_str(k.substring_char(n, k.unicode_len()));
            assert(rest@ =~= k@.skip(n as int));
            out.push((rest, vars[i].1.clone()));
            assert(pairs_view(out@) =~= before.push((k@.skip(n as int), vars@[i as int].1@)));
        }
        assert(pairs_view(out@) =~= spec_strip_prefixed(vs.take(i + 1), prefix@));
    }
    assert(vs.take(vs.len() as int) =~= vs);
    out
}

fn has_key(ps: &Vec<(String, String)>, key: &str) -> (res: bool)
    ensures
        res == keys_of(pairs_view(ps@)).contains(key@),
{
    for i in 0..ps.len()
        invariant
            forall|q: int| 0 <= q < i ==> #[trigger] ps@[q].0@ != key@,
    {
        if str_eq(ps[i].0.as_str(), key) {
            assert(keys_of(pairs_view(ps@))[i as int] == key@);
            return true;
        }
    }
    assert forall|q: int| 0 <= q < keys_of(pairs_view(ps@)).len() implies keys_of(pairs_view(ps@))[q] != key@ by {
        assert(keys_of(pairs_view(ps@))[q] == ps@[q].0@);
    }
    false
}

/// `pairs` followed by the pairs of `extra` whose key is not yet present.
pub fn merge_missing(pairs: Vec<(String, String)>, extra: &Vec<(String, String)>) -> (res: Vec<(String, String)>)
    ensures
        pairs_view(res@) == spec_merge_missing(pairs_view(pairs@), pairs_view(extra@)),
{
    let ghost ps = pairs_view(pairs@);
    let ghost es = pairs_view(extra@);
    let mut out = pairs;
    assert(es.take(0) =~= Seq::<(Seq<char>, Seq<char>)>::empty());
    for i in 0..extra.len()
        invariant
            es == pairs_view(extra@),
            pairs_view(out@) == spec_merge_missing(ps, es.take(i as int)),
    {
        assert(es.take(i + 1).drop_last() =~= es.take(i as int));
        assert(es.take(i + 1).last() == (extra@[i as int].0@, extra@[i as int].1@));
        let ghost before = pairs_view(out@);
        if !has_key(&out, extra[i].0.as_str()) {
            out.push((extra[i].0.clone(), extra[i].1.clone()));
            assert(pairs_view(out@) =~= before.push((extra@[i as int].0@, extra@[i as int].1@)));
        }
    }
    assert(es.take(es.len() as int) =~= es);
    out
}

/// The pairs a vault contributes in CI: none unless there is a vault, an
/// identity file, an identity in it and a ciphertext it opens; then the
/// pairs that dotenvy parses from the plaintext.
pub fn ci_vault_pairs(ciphertext: Option<Vec<u8>>, identity_file: Option<String>) -> (res: Vec<(String, String)>)
    ensures
        match (ciphertext, identity_file) {
            (Some(ct), Some(id)) => match spec_open_vault(ct@, id@) {
                None => res@.len() == 0,
                Some(p) => keys_of(pairs_view(res@)) == shape_keys(dotenvy_keys(p)) && (!p.contains(
                    dollar_byte(),
                ) ==> pairs_view(res@) == spec_ok_pairs(dotenvy_shape(p))),
            },
            _ => res@.len() == 0,
        },
        forall|j: int| 0 <= j < res@.len() ==> is_env_key(#[trigger] res@[j].0@),
{
    match (ciphertext, identity_file) {
        (Some(ct), Some(id)) => match open_vault(ct.as_slice(), Ok(id)) {
            Ok(plaintext) => parse_env_lenient(plaintext.as_slice()),
            Err(_) => Vec::new(),
        },
        _ => Vec::new(),
    }
}

/// The variables that `ci run` injects: the prefixed variables of `vars`
/// with the prefix removed, then the vault's pairs for keys they lack.
/// Having none is an error naming the prefix.
pub fn ci_run_pairs(vars: &Vec<(String, String)>, prefix: &str, vault_pairs: &Vec<(String, String)>) -> (res: Result<Vec<(String, String)>, Error>)
    ensures
        ({
            let merged = spec_merge_missing(spec_strip_prefixed(pairs_view(vars@), prefix@), pairs_view(vault_pairs@));
            if merged.len() == 0 {
                res matches Err(Error::NoPrefixedVars(p)) && p@ == prefix@
            } else {
                res matches Ok(ps) && pairs_view(ps@) == merged
            }
        }),
{
    let stripped = strip_prefixed(vars, prefix);
    let merged = merge_missing(stripped, vault_pairs);
    if merged.len() == 0 {
        return Err(Error::NoPrefixedVars(String::from_str(prefix)));
    }
    Ok(merged)
}

/// The variables that CI sets win: every pair that CI sets stays first and
/// unchanged, and a pair from the vault is added only for a key that CI
/// does not set, at most once per key.
pub proof fn ci_values_override_vault(ps: Seq<(Seq<char>, Seq<char>)>, extra: Seq<(Seq<char>, Seq<char>)>)
    ensures
        spec_merge_missing(ps, extra).len() >= ps.len(),
        spec_merge_missing(ps, extra).take(ps.len() as int) == ps,
        forall|i: int| ps.len() <= i < spec_merge_missing(ps, extra).len() ==> !keys_of(ps).contains(
            #[trigger] spec_merge_missing(ps, extra)[i].0,
        ),
        forall|i: int, j: int| ps.len() <= i < j < spec_merge_missing(ps, extra).len() ==> #[trigger] spec_merge_missing(ps, extra)[i].0
            != #[trigger] spec_merge_missing(ps, extra)[j].0,
    decreases extra.len(),
{
    if extra.len() == 0 {
        assert(ps.take(ps.len() as int) =~= ps);
    } else {
        ci_values_override_vault(ps, extra.drop_last());
        let merged = spec_merge_missing(ps, extra.drop_last());
        let e = extra.last();
        if !keys_of(merged).contains(e.0) {
            let m2 = merged.push(e);
            assert(m2.take(ps.len() as int) =~= merged.take(ps.len() as int));
            assert forall|i: int| ps.len() <= i < m2.len() implies !keys_of(ps).contains(#[trigger] m2[i].0) by {
                if i == m2.len() - 1 {
                    if keys_of(ps).contains(e.0) {
                        let q = choose|q: int| 0 <= q < keys_of(ps).len() && keys_of(ps)[q] == e.0;
                        assert(merged[q] == ps[q]) by {
                            assert(merged.take(ps.len() as int)[q] == ps[q]);
                        }
                        assert(keys_of(merged)[q] == e.0);
                    }
                } else {
                    assert(m2[i] == merged[i]);
                }
            }
            assert forall|i: int, j: int| ps.len() <= i < j < m2.len() implies #[trigger] m2[i].0 != #[trigger] m2[j].0 by {
                if j == m2.len() - 1 {
                    assert(m2[i] == merged[i]);
                    assert(keys_of(merged)[i] == merged[i].0);
                } else {
                    assert(m2[i] == merged[i] && m2[j] == merged[j]);
                }
            }
        }
    }
}

/// Every key that the vault sets reaches the command: after the merge each
/// vault key is present, and a vault pair whose key CI does not set, and
/// that is the first vault pair with that key, is injected as it is. Every
/// pair after CI's own comes from the vault.
pub proof fn ci_merge_fills_every_vault_key(ps: Seq<(Seq<char>, Seq<char>)>, extra: Seq<(Seq<char>, Seq<char>)>)
    ensures
        forall|j: int| 0 <= j < extra.len() ==> keys_of(spec_merge_missing(ps, extra)).contains(
            (#[trigger] extra[j]).0),
        forall|j: int|
            0 <= j < extra.len() && !keys_of(ps).contains(extra[j].0) && (forall|k: int|
                0 <= k < j ==> extra[k].0 != extra[j].0) ==> spec_merge_missing(ps, extra).contains(
                #[trigger] extra[j]),
        forall|i: int| ps.len() <= i < spec_merge_missing(ps, extra).len() ==> exists|j: int|
            0 <= j < extra.len() && extra[j] == #[trigger] spec_merge_missing(ps, extra)[i],
    decreases extra.len(),
{
    if extra.len() > 0 {
        let n = extra.len() - 1;
        let front = extra.drop_last();
        let e = extra.last();
        let mn = spec_merge_missing(ps, front);
        let m = spec_merge_missing(ps, extra);
        ci_merge_fills_every_vault_key(ps, front);
        ci_values_override_vault(ps, front);
        assert forall|j: int| 0 <= j < n implies #[trigger] front[j] == extra[j] by {}
        if keys_of(mn).contains(e.0) {
            assert(m == mn);
            assert forall|j: int| 0 <= j < extra.len() implies keys_of(m).contains((#[trigger] extra[j]).0) by {
                if j < n {
                    assert(front[j] == extra[j]);
                }
            }
            assert forall|j: int|
                0 <= j < extra.len() && !keys_of(ps).contains(extra[j].0) && (forall|k: int|
                    0 <= k < j ==> extra[k].0 != extra[j].0) implies m.contains(#[trigger] extra[j]) by {
                if j < n {
                    assert(front[j] == extra[j]);
                    assert forall|k: int| 0 <= k < j implies front[k].0 != front[j].0 by {
                        assert(front[k] == extra[k]);
                    }
                } else {
                    let i = choose|i: int| 0 <= i < keys_of(mn).len() && keys_of(mn)[i] == e.0;
                    if i < ps.len() {
                        assert(mn.take(ps.len() as int)[i] == ps[i]);
                        assert(keys_of(ps)[i] == e.0);
                    } else {
                        let q = choose|q: int| 0 <= q < front.len() && front[q] == mn[i];
                        assert(extra[q].0 == e.0);
                    }
                }
            }
            assert forall|i: int| ps.len() <= i < m.len() implies exists|j: int|
                0 <= j < extra.len() && extra[j] == #[trigger] m[i] by {
                let q = choose|q: int| 0 <= q < front.len() && front[q] == mn[i];
                assert(extra[q] == m[i]);
            }
        } else {
            assert(m == mn.push(e));
            assert forall|j: int| 0 <= j < extra.len() implies keys_of(m).contains((#[trigger] extra[j]).0) by {
                if j < n {
                    assert(front[j] == extra[j]);
                    let i = choose|i: int| 0 <= i < keys_of(mn).len() && keys_of(mn)[i] == front[j].0;
                    assert(keys_of(m)[i] == keys_of(mn)[i]);
                } else {
                    assert(keys_of(m)[m.len() - 1] == e.0);
                }
            }
            assert forall|j: int|
                0 <= j < extra.len() && !keys_of(ps).contains(extra[j].0) && (forall|k: int|
                    0 <= k < j ==> extra[k].0 != extra[j].0) implies m.contains(#[trigger] extra[j]) by {
                if j < n {
                    assert(front[j] == extra[j]);
                    assert forall|k: int| 0 <= k < j implies front[k].0 != front[j].0 by {
                        assert(front[k] == extra[k]);
                    }
                    let i = choose|i: int| 0 <= i < mn.len() && mn[i] == front[j];
                    assert(m[i] == mn[i]);
                } else {
                    assert(m[m.len() - 1] == e);
                }
            }
            assert forall|i: int| ps.len() <= i < m.len() implies exists|j: int|
                0 <= j < extra.len() && extra[j] == #[trigger] m[i] by {
                if i < mn.len() {
                    let q = choose|q: int| 0 <= q < front.len() && front[q] == mn[i];
                    assert(extra[q] == m[i]);
                } else {
                    assert(extra[n] == m[i]);
                }
            }
        }
    }
}

} // verus!
