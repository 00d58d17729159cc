//! `envlock rotate KEY`: one key of a vault given a new value, the rest kept.

use vstd::prelude::*;
use crate::commands::common::render_env;
use crate::commands::common::render_pairs;
use crate::envfile::{dollar_byte, dotenvy_keys, dotenvy_shape, pairs_view, parse_env, shape_collect, spec_collect_pairs};
use crate::envmap::{
    ascending, env_map, find_key, keys_of, lemma_env_map_keys, lex_lt, lists_map, sorted_by_key,
    sorted_env_map,
};
use crate::error::{Error, Purpose};
use crate::text::{join_strings, join_with, views};

verus! {

/// The new value for `key_name`: the one given, or the error that none was.
pub fn require_value(key_name: &str, value: Option<String>) -> (res: Result<String, Error>)
    ensures
        match value {
            Some(v) => res matches Ok(r) && r@ == v@,
            None => res matches Err(Error::NoNewValue(k)) && k@ == key_name@,
        },
{
    match value {
        Some(v) => Ok(v),
        None => Err(Error::NoNewValue(String::from_str(key_name))),
    }
}

/// The text of a rotated vault: the entries of `m`, in ascending key order,
/// as `KEY=VALUE` lines.
pub open spec fn is_rendering_of(text: Seq<char>, m: Map<Seq<char>, Seq<char>>) -> bool {
    exists|l: Seq<(Seq<char>, Seq<char>)>| sorted_by_key(l) && lists_map(l, m) && text == #[trigger] render_pairs(l)
}

/// The vault text after setting `key_name` to `new_value` among `pairs`; the
/// key must already be there, or the error lists the keys that are.
pub fn rotate_pairs(pairs: &Vec<(String, String)>, vault: &str, key_name: &str, new_value: &str) -> (res: Result<String, Error>)
    ensures
        ({
            let m = env_map(pairs_view(pairs@));
            if m.contains_key(key_name@) {
                res matches Ok(t) && is_rendering_of(t@, m.insert(key_name@, new_value@))
            } else {
                res matches Err(Error::KeyNotFound(k, v, ks)) && k@ == key_name@ && v@ == vault@
                    && exists|l: Seq<(Seq<char>, Seq<char>)>| sorted_by_key(l) && lists_map(l, m)
                        && ks@ == #[trigger] join_with(keys_of(l), ", "@)
            }
        }),
{
    let ghost m = env_map(pairs_view(pairs@));
    let mut list = sorted_env_map(pairs);
    match find_key(&list, key_name) {
        None => {
            let mut keys: Vec<String> = Vec::new();
            for i in 0..list.len()
                invariant
                    keys@.len() == i,
                    forall|q: int| 0 <= q < i ==> #[trigger] keys@[q]@ == list@[q].0@,
            {
                keys.push(list[i].0.clone());
            }
            assert(views(keys@) =~= keys_of(pairs_view(list@)));
            let ks = join_strings(&keys, ", ");
            proof {
                let l = pairs_view(list@);
                assert(!m.contains_key(key_name@)) by {
                    if m.contains_key(key_name@) {
                        let q = choose|q: int| 0 <= q < l.len() && l[q].0 == key_name@;
                        assert(list@[q].0@ == key_name@);
                    }
                }
                assert(ks@ == join_with(keys_of(l), ", "@));
            }
            Err(Error::KeyNotFound(String::from_str(key_name), String::from_str(vault), ks))
        },
        Some(i) => {
            let ghost l = pairs_view(list@);
            list.set(i, (String::from_str(key_name), String::from_str(new_value)));
            let ghost l2 = pairs_view(list@);
            assert(l2 =~= l.update(i as int, (key_name@, new_value@)));
            proof {
                let m2 = m.insert(key_name@, new_value@);
                assert forall|a: int, b: int| 0 <= a < b < l2.len() implies crate::envmap::lex_lt(
                    #[trigger] l2[a].0,
                    #[trigger] l2[b].0,
                ) by {
                    assert(l2[a].0 == l[a].0 && l2[b].0 == l[b].0);
                }
                assert forall|q: int| 0 <= q < l2.len() implies m2.contains_key(#[trigger] l2[q].0) && m2[l2[q].0] == l2[q].1 by {
                    if q != i {
                        assert(l2[q] == l[q]);
                        if l[q].0 == key_name@ {
                            assert(crate::envmap::lex_lt(l[q].0, l[i as int].0) || crate::envmap::lex_lt(l[i as int].0, l[q].0));
                            crate::envmap::lemma_lex_irreflexive(key_name@);
                        }
                    }
                }
                assert forall|k: Seq<char>| #[trigger] m2.contains_key(k) implies exists|q: int| 0 <= q < l2.len() && l2[q].0 == k by {
                    if k == key_name@ {
                        assert(l2[i as int].0 == k);
                    } else {
                        let q = choose|q: int| 0 <= q < l.len() && l[q].0 == k;
                        assert(l2[q].0 == k);
                    }
                }
            }
            let t = render_env(&list);
            proof {
                assert(m.contains_key(l[i as int].0));
                assert(sorted_by_key(l2) && lists_map(l2, m.insert(key_name@, new_value@)));
                assert(t@ == render_pairs(l2));
                assert(is_rendering_of(t@, m.insert(key_name@, new_value@)));
            }
            Ok(t)
        },
    }
}

/// `text` lists the keys `ks` in ascending order, each once, separated by
/// `", "`.
pub open spec fn lists_sorted_keys(text: Seq<char>, ks: Seq<Seq<char>>) -> bool {
    exists|sorted: Seq<Seq<char>>|
        ascending(sorted) && (forall|k: Seq<char>| sorted.contains(k) <==> ks.contains(k)) && text
            == #[trigger] join_with(sorted, ", "@)
}

/// The vault text after setting `key_name` to `new_value` in a vault whose
/// decrypted content is `plaintext`: an empty vault, content that dotenvy
/// rejects and a key the vault lacks are refused.
pub fn rotate(plaintext: &[u8], vault: &str, key_name: &str, new_value: &str) -> (res: Result<String, Error>)
    ensures
        plaintext@.len() == 0 ==> (res matches Err(Error::EmptyVault(v, p)) && v@ == vault@ && p
            == Purpose::Rotate),
        plaintext@.len() > 0 ==> match shape_collect(dotenvy_keys(plaintext@)) {
            Err(m) => res matches Err(Error::EnvParse(e)) && e@ == m,
            Ok(ks) => if ks.contains(key_name@) {
                res matches Ok(t) && exists|ps: Seq<(Seq<char>, Seq<char>)>|
                    keys_of(ps) == ks && #[trigger] is_rendering_of(
                        t@,
                        env_map(ps).insert(key_name@, new_value@),
                    )
            } else {
                res matches Err(Error::KeyNotFound(k, v, l)) && k@ == key_name@ && v@ == vault@
                    && lists_sorted_keys(l@, ks)
            },
        },
        plaintext@.len() > 0 && !plaintext@.contains(dollar_byte()) ==> match spec_collect_pairs(
            dotenvy_shape(plaintext@),
        ) {
            Ok(ps) => keys_of(ps).contains(key_name@) ==> (res matches Ok(t) && is_rendering_of(
                t@,
                env_map(ps).insert(key_name@, new_value@),
            )),
            Err(_) => true,
        },
{
    if plaintext.len() == 0 {
        return Err(Error::EmptyVault(String::from_str(vault), Purpose::Rotate));
    }
    let pairs = parse_env(plaintext)?;
    let r = rotate_pairs(&pairs, vault, key_name, new_value);
    proof {
        let ps = pairs_view(pairs@);
        let ks = keys_of(ps);
        let m = env_map(ps);
        lemma_env_map_keys(ps, key_name@);
        if r is Err {
            let l = r->Err_0->KeyNotFound_2;
            let lst = choose|lst: Seq<(Seq<char>, Seq<char>)>| sorted_by_key(lst) && lists_map(lst, m)
                && l@ == #[trigger] join_with(keys_of(lst), ", "@);
            let sorted = keys_of(lst);
            assert forall|i: int, j: int| 0 <= i < j < sorted.len() implies lex_lt(
                #[trigger] sorted[i],
                #[trigger] sorted[j],
            ) by {
                assert(sorted[i] == lst[i].0 && sorted[j] == lst[j].0);
            }
            assert forall|k: Seq<char>| sorted.contains(k) <==> ks.contains(k) by {
                lemma_env_map_keys(ps, k);
                if sorted.contains(k) {
                    let i = choose|i: int| 0 <= i < sorted.len() && sorted[i] == k;
                    assert(lst[i].0 == k);
                    assert(m.contains_key(lst[i].0));
                }
                if ks.contains(k) {
                    assert(m.contains_key(k));
                    let q = choose|q: int| 0 <= q < lst.len() && lst[q].0 == k;
                    assert(sorted[q] == k);
                }
            }
            assert(lists_sorted_keys(l@, ks));
        }
    }
    r
}

/// Rotating a key changes that key's value and nothing else: the vault keeps
/// the same keys, and every other key keeps its value.
pub proof fn rotate_changes_only_the_key(m: Map<Seq<char>, Seq<char>>, key: Seq<char>, value: Seq<char>)
    requires
        m.contains_key(key),
    ensures
        m.insert(key, value).dom() == m.dom(),
        m.insert(key, value)[key] == value,
        forall|k: Seq<char>| k != key && #[trigger] m.contains_key(k) ==> m.insert(key, value)[k] == m[k],
{
    assert(m.insert(key, value).dom() =~= m.dom());
}

} // verus!
