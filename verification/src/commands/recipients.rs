//! `envlock recipients add | list | remove`: changes to the list of
//! recipients that vaults are encrypted to.

use vstd::prelude::*;
use crate::config::{recipients_read_are_plain, recipients_write_read, spec_recipients_content, spec_recipients_of};
use crate::crypto::{age_recipient_parse, key_chars, parse_recipient};
use crate::error::Error;
use crate::text::{
    decimal, is_ws, lemma_trim_idempotent, plain_line, str_eq, trim, trim_str, usize_to_decimal, views,
};

verus! {

/// Whether some recipient of `rs`, trimmed, is `key`.
pub open spec fn listed(rs: Seq<Seq<char>>, key: Seq<char>) -> bool {
    exists|i: int| 0 <= i < rs.len() && trim(#[trigger] rs[i]) == key
}

/// The recipients of `rs` that do not trim to `key`, in order.
pub open spec fn without(rs: Seq<Seq<char>>, key: Seq<char>) -> Seq<Seq<char>>
    decreases rs.len(),
{
    if rs.len() == 0 {
        seq![]
    } else {
        without(rs.drop_last(), key) + if trim(rs.last()) == key {
            Seq::<Seq<char>>::empty()
        } else {
            seq![rs.last()]
        }
    }
}

/// Whether `rs`, trimmed one by one, holds `key`.
fn find_trimmed(rs: &Vec<String>, key: &str) -> (res: bool)
    ensures
        res == listed(views(rs@), key@),
{
    for i in 0..rs.len()
        invariant
            forall|k: int| 0 <= k < i ==> trim(#[trigger] views(rs@)[k]) != key@,
    {
        let t = trim_str(rs[i].as_str());
        if str_eq(t.as_str(), key) {
            assert(trim(views(rs@)[i as int]) == key@);
            return true;
        }
    }
    false
}

/// The recipients after `recipients add public_key`, given the recipients
/// read from the file (or the error reading them). The key must parse as a
/// recipient, and no listed recipient may equal it; it is appended trimmed.
pub fn add(public_key: &str, current: Result<Vec<String>, Error>) -> (res: Result<Vec<String>, Error>)
    ensures
        match age_recipient_parse(trim(public_key@)) {
            Err(m) => res matches Err(Error::NotARecipient(k, e)) && k@ == public_key@ && e@ == m,
            Ok(_) => match current {
                Err(e) => res == Err::<Vec<String>, Error>(e),
                Ok(rs) => if listed(views(rs@), trim(public_key@)) {
                    res matches Err(Error::DuplicateRecipient(k)) && k@ == trim(public_key@)
                } else {
                    res matches Ok(out) && views(out@) == views(rs@).push(trim(public_key@))
                },
            },
        },
        res is Ok ==> plain_line(trim(public_key@)),
{
    match parse_recipient(public_key) {
        Err(Error::InvalidRecipient(m)) => {
            return Err(Error::NotARecipient(String::from_str(public_key), m));
        },
        Err(_) => {
            return Err(Error::NotARecipient(String::from_str(public_key), String::new()));
        },
        Ok(_) => {},
    }
    let mut rs = match current {
        Err(e) => return Err(e),
        Ok(rs) => rs,
    };
    let key = trim_str(public_key);
    proof {
        lemma_key_plain(key@);
    }
    if find_trimmed(&rs, key.as_str()) {
        return Err(Error::DuplicateRecipient(key));
    }
    let ghost before = views(rs@);
    rs.push(key);
    assert(views(rs@) =~= before.push(trim(public_key@)));
    Ok(rs)
}

/// The recipients after `recipients remove public_key`, given the recipients
/// read from the file (or the error reading them): every recipient equal to
/// the trimmed key goes; it is an error if none does, or if none would be
/// left.
pub fn remove(public_key: &str, current: Result<Vec<String>, Error>) -> (res: Result<Vec<String>, Error>)
    ensures
        match current {
            Err(e) => res == Err::<Vec<String>, Error>(e),
            Ok(rs) => {
                let kept = without(views(rs@), trim(public_key@));
                if kept.len() == rs@.len() {
                    res matches Err(Error::RecipientNotFound(k)) && k@ == trim(public_key@)
                } else if kept.len() == 0 {
                    res matches Err(Error::LastRecipient)
                } else {
                    res matches Ok(out) && views(out@) == kept
                }
            },
        },
{
    let rs = match current {
        Err(e) => return Err(e),
        Ok(rs) => rs,
    };
    let key = trim_str(public_key);
    let ghost vs = views(rs@);
    let mut kept: Vec<String> = Vec::new();
    assert(vs.take(0) =~= Seq::<Seq<char>>::empty());
    for i in 0..rs.len()
        invariant
            vs == views(rs@),
            key@ == trim(public_key@),
            views(kept@) == without(vs.take(i as int), key@),
            kept@.len() <= i,
    {
        assert(vs.take(i + 1).drop_last() =~= vs.take(i as int));
        assert(vs.take(i + 1).last() == rs@[i as int]@);
        let t = trim_str(rs[i].as_str());
        let ghost before = views(kept@);
        if !str_eq(t.as_str(), key.as_str()) {
            kept.push(rs[i].clone());
            assert(views(kept@) =~= before.push(rs@[i as int]@));
        }
    }
    assert(vs.take(vs.len() as int) =~= vs);
    if kept.len() == rs.len() {
        return Err(Error::RecipientNotFound(key));
    }
    if kept.len() == 0 {
        return Err(Error::LastRecipient);
    }
    Ok(kept)
}

/// The line that `recipients list` prints for the recipient `r` at (0-based)
/// position `i`.
pub open spec fn list_item(i: int, r: Seq<char>) -> Seq<char> {
    "  "@ + decimal((i + 1) as nat) + ". "@ + r
}

/// What `recipients list` prints.
pub open spec fn spec_list_lines(rs: Seq<Seq<char>>) -> Seq<Seq<char>> {
    seq!["Recipients in .envlock/recipients.txt ("@ + decimal(rs.len()) + "):"@] + Seq::new(
        rs.len(),
        |i: int| list_item(i, rs[i]),
    )
}

/// The lines that `recipients list` prints for `recipients`.
pub fn list(recipients: &Vec<String>) -> (res: Vec<String>)
    ensures
        views(res@) == spec_list_lines(views(recipients@)),
{
    let mut out: Vec<String> = Vec::new();
    let mut h = String::from_str("Recipients in .envlock/recipients.txt (");
    let n = usize_to_decimal(recipients.len());
    h.append(n.as_str());
    h.append("):");
    let ghost header = h@;
    out.push(h);
    let ghost rs = views(recipients@);
    assert(views(out@) =~= seq![header] + Seq::new(0, |j: int| list_item(j, rs[j])));
    for i in 0..recipients.len()
        invariant
            rs == views(recipients@),
            views(out@) == seq![header] + Seq::new(i as nat, |j: int| list_item(j, rs[j])),
    {
        let mut l = String::from_str("  ");
        let d = usize_to_decimal(i + 1);
        l.append(d.as_str());
        l.append(". ");
        l.append(recipients[i].as_str());
        assert(l@ == list_item(i as int, rs[i as int]));
        let ghost before = views(out@);
        out.push(l);
        assert(views(out@) =~= before.push(l@));
        assert(views(out@) =~= seq![header] + Seq::new((i + 1) as nat, |j: int| list_item(j, rs[j])));
    }
    assert(views(out@) =~= spec_list_lines(rs));
    out
}

/// Adding a recipient and then removing it leaves the list as it was: the
/// removal takes out exactly the entry that the addition appended.
pub proof fn add_then_remove(rs: Seq<Seq<char>>, public_key: Seq<char>)
    requires
        !listed(rs, trim(public_key)),
    ensures
        without(rs.push(trim(public_key)), trim(trim(public_key))) == rs,
{
    let k = trim(public_key);
    lemma_trim_idempotent(public_key);
    lemma_without_absent(rs, k);
    assert(rs.push(k).drop_last() =~= rs);
}

proof fn lemma_without_absent(rs: Seq<Seq<char>>, key: Seq<char>)
    requires
        !listed(rs, key),
    ensures
        without(rs, key) == rs,
    decreases rs.len(),
{
    if rs.len() > 0 {
        let init = rs.drop_last();
        assert(!listed(init, key)) by {
            if listed(init, key) {
                let i = choose|i: int| 0 <= i < init.len() && trim(#[trigger] init[i]) == key;
                assert(rs[i] == init[i]);
            }
        }
        lemma_without_absent(init, key);
        assert(trim(rs[rs.len() - 1]) != key);
        assert(without(rs, key) =~= rs);
    }
}

/// A non-empty key text is a line of its own.
proof fn lemma_key_plain(k: Seq<char>)
    requires
        key_chars(k),
        k.len() > 0,
    ensures
        plain_line(k),
{
    assert forall|j: int| 0 <= j < k.len() implies #[trigger] k[j] != '\n' && !is_ws(k[j]) by {
        assert(key_chars(k));
    }
    assert(!is_ws(k[k.len() - 1]));
}

proof fn lemma_without_plain(rs: Seq<Seq<char>>, key: Seq<char>)
    requires
        forall|i: int| 0 <= i < rs.len() ==> plain_line(#[trigger] rs[i]),
    ensures
        forall|i: int| 0 <= i < without(rs, key).len() ==> plain_line(#[trigger] without(rs, key)[i]),
    decreases rs.len(),
{
    if rs.len() > 0 {
        let init = rs.drop_last();
        assert forall|i: int| 0 <= i < init.len() implies plain_line(#[trigger] init[i]) by {
            assert(init[i] == rs[i]);
        }
        lemma_without_plain(init, key);
        let w = without(rs, key);
        let wi = without(init, key);
        assert forall|i: int| 0 <= i < w.len() implies plain_line(#[trigger] w[i]) by {
            if i < wi.len() {
                assert(w[i] == wi[i]);
            } else {
                assert(w[i] == rs[rs.len() - 1]);
            }
        }
    }
}

/// The recipients read from a file, with a recipient added, read back from
/// the rewritten file as that list.
pub proof fn added_recipient_read_back(content: Seq<char>, key: Seq<char>)
    requires
        plain_line(key),
    ensures
        ({
            let rs = spec_recipients_of(content).push(key);
            spec_recipients_of(spec_recipients_content(rs)) == rs
        }),
{
    let old = spec_recipients_of(content);
    recipients_read_are_plain(content);
    let rs = old.push(key);
    assert forall|i: int| 0 <= i < rs.len() implies plain_line(#[trigger] rs[i]) by {
        if i < old.len() {
            assert(rs[i] == old[i]);
        }
    }
    recipients_write_read(rs);
}

/// The recipients read from a file, with a recipient removed, read back from
/// the rewritten file as that list.
pub proof fn removed_recipient_read_back(content: Seq<char>, key: Seq<char>)
    ensures
        ({
            let rs = without(spec_recipients_of(content), key);
            spec_recipients_of(spec_recipients_content(rs)) == rs
        }),
{
    recipients_read_are_plain(content);
    lemma_without_plain(spec_recipients_of(content), key);
    recipients_write_read(without(spec_recipients_of(content), key));
}

} // verus!
