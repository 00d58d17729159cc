//! Steps that several commands share: parsing the listed recipients, and
//! writing key-value pairs back as `.env` text.

use vstd::prelude::*;
use crate::crypto::{
    age_decrypt, age_identity_parse, age_recipient_of, age_recipient_parse, decrypt_bytes,
    encrypt_bytes, is_identity_text, parse_identity, parse_recipient, recipients_view, sealed_for,
    seal_outcome, Recipient,
};
use crate::error::Error;
use crate::envfile::pairs_view;
use crate::text::{trim, views};

verus! {

/// The canonical texts of the recipients listed in `rs`, or the parser's
/// reason for refusing the first one that is not a recipient.
pub open spec fn spec_parse_recipients(rs: Seq<Seq<char>>) -> Result<Seq<Seq<char>>, Seq<char>>
    decreases rs.len(),
{
    if rs.len() == 0 {
        Ok(seq![])
    } else {
        match spec_parse_recipients(rs.drop_last()) {
            Err(m) => Err(m),
            Ok(ts) => match age_recipient_parse(trim(rs.last())) {
                Ok(t) => Ok(ts.push(t)),
                Err(m) => Err("Failed to parse age recipient: "@ + m),
            },
        }
    }
}

proof fn lemma_parse_err_prefix(rs: Seq<Seq<char>>, k: int, m: Seq<char>)
    requires
        0 <= k <= rs.len(),
        spec_parse_recipients(rs.take(k)) == Err::<Seq<Seq<char>>, Seq<char>>(m),
    ensures
        spec_parse_recipients(rs) == Err::<Seq<Seq<char>>, Seq<char>>(m),
    decreases rs.len() - k,
{
    if k < rs.len() {
        assert(rs.take(k + 1).drop_last() =~= rs.take(k));
        lemma_parse_err_prefix(rs, k + 1, m);
    } else {
        assert(rs.take(k) =~= rs);
    }
}

/// The recipients listed in `rs`; the first one that does not parse gives
/// an error that carries `context` and the parser's message.
pub fn parse_recipient_list(rs: &Vec<String>, context: &str) -> (res: Result<Vec<Recipient>, Error>)
    ensures
        match spec_parse_recipients(views(rs@)) {
            Ok(ts) => res matches Ok(v) && recipients_view(v@) == ts,
            Err(m) => res matches Err(Error::RecipientList(c, e)) && c@ == context@ && e@ == m,
        },
{
    let ghost vs = views(rs@);
    let mut out: Vec<Recipient> = Vec::new();
    assert(vs.take(0) =~= Seq::<Seq<char>>::empty());
    assert(recipients_view(out@) =~= Seq::<Seq<char>>::empty());
    for i in 0..rs.len()
        invariant
            vs == views(rs@),
            spec_parse_recipients(vs.take(i as int)) == Ok::<Seq<Seq<char>>, Seq<char>>(
                recipients_view(out@),
            ),
    {
        assert(vs.take(i + 1).drop_last() =~= vs.take(i as int));
        assert(vs.take(i + 1).last() == rs@[i as int]@);
        let ghost before = recipients_view(out@);
        match parse_recipient(rs[i].as_str()) {
            Ok(r) => {
                out.push(r);
                assert(recipients_view(out@) =~= before.push(out@.last().view()));
            },
            Err(e) => {
                let msg = e.to_string();
                proof {
                    lemma_parse_err_prefix(vs, (i + 1) as int, msg@);
                }
                return Err(Error::RecipientList(String::from_str(context), msg));
            },
        }
    }
    assert(vs.take(vs.len() as int) =~= vs);
    Ok(out)
}

/// Key-value pairs written as `.env` text: `KEY=VALUE` lines.
pub open spec fn render_pairs(ps: Seq<(Seq<char>, Seq<char>)>) -> Seq<char>
    decreases ps.len(),
{
    if ps.len() == 0 {
        seq![]
    } else {
        render_pairs(ps.drop_last()) + ps.last().0 + seq!['='] + ps.last().1 + seq!['\n']
    }
}

/// Key-value pairs written as `.env` text, one `KEY=VALUE` line each.
pub fn render_env(pairs: &Vec<(String, String)>) -> (res: String)
    ensures
        res@ == render_pairs(pairs_view(pairs@)),
{
    let ghost ps = pairs_view(pairs@);
    let mut s = String::new();
    assert(ps.take(0) =~= Seq::<(Seq<char>, Seq<char>)>::empty());
    for i in 0..pairs.len()
        invariant
            ps == pairs_view(pairs@),
            s@ == render_pairs(ps.take(i as int)),
    {
        proof {
            reveal_strlit("=");
            reveal_strlit("\n");
        }
        assert(ps.take(i + 1).drop_last() =~= ps.take(i as int));
        assert(ps.take(i + 1).last() == (pairs@[i as int].0@, pairs@[i as int].1@));
        s.append(pairs[i].0.as_str());
        s.append("=");
        s.append(pairs[i].1.as_str());
        s.append("\n");
        assert(s@ =~= render_pairs(ps.take(i + 1)));
    }
    assert(ps.take(ps.len() as int) =~= ps);
    s
}


/// `plaintext` encrypted to the recipients listed in `recipients` (or the
/// error reading them); `context` introduces a recipient that does not parse.
pub fn encrypt_to_listed(plaintext: &[u8], recipients: Result<Vec<String>, Error>, context: &str) -> (res: Result<Vec<u8>, Error>)
    ensures
        match recipients {
            Err(e) => res == Err::<Vec<u8>, Error>(e),
            Ok(rs) => match spec_parse_recipients(views(rs@)) {
                Err(m) => res matches Err(Error::RecipientList(c, e)) && c@ == context@ && e@ == m,
                Ok(ts) => seal_outcome(res, plaintext@, ts),
            },
        },
{
    let rs = match recipients {
        Err(e) => return Err(e),
        Ok(rs) => rs,
    };
    let parsed = parse_recipient_list(&rs, context)?;
    encrypt_bytes(plaintext, parsed.as_slice())
}

/// What opening a vault gives: the plaintext, when the identity file's text
/// is an identity that decrypts the ciphertext.
pub open spec fn spec_open_vault(ct: Seq<u8>, identity_file: Seq<char>) -> Option<Seq<u8>> {
    match age_identity_parse(trim(identity_file)) {
        Ok(id) => age_decrypt(ct, id),
        Err(_) => None,
    }
}

/// The plaintext of a vault, decrypted with the identity read from the
/// identity file (or the error reading it).
pub fn open_vault(ciphertext: &[u8], identity_file: Result<String, Error>) -> (res: Result<Vec<u8>, Error>)
    ensures
        match identity_file {
            Err(e) => res == Err::<Vec<u8>, Error>(e),
            Ok(t) => match age_identity_parse(trim(t@)) {
                Err(m) => res matches Err(Error::InvalidIdentity(e)) && e@ == m,
                Ok(id) => match age_decrypt(ciphertext@, id) {
                    Some(p) => res matches Ok(v) && v@ == p,
                    None => res matches Err(Error::DecryptionFailed),
                },
            },
        },
{
    let t = match identity_file {
        Err(e) => return Err(e),
        Ok(t) => t,
    };
    let id = parse_identity(t.as_str())?;
    decrypt_bytes(ciphertext, &id)
}

/// A vault sealed for a list of recipients opens with the identity of any
/// of them: what `encrypt` writes, `decrypt` and `run` read back.
pub proof fn sealed_vault_opens(ct: Seq<u8>, plaintext: Seq<u8>, ts: Seq<Seq<char>>, identity_file: Seq<char>)
    requires
        sealed_for(ct, plaintext, ts),
        age_identity_parse(trim(identity_file)) matches Ok(id) && is_identity_text(id) && ts.contains(
            age_recipient_of(id),
        ),
    ensures
        spec_open_vault(ct, identity_file) == Some(plaintext),
{
    let id = age_identity_parse(trim(identity_file))->Ok_0;
    assert(age_decrypt(ct, id) == Some(plaintext));
}

} // verus!
