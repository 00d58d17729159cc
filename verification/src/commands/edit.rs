//! `envlock edit`: a vault opened for the editor, and the edited text
//! checked before it replaces the vault.

use vstd::prelude::*;
use crate::commands::check::{append_all, frame_all, framed, CheckResult};
use crate::text::views;
use crate::commands::common::{encrypt_to_listed, open_vault, spec_parse_recipients};
use crate::crypto::seal_outcome;
use crate::crypto::{age_decrypt, age_identity_parse};
use crate::envfile::{dotenvy_keys, parse_env, shape_collect};
use crate::error::{Error, Purpose};
use crate::text::{push_line, trim};

verus! {

/// The warning that `edit` and `encrypt` print when the check finds
/// problems: nothing when it finds none.
pub open spec fn spec_gitignore_warning(problems: Seq<Seq<char>>) -> Seq<Seq<char>> {
    if problems.len() == 0 {
        seq![]
    } else {
        seq!["\u{26a0} WARNING: .gitignore may not be protecting secrets in this checkout:"@]
            + framed(problems, "  "@, ""@)
            + seq!["  Run `envlock init` or `envlock doctor` to fix this."@, ""@]
    }
}

/// The lines of the pre-flight warning for the check's findings.
pub fn gitignore_warning(result: &CheckResult) -> (res: Vec<String>)
    ensures
        views(res@) == spec_gitignore_warning(views(result.problems@)),
{
    let mut out: Vec<String> = Vec::new();
    if result.problems.len() == 0 {
        assert(views(out@) =~= Seq::<Seq<char>>::empty());
        return out;
    }
    push_line(&mut out, "\u{26a0} WARNING: .gitignore may not be protecting secrets in this checkout:");
    assert(views(out@) =~= seq!["\u{26a0} WARNING: .gitignore may not be protecting secrets in this checkout:"@]);
    append_all(&mut out, frame_all(&result.problems, "  ", ""));
    let ghost before = views(out@);
    push_line(&mut out, "  Run `envlock init` or `envlock doctor` to fix this.");
    push_line(&mut out, "");
    assert(views(out@) =~= before + seq!["  Run `envlock init` or `envlock doctor` to fix this."@, ""@]);
    out
}

/// The plaintext to edit: the vault opened with the identity read from the
/// identity file (or the error reading it); an empty vault is refused.
pub fn open_for_edit(ciphertext: &[u8], identity_file: Result<String, Error>, vault: &str) -> (res: Result<Vec<u8>, Error>)
    ensures
        match identity_file {
            Err(e) => res == Err::<Vec<u8>, Error>(e),
            Ok(t) => match age_identity_parse(trim(t@)) {
                Err(m) => res matches Err(Error::InvalidIdentity(e)) && e@ == m,
                Ok(id) => match age_decrypt(ciphertext@, id) {
                    None => res matches Err(Error::DecryptionFailed),
                    Some(p) => if p.len() == 0 {
                        res matches Err(Error::EmptyVault(v, u)) && v@ == vault@ && u == Purpose::Edit
                    } else {
                        res matches Ok(v) && v@ == p
                    },
                },
            },
        },
{
    let plaintext = open_vault(ciphertext, identity_file)?;
    if plaintext.len() == 0 {
        return Err(Error::EmptyVault(String::from_str(vault), Purpose::Edit));
    }
    Ok(plaintext)
}

/// The number of keys in the edited text, when it may replace the vault: it
/// must not be empty, dotenvy must parse it, and it must hold a pair.
pub fn validate_edit(edited: &[u8]) -> (res: Result<usize, Error>)
    ensures
        edited@.len() == 0 ==> res matches Err(Error::EditedEmpty),
        edited@.len() > 0 ==> match shape_collect(dotenvy_keys(edited@)) {
            Err(m) => res matches Err(Error::EditParse(e)) && e@ == m,
            Ok(ks) => if ks.len() == 0 {
                res matches Err(Error::NoPairs(_, Purpose::Edit))
            } else {
                res matches Ok(n) && n == ks.len()
            },
        },
{
    if edited.len() == 0 {
        return Err(Error::EditedEmpty);
    }
    let pairs = match parse_env(edited) {
        Ok(p) => p,
        Err(Error::EnvParse(m)) => return Err(Error::EditParse(m)),
        Err(_) => return Err(Error::EditParse(String::new())),
    };
    if pairs.len() == 0 {
        return Err(Error::NoPairs(String::new(), Purpose::Edit));
    }
    Ok(pairs.len())
}

/// The new vault: the edited text encrypted to the recipients read from the
/// recipients file (or the error reading them).
pub fn reseal(edited: &[u8], recipients: Result<Vec<String>, Error>) -> (res: Result<Vec<u8>, Error>)
    ensures
        match recipients {
            Err(e) => res == Err::<Vec<u8>, Error>(e),
            Ok(rs) => match spec_parse_recipients(views(rs@)) {
                Err(m) => res matches Err(Error::RecipientList(c, e)) && c@ == "Failed to parse recipients"@
                    && e@ == m,
                Ok(ts) => seal_outcome(res, edited@, ts),
            },
        },
{
    encrypt_to_listed(edited, recipients, "Failed to parse recipients")
}

} // verus!
