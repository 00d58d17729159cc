//! `envlock ci seal --prefix P`: CI's prefixed variables sealed into a vault
//! for the project's recipients, without any private key.

use vstd::prelude::*;
use crate::commands::ci_run::{spec_strip_prefixed, strip_prefixed};
use crate::commands::common::{encrypt_to_listed, render_env, render_pairs, spec_parse_recipients};
use crate::crypto::seal_outcome;
use crate::text::views;
use crate::envfile::pairs_view;
use crate::error::Error;
use vstd::utf8::encode_utf8;

verus! {

/// The plaintext that `ci seal` encrypts, and the number of secrets in it:
/// the prefixed variables of `vars`, prefix removed, as `KEY=VALUE` lines.
/// It is an error when there are none, and when the output vault exists and
/// overwriting was not asked for.
pub fn seal_plaintext(vars: &Vec<(String, String)>, prefix: &str, vault_exists: bool, overwrite: bool, vault_path: &str) -> (res: Result<(String, usize), Error>)
    ensures
        ({
            let ps = spec_strip_prefixed(pairs_view(vars@), prefix@);
            if ps.len() == 0 {
                res matches Err(Error::NoPrefixedVars(p)) && p@ == prefix@
            } else if vault_exists && !overwrite {
                res matches Err(Error::VaultExists(p)) && p@ == vault_path@
            } else {
                res matches Ok(t) && t.0@ == render_pairs(ps) && t.1 == ps.len()
            }
        }),
{
    let pairs = strip_prefixed(vars, prefix);
    if pairs.len() == 0 {
        return Err(Error::NoPrefixedVars(String::from_str(prefix)));
    }
    if vault_exists && !overwrite {
        return Err(Error::VaultExists(String::from_str(vault_path)));
    }
    Ok((render_env(&pairs), pairs.len()))
}

/// The vault that `ci seal` writes: the sealed plaintext encrypted to the
/// recipients read from the recipients file (or the error reading them).
pub fn seal(plaintext: &str, recipients: Result<Vec<String>, Error>) -> (res: Result<Vec<u8>, Error>)
    ensures
        match recipients {
            Err(e) => res == Err::<Vec<u8>, Error>(e),
            Ok(rs) => match spec_parse_recipients(views(rs@)) {
                Err(m) => res matches Err(Error::RecipientList(c, e)) && c@
                    == "Failed to parse recipients from .envlock/recipients.txt"@ && e@ == m,
                Ok(ts) => seal_outcome(res, encode_utf8(plaintext@), ts),
            },
        },
{
    encrypt_to_listed(plaintext.as_bytes(), recipients,
        "Failed to parse recipients from .envlock/recipients.txt")
}

} // verus!
