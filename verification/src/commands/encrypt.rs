//! `envlock encrypt [path]`: a plaintext file sealed into `<path>.vault`.

use vstd::prelude::*;
use crate::commands::common::{encrypt_to_listed, spec_parse_recipients};
use crate::crypto::{first_low_order, sealed_for};
use crate::text::views;
use crate::config::{spec_vault_path, vault_path};
use crate::error::Error;

verus! {

/// The vault path and ciphertext for the plaintext file at `plaintext_path`
/// holding `plaintext`, sealed for the recipients read from the recipients
/// file (or the error reading them). An empty plaintext is refused first.
pub fn encrypt_file(plaintext: &[u8], plaintext_path: &str, recipients: Result<Vec<String>, Error>) -> (res: Result<(String, Vec<u8>), Error>)
    ensures
        plaintext@.len() == 0 ==> (res matches Err(Error::EmptyPlaintext(p)) && p@ == plaintext_path@),
        plaintext@.len() > 0 ==> match recipients {
            Err(e) => res == Err::<(String, Vec<u8>), Error>(e),
            Ok(rs) => match spec_parse_recipients(views(rs@)) {
                Err(m) => res matches Err(Error::RecipientList(c, e)) && c@
                    == "Failed to parse one or more recipients from .envlock/recipients.txt"@ && e@ == m,
                Ok(ts) => if ts.len() == 0 {
                    res matches Err(Error::NoRecipients)
                } else {
                    match first_low_order(ts) {
                        Some(t) => res matches Err(Error::LowOrderRecipient(e)) && e@ == t,
                        None => res matches Ok(out) && out.0@ == spec_vault_path(plaintext_path@)
                            && sealed_for(out.1@, plaintext@, ts),
                    }
                },
            },
        },
{
    if plaintext.len() == 0 {
        return Err(Error::EmptyPlaintext(String::from_str(plaintext_path)));
    }
    let ct = encrypt_to_listed(plaintext, recipients,
        "Failed to parse one or more recipients from .envlock/recipients.txt")?;
    Ok((vault_path(plaintext_path), ct))
}

} // verus!
