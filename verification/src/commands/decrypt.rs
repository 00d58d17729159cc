//! `envlock decrypt [path]`: a vault opened back into its plaintext file.

use vstd::prelude::*;
use crate::commands::common::{open_vault, sealed_vault_opens, spec_open_vault};
use crate::crypto::sealed_for;
use crate::config::{plaintext_path, spec_plaintext_path, spec_vault_path, vault_plaintext_inverse};
use crate::crypto::{age_decrypt, age_identity_parse, age_recipient_of, is_identity_text};
use crate::error::Error;
use crate::text::trim;

verus! {

/// The plaintext path and plaintext for the vault at `vault_path` holding
/// `ciphertext`, decrypted with the identity read from the identity file (or
/// the error reading it). The plaintext path is derived last: a vault that
/// does not decrypt is reported as such whatever its name.
pub fn decrypt_file(ciphertext: &[u8], identity_file: Result<String, Error>, vault_path: &str) -> (res: Result<(String, Vec<u8>), Error>)
    ensures
        match identity_file {
            Err(e) => res == Err::<(String, Vec<u8>), Error>(e),
            Ok(t) => match age_identity_parse(trim(t@)) {
                Err(m) => res matches Err(Error::InvalidIdentity(e)) && e@ == m,
                Ok(id) => match age_decrypt(ciphertext@, id) {
                    None => res matches Err(Error::DecryptionFailed),
                    Some(p) => match spec_plaintext_path(vault_path@) {
                        None => res matches Err(Error::NotAVault(v)) && v@ == vault_path@,
                        Some(out) => res matches Ok(r) && r.0@ == out && r.1@ == p,
                    },
                },
            },
        },
{
    let plaintext = open_vault(ciphertext, identity_file)?;
    let out = plaintext_path(vault_path)?;
    Ok((out, plaintext))
}

/// What `encrypt` writes, `decrypt` turns back into the file it came from:
/// the vault's path leads back to the plaintext path, and the identity of
/// any recipient the vault was sealed for opens it to the same bytes.
pub proof fn encrypted_file_decrypts(
    path: Seq<char>,
    plaintext: Seq<u8>,
    ct: Seq<u8>,
    ts: Seq<Seq<char>>,
    identity_file: Seq<char>,
)
    requires
        sealed_for(ct, plaintext, ts),
        age_identity_parse(trim(identity_file)) matches Ok(id) && is_identity_text(id) && ts.contains(
            age_recipient_of(id),
        ),
    ensures
        spec_plaintext_path(spec_vault_path(path)) == Some(path),
        spec_open_vault(ct, identity_file) == Some(plaintext),
{
    vault_plaintext_inverse(path, spec_vault_path(path));
    sealed_vault_opens(ct, plaintext, ts, identity_file);
}

} // verus!
