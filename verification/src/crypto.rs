//! age x25519 keys and encryption. Keys are held by their canonical text
//! (`AGE-SECRET-KEY-1...` for an identity, `age1...` for a recipient); the
//! age crate parses them and does the cryptography.

use vstd::prelude::*;
use age::secrecy::ExposeSecret;
use std::io::Read;
use std::io::Write;
use crate::error::Error;
use crate::text::{is_ws, lemma_trim_no_ws, str_eq, trim, trim_str, views};

verus! {

/// The canonical text of the identity that age parses from `s`, or the
/// parser's reason for refusing it.
pub uninterp spec fn age_identity_parse(s: Seq<char>) -> Result<Seq<char>, Seq<char>>;

/// The canonical text of the recipient that age parses from `s`, or the
/// parser's reason for refusing it.
pub uninterp spec fn age_recipient_parse(s: Seq<char>) -> Result<Seq<char>, Seq<char>>;

/// The recipient text of the identity whose canonical text is `identity`.
pub uninterp spec fn age_recipient_of(identity: Seq<char>) -> Seq<char>;

/// The plaintext that age recovers from `ciphertext` with the identity whose
/// canonical text is `identity`, if any.
pub uninterp spec fn age_decrypt(ciphertext: Seq<u8>, identity: Seq<char>) -> Option<Seq<u8>>;

/// Whether every character of `s` is an ASCII letter, digit or `-`.
pub open spec fn key_chars(s: Seq<char>) -> bool {
    forall|i: int|
        0 <= i < s.len() ==> {
            let c = #[trigger] s[i];
            ('a' <= c && c <= 'z') || ('A' <= c && c <= 'Z') || ('0' <= c && c <= '9') || c == '-'
        }
}

/// `s` is the canonical text of an age identity.
pub open spec fn is_identity_text(s: Seq<char>) -> bool {
    age_identity_parse(s) == Ok::<Seq<char>, Seq<char>>(s)
}

/// `s` is the canonical text of an age recipient.
pub open spec fn is_recipient_text(s: Seq<char>) -> bool {
    age_recipient_parse(s) == Ok::<Seq<char>, Seq<char>>(s)
}

/// The canonical texts of the recipients whose key is a low-order point of
/// Curve25519: the 32-byte little-endian encodings of 0, 1, the two points of
/// order eight, p - 1, p and p + 1 (p = 2^255 - 19), each with the top bit
/// clear and set. X25519 ignores the top bit and reduces modulo p, and with a
/// clamped scalar (a multiple of eight) the shared secret with such a key is
/// zero, and with no other key.
pub open spec fn spec_low_order_recipients() -> Seq<Seq<char>> {
    seq![
        "age1qqqqqqqqqqqqqqqqqqqqqqqqqqqqqqqqqqqqqqqqqqqqqqqqqqqq5cu47z"@,
        "age1qqqqqqqqqqqqqqqqqqqqqqqqqqqqqqqqqqqqqqqqqqqqqqqqqzqqsuwj9m"@,
        "age1qyqqqqqqqqqqqqqqqqqqqqqqqqqqqqqqqqqqqqqqqqqqqqqqqqqqj7vrya"@,
        "age1qyqqqqqqqqqqqqqqqqqqqqqqqqqqqqqqqqqqqqqqqqqqqqqqqzqqk67yly"@,
        "age1ur4h5lpmgxu2u9jku0a0r87ydtdqnr0tnsetrlvxvgz3vh6fhqqqzyt4v9"@,
        "age1ur4h5lpmgxu2u9jku0a0r87ydtdqnr0tnsetrlvxvgz3vh6fhzqqxqejhu"@,
        "age1t7wft09r2zxzfvwsk92eeql0tvzyghxytqwgapkcyf8dm5ylz9ts6wm9s8"@,
        "age1t7wft09r2zxzfvwsk92eeql0tvzyghxytqwgapkcyf8dm5ylz8ts72fzt7"@,
        "age1anlllllllllllllllllllllllllllllllllllllllllllllllals4n2t7m"@,
        "age1anllllllllllllllllllllllllllllllllllllllllllllllllls3hcv9z"@,
        "age1ahlllllllllllllllllllllllllllllllllllllllllllllllalsn46ayy"@,
        "age1ahlllllllllllllllllllllllllllllllllllllllllllllllllsh3g6la"@,
        "age1amlllllllllllllllllllllllllllllllllllllllllllllllalselrwrv"@,
        "age1amlllllllllllllllllllllllllllllllllllllllllllllllllsam3fc4"@
    ]
}

/// Whether `t` is the text of a recipient with a low-order key.
pub open spec fn is_low_order(t: Seq<char>) -> bool {
    spec_low_order_recipients().contains(t)
}

/// The first of `ts` that is the text of a low-order key, if any.
pub open spec fn first_low_order(ts: Seq<Seq<char>>) -> Option<Seq<char>>
    decreases ts.len(),
{
    if ts.len() == 0 {
        None
    } else {
        match first_low_order(ts.drop_last()) {
            Some(t) => Some(t),
            None => if is_low_order(ts.last()) {
                Some(ts.last())
            } else {
                None
            },
        }
    }
}

/// Whether `t` is the text of a recipient with a low-order key.
pub fn low_order_text(t: &str) -> (res: bool)
    ensures
        res == is_low_order(t@),
{
    let list: Vec<&str> = vec![
        "age1qqqqqqqqqqqqqqqqqqqqqqqqqqqqqqqqqqqqqqqqqqqqqqqqqqqq5cu47z",
        "age1qqqqqqqqqqqqqqqqqqqqqqqqqqqqqqqqqqqqqqqqqqqqqqqqqzqqsuwj9m",
        "age1qyqqqqqqqqqqqqqqqqqqqqqqqqqqqqqqqqqqqqqqqqqqqqqqqqqqj7vrya",
        "age1qyqqqqqqqqqqqqqqqqqqqqqqqqqqqqqqqqqqqqqqqqqqqqqqqzqqk67yly",
        "age1ur4h5lpmgxu2u9jku0a0r87ydtdqnr0tnsetrlvxvgz3vh6fhqqqzyt4v9",
        "age1ur4h5lpmgxu2u9jku0a0r87ydtdqnr0tnsetrlvxvgz3vh6fhzqqxqejhu",
        "age1t7wft09r2zxzfvwsk92eeql0tvzyghxytqwgapkcyf8dm5ylz9ts6wm9s8",
        "age1t7wft09r2zxzfvwsk92eeql0tvzyghxytqwgapkcyf8dm5ylz8ts72fzt7",
        "age1anlllllllllllllllllllllllllllllllllllllllllllllllals4n2t7m",
        "age1anllllllllllllllllllllllllllllllllllllllllllllllllls3hcv9z",
        "age1ahlllllllllllllllllllllllllllllllllllllllllllllllalsn46ayy",
        "age1ahlllllllllllllllllllllllllllllllllllllllllllllllllsh3g6la",
        "age1amlllllllllllllllllllllllllllllllllllllllllllllllalselrwrv",
        "age1amlllllllllllllllllllllllllllllllllllllllllllllllllsam3fc4"
    ];
    assert(list@.map_values(|x: &str| x@) =~= spec_low_order_recipients());
    for i in 0..list.len()
        invariant
            list@.map_values(|x: &str| x@) == spec_low_order_recipients(),
            forall|k: int| 0 <= k < i ==> #[trigger] list@[k]@ != t@,
    {
        if str_eq(list[i], t) {
            assert(spec_low_order_recipients()[i as int] == t@);
            return true;
        }
    }
    assert forall|k: int| 0 <= k < spec_low_order_recipients().len() implies spec_low_order_recipients()[k] != t@ by {
        assert(list@.map_values(|x: &str| x@)[k] == list@[k]@);
    }
    false
}

/// `Identity::generate` then `to_string`: a fresh secret key's text.
///
/// The key is random, so only its form is stated: age's serialisation is
/// the upper-cased Bech32 encoding with prefix `age-secret-key-`, which its
/// parser reads back to the same text.
#[verifier::external_body]
fn age_generate() -> (res: String)
    ensures
        is_identity_text(res@),
        key_chars(res@),
        res@.len() >= 16 && res@.take(16) == "AGE-SECRET-KEY-1"@,
{
    age::x25519::Identity::generate().to_string().expose_secret().clone()
}

/// `s.parse::<age::x25519::Identity>()`, the identity given by its text.
///
/// Bech32 decoding ignores case and re-encoding is canonical, so the text of
/// a parsed identity parses to itself; it is `AGE-SECRET-KEY-1` followed by
/// upper-case Bech32 characters. Bech32 decoding accepts only ASCII letters
/// and digits after the prefix `age-secret-key-`, so a text that parses is
/// made of those and `-`.
#[verifier::external_body]
fn age_parse_identity(s: &str) -> (res: Result<String, String>)
    ensures
        match res {
            Ok(t) => age_identity_parse(s@) == Ok::<Seq<char>, Seq<char>>(t@) && is_identity_text(t@)
                && key_chars(t@) && t@.len() >= 16 && t@.take(16) == "AGE-SECRET-KEY-1"@
                && key_chars(s@) && s@.len() > 0,
            Err(m) => age_identity_parse(s@) == Err::<Seq<char>, Seq<char>>(m@),
        },
{
    match s.parse::<age::x25519::Identity>() {
        Ok(id) => Ok(id.to_string().expose_secret().clone()),
        Err(e) => Err(e.to_string()),
    }
}

/// `s.parse::<age::x25519::Recipient>()`, the recipient given by its text.
///
/// Its canonical text is the lower-case Bech32 encoding with prefix `age`,
/// which parses to itself. Bech32 decoding accepts only ASCII letters and
/// digits after the prefix, so a text that parses is made of those.
#[verifier::external_body]
fn age_parse_recipient(s: &str) -> (res: Result<String, String>)
    ensures
        match res {
            Ok(t) => age_recipient_parse(s@) == Ok::<Seq<char>, Seq<char>>(t@) && is_recipient_text(t@)
                && key_chars(t@) && t@.len() >= 4 && t@.take(4) == "age1"@ && key_chars(s@) && s@.len() > 0,
            Err(m) => age_recipient_parse(s@) == Err::<Seq<char>, Seq<char>>(m@),
        },
{
    match s.parse::<age::x25519::Recipient>() {
        Ok(r) => Ok(r.to_string()),
        Err(e) => Err(e.to_string()),
    }
}

/// `Identity::to_public`, the recipient of an identity, as text.
#[verifier::external_body]
fn age_to_public(identity: &str) -> (res: String)
    requires
        is_identity_text(identity@),
    ensures
        res@ == age_recipient_of(identity@),
        is_recipient_text(res@),
        key_chars(res@),
        res@.len() >= 4 && res@.take(4) == "age1"@,
{
    let id = identity.parse::<age::x25519::Identity>().expect("a canonical identity parses");
    id.to_public().to_string()
}

/// `Encryptor::with_recipients`, then `wrap_output`, `write_all` and
/// `finish`: `plaintext` encrypted to `recipients`.
///
/// Encryption draws a fresh file key, so the ciphertext itself is not
/// determined; what is stated is who can decrypt it. age wraps the file key
/// once for each recipient, under a key derived from the X25519 shared
/// secret with that recipient, and an identity unwraps a stanza only when
/// the authenticated decryption under its own shared secret succeeds: so the
/// identity of each recipient decrypts the file to the plaintext, and an
/// identity whose recipient is not among them does not decrypt it.
///
/// The output is a `Vec`, which takes every write, and age's stream otherwise
/// fails only on a nonce overflow that no plaintext held in memory reaches,
/// so encryption succeeds. age panics when the shared secret with a
/// recipient is zero, which happens exactly for the low-order keys; they are
/// excluded.
#[verifier::external_body]
fn age_encrypt(plaintext: &[u8], recipients: &Vec<String>) -> (res: Vec<u8>)
    requires
        recipients@.len() > 0,
        forall|i: int| 0 <= i < recipients@.len() ==> is_recipient_text(#[trigger] recipients@[i]@),
        forall|i: int| 0 <= i < recipients@.len() ==> !is_low_order(#[trigger] recipients@[i]@),
    ensures
        forall|id: Seq<char>|
            is_identity_text(id) ==> #[trigger] age_decrypt(res@, id) == if views(
                recipients@,
            ).contains(age_recipient_of(id)) {
                Some(plaintext@)
            } else {
                None
            },
{
    let boxes: Vec<Box<dyn age::Recipient + Send>> = recipients.iter().map(|r| {
        let r: age::x25519::Recipient = r.parse().expect("a canonical recipient parses");
        Box::new(r) as Box<dyn age::Recipient + Send>
    }).collect();
    let enc = age::Encryptor::with_recipients(boxes).expect("recipients are not empty");
    let mut out = Vec::new();
    let mut w = enc.wrap_output(&mut out).expect("a Vec takes every write");
    w.write_all(plaintext).expect("a Vec takes every write");
    w.finish().expect("a Vec takes every write");
    out
}

/// `Decryptor::new`, then `decrypt` with one identity and `read_to_end`:
/// the plaintext of `ciphertext`, or `None` on any failure.
#[verifier::external_body]
fn age_decrypt_bytes(ciphertext: &[u8], identity: &str) -> (res: Option<Vec<u8>>)
    requires
        is_identity_text(identity@),
    ensures
        match res {
            Some(p) => age_decrypt(ciphertext@, identity@) == Some(p@),
            None => age_decrypt(ciphertext@, identity@) is None,
        },
{
    let id: age::x25519::Identity = identity.parse().ok()?;
    let d = match age::Decryptor::new(ciphertext) {
        Ok(age::Decryptor::Recipients(d)) => d,
        _ => return None,
    };
    let mut r = d.decrypt(std::iter::once(&id as &dyn age::Identity)).ok()?;
    let mut out = Vec::new();
    r.read_to_end(&mut out).ok()?;
    Some(out)
}

/// An age x25519 identity (private key).
pub struct Identity {
    text: String,
}

impl Identity {
    /// The identity's text is canonical.
    #[verifier::type_invariant]
    pub closed spec fn inv(self) -> bool {
        is_identity_text(self.text@) && key_chars(self.text@) && self.text@.take(16)
            == "AGE-SECRET-KEY-1"@ && self.text@.len() >= 16
    }

    /// The canonical text of the identity.
    pub closed spec fn view(self) -> Seq<char> {
        self.text@
    }
}

/// An age x25519 recipient (public key).
pub struct Recipient {
    text: String,
}

impl Recipient {
    /// The recipient's text is canonical.
    #[verifier::type_invariant]
    pub closed spec fn inv(self) -> bool {
        is_recipient_text(self.text@) && key_chars(self.text@) && self.text@.len() >= 4 && self.text@.take(4)
            == "age1"@
    }

    /// The canonical text of the recipient.
    pub closed spec fn view(self) -> Seq<char> {
        self.text@
    }

    /// The recipient as text (`age1...`).
    pub fn to_string(&self) -> (res: String)
        ensures
            res@ == self.view(),
            is_recipient_text(res@),
            key_chars(res@),
            res@.len() >= 4 && res@.take(4) == "age1"@,
    {
        proof {
            use_type_invariant(self);
        }
        self.text.clone()
    }
}

/// A fresh random identity.
pub fn generate_identity() -> (res: Identity)
    ensures
        is_identity_text(res.view()),
        key_chars(res.view()),
        res.view().len() >= 16 && res.view().take(16) == "AGE-SECRET-KEY-1"@,
{
    Identity { text: age_generate() }
}

/// The identity's text (`AGE-SECRET-KEY-1...`), for writing to disk.
pub fn identity_to_string(id: &Identity) -> (res: String)
    ensures
        res@ == id.view(),
        is_identity_text(res@),
        key_chars(res@),
        res@.len() >= 16 && res@.take(16) == "AGE-SECRET-KEY-1"@,
{
    proof {
        use_type_invariant(id);
    }
    id.text.clone()
}

/// The identity written in `s`, whitespace around it ignored.
pub fn parse_identity(s: &str) -> (res: Result<Identity, Error>)
    ensures
        match age_identity_parse(trim(s@)) {
            Ok(t) => res matches Ok(id) && id.view() == t,
            Err(m) => res matches Err(Error::InvalidIdentity(e)) && e@ == m,
        },
        res matches Ok(id) ==> id.view().len() >= 16 && id.view().take(16) == "AGE-SECRET-KEY-1"@,
        res is Ok ==> key_chars(trim(s@)) && trim(s@).len() > 0,
{
    let t = trim_str(s);
    match age_parse_identity(t.as_str()) {
        Ok(canon) => Ok(Identity { text: canon }),
        Err(m) => Err(Error::InvalidIdentity(m)),
    }
}

/// The recipient (public key) of an identity.
pub fn identity_to_recipient(id: &Identity) -> (res: Recipient)
    ensures
        res.view() == age_recipient_of(id.view()),
        res.view().len() >= 4 && res.view().take(4) == "age1"@,
{
    proof {
        use_type_invariant(id);
    }
    Recipient { text: age_to_public(id.text.as_str()) }
}

/// The recipient written in `s`, whitespace around it ignored.
pub fn parse_recipient(s: &str) -> (res: Result<Recipient, Error>)
    ensures
        match age_recipient_parse(trim(s@)) {
            Ok(t) => res matches Ok(r) && r.view() == t,
            Err(m) => res matches Err(Error::InvalidRecipient(e)) && e@ == m,
        },
        res is Ok ==> key_chars(trim(s@)) && trim(s@).len() > 0,
        res matches Ok(r) ==> r.view().len() >= 4 && r.view().take(4) == "age1"@,
{
    let t = trim_str(s);
    match age_parse_recipient(t.as_str()) {
        Ok(canon) => Ok(Recipient { text: canon }),
        Err(m) => Err(Error::InvalidRecipient(m)),
    }
}

/// The texts of a list of recipients.
pub open spec fn recipients_view(rs: Seq<Recipient>) -> Seq<Seq<char>> {
    rs.map_values(|r: Recipient| r.view())
}

/// `ct` decrypts to `plaintext` with the identity of every recipient that
/// `ts` lists, and with no other identity.
pub open spec fn sealed_for(ct: Seq<u8>, plaintext: Seq<u8>, ts: Seq<Seq<char>>) -> bool {
    forall|id: Seq<char>|
        is_identity_text(id) ==> #[trigger] age_decrypt(ct, id) == if ts.contains(age_recipient_of(id)) {
            Some(plaintext)
        } else {
            None
        }
}

/// What encrypting `plaintext` to the recipients `ts` gives: no recipient,
/// or a low-order one, is refused; otherwise a ciphertext sealed for them.
pub open spec fn seal_outcome(res: Result<Vec<u8>, Error>, plaintext: Seq<u8>, ts: Seq<Seq<char>>) -> bool {
    if ts.len() == 0 {
        res matches Err(Error::NoRecipients)
    } else {
        match first_low_order(ts) {
            Some(t) => res matches Err(Error::LowOrderRecipient(e)) && e@ == t,
            None => res matches Ok(ct) && sealed_for(ct@, plaintext, ts),
        }
    }
}

/// `plaintext` encrypted to every recipient in `recipients`: each of their
/// identities, and no other, can decrypt the result. An empty list, and a
/// recipient whose key is a low-order point (encrypting to it would give
/// away the file key), are refused.
pub fn encrypt_bytes(plaintext: &[u8], recipients: &[Recipient]) -> (res: Result<Vec<u8>, Error>)
    ensures
        seal_outcome(res, plaintext@, recipients_view(recipients@)),
{
    if recipients.len() == 0 {
        return Err(Error::NoRecipients);
    }
    let ghost rv = recipients_view(recipients@);
    let mut texts: Vec<String> = Vec::new();
    let n = recipients.len();
    assert(rv.take(0) =~= Seq::<Seq<char>>::empty());
    for i in 0..n
        invariant
            n == recipients@.len(),
            rv == recipients_view(recipients@),
            texts@.len() == i,
            forall|k: int| 0 <= k < i ==> #[trigger] texts@[k]@ == recipients@[k].view(),
            forall|k: int| 0 <= k < i ==> is_recipient_text(#[trigger] texts@[k]@) && key_chars(texts@[k]@),
            first_low_order(rv.take(i as int)) is None,
    {
        let r = &recipients[i];
        proof {
            use_type_invariant(r);
        }
        assert(rv.take(i + 1).drop_last() =~= rv.take(i as int));
        assert(rv.take(i + 1).last() == r.view());
        if low_order_text(r.text.as_str()) {
            let t = r.text.clone();
            proof {
                lemma_first_low_order_prefix(rv, i + 1, t@);
            }
            return Err(Error::LowOrderRecipient(t));
        }
        texts.push(r.text.clone());
    }
    assert(rv.take(n as int) =~= rv);
    assert(views(texts@) =~= rv);
    proof {
        lemma_no_low_order(rv);
        assert forall|i: int| 0 <= i < texts@.len() implies !is_low_order(#[trigger] texts@[i]@) by {
            assert(views(texts@)[i] == texts@[i]@);
        }
    }
    Ok(age_encrypt(plaintext, &texts))
}

proof fn lemma_first_low_order_prefix(ts: Seq<Seq<char>>, k: int, t: Seq<char>)
    requires
        0 <= k <= ts.len(),
        first_low_order(ts.take(k)) == Some(t),
    ensures
        first_low_order(ts) == Some(t),
    decreases ts.len() - k,
{
    if k < ts.len() {
        assert(ts.take(k + 1).drop_last() =~= ts.take(k));
        lemma_first_low_order_prefix(ts, k + 1, t);
    } else {
        assert(ts.take(k) =~= ts);
    }
}

proof fn lemma_no_low_order(ts: Seq<Seq<char>>)
    requires
        first_low_order(ts) is None,
    ensures
        forall|i: int| 0 <= i < ts.len() ==> !is_low_order(#[trigger] ts[i]),
    decreases ts.len(),
{
    if ts.len() > 0 {
        lemma_no_low_order(ts.drop_last());
        assert forall|i: int| 0 <= i < ts.len() implies !is_low_order(#[trigger] ts[i]) by {
            if i < ts.len() - 1 {
                assert(ts[i] == ts.drop_last()[i]);
            }
        }
    }
}

/// The plaintext of `ciphertext`, decrypted with `identity`. Every failure
/// gives the same error, so that nothing is learnt from which step failed.
pub fn decrypt_bytes(ciphertext: &[u8], identity: &Identity) -> (res: Result<Vec<u8>, Error>)
    ensures
        match age_decrypt(ciphertext@, identity.view()) {
            Some(p) => res matches Ok(v) && v@ == p,
            None => res matches Err(Error::DecryptionFailed),
        },
{
    proof {
        use_type_invariant(identity);
    }
    match age_decrypt_bytes(ciphertext, identity.text.as_str()) {
        Some(p) => Ok(p),
        None => Err(Error::DecryptionFailed),
    }
}

/// An identity's text parses back to the same identity.
pub proof fn identity_text_roundtrip(id: Seq<char>)
    requires
        is_identity_text(id),
        key_chars(id),
    ensures
        age_identity_parse(trim(id)) == Ok::<Seq<char>, Seq<char>>(id),
{
    assert forall|i: int| 0 <= i < id.len() implies !is_ws(#[trigger] id[i]) by {
        assert(key_chars(id));
    }
    lemma_trim_no_ws(id);
}

/// A recipient's text parses back to the same recipient.
pub proof fn recipient_text_roundtrip(r: Seq<char>)
    requires
        is_recipient_text(r),
        key_chars(r),
    ensures
        age_recipient_parse(trim(r)) == Ok::<Seq<char>, Seq<char>>(r),
{
    assert forall|i: int| 0 <= i < r.len() implies !is_ws(#[trigger] r[i]) by {
        assert(key_chars(r));
    }
    lemma_trim_no_ws(r);
}

} // verus!
