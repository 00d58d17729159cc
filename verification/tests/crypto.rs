use bech32::FromBase32;
use envlock::crypto;
use x25519_dalek::{PublicKey, StaticSecret};

#[test]
fn encrypt_decrypt_round_trip() {
    let identity = crypto::generate_identity();
    let recipient = crypto::identity_to_recipient(&identity);
    let plaintext = b"MY_SECRET=super_secret_value\nANOTHER=12345";

    let ciphertext = crypto::encrypt_bytes(plaintext, &[recipient]).unwrap();
    let decrypted = crypto::decrypt_bytes(&ciphertext, &identity).unwrap();

    assert_eq!(decrypted, plaintext);
}

#[test]
fn decrypt_with_wrong_key_fails() {
    let identity1 = crypto::generate_identity();
    let recipient1 = crypto::identity_to_recipient(&identity1);

    let identity2 = crypto::generate_identity();

    let plaintext = b"SHOULD_NOT_SEE_THIS";
    let ciphertext = crypto::encrypt_bytes(plaintext, &[recipient1]).unwrap();

    let result = crypto::decrypt_bytes(&ciphertext, &identity2);
    assert!(result.is_err());
    assert_eq!(result.unwrap_err().to_string(), "Decryption failed");
}

#[test]
fn identity_to_string_and_back() {
    let identity = crypto::generate_identity();
    let s = crypto::identity_to_string(&identity);
    assert!(s.starts_with("AGE-SECRET-KEY-"));

    let parsed = crypto::parse_identity(&s).unwrap();
    let orig_recipient = crypto::identity_to_recipient(&identity).to_string();
    let parsed_recipient = crypto::identity_to_recipient(&parsed).to_string();
    assert_eq!(orig_recipient, parsed_recipient);
}

#[test]
fn parse_invalid_identity_fails() {
    let result = crypto::parse_identity("not-a-valid-key");
    assert!(result.is_err());
}

#[test]
fn parse_invalid_recipient_fails() {
    let result = crypto::parse_recipient("not-a-valid-recipient");
    assert!(result.is_err());
}

#[test]
fn recipient_derived_from_identity() {
    let identity = crypto::generate_identity();
    let recipient = crypto::identity_to_recipient(&identity);
    let recipient_str = recipient.to_string();
    assert!(recipient_str.starts_with("age1"));

    let parsed = crypto::parse_recipient(&recipient_str).unwrap();
    assert_eq!(parsed.to_string(), recipient_str);
}

#[test]
fn multi_recipient_encrypt_decrypt() {
    let id1 = crypto::generate_identity();
    let id2 = crypto::generate_identity();
    let rec1 = crypto::identity_to_recipient(&id1);
    let rec2 = crypto::identity_to_recipient(&id2);

    let plaintext = b"SHARED_SECRET=both_can_read";

    let ciphertext = crypto::encrypt_bytes(plaintext, &[rec1, rec2]).unwrap();

    let dec1 = crypto::decrypt_bytes(&ciphertext, &id1).unwrap();
    let dec2 = crypto::decrypt_bytes(&ciphertext, &id2).unwrap();
    assert_eq!(dec1, plaintext);
    assert_eq!(dec2, plaintext);
}

#[test]
fn encrypt_without_recipients_is_refused() {
    let result = crypto::encrypt_bytes(b"X=1", &[]);
    assert_eq!(result.unwrap_err().to_string(), "No valid recipients provided");
}

#[test]
fn parse_identity_ignores_surrounding_whitespace() {
    let identity = crypto::generate_identity();
    let s = format!("  {}\n", crypto::identity_to_string(&identity));
    let parsed = crypto::parse_identity(&s).unwrap();
    assert_eq!(crypto::identity_to_string(&parsed), crypto::identity_to_string(&identity));
}

#[test]
fn parse_identity_error_message_names_the_reason() {
    let err = crypto::parse_identity("not-a-valid-key").err().unwrap().to_string();
    assert!(err.starts_with("Failed to parse age identity: "), "{}", err);
}

#[test]
fn garbage_ciphertext_fails_to_decrypt() {
    let identity = crypto::generate_identity();
    let result = crypto::decrypt_bytes(b"not an age file", &identity);
    assert_eq!(result.unwrap_err().to_string(), "Decryption failed");
}

#[test]
fn recipient_parse_trims_and_canonicalises() {
    let identity = crypto::generate_identity();
    let r = crypto::identity_to_recipient(&identity).to_string();
    let parsed = crypto::parse_recipient(&format!("\t{} ", r)).unwrap();
    assert_eq!(parsed.to_string(), r);
}

#[test]
fn keys_parse_to_canonical_text() {
    let identity = crypto::generate_identity();
    let text = crypto::identity_to_string(&identity);
    let lower = format!("  {}\n", text.to_lowercase());
    let parsed = crypto::parse_identity(&lower).unwrap();
    assert_eq!(crypto::identity_to_string(&parsed), text);

    let recipient = crypto::identity_to_recipient(&identity).to_string();
    let upper = recipient.to_uppercase();
    let parsed = crypto::parse_recipient(&upper).unwrap();
    assert_eq!(parsed.to_string(), recipient);
}

const LOW_ORDER: [&str; 14] = [
    "age1qqqqqqqqqqqqqqqqqqqqqqqqqqqqqqqqqqqqqqqqqqqqqqqqqqqq5cu47z",
    "age1qqqqqqqqqqqqqqqqqqqqqqqqqqqqqqqqqqqqqqqqqqqqqqqqqzqqsuwj9m",
    "age1qyqqqqqqqqqqqqqqqqqqqqqqqqqqqqqqqqqqqqqqqqqqqqqqqqqqj7vrya",
    "age1qyqqqqqqqqqqqqqqqqqqqqqqqqqqqqqqqqqqqqqqqqqqqqqqqzqqk67yly",
    "age1ur4h5lpmgxu2u9jku0a0r87ydtdqnr0tnsetrlvxvgz3vh6fhqqqzyt4v9",
    "age1ur4h5lpmgxu2u9jku0a0r87ydtdqnr0tnsetrlvxvgz3vh6fhzqqxqejhu",
    "age1t7wft09r2zxzfvwsk92eeql0tvzyghxytqwgapkcyf8dm5ylz9ts6wm9s8",
    "age1t7wft09r2zxzfvwsk92eeql0tvzyghxytqwgapkcyf8dm5ylz8ts72fzt7",
    "age1anlllllllllllllllllllllllllllllllllllllllllllllllals4n2t7m",
    "age1anllllllllllllllllllllllllllllllllllllllllllllllllls3hcv9z",
    "age1ahlllllllllllllllllllllllllllllllllllllllllllllllalsn46ayy",
    "age1ahlllllllllllllllllllllllllllllllllllllllllllllllllsh3g6la",
    "age1amlllllllllllllllllllllllllllllllllllllllllllllllalselrwrv",
    "age1amlllllllllllllllllllllllllllllllllllllllllllllllllsam3fc4",
];

fn key_bytes(text: &str) -> [u8; 32] {
    let (hrp, data, _) = bech32::decode(text).unwrap();
    assert_eq!(hrp, "age");
    let bytes = Vec::<u8>::from_base32(&data).unwrap();
    bytes.try_into().unwrap()
}

fn shared_is_zero(text: &str, secret: [u8; 32]) -> bool {
    let shared = StaticSecret::from(secret).diffie_hellman(&PublicKey::from(key_bytes(text)));
    shared.as_bytes().iter().all(|b| *b == 0)
}

#[test]
fn low_order_list_is_the_zero_shared_secret_keys() {
    for text in LOW_ORDER {
        assert!(crypto::low_order_text(text), "{}", text);
        let r = crypto::parse_recipient(text).unwrap();
        assert_eq!(r.to_string(), text);
        for secret in [[7u8; 32], [0x5au8; 32], [0xffu8; 32]] {
            assert!(shared_is_zero(text, secret), "{}", text);
        }
    }
    for _ in 0..5 {
        let r = crypto::identity_to_recipient(&crypto::generate_identity()).to_string();
        assert!(!crypto::low_order_text(&r));
        assert!(!shared_is_zero(&r, [7u8; 32]));
    }
}

#[test]
fn encrypt_refuses_low_order_recipient() {
    let good = crypto::identity_to_recipient(&crypto::generate_identity());
    let weak = crypto::parse_recipient(LOW_ORDER[2]).unwrap();
    let err = crypto::encrypt_bytes(b"X=1", &[good, weak]).unwrap_err().to_string();
    assert_eq!(err, format!("Recipient {} has a low-order key and cannot be encrypted to", LOW_ORDER[2]));
}
