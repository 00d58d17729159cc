use envlock::commands::{ci_export, ci_run, ci_seal, decrypt, diff, edit, encrypt, recipients, rotate, run};
use envlock::config::{read_recipients, write_recipients_list};
use envlock::crypto;

fn pair(k: &str, v: &str) -> (String, String) {
    (k.to_string(), v.to_string())
}

fn keypair() -> (String, String) {
    let id = crypto::generate_identity();
    let r = crypto::identity_to_recipient(&id).to_string();
    (crypto::identity_to_string(&id), r)
}

#[test]
fn recipients_add_and_remove() {
    let (_, r1) = keypair();
    let (_, r2) = keypair();
    let list = vec![r1.clone()];
    let added = recipients::add(&format!(" {} ", r2), Ok(list.clone())).unwrap();
    assert_eq!(added, vec![r1.clone(), r2.clone()]);
    let dup = recipients::add(&r1, Ok(list.clone())).unwrap_err().to_string();
    assert_eq!(dup, format!("Recipient {} is already in .envlock/recipients.txt", r1));
    let removed = recipients::remove(&r2, Ok(added)).unwrap();
    assert_eq!(removed, list);
    let last = recipients::remove(&r1, Ok(list.clone())).unwrap_err().to_string();
    assert!(last.starts_with("Cannot remove the last recipient"));
    let missing = recipients::remove("age1nope", Ok(list)).unwrap_err().to_string();
    assert_eq!(missing, "Recipient age1nope not found in .envlock/recipients.txt");
}

#[test]
fn recipients_add_rejects_invalid_key() {
    let err = recipients::add("bogus", Ok(vec![])).unwrap_err().to_string();
    assert!(err.starts_with("'bogus' is not a valid age recipient (expected age1...)"), "{}", err);
}

#[test]
fn recipients_list_lines() {
    let lines = recipients::list(&vec!["age1a".to_string(), "age1b".to_string()]);
    assert_eq!(lines, vec!["Recipients in .envlock/recipients.txt (2):", "  1. age1a", "  2. age1b"]);
}

#[test]
fn encrypt_then_decrypt_file() {
    let (id, r) = keypair();
    let (vault, ct) = encrypt::encrypt_file(b"A=1\n", ".env", Ok(vec![r])).unwrap();
    assert_eq!(vault, ".env.vault");
    let (out, pt) = decrypt::decrypt_file(&ct, Ok(id), &vault).unwrap();
    assert_eq!(out, ".env");
    assert_eq!(pt, b"A=1\n");
}

#[test]
fn encrypt_file_errors() {
    let err = encrypt::encrypt_file(b"", "x.env", Ok(vec![])).unwrap_err().to_string();
    assert_eq!(err, "Plaintext file x.env is empty \u{2014} nothing to encrypt");
    let err = encrypt::encrypt_file(b"A=1", "x.env", Ok(vec!["junk".to_string()])).unwrap_err();
    assert_eq!(err.to_string(), "Failed to parse one or more recipients from .envlock/recipients.txt");
    assert!(err.cause().unwrap().starts_with("Failed to parse age recipient: "), "{:?}", err);
}

#[test]
fn decrypt_refuses_non_vault_path_after_decrypting() {
    let (id, r) = keypair();
    let (_, ct) = encrypt::encrypt_file(b"A=1\n", ".env", Ok(vec![r])).unwrap();
    let err = decrypt::decrypt_file(&ct, Ok(id), "secret.bin").unwrap_err().to_string();
    assert_eq!(err, "Vault file must end with .vault, got: secret.bin");
}

#[test]
fn run_pairs_checks() {
    assert_eq!(run::run_pairs(b"A=1\nB=2\n", ".env.vault").unwrap(), vec![pair("A", "1"), pair("B", "2")]);
    let err = run::run_pairs(b"", "v.vault").unwrap_err().to_string();
    assert_eq!(err, "Vault v.vault decrypted to empty content. Add keys to your .env and run `envlock encrypt`.");
    let err = run::run_pairs(b"# only a comment\n", "v.vault").unwrap_err().to_string();
    assert_eq!(err, "Vault v.vault contains no key-value pairs. Add keys to your .env and run `envlock encrypt`.");
    assert!(run::require_command(&vec![], "envlock run -- <command...>").is_err());
    assert!(run::require_command(&vec!["ls".to_string()], "u").is_ok());
}

#[test]
fn export_formats() {
    let ps = vec![pair("A", "x\"y"), pair("B", "l1\nl2")];
    assert_eq!(ci_export::export_lines(&ps, "dotenv").unwrap(), vec!["A=x\"y", "B=l1\nl2"]);
    assert_eq!(
        ci_export::export_lines(&ps, "json").unwrap(),
        vec!["{", "  \"A\": \"x\\\"y\",", "  \"B\": \"l1\\nl2\"", "}"]
    );
    assert_eq!(ci_export::export_lines(&ps, "github").unwrap(), vec!["A=x\"y", "B<<EOF", "l1\nl2", "EOF"]);
    let err = ci_export::export_lines(&ps, "yaml").unwrap_err().to_string();
    assert_eq!(err, "Unknown export format 'yaml'. Supported: dotenv, json, github");
}

#[test]
fn escape_json_exact() {
    assert_eq!(ci_export::escape_json("a\\b\"c\nd\re\tf"), "a\\\\b\\\"c\\nd\\re\\tf");
}

#[test]
fn export_checks_content_first() {
    let err = ci_export::export(b"", "v.vault", "nope").unwrap_err().to_string();
    assert_eq!(err, "Vault v.vault is empty \u{2014} nothing to export");
    let err = ci_export::export(b"# c\n", "v.vault", "json").unwrap_err().to_string();
    assert_eq!(err, "Vault contains no key-value pairs \u{2014} nothing to export");
    assert_eq!(ci_export::export(b"K=v\n", "v", "dotenv").unwrap(), (vec!["K=v".to_string()], 1));
}

#[test]
fn rotate_replaces_one_value_and_sorts() {
    let out = rotate::rotate(b"ZED=1\nAPI=old\nMID=2\n", "v.vault", "API", "new").unwrap();
    assert_eq!(out, "API=new\nMID=2\nZED=1\n");
    let err = rotate::rotate(b"B=1\nA=2\n", "v.vault", "C", "x").unwrap_err().to_string();
    assert_eq!(err, "Key 'C' not found in vault v.vault. Existing keys: A, B");
    let err = rotate::require_value("K", None).unwrap_err().to_string();
    assert_eq!(err, "No new value provided for 'K'. Use --value <val> or --prompt.");
}

#[test]
fn rotate_keeps_last_duplicate() {
    let out = rotate::rotate(b"A=1\nA=2\nB=3\n", "v", "B", "4").unwrap();
    assert_eq!(out, "A=2\nB=4\n");
}

#[test]
fn diff_keys_and_report() {
    let a = vec![pair("KEEP", "1"), pair("GONE", "x"), pair("CHANGE", "a")];
    let b = vec![pair("NEW", "y"), pair("CHANGE", "b"), pair("KEEP", "1")];
    let d = diff::diff_pairs(&a, &b);
    assert_eq!(d.added, vec!["NEW"]);
    assert_eq!(d.removed, vec!["GONE"]);
    assert_eq!(d.changed, vec!["CHANGE"]);
    let lines = diff::diff_report("a.vault", "b.vault", &d);
    assert_eq!(
        lines,
        vec![
            "Comparing a.vault \u{2194} b.vault",
            "",
            "+ NEW",
            "- GONE",
            "~ CHANGE (value differs)",
            "",
            "Summary: 1 added, 1 removed, 1 changed",
        ]
    );
    let same = diff::diff_pairs(&a, &a);
    assert_eq!(diff::diff_report("a", "a", &same), vec!["No differences found."]);
}

#[test]
fn ci_run_prefix_and_vault_fill() {
    let vars = vec![pair("ENVLOCK_DB", "ci"), pair("PATH", "/bin"), pair("ENVLOCK_", "skip")];
    let vault = vec![pair("DB", "vault"), pair("API", "k")];
    let ps = ci_run::ci_run_pairs(&vars, "ENVLOCK_", &vault).unwrap();
    assert_eq!(ps, vec![pair("DB", "ci"), pair("API", "k")]);
    let err = ci_run::ci_run_pairs(&vec![], "P_", &vec![]).unwrap_err().to_string();
    assert_eq!(err, "No environment variables found with prefix 'P_'. Set vars like P_DB_URL=xxx before running this command.");
}

#[test]
fn ci_vault_pairs_need_identity() {
    assert!(ci_run::ci_vault_pairs(Some(vec![1, 2]), None).is_empty());
    let (id, r) = keypair();
    let (_, ct) = encrypt::encrypt_file(b"A=1\n", ".env", Ok(vec![r])).unwrap();
    assert_eq!(ci_run::ci_vault_pairs(Some(ct), Some(id)), vec![pair("A", "1")]);
}

#[test]
fn ci_seal_plaintext_and_overwrite() {
    let vars = vec![pair("S_A", "1"), pair("S_B", "2")];
    assert_eq!(ci_seal::seal_plaintext(&vars, "S_", false, false, ".env.vault").unwrap(), ("A=1\nB=2\n".to_string(), 2));
    let err = ci_seal::seal_plaintext(&vars, "S_", true, false, ".env.vault").unwrap_err().to_string();
    assert_eq!(err, ".env.vault already exists. Use --overwrite to replace it, or choose a different --output path.");
    assert!(ci_seal::seal_plaintext(&vars, "S_", true, true, ".env.vault").is_ok());
    let (id, r) = keypair();
    let ct = ci_seal::seal("A=1\n", Ok(vec![r])).unwrap();
    let (_, pt) = decrypt::decrypt_file(&ct, Ok(id), ".env.vault").unwrap();
    assert_eq!(pt, b"A=1\n");
}

#[test]
fn edit_validation() {
    assert_eq!(edit::validate_edit(b"A=1\nB=2\n").unwrap(), 2);
    assert_eq!(
        edit::validate_edit(b"").unwrap_err().to_string(),
        "Edited file is empty \u{2014} vault left unchanged. If this was a mistake, the vault is intact."
    );
    assert_eq!(
        edit::validate_edit(b"# nothing\n").unwrap_err().to_string(),
        "Edited file contains no key-value pairs \u{2014} vault left unchanged"
    );
    assert!(edit::validate_edit(b"=bad\n").unwrap_err().to_string().starts_with("Failed to parse edited .env content"));
}

#[test]
fn edit_open_refuses_empty_vault() {
    let (id, r) = keypair();
    let (_, ct) = encrypt::encrypt_file(b"X", ".env", Ok(vec![r.clone()])).unwrap();
    assert_eq!(edit::open_for_edit(&ct, Ok(id.clone()), "v").unwrap(), b"X");
    let err = edit::open_for_edit(b"junk", Ok(id), "v").unwrap_err().to_string();
    assert_eq!(err, "Decryption failed");
}

#[test]
fn export_pairs_checks_pairs_then_format() {
    let err = ci_export::export_pairs(&vec![], "v.vault", "yaml").unwrap_err().to_string();
    assert_eq!(err, "Vault contains no key-value pairs \u{2014} nothing to export");
    let err = ci_export::export_pairs(&vec![pair("K", "v")], "v.vault", "yaml").unwrap_err().to_string();
    assert_eq!(err, "Unknown export format 'yaml'. Supported: dotenv, json, github");
    let (lines, n) = ci_export::export(b"A=1\nB=\"x\ny\"\n", "v.vault", "json").unwrap();
    assert_eq!(n, 2);
    assert_eq!(lines, vec!["{", "  \"A\": \"1\",", "  \"B\": \"x\\ny\"", "}"]);
}

#[test]
fn recipient_changes_read_back_from_file() {
    let (_, r1) = keypair();
    let (_, r2) = keypair();
    let current = read_recipients("/p", Some(&format!("\n  {}\t\n", r1)));
    let added = recipients::add(&format!("{}\n", r2), current).unwrap();
    let file = write_recipients_list("/p", &added).content;
    assert_eq!(read_recipients("/p", Some(&file)).unwrap(), vec![r1.clone(), r2.clone()]);
    let removed = recipients::remove(&r1, read_recipients("/p", Some(&file))).unwrap();
    let file = write_recipients_list("/p", &removed).content;
    assert_eq!(read_recipients("/p", Some(&file)).unwrap(), vec![r2]);
}

#[test]
fn sealing_refuses_low_order_recipients() {
    let (_, r) = keypair();
    let weak = "age1qqqqqqqqqqqqqqqqqqqqqqqqqqqqqqqqqqqqqqqqqqqqqqqqqqqq5cu47z".to_string();
    let err = encrypt::encrypt_file(b"A=1", ".env", Ok(vec![r, weak.clone()])).unwrap_err().to_string();
    assert_eq!(err, format!("Recipient {} has a low-order key and cannot be encrypted to", weak));
}
