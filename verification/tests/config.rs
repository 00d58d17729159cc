use envlock::config::{
    envlock_dir, identity_path, join_path, plaintext_path, read_identity, read_recipients,
    recipients_content, recipients_path, vault_path, write_recipients, write_recipients_list,
};

#[test]
fn paths_inside_project() {
    assert_eq!(envlock_dir("/work/app"), "/work/app/.envlock");
    assert_eq!(identity_path("/work/app"), "/work/app/.envlock/identity.txt");
    assert_eq!(recipients_path("/work/app/"), "/work/app/.envlock/recipients.txt");
    assert_eq!(envlock_dir(""), ".envlock");
    assert_eq!(join_path("a", "b"), "a/b");
}

#[test]
fn vault_and_plaintext_paths() {
    assert_eq!(vault_path(".env"), ".env.vault");
    assert_eq!(plaintext_path(".env.vault").unwrap(), ".env");
    assert_eq!(plaintext_path(&vault_path("config/prod.env")).unwrap(), "config/prod.env");
    let err = plaintext_path("secrets.txt").unwrap_err().to_string();
    assert_eq!(err, "Vault file must end with .vault, got: secrets.txt");
}

#[test]
fn read_identity_requires_file() {
    assert_eq!(read_identity(Some("KEY".to_string())).unwrap(), "KEY");
    assert_eq!(
        read_identity(None).unwrap_err().to_string(),
        "No identity found. Run 'envlock init' first."
    );
}

#[test]
fn read_recipients_trims_and_skips_blanks() {
    let rs = read_recipients("/p", Some("  age1aaa \n\n\tage1bbb\r\n   \n")).unwrap();
    assert_eq!(rs, vec!["age1aaa", "age1bbb"]);
}

#[test]
fn read_recipients_errors() {
    assert_eq!(
        read_recipients("/p", None).unwrap_err().to_string(),
        "No recipients file found at /p/.envlock/recipients.txt. Run 'envlock init' first."
    );
    assert_eq!(
        read_recipients("/p", Some(" \n\n")).unwrap_err().to_string(),
        "Recipients file is empty. Something went wrong during init."
    );
}

#[test]
fn recipients_file_round_trip() {
    let list = vec!["age1one".to_string(), "age1two".to_string()];
    let w = write_recipients_list("/p", &list);
    assert_eq!(w.path, "/p/.envlock/recipients.txt");
    assert_eq!(w.content, "age1one\nage1two\n");
    assert_eq!(read_recipients("/p", Some(&w.content)).unwrap(), list);
}

#[test]
fn single_recipient_write() {
    let w = write_recipients("root", "age1x");
    assert_eq!(w.path, "root/.envlock/recipients.txt");
    assert_eq!(w.content, "age1x\n");
    assert_eq!(recipients_content(&vec![]), "\n");
}
