use envlock::gitignore::{ensure_gitignore_entries, line_exists, missing_entries};

#[test]
fn line_exists_finds_entry() {
    let content = ".env\n*.log\n.envlock/identity.txt\n";
    assert!(line_exists(content, ".env"));
    assert!(line_exists(content, ".envlock/identity.txt"));
    assert!(!line_exists(content, "other"));
}

#[test]
fn line_exists_trims_whitespace() {
    let content = "  .env  \n*.log\n";
    assert!(line_exists(content, ".env"));
}

#[test]
fn line_exists_handles_empty() {
    assert!(!line_exists("", ".env"));
}

#[test]
fn missing_entries_empty_gitignore() {
    let missing = missing_entries("");
    assert_eq!(missing, vec![".env", ".envlock/identity.txt"]);
}

#[test]
fn missing_entries_partial_gitignore() {
    let missing = missing_entries(".env\n");
    assert_eq!(missing, vec![".envlock/identity.txt"]);
}

#[test]
fn ensure_gitignore_no_duplicates() {
    let content = ensure_gitignore_entries(".env\n*.log\n").unwrap();
    let env_count = content.lines().filter(|l| l.trim() == ".env").count();
    assert_eq!(env_count, 1, ".env should not be duplicated");

    let id_count = content
        .lines()
        .filter(|l| l.trim() == ".envlock/identity.txt")
        .count();
    assert_eq!(id_count, 1, "identity.txt should be added once");
}

#[test]
fn ensure_gitignore_exact_content() {
    assert_eq!(
        ensure_gitignore_entries("*.log").unwrap(),
        "*.log\n# envlock managed\n.env\n.envlock/identity.txt\n.env.edit.tmp\n"
    );
    assert_eq!(
        ensure_gitignore_entries("").unwrap(),
        "# envlock managed\n.env\n.envlock/identity.txt\n.env.edit.tmp\n"
    );
}

#[test]
fn ensure_gitignore_is_idempotent() {
    let once = ensure_gitignore_entries("node_modules\r").unwrap();
    assert!(missing_entries(&once).is_empty());
    assert!(ensure_gitignore_entries(&once).is_none());
}

#[test]
fn ensure_gitignore_complete_file_untouched() {
    assert!(ensure_gitignore_entries(" .env\n\t.envlock/identity.txt \n.env.edit.tmp\n").is_none());
}

#[test]
fn edit_temp_file_is_added_but_not_a_missing_protection() {
    let content = ".env\n.envlock/identity.txt\n";
    assert!(missing_entries(content).is_empty());
    assert_eq!(
        ensure_gitignore_entries(content).unwrap(),
        ".env\n.envlock/identity.txt\n# envlock managed\n.env.edit.tmp\n"
    );
}
