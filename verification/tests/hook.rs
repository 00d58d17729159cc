use envlock::commands::hook::{install, trim_end_str, uninstall, HookInstall, HookUninstall};

const HOOK: &str = "#!/bin/sh\n# envlock pre-commit hook \u{2014} prevents committing secrets\nenvlock check\n";

#[test]
fn install_creates_missing_hook() {
    match install(true, None).unwrap() {
        HookInstall::Create(c) => assert_eq!(c, HOOK),
        _ => panic!("expected a new hook"),
    }
}

#[test]
fn install_appends_to_foreign_hook() {
    match install(true, Some("#!/bin/sh\nrun-lint")).unwrap() {
        HookInstall::Append(c) => {
            assert_eq!(c, "#!/bin/sh\nrun-lint\n\n# envlock pre-commit hook\nenvlock check\n")
        }
        _ => panic!("expected an append"),
    }
    match install(true, Some("")).unwrap() {
        HookInstall::Append(c) => assert_eq!(c, "\n\n# envlock pre-commit hook\nenvlock check\n"),
        _ => panic!("expected an append"),
    }
}

#[test]
fn install_is_idempotent() {
    assert!(matches!(install(true, Some(HOOK)).unwrap(), HookInstall::AlreadyInstalled));
    if let HookInstall::Append(c) = install(true, Some("#!/bin/sh\nmake test\n")).unwrap() {
        assert!(matches!(install(true, Some(&c)).unwrap(), HookInstall::AlreadyInstalled));
    } else {
        panic!("expected an append");
    }
}

#[test]
fn uninstall_outcomes() {
    assert!(matches!(uninstall(None), HookUninstall::NoHook));
    assert!(matches!(uninstall(Some("#!/bin/sh\nmake\n")), HookUninstall::NotInstalled));
    assert!(matches!(uninstall(Some(HOOK)), HookUninstall::Delete));
    assert!(matches!(uninstall(Some(&format!("\n  {}  \n", HOOK))), HookUninstall::Delete));
}

#[test]
fn uninstall_after_append_restores_other_lines() {
    let original = "#!/bin/sh\nmake test\n";
    let appended = match install(true, Some(original)).unwrap() {
        HookInstall::Append(c) => c,
        _ => panic!("expected an append"),
    };
    match uninstall(Some(&appended)) {
        HookUninstall::Rewrite(c) => {
            assert_eq!(c, "#!/bin/sh\nmake test\n");
            assert!(!c.contains("envlock check"));
        }
        _ => panic!("expected a rewrite"),
    }
}

#[test]
fn trim_end_removes_trailing_whitespace() {
    assert_eq!(trim_end_str("a b \n\t "), "a b");
    assert_eq!(trim_end_str("   "), "");
}

#[test]
fn install_then_uninstall_keeps_hook_up_to_trailing_space() {
    for original in ["#!/bin/sh\nmake lint\r", "make\n\n  \n", "", "a\rb"] {
        let appended = match install(true, Some(original)).unwrap() {
            HookInstall::Append(c) => c,
            _ => panic!("expected an append"),
        };
        match uninstall(Some(&appended)) {
            HookUninstall::Rewrite(c) => assert_eq!(c, format!("{}\n", original.trim_end())),
            _ => panic!("expected a rewrite"),
        }
    }
}

#[test]
fn install_refused_without_hooks_dir() {
    match install(false, None) {
        Err(e) => assert_eq!(
            e.to_string(),
            "No .git/hooks directory found. Run this from the root of a git repository."
        ),
        Ok(_) => panic!("expected a refusal"),
    }
    assert!(install(false, Some(HOOK)).is_err());
}
