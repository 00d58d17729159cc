use envlock::commands::check::{
    check_report, run_check, scan_for_secret_files, tracked_by_git, tracking_candidates, ProjectState,
};
use envlock::commands::doctor::{doctor_report, DoctorFacts};

fn state(gitignore: Option<&str>, visible: &[&str], present: &[&str], hook: Option<&str>) -> ProjectState {
    ProjectState {
        gitignore: gitignore.map(|s| s.to_string()),
        committable: visible.iter().map(|s| s.to_string()).collect(),
        present: present.iter().map(|s| s.to_string()).collect(),
        hook: hook.map(|s| s.to_string()),
        vault_exists: true,
        envlock_dir_exists: true,
    }
}

#[test]
fn candidates_cover_sensitive_and_secret_files() {
    assert_eq!(
        tracking_candidates(),
        vec![".env", ".envlock/identity.txt", ".env.edit.tmp", ".env.local", ".env.production", ".env.staging", ".env.development"]
    );
}

#[test]
fn scan_keeps_pattern_order() {
    let present = vec![".env.staging".to_string(), "README".to_string(), ".env.local".to_string()];
    assert_eq!(scan_for_secret_files(&present), vec![".env.local", ".env.staging"]);
}

#[test]
fn clean_project_passes() {
    let st = state(Some(".env\n.envlock/identity.txt\n"), &[], &[], Some("envlock check\n"));
    let r = run_check(&st, true);
    assert!(r.problems.is_empty() && r.warnings.is_empty());
    assert!(r.gitignore_ok && r.hook_installed);
    let (lines, ok) = check_report(&r);
    assert!(ok);
    assert_eq!(lines[0], "\u{2713} All checks passed \u{2014} secrets are protected.");
    assert_eq!(lines.len(), 5);
}

#[test]
fn problems_are_listed_in_order() {
    let st = state(None, &[".env", ".env.local"], &[".env.local"], None);
    let r = run_check(&st, true);
    assert_eq!(
        r.problems,
        vec![
            "\u{2717} '.env' is missing from .gitignore \u{2014} could be accidentally committed",
            "\u{2717} '.envlock/identity.txt' is missing from .gitignore \u{2014} could be accidentally committed",
            "\u{2717} '.env' exists and would be tracked by git \u{2014} add it to .gitignore immediately",
            "\u{2717} '.env.local' looks like a secrets file and would be tracked by git (strict mode)",
        ]
    );
    assert_eq!(r.warnings.len(), 1);
    let lax = run_check(&st, false);
    assert_eq!(lax.problems.len(), 3);
    let (lines, ok) = check_report(&r);
    assert!(!ok);
    assert_eq!(lines[0], "\u{26a0} Security issues found:");
    assert_eq!(lines.last().unwrap(), "Run `envlock init` to fix missing .gitignore entries.");
}

#[test]
fn doctor_healthy_and_unhealthy() {
    let good = DoctorFacts {
        git_repo: true,
        identity_file: true,
        identity_mode: Some(0o600),
        recipients: Some("age1a\n\nage1b\n".to_string()),
        state: state(Some(".env\n.envlock/identity.txt\n"), &[], &[], Some("envlock check")),
    };
    let (lines, ok) = doctor_report(&good);
    assert!(ok);
    assert!(lines.contains(&"\u{2713} Recipients file exists (2 recipient(s))".to_string()));
    assert!(lines.contains(&"  \u{2713} Identity file permissions are 0600".to_string()));

    let bad = DoctorFacts {
        git_repo: false,
        identity_file: true,
        identity_mode: Some(0o644),
        recipients: None,
        state: state(Some(".env\n"), &[], &[], None),
    };
    let (lines, ok) = doctor_report(&bad);
    assert!(!ok);
    assert!(lines.contains(&"  \u{26a0} Identity file permissions are 644, should be 0600".to_string()));
    assert!(lines.contains(&"\u{2717} .gitignore is missing entries: .envlock/identity.txt".to_string()));
    assert_eq!(lines.last().unwrap(), "  Start with: `envlock init`");
}

#[test]
fn missing_hook_alone_fails_check() {
    let st = state(Some(".env\n.envlock/identity.txt\n"), &[], &[], Some("#!/bin/sh\nmake lint\n"));
    let r = run_check(&st, false);
    assert!(r.problems.is_empty());
    assert_eq!(
        r.warnings,
        vec!["\u{2298} Pre-commit hook is not installed. Run `envlock hook install` to block insecure commits."]
    );
    let (lines, ok) = check_report(&r);
    assert!(!ok);
    assert_eq!(lines[0], "  \u{2298} Pre-commit hook is not installed. Run `envlock hook install` to block insecure commits.");
}

#[test]
fn healthy_doctor_setup_passes_check() {
    let facts = DoctorFacts {
        git_repo: true,
        identity_file: true,
        identity_mode: None,
        recipients: Some("age1a\n".to_string()),
        state: state(Some("# mine\n.env\n.envlock/identity.txt\n"), &["README.md"], &[], Some("envlock check\n")),
    };
    let (_, healthy) = doctor_report(&facts);
    assert!(healthy);
    let (_, passed) = check_report(&run_check(&facts.state, false));
    assert!(passed);
}

#[test]
fn tracked_unless_git_reports_ignored() {
    assert!(tracked_by_git(true, Some(false)));
    assert!(!tracked_by_git(true, Some(true)));
    assert!(!tracked_by_git(true, None));
    assert!(!tracked_by_git(false, Some(false)));
}
