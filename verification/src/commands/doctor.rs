//! `envlock doctor`: a full diagnosis of a project's setup, decided from what
//! was observed of it.

use vstd::prelude::*;
use crate::commands::check::{
    check_passes_iff_protected, spec_check_report, spec_warnings, CheckResult, framed, hook_installed_in, gitignore_of, ok_line, run_check, spec_problems,
    ProjectState, frame_all,
};
use crate::config::{read_recipients, spec_recipients_of};
use crate::gitignore::{missing_entries, spec_missing_entries};
use crate::text::{
    decimal, join_strings, join_with, octal, push_line, u32_to_octal, usize_to_decimal, views,
};

verus! {

/// What envlock observed of a project for `doctor`.
pub struct DoctorFacts {
    /// Whether `.git/` exists.
    pub git_repo: bool,
    /// Whether `.envlock/identity.txt` exists.
    pub identity_file: bool,
    /// The identity file's permission bits, where the platform has them.
    pub identity_mode: Option<u32>,
    /// The recipients file's content, if it exists (empty when unreadable).
    pub recipients: Option<String>,
    /// The rest of what was observed, as for `check`.
    pub state: ProjectState,
}

/// `line` when `cond` holds, else `other`.
pub open spec fn pick(cond: bool, line: Seq<char>, other: Seq<char>) -> Seq<Seq<char>> {
    if cond {
        seq![line]
    } else {
        seq![other]
    }
}

/// The lines about the identity file.
pub open spec fn identity_lines(f: DoctorFacts) -> Seq<Seq<char>> {
    if f.identity_file {
        seq!["\u{2713} Identity file exists (.envlock/identity.txt)"@] + match f.identity_mode {
            Some(m) => if m == 0o600 {
                seq!["  \u{2713} Identity file permissions are 0600"@]
            } else {
                seq!["  \u{26a0} Identity file permissions are "@ + octal(m as nat) + ", should be 0600"@]
            },
            None => Seq::<Seq<char>>::empty(),
        }
    } else {
        ok_line(f.state.envlock_dir_exists, "\u{2717} No identity file \u{2014} run `envlock init` to generate one"@)
    }
}

/// The lines about the recipients file.
pub open spec fn recipients_lines(f: DoctorFacts) -> Seq<Seq<char>> {
    match f.recipients {
        Some(c) => seq!["\u{2713} Recipients file exists ("@ + decimal(spec_recipients_of(c@).len())
            + " recipient(s))"@],
        None => ok_line(f.state.envlock_dir_exists, "\u{2717} No recipients file \u{2014} run `envlock init` to create one"@),
    }
}

/// The lines about `.gitignore`.
pub open spec fn gitignore_lines(f: DoctorFacts) -> Seq<Seq<char>> {
    let missing = spec_missing_entries(gitignore_of(f.state));
    pick(missing.len() == 0, "\u{2713} .gitignore covers all sensitive files"@,
        "\u{2717} .gitignore is missing entries: "@ + join_with(missing, ", "@))
}

/// The lines about the pre-commit hook.
pub open spec fn hook_lines(f: DoctorFacts) -> Seq<Seq<char>> {
    if hook_installed_in(f.state) {
        seq!["\u{2713} Pre-commit hook is installed"@]
    } else {
        seq!["\u{2717} Pre-commit hook is NOT installed \u{2014} secrets could be committed accidentally"@,
            "  \u{2192} Run `envlock hook install` (or `envlock init` which installs it by default)"@]
    }
}

/// The lines about the problems that `check` finds.
pub open spec fn problem_lines(f: DoctorFacts) -> Seq<Seq<char>> {
    let ps = spec_problems(f.state, false);
    if ps.len() > 0 {
        seq![""@, "\u{26a0} Active security issues:"@] + framed(ps, "  "@, ""@)
    } else {
        Seq::<Seq<char>>::empty()
    }
}

/// Whether the doctor finds the setup healthy.
pub open spec fn spec_healthy(f: DoctorFacts) -> bool {
    &&& f.git_repo
    &&& f.state.envlock_dir_exists
    &&& (f.identity_file || !f.state.envlock_dir_exists)
    &&& (f.recipients is Some || !f.state.envlock_dir_exists)
    &&& spec_missing_entries(gitignore_of(f.state)).len() == 0
    &&& hook_installed_in(f.state)
    &&& spec_problems(f.state, false).len() == 0
}

/// What `envlock doctor` prints, and whether the setup is healthy.
pub open spec fn spec_doctor_report(f: DoctorFacts) -> (Seq<Seq<char>>, bool) {
    (seq!["envlock doctor \u{2014} checking your setup..."@, ""@]
        + pick(f.git_repo, "\u{2713} Git repository detected"@,
            "\u{2717} No git repository found \u{2014} envlock requires git"@)
        + pick(f.state.envlock_dir_exists, "\u{2713} .envlock/ directory exists"@,
            "\u{2717} No .envlock/ directory \u{2014} run `envlock init` first"@)
        + identity_lines(f)
        + recipients_lines(f)
        + gitignore_lines(f)
        + pick(f.state.vault_exists, "\u{2713} .env.vault exists (safe to commit)"@,
            "  \u{2139} No .env.vault yet \u{2014} run `envlock encrypt` after adding secrets to .env"@)
        + hook_lines(f)
        + problem_lines(f)
        + seq![""@]
        + if spec_healthy(f) {
            seq!["\u{2713} All checks passed \u{2014} your envlock setup is healthy."@,
                "  You're ready to use `envlock edit`, `envlock run`, or `envlock encrypt`."@]
        } else {
            seq!["\u{26a0} Issues found \u{2014} fix them before working with secrets."@,
                "  Start with: `envlock init`"@]
        }, spec_healthy(f))
}

fn push_pick(out: &mut Vec<String>, cond: bool, line: &str, other: &str)
    ensures
        views(final(out)@) == views(old(out)@) + pick(cond, line@, other@),
{
    let ghost before = views(out@);
    if cond {
        push_line(out, line);
    } else {
        push_line(out, other);
    }
    assert(views(out@) =~= before + pick(cond, line@, other@));
}

fn push_owned(out: &mut Vec<String>, line: String)
    ensures
        views(final(out)@) == views(old(out)@).push(line@),
{
    let ghost before = views(out@);
    out.push(line);
    assert(views(out@) =~= before.push(line@));
}

/// The number of recipients that a recipients file lists.
pub fn count_recipients(content: &str) -> (res: usize)
    ensures
        res == spec_recipients_of(content@).len(),
{
    match read_recipients("", Some(content)) {
        Ok(rs) => rs.len(),
        Err(_) => 0,
    }
}

fn push_identity_lines(out: &mut Vec<String>, f: &DoctorFacts)
    ensures
        views(final(out)@) == views(old(out)@) + identity_lines(*f),
{
    let ghost a1 = views(out@);
    if f.identity_file {
        push_line(out, "\u{2713} Identity file exists (.envlock/identity.txt)");
        match f.identity_mode {
            Some(m) => {
                if m == 0o600 {
                    push_line(out, "  \u{2713} Identity file permissions are 0600");
                } else {
                    let mut s = String::from_str("  \u{26a0} Identity file permissions are ");
                    let o = u32_to_octal(m);
                    s.append(o.as_str());
                    s.append(", should be 0600");
                    push_owned(out, s);
                }
            },
            None => {},
        }
    } else {
        crate::commands::check::push_if(out, f.state.envlock_dir_exists,
            "\u{2717} No identity file \u{2014} run `envlock init` to generate one");
    }
    assert(views(out@) =~= a1 + identity_lines(*f));
}

fn push_recipients_lines(out: &mut Vec<String>, f: &DoctorFacts)
    ensures
        views(final(out)@) == views(old(out)@) + recipients_lines(*f),
{
    let ghost a2 = views(out@);
    match &f.recipients {
        Some(c) => {
            let mut s = String::from_str("\u{2713} Recipients file exists (");
            let n = count_recipients(c.as_str());
            let d = usize_to_decimal(n);
            s.append(d.as_str());
            s.append(" recipient(s))");
            push_owned(out, s);
        },
        None => {
            crate::commands::check::push_if(out, f.state.envlock_dir_exists,
                "\u{2717} No recipients file \u{2014} run `envlock init` to create one");
        },
    }
    assert(views(out@) =~= a2 + recipients_lines(*f));
}

fn push_gitignore_lines(out: &mut Vec<String>, f: &DoctorFacts) -> (ok: bool)
    ensures
        views(final(out)@) == views(old(out)@) + gitignore_lines(*f),
        ok == (spec_missing_entries(gitignore_of(f.state)).len() == 0),
{
    let g = match &f.state.gitignore {
        Some(g) => g.clone(),
        None => String::new(),
    };
    let missing = missing_entries(g.as_str());
    assert(views(missing@) =~= spec_missing_entries(gitignore_of(f.state)));
    let ghost a3 = views(out@);
    if missing.len() == 0 {
        push_line(out, "\u{2713} .gitignore covers all sensitive files");
    } else {
        let mut s = String::from_str("\u{2717} .gitignore is missing entries: ");
        let j = join_strings(&missing, ", ");
        s.append(j.as_str());
        push_owned(out, s);
    }
    assert(views(out@) =~= a3 + gitignore_lines(*f));
    missing.len() == 0
}

fn push_check_lines(out: &mut Vec<String>, f: &DoctorFacts) -> (ok: bool)
    ensures
        views(final(out)@) == views(old(out)@) + hook_lines(*f) + problem_lines(*f),
        ok == (hook_installed_in(f.state) && spec_problems(f.state, false).len() == 0),
{
    let result = run_check(&f.state, false);
    let ghost a4 = views(out@);
    if result.hook_installed {
        push_line(out, "\u{2713} Pre-commit hook is installed");
    } else {
        push_line(out,
            "\u{2717} Pre-commit hook is NOT installed \u{2014} secrets could be committed accidentally");
        push_line(out,
            "  \u{2192} Run `envlock hook install` (or `envlock init` which installs it by default)");
    }
    assert(views(out@) =~= a4 + hook_lines(*f));
    let ghost a5 = views(out@);
    if result.problems.len() > 0 {
        push_line(out, "");
        push_line(out, "\u{26a0} Active security issues:");
        assert(views(out@) =~= a5 + seq![""@, "\u{26a0} Active security issues:"@]);
        crate::commands::check::append_all(out, frame_all(&result.problems, "  ", ""));
    }
    assert(views(out@) =~= a5 + problem_lines(*f));
    result.hook_installed && result.problems.len() == 0
}

/// The lines that `envlock doctor` prints for what it observed, and whether
/// the setup is healthy.
pub fn doctor_report(facts: &DoctorFacts) -> (res: (Vec<String>, bool))
    ensures
        (views(res.0@), res.1) == spec_doctor_report(*facts),
{
    let f = facts;
    let dir = f.state.envlock_dir_exists;
    let mut out: Vec<String> = Vec::new();
    push_line(&mut out, "envlock doctor \u{2014} checking your setup...");
    push_line(&mut out, "");
    assert(views(out@) =~= seq!["envlock doctor \u{2014} checking your setup..."@, ""@]);
    push_pick(&mut out, f.git_repo, "\u{2713} Git repository detected",
        "\u{2717} No git repository found \u{2014} envlock requires git");
    push_pick(&mut out, dir, "\u{2713} .envlock/ directory exists",
        "\u{2717} No .envlock/ directory \u{2014} run `envlock init` first");
    push_identity_lines(&mut out, f);
    push_recipients_lines(&mut out, f);
    let gi_ok = push_gitignore_lines(&mut out, f);
    push_pick(&mut out, f.state.vault_exists, "\u{2713} .env.vault exists (safe to commit)",
        "  \u{2139} No .env.vault yet \u{2014} run `envlock encrypt` after adding secrets to .env");
    let check_ok = push_check_lines(&mut out, f);
    let healthy = f.git_repo && dir && (f.identity_file || !dir) && (f.recipients.is_some() || !dir)
        && gi_ok && check_ok;
    let ghost a6 = views(out@);
    push_line(&mut out, "");
    if healthy {
        push_line(&mut out, "\u{2713} All checks passed \u{2014} your envlock setup is healthy.");
        push_line(&mut out,
            "  You're ready to use `envlock edit`, `envlock run`, or `envlock encrypt`.");
    } else {
        push_line(&mut out, "\u{26a0} Issues found \u{2014} fix them before working with secrets.");
        push_line(&mut out, "  Start with: `envlock init`");
    }
    assert(views(out@) =~= spec_doctor_report(*f).0);
    (out, healthy)
}

/// A setup that the doctor finds healthy passes `envlock check`.
pub proof fn healthy_setup_passes_check(f: DoctorFacts, r: CheckResult)
    requires
        spec_healthy(f),
        views(r.problems@) == spec_problems(f.state, false),
        views(r.warnings@) == spec_warnings(f.state),
    ensures
        spec_check_report(r).1,
{
    check_passes_iff_protected(f.state, false, r);
}

/// The doctor finds a setup healthy exactly when the repository is a git
/// repository with a `.envlock/` directory holding both the identity file
/// and the recipients file, `.gitignore` has every protected entry, the
/// pre-commit hook runs `envlock check`, and `check` finds no problem. In
/// particular a `.envlock/` directory without an identity file is reported
/// (`✗ No identity file …`) and the report ends with the issues found.
pub proof fn doctor_healthy_iff_complete_setup(f: DoctorFacts)
    ensures
        spec_doctor_report(f).1 <==> (f.git_repo && f.state.envlock_dir_exists && f.identity_file
            && f.recipients is Some && spec_missing_entries(gitignore_of(f.state)).len() == 0
            && hook_installed_in(f.state) && spec_problems(f.state, false).len() == 0),
        f.state.envlock_dir_exists && !f.identity_file ==> spec_doctor_report(f).0.contains(
            "\u{2717} No identity file \u{2014} run `envlock init` to generate one"@)
            && spec_doctor_report(f).0[spec_doctor_report(f).0.len() - 2]
            == "\u{26a0} Issues found \u{2014} fix them before working with secrets."@,
{
    let r = spec_doctor_report(f).0;
    if f.state.envlock_dir_exists && !f.identity_file {
        let head = seq!["envlock doctor \u{2014} checking your setup..."@, ""@]
            + pick(f.git_repo, "\u{2713} Git repository detected"@,
                "\u{2717} No git repository found \u{2014} envlock requires git"@)
            + pick(f.state.envlock_dir_exists, "\u{2713} .envlock/ directory exists"@,
                "\u{2717} No .envlock/ directory \u{2014} run `envlock init` first"@);
        assert(head.len() == 4);
        let il = identity_lines(f);
        assert(il == seq!["\u{2717} No identity file \u{2014} run `envlock init` to generate one"@]);
        assert(r[4] == il[0]);
    }
}

} // verus!
