//! `envlock check`: whether secrets could be committed, decided from what the
//! project holds (the `.gitignore`, which files git would track, the hook).

use vstd::prelude::*;
use crate::gitignore::{missing_entries, spec_missing_entries};
use crate::commands::hook::spec_check_command;
use crate::text::{contains_str, has_sub, push_line, str_eq, views};

verus! {

/// The files whose tracking by git is always a problem.
pub open spec fn spec_sensitive_files() -> Seq<Seq<char>> {
    seq![".env"@, ".envlock/identity.txt"@, ".env.edit.tmp"@]
}

/// Further names that look like secrets files, checked in strict mode.
pub open spec fn spec_secret_file_patterns() -> Seq<Seq<char>> {
    seq![".env.local"@, ".env.production"@, ".env.staging"@, ".env.development"@]
}

/// The members of `cands` that occur in `pool`, in the order of `cands`.
pub open spec fn select(cands: Seq<Seq<char>>, pool: Seq<Seq<char>>) -> Seq<Seq<char>>
    decreases cands.len(),
{
    if cands.len() == 0 {
        seq![]
    } else {
        select(cands.drop_last(), pool) + if pool.contains(cands.last()) {
            seq![cands.last()]
        } else {
            Seq::<Seq<char>>::empty()
        }
    }
}

/// Each item framed by `pre` and `post`.
pub open spec fn framed(items: Seq<Seq<char>>, pre: Seq<char>, post: Seq<char>) -> Seq<Seq<char>> {
    items.map_values(|e: Seq<char>| pre + e + post)
}

/// What envlock observed of a project.
pub struct ProjectState {
    /// The `.gitignore` content, if the file exists.
    pub gitignore: Option<String>,
    /// The files, among those that `tracking_candidates` lists, that exist
    /// and that git would not ignore.
    pub committable: Vec<String>,
    /// The files, among the secret-file patterns, that exist.
    pub present: Vec<String>,
    /// The pre-commit hook's content, if it exists and is readable.
    pub hook: Option<String>,
    /// Whether `.env.vault` exists.
    pub vault_exists: bool,
    /// Whether `.envlock/` exists.
    pub envlock_dir_exists: bool,
}

/// Whether git would commit a file, decided from whether the file exists
/// and whether `git check-ignore --quiet` on it succeeded (`None` when git
/// could not be run). A file that exists counts as tracked unless git ran and
/// reported it ignored; without git it counts as not tracked.
pub fn tracked_by_git(exists: bool, check_ignore_succeeded: Option<bool>) -> (res: bool)
    ensures
        res == (exists && check_ignore_succeeded == Some(false)),
{
    exists && match check_ignore_succeeded {
        Some(ignored) => !ignored,
        None => false,
    }
}

/// The findings of a check.
pub struct CheckResult {
    pub problems: Vec<String>,
    pub warnings: Vec<String>,
    pub vault_exists: bool,
    pub envlock_dir_exists: bool,
    pub gitignore_ok: bool,
    pub hook_installed: bool,
}

/// The `.gitignore` content that a project state holds (empty without one).
pub open spec fn gitignore_of(st: ProjectState) -> Seq<char> {
    match st.gitignore {
        Some(g) => g@,
        None => Seq::<char>::empty(),
    }
}

/// Whether the hook in a project state runs `envlock check`.
pub open spec fn hook_installed_in(st: ProjectState) -> bool {
    match st.hook {
        Some(h) => has_sub(h@, spec_check_command()),
        None => false,
    }
}

/// The problems a check reports.
pub open spec fn spec_problems(st: ProjectState, strict: bool) -> Seq<Seq<char>> {
    framed(spec_missing_entries(gitignore_of(st)), "\u{2717} '"@,
        "' is missing from .gitignore \u{2014} could be accidentally committed"@)
    + framed(select(spec_sensitive_files(), views(st.committable@)), "\u{2717} '"@,
        "' exists and would be tracked by git \u{2014} add it to .gitignore immediately"@)
    + if strict {
        framed(select(select(spec_secret_file_patterns(), views(st.present@)), views(st.committable@)),
            "\u{2717} '"@, "' looks like a secrets file and would be tracked by git (strict mode)"@)
    } else {
        Seq::<Seq<char>>::empty()
    }
}

/// The warning shown when the pre-commit hook is missing.
pub open spec fn spec_hook_warning() -> Seq<char> {
    "\u{2298} Pre-commit hook is not installed. Run `envlock hook install` to block insecure commits."@
}

/// The warnings a check reports: the missing hook, if it is missing.
pub open spec fn spec_warnings(st: ProjectState) -> Seq<Seq<char>> {
    if hook_installed_in(st) {
        Seq::<Seq<char>>::empty()
    } else {
        seq![spec_hook_warning()]
    }
}

fn strings_of(lits: &Vec<&str>) -> (res: Vec<String>)
    ensures
        views(res@) == lits@.map_values(|s: &str| s@),
{
    let mut out: Vec<String> = Vec::new();
    for i in 0..lits.len()
        invariant
            views(out@) == lits@.take(i as int).map_values(|s: &str| s@),
    {
        let ghost before = out@;
        out.push(String::from_str(lits[i]));
        assert(views(out@) =~= views(before).push(lits@[i as int]@));
        assert(lits@.take(i + 1) =~= lits@.take(i as int).push(lits@[i as int]));
        assert(views(out@) =~= lits@.take(i + 1).map_values(|s: &str| s@));
    }
    assert(lits@.take(lits@.len() as int) =~= lits@);
    out
}

/// The files whose tracking is always a problem.
pub fn sensitive_files() -> (res: Vec<String>)
    ensures
        views(res@) == spec_sensitive_files(),
{
    let v: Vec<&str> = vec![".env", ".envlock/identity.txt", ".env.edit.tmp"];
    let r = strings_of(&v);
    assert(v@.map_values(|s: &str| s@) =~= spec_sensitive_files());
    r
}

/// The secret-file names that strict mode looks for.
pub fn secret_file_patterns() -> (res: Vec<String>)
    ensures
        views(res@) == spec_secret_file_patterns(),
{
    let v: Vec<&str> = vec![".env.local", ".env.production", ".env.staging", ".env.development"];
    let r = strings_of(&v);
    assert(v@.map_values(|s: &str| s@) =~= spec_secret_file_patterns());
    r
}

/// The files whose tracking by git a check needs to know: the sensitive
/// files, then the secret-file patterns.
pub fn tracking_candidates() -> (res: Vec<String>)
    ensures
        views(res@) == spec_sensitive_files() + spec_secret_file_patterns(),
{
    let mut a = sensitive_files();
    let mut b = secret_file_patterns();
    a.append(&mut b);
    assert(views(a@) =~= spec_sensitive_files() + spec_secret_file_patterns());
    a
}

/// Whether `pool` holds `s`.
pub fn contains_string(pool: &Vec<String>, s: &str) -> (res: bool)
    ensures
        res == views(pool@).contains(s@),
{
    for i in 0..pool.len()
        invariant
            forall|k: int| 0 <= k < i ==> pool@[k]@ != s@,
    {
        if str_eq(pool[i].as_str(), s) {
            assert(views(pool@)[i as int] == s@);
            return true;
        }
    }
    assert forall|k: int| 0 <= k < views(pool@).len() implies views(pool@)[k] != s@ by {
        assert(views(pool@)[k] == pool@[k]@);
    }
    false
}

/// The members of `cands` that `pool` holds, in the order of `cands`.
pub fn select_in(cands: &Vec<String>, pool: &Vec<String>) -> (res: Vec<String>)
    ensures
        views(res@) == select(views(cands@), views(pool@)),
{
    let ghost cs = views(cands@);
    let mut out: Vec<String> = Vec::new();
    assert(cs.take(0) =~= Seq::<Seq<char>>::empty());
    for i in 0..cands.len()
        invariant
            cs == views(cands@),
            views(out@) == select(cs.take(i as int), views(pool@)),
    {
        assert(cs.take(i + 1).drop_last() =~= cs.take(i as int));
        assert(cs.take(i + 1).last() == cands@[i as int]@);
        let ghost before = out@;
        if contains_string(pool, cands[i].as_str()) {
            out.push(cands[i].clone());
            assert(views(out@) =~= views(before).push(cands@[i as int]@));
        }
    }
    assert(cs.take(cs.len() as int) =~= cs);
    out
}

/// Each of `items` framed by `pre` and `post`.
pub fn frame_all(items: &Vec<String>, pre: &str, post: &str) -> (res: Vec<String>)
    ensures
        views(res@) == framed(views(items@), pre@, post@),
{
    let mut out: Vec<String> = Vec::new();
    for i in 0..items.len()
        invariant
            views(out@) == framed(views(items@).take(i as int), pre@, post@),
    {
        let mut s = String::from_str(pre);
        s.append(items[i].as_str());
        s.append(post);
        let ghost before = out@;
        out.push(s);
        assert(views(out@) =~= views(before).push(pre@ + items@[i as int]@ + post@));
        assert(views(items@).take(i + 1) =~= views(items@).take(i as int).push(items@[i as int]@));
        assert(views(out@) =~= framed(views(items@).take(i + 1), pre@, post@));
    }
    assert(views(items@).take(items@.len() as int) =~= views(items@));
    out
}

/// The secret-file patterns that are present in the project, in pattern
/// order.
pub fn scan_for_secret_files(present: &Vec<String>) -> (res: Vec<String>)
    ensures
        views(res@) == select(spec_secret_file_patterns(), views(present@)),
{
    let pats = secret_file_patterns();
    select_in(&pats, present)
}

/// The findings of `envlock check` for a project: problems (entries missing
/// from `.gitignore`, sensitive files git would track, and in strict mode
/// tracked secret-shaped files), the warning for a missing hook, and the
/// status of the project's files.
pub fn run_check(state: &ProjectState, strict: bool) -> (res: CheckResult)
    ensures
        views(res.problems@) == spec_problems(*state, strict),
        views(res.warnings@) == spec_warnings(*state),
        res.hook_installed == hook_installed_in(*state),
        res.gitignore_ok == (spec_missing_entries(gitignore_of(*state)).len() == 0),
        res.vault_exists == state.vault_exists,
        res.envlock_dir_exists == state.envlock_dir_exists,
{
    let g = match &state.gitignore {
        Some(g) => g.clone(),
        None => String::new(),
    };
    let missing = missing_entries(g.as_str());
    assert(views(missing@) =~= spec_missing_entries(gitignore_of(*state)));
    let mut problems = frame_all(&missing, "\u{2717} '",
        "' is missing from .gitignore \u{2014} could be accidentally committed");
    let sens = sensitive_files();
    let visible_sens = select_in(&sens, &state.committable);
    let mut p2 = frame_all(&visible_sens, "\u{2717} '",
        "' exists and would be tracked by git \u{2014} add it to .gitignore immediately");
    let ghost v1 = views(problems@);
    let ghost v2 = views(p2@);
    problems.append(&mut p2);
    assert(views(problems@) =~= v1 + v2);
    if strict {
        let extra = scan_for_secret_files(&state.present);
        let visible_extra = select_in(&extra, &state.committable);
        let mut p3 = frame_all(&visible_extra, "\u{2717} '",
            "' looks like a secrets file and would be tracked by git (strict mode)");
        let ghost v12 = views(problems@);
        let ghost v3 = views(p3@);
        problems.append(&mut p3);
        assert(views(problems@) =~= v12 + v3);
    } else {
        assert(views(problems@) =~= v1 + v2 + Seq::<Seq<char>>::empty());
    }
    let hook_installed = match &state.hook {
        Some(h) => contains_str(h.as_str(), "envlock check"),
        None => false,
    };
    let mut warnings: Vec<String> = Vec::new();
    if !hook_installed {
        warnings.push(String::from_str(
            "\u{2298} Pre-commit hook is not installed. Run `envlock hook install` to block insecure commits.",
        ));
        assert(views(warnings@) =~= seq![spec_hook_warning()]);
    } else {
        assert(views(warnings@) =~= Seq::<Seq<char>>::empty());
    }
    CheckResult {
        problems,
        warnings,
        vault_exists: state.vault_exists,
        envlock_dir_exists: state.envlock_dir_exists,
        gitignore_ok: missing.len() == 0,
        hook_installed,
    }
}


/// The line for a passed check item, when it holds.
pub open spec fn ok_line(holds: bool, line: Seq<char>) -> Seq<Seq<char>> {
    if holds {
        seq![line]
    } else {
        Seq::<Seq<char>>::empty()
    }
}

/// What `envlock check` prints for its findings, and whether it passes.
pub open spec fn spec_check_report(r: CheckResult) -> (Seq<Seq<char>>, bool) {
    if r.problems@.len() == 0 && r.warnings@.len() == 0 {
        (seq!["\u{2713} All checks passed \u{2014} secrets are protected."@]
            + ok_line(r.vault_exists, "  \u{2713} .env.vault exists (safe to commit)"@)
            + ok_line(r.envlock_dir_exists, "  \u{2713} .envlock/ directory exists"@)
            + ok_line(r.gitignore_ok, "  \u{2713} .gitignore is up to date"@)
            + ok_line(r.hook_installed, "  \u{2713} pre-commit hook is installed"@), true)
    } else {
        ((if r.problems@.len() > 0 {
            seq!["\u{26a0} Security issues found:"@] + framed(views(r.problems@), "  "@, ""@)
        } else {
            Seq::<Seq<char>>::empty()
        }) + framed(views(r.warnings@), "  "@, ""@) + seq![""@,
            "Run `envlock init` to fix missing .gitignore entries."@], false)
    }
}

pub fn push_if(out: &mut Vec<String>, holds: bool, line: &str)
    ensures
        views(final(out)@) == views(old(out)@) + ok_line(holds, line@),
{
    let ghost before = out@;
    if holds {
        push_line(out, line);
        assert(views(out@) =~= views(before) + ok_line(holds, line@));
    } else {
        assert(views(out@) =~= views(before) + ok_line(holds, line@));
    }
}

pub fn append_all(out: &mut Vec<String>, more: Vec<String>)
    ensures
        views(final(out)@) == views(old(out)@) + views(more@),
{
    let mut more = more;
    let ghost a = views(out@);
    let ghost b = views(more@);
    out.append(&mut more);
    assert(views(out@) =~= a + b);
}

/// The lines that `envlock check` prints for `result`, and whether the
/// check passes (it fails whenever there is a problem or a warning).
pub fn check_report(result: &CheckResult) -> (res: (Vec<String>, bool))
    ensures
        (views(res.0@), res.1) == spec_check_report(*result),
{
    let mut out: Vec<String> = Vec::new();
    if result.problems.len() == 0 && result.warnings.len() == 0 {
        push_line(&mut out, "\u{2713} All checks passed \u{2014} secrets are protected.");
        assert(views(out@) =~= seq!["\u{2713} All checks passed \u{2014} secrets are protected."@]);
        push_if(&mut out, result.vault_exists, "  \u{2713} .env.vault exists (safe to commit)");
        push_if(&mut out, result.envlock_dir_exists, "  \u{2713} .envlock/ directory exists");
        push_if(&mut out, result.gitignore_ok, "  \u{2713} .gitignore is up to date");
        push_if(&mut out, result.hook_installed, "  \u{2713} pre-commit hook is installed");
        (out, true)
    } else {
        if result.problems.len() > 0 {
            push_line(&mut out, "\u{26a0} Security issues found:");
            assert(views(out@) =~= seq!["\u{26a0} Security issues found:"@]);
            append_all(&mut out, frame_all(&result.problems, "  ", ""));
        } else {
            assert(views(out@) =~= Seq::<Seq<char>>::empty());
        }
        append_all(&mut out, frame_all(&result.warnings, "  ", ""));
        let ghost before = views(out@);
        push_line(&mut out, "");
        push_line(&mut out, "Run `envlock init` to fix missing .gitignore entries.");
        assert(views(out@) =~= before + seq![""@,
            "Run `envlock init` to fix missing .gitignore entries."@]);
        (out, false)
    }
}

/// `envlock check` (and so the pre-commit hook) passes exactly when nothing
/// could be committed by mistake and the hook is installed: a single problem
/// or a missing hook makes it fail.
pub proof fn check_passes_iff_protected(st: ProjectState, strict: bool, r: CheckResult)
    requires
        views(r.problems@) == spec_problems(st, strict),
        views(r.warnings@) == spec_warnings(st),
    ensures
        spec_check_report(r).1 <==> (spec_problems(st, strict).len() == 0 && hook_installed_in(st)),
{
    assert(views(r.problems@).len() == r.problems@.len());
    assert(views(r.warnings@).len() == r.warnings@.len());
}

/// The problem that strict mode reports for the secret-shaped file `f`.
pub open spec fn strict_problem(f: Seq<char>) -> Seq<char> {
    "\u{2717} '"@ + f + "' looks like a secrets file and would be tracked by git (strict mode)"@
}

/// The members of `select(cands, pool)` are exactly the candidates that
/// occur in the pool.
proof fn lemma_select_members(cands: Seq<Seq<char>>, pool: Seq<Seq<char>>, x: Seq<char>)
    ensures
        select(cands, pool).contains(x) <==> (cands.contains(x) && pool.contains(x)),
    decreases cands.len(),
{
    if cands.len() > 0 {
        let front = cands.drop_last();
        let c = cands.last();
        lemma_select_members(front, pool, x);
        let sf = select(front, pool);
        let tail = if pool.contains(c) { seq![c] } else { Seq::<Seq<char>>::empty() };
        let s = select(cands, pool);
        assert(s == sf + tail);
        if s.contains(x) {
            let i = choose|i: int| 0 <= i < s.len() && s[i] == x;
            if i < sf.len() {
                assert(sf[i] == x);
                let j = choose|j: int| 0 <= j < front.len() && front[j] == x;
                assert(cands[j] == x);
            } else {
                assert(tail[i - sf.len()] == x);
                assert(cands[cands.len() - 1] == x);
            }
        }
        if cands.contains(x) && pool.contains(x) {
            let j = choose|j: int| 0 <= j < cands.len() && cands[j] == x;
            if j < front.len() {
                assert(front[j] == x);
                let i = choose|i: int| 0 <= i < sf.len() && sf[i] == x;
                assert(s[i] == x);
            } else {
                assert(s[sf.len() as int] == x);
            }
        }
    }
}

/// A line of `framed(items, pre, post)` with a non-empty `post` ends as
/// `post` does.
proof fn lemma_framed_last(items: Seq<Seq<char>>, pre: Seq<char>, post: Seq<char>, i: int)
    requires
        0 <= i < items.len(),
        post.len() > 0,
    ensures
        framed(items, pre, post)[i].len() > 0,
        framed(items, pre, post)[i].last() == post.last(),
{
    let l = framed(items, pre, post)[i];
    assert(l == pre + items[i] + post);
    assert(l[l.len() - 1] == post[post.len() - 1]);
}

/// Strict mode reports a secret-shaped file exactly when the file is one of
/// the secret-file patterns, exists, and would be committed by git: a file
/// that git ignores is never reported, and without strict mode no such
/// problem is reported at all.
pub proof fn strict_problems_name_committable_files(st: ProjectState, strict: bool, f: Seq<char>)
    ensures
        spec_problems(st, strict).contains(strict_problem(f)) <==> (strict
            && spec_secret_file_patterns().contains(f) && views(st.present@).contains(f) && views(
            st.committable@,
        ).contains(f)),
{
    let pre = "\u{2717} '"@;
    let post1 = "' is missing from .gitignore \u{2014} could be accidentally committed"@;
    let post2 = "' exists and would be tracked by git \u{2014} add it to .gitignore immediately"@;
    let post3 = "' looks like a secrets file and would be tracked by git (strict mode)"@;
    reveal_strlit("\u{2717} '");
    reveal_strlit("' is missing from .gitignore \u{2014} could be accidentally committed");
    reveal_strlit("' exists and would be tracked by git \u{2014} add it to .gitignore immediately");
    reveal_strlit("' looks like a secrets file and would be tracked by git (strict mode)");
    let a1 = spec_missing_entries(gitignore_of(st));
    let a2 = select(spec_sensitive_files(), views(st.committable@));
    let a3 = select(select(spec_secret_file_patterns(), views(st.present@)), views(st.committable@));
    let p1 = framed(a1, pre, post1);
    let p2 = framed(a2, pre, post2);
    let p3 = if strict { framed(a3, pre, post3) } else { Seq::<Seq<char>>::empty() };
    let ps = spec_problems(st, strict);
    let target = strict_problem(f);
    assert(ps == p1 + p2 + p3);
    assert(target.last() == ')') by {
        assert(target[target.len() - 1] == post3[post3.len() - 1]);
    }
    lemma_select_members(spec_secret_file_patterns(), views(st.present@), f);
    lemma_select_members(select(spec_secret_file_patterns(), views(st.present@)), views(st.committable@), f);
    if ps.contains(target) {
        let i = choose|i: int| 0 <= i < ps.len() && ps[i] == target;
        if i < p1.len() {
            lemma_framed_last(a1, pre, post1, i);
            assert(ps[i] == p1[i]);
        } else if i < p1.len() + p2.len() {
            lemma_framed_last(a2, pre, post2, i - p1.len());
            assert(ps[i] == p2[i - p1.len()]);
        } else {
            let k = i - p1.len() - p2.len();
            assert(ps[i] == p3[k]);
            assert(strict);
            let g = a3[k];
            assert(p3[k] == pre + g + post3);
            assert(g.len() == f.len());
            assert(g =~= f) by {
                assert forall|q: int| 0 <= q < g.len() implies g[q] == f[q] by {
                    assert((pre + g + post3)[pre.len() + q] == g[q]);
                    assert(target[pre.len() + q] == f[q]);
                }
            }
            assert(a3.contains(f));
        }
    }
    if strict && spec_secret_file_patterns().contains(f) && views(st.present@).contains(f) && views(
        st.committable@,
    ).contains(f) {
        assert(a3.contains(f));
        let k = choose|k: int| 0 <= k < a3.len() && a3[k] == f;
        assert(p3[k] == target);
        assert(ps[p1.len() + p2.len() + k] == target);
    }
}

/// The problem that a committable sensitive file `f` is reported with.
pub open spec fn tracked_problem(f: Seq<char>) -> Seq<char> {
    "\u{2717} '"@ + f + "' exists and would be tracked by git \u{2014} add it to .gitignore immediately"@
}

/// A sensitive file (`.env`, the identity file, the edit temp file) is
/// reported as trackable exactly when git would commit it, in either mode.
pub proof fn tracked_problems_name_committable_files(st: ProjectState, strict: bool, f: Seq<char>)
    ensures
        spec_problems(st, strict).contains(tracked_problem(f)) <==> (spec_sensitive_files().contains(f)
            && views(st.committable@).contains(f)),
{
    let pre = "\u{2717} '"@;
    let post1 = "' is missing from .gitignore \u{2014} could be accidentally committed"@;
    let post2 = "' exists and would be tracked by git \u{2014} add it to .gitignore immediately"@;
    let post3 = "' looks like a secrets file and would be tracked by git (strict mode)"@;
    reveal_strlit("\u{2717} '");
    reveal_strlit("' is missing from .gitignore \u{2014} could be accidentally committed");
    reveal_strlit("' exists and would be tracked by git \u{2014} add it to .gitignore immediately");
    reveal_strlit("' looks like a secrets file and would be tracked by git (strict mode)");
    let a1 = spec_missing_entries(gitignore_of(st));
    let a2 = select(spec_sensitive_files(), views(st.committable@));
    let a3 = select(select(spec_secret_file_patterns(), views(st.present@)), views(st.committable@));
    let p1 = framed(a1, pre, post1);
    let p2 = framed(a2, pre, post2);
    let p3 = if strict { framed(a3, pre, post3) } else { Seq::<Seq<char>>::empty() };
    let ps = spec_problems(st, strict);
    let target = tracked_problem(f);
    assert(ps == p1 + p2 + p3);
    assert(target.last() == 'y') by {
        assert(target[target.len() - 1] == post2[post2.len() - 1]);
    }
    lemma_select_members(spec_sensitive_files(), views(st.committable@), f);
    if ps.contains(target) {
        let i = choose|i: int| 0 <= i < ps.len() && ps[i] == target;
        if i < p1.len() {
            lemma_framed_last(a1, pre, post1, i);
            assert(ps[i] == p1[i]);
        } else if i < p1.len() + p2.len() {
            let k = i - p1.len();
            assert(ps[i] == p2[k]);
            let g = a2[k];
            assert(p2[k] == pre + g + post2);
            assert(g.len() == f.len());
            assert(g =~= f) by {
                assert forall|q: int| 0 <= q < g.len() implies g[q] == f[q] by {
                    assert((pre + g + post2)[pre.len() + q] == g[q]);
                    assert(target[pre.len() + q] == f[q]);
                }
            }
            assert(a2.contains(f));
        } else {
            let k = i - p1.len() - p2.len();
            assert(strict);
            lemma_framed_last(a3, pre, post3, k);
            assert(ps[i] == p3[k]);
        }
    }
    if spec_sensitive_files().contains(f) && views(st.committable@).contains(f) {
        let k = choose|k: int| 0 <= k < a2.len() && a2[k] == f;
        assert(p2[k] == target);
        assert(ps[p1.len() + k] == target);
    }
}

} // verus!
