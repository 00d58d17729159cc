//! The git pre-commit hook that runs `envlock check`: what installing it
//! writes, and what uninstalling it leaves.

use vstd::prelude::*;
use crate::error::Error;
use crate::text::{
    chars_of, contains_str, ends_with_str, has_sub, is_ws, join_with, lemma_line_sub,
    lemma_lines_append, lemma_lines_push_newline, lemma_lines_single, lemma_nl_index_bound,
    lemma_sub_of_subrange, lemma_sub_of_trim, lemma_trim_end_shape, lemma_trim_end_take,
    lemma_trim_start_skip, lines, nl_index, occurs_at, opt_view, split_lines, str_eq, strip_cr, trim,
    trim_end, trim_str,
};

verus! {

/// The hook that envlock creates when there is none.
pub open spec fn spec_hook_content() -> Seq<char> {
    "#!/bin/sh\n# envlock pre-commit hook \u{2014} prevents committing secrets\nenvlock check\n"@
}

/// What envlock appends to a hook that exists without it.
pub open spec fn spec_hook_addition() -> Seq<char> {
    "\n# envlock pre-commit hook\nenvlock check\n"@
}

/// The command that the hook runs.
pub open spec fn spec_check_command() -> Seq<char> {
    "envlock check"@
}

/// The comment that marks envlock's lines in a hook.
pub open spec fn spec_hook_marker() -> Seq<char> {
    "# envlock pre-commit hook"@
}

/// `s`, ended by a newline unless it already ends with one.
pub open spec fn ensure_newline(s: Seq<char>) -> Seq<char> {
    if s.len() > 0 && s.last() == '\n' {
        s
    } else {
        s.push('\n')
    }
}

/// What `hook install` does, given the current hook.
pub enum HookInstall {
    /// The hook already runs `envlock check`; nothing to do.
    AlreadyInstalled,
    /// Append to the existing hook: its new content.
    Append(String),
    /// Create the hook with this content (and make it executable).
    Create(String),
}

/// What `hook install` does to the hook `existing` (`None`: no hook).
pub open spec fn spec_install(existing: Option<Seq<char>>) -> (Option<Seq<char>>, bool) {
    match existing {
        None => (Some(spec_hook_content()), true),
        Some(x) => if has_sub(x, spec_check_command()) {
            (None, false)
        } else {
            (Some(ensure_newline(x) + spec_hook_addition()), false)
        },
    }
}

/// Whether a hook line is not one of envlock's.
pub open spec fn keeps_line(l: Seq<char>) -> bool {
    !has_sub(l, spec_check_command()) && !has_sub(l, spec_hook_marker())
}

/// The lines of `ls` that are not envlock's.
pub open spec fn kept_lines(ls: Seq<Seq<char>>) -> Seq<Seq<char>>
    decreases ls.len(),
{
    if ls.len() == 0 {
        seq![]
    } else {
        kept_lines(ls.drop_last()) + if keeps_line(ls.last()) {
            seq![ls.last()]
        } else {
            Seq::<Seq<char>>::empty()
        }
    }
}

/// A hook with envlock's lines taken out.
pub open spec fn spec_stripped_hook(x: Seq<char>) -> Seq<char> {
    trim_end(join_with(kept_lines(lines(x)), seq!['\n'])).push('\n')
}

/// What `hook uninstall` does, given the current hook.
pub enum HookUninstall {
    /// There is no hook.
    NoHook,
    /// The hook does not run `envlock check`; nothing to do.
    NotInstalled,
    /// The hook is envlock's alone: delete it.
    Delete,
    /// Rewrite the hook with this content, envlock's lines removed.
    Rewrite(String),
}

/// What `hook uninstall` does to a hook, as a mathematical value.
pub enum Removal {
    /// There is no hook.
    NoHook,
    /// The hook does not run `envlock check`.
    NotInstalled,
    /// The hook is envlock's alone and is deleted.
    Delete,
    /// The hook is rewritten with this content.
    Rewrite(Seq<char>),
}

/// What `hook uninstall` does to the hook `existing` (`None`: no hook).
pub open spec fn spec_uninstall(existing: Option<Seq<char>>) -> Removal {
    match existing {
        None => Removal::NoHook,
        Some(x) => if !has_sub(x, spec_check_command()) {
            Removal::NotInstalled
        } else if trim(x) == trim(spec_hook_content()) {
            Removal::Delete
        } else {
            Removal::Rewrite(spec_stripped_hook(x))
        },
    }
}

/// Whether `r` is the outcome of uninstalling from `existing`.
pub open spec fn uninstall_outcome(existing: Option<Seq<char>>, r: HookUninstall) -> bool {
    match r {
        HookUninstall::NoHook => spec_uninstall(existing) == Removal::NoHook,
        HookUninstall::NotInstalled => spec_uninstall(existing) == Removal::NotInstalled,
        HookUninstall::Delete => spec_uninstall(existing) == Removal::Delete,
        HookUninstall::Rewrite(s) => spec_uninstall(existing) == Removal::Rewrite(s@),
    }
}

/// Whether `r` is the outcome of installing into `existing`.
pub open spec fn install_outcome(existing: Option<Seq<char>>, r: HookInstall) -> bool {
    match r {
        HookInstall::AlreadyInstalled => spec_install(existing).0 is None,
        HookInstall::Append(s) => spec_install(existing) == (Some(s@), false),
        HookInstall::Create(s) => spec_install(existing) == (Some(s@), true),
    }
}

/// The plan for `envlock hook install`, given whether the repository's
/// `.git/hooks` directory exists and the current pre-commit hook (`None` when
/// there is none): refuse outside a git repository, else create the hook,
/// append to it, or leave it.
pub fn install(hooks_dir_exists: bool, existing: Option<&str>) -> (res: Result<HookInstall, Error>)
    ensures
        !hooks_dir_exists ==> (res matches Err(Error::NoHooksDir)),
        hooks_dir_exists ==> (res matches Ok(r) && install_outcome(opt_view(existing), r)),
{
    if !hooks_dir_exists {
        return Err(Error::NoHooksDir);
    }
    Ok(install_plan(existing))
}

/// The plan for a pre-commit hook `existing` (`None` when there is none):
/// create it, append to it, or leave it.
fn install_plan(existing: Option<&str>) -> (res: HookInstall)
    ensures
        install_outcome(opt_view(existing), res),
{
    match existing {
        None => HookInstall::Create(String::from_str(
            "#!/bin/sh\n# envlock pre-commit hook \u{2014} prevents committing secrets\nenvlock check\n",
        )),
        Some(x) => {
            if contains_str(x, "envlock check") {
                return HookInstall::AlreadyInstalled;
            }
            proof {
                reveal_strlit("\n");
            }
            let mut s = String::from_str(x);
            let has_nl = ends_with_str(x, "\n");
            assert(has_nl <==> x@.len() > 0 && x@.last() == '\n') by {
                if x@.len() > 0 {
                    assert(x@.skip(x@.len() - 1)[0] == x@.last());
                    if x@.last() == '\n' {
                        assert(x@.skip(x@.len() - 1) =~= "\n"@);
                    }
                }
            }
            if !has_nl {
                s.append("\n");
                assert(s@ =~= x@.push('\n'));
            }
            s.append("\n# envlock pre-commit hook\nenvlock check\n");
            HookInstall::Append(s)
        },
    }
}

/// `s` without trailing whitespace.
pub fn trim_end_str(s: &str) -> (res: String)
    ensures
        res@ == trim_end(s@),
{
    let cs = chars_of(s);
    let n = cs.len();
    let mut b: usize = n;
    while b > 0 && crate::text::char_is_ws(cs[b - 1])
        invariant
            b <= n == cs@.len(),
            cs@ == s@,
            forall|k: int| b <= k < n ==> is_ws(#[trigger] cs@[k]),
        decreases b,
    {
        b = b - 1;
    }
    proof {
        crate::text::lemma_trim_end_take(s@, b as int);
    }
    String::from_str(s.substring_char(0, b))
}

/// The plan for `envlock hook uninstall` given the current pre-commit hook
/// (`None` when there is none): delete a hook that is envlock's alone,
/// otherwise remove envlock's lines from it.
pub fn uninstall(existing: Option<&str>) -> (res: HookUninstall)
    ensures
        uninstall_outcome(opt_view(existing), res),
{
    let x = match existing {
        None => return HookUninstall::NoHook,
        Some(x) => x,
    };
    if !contains_str(x, "envlock check") {
        return HookUninstall::NotInstalled;
    }
    let tx = trim_str(x);
    let th = trim_str(
        "#!/bin/sh\n# envlock pre-commit hook \u{2014} prevents committing secrets\nenvlock check\n",
    );
    if str_eq(tx.as_str(), th.as_str()) {
        return HookUninstall::Delete;
    }
    let ls = split_lines(x);
    let ghost sl = lines(x@);
    let mut joined = String::new();
    let mut count: usize = 0;
    let n = ls.len();
    proof {
        reveal_strlit("\n");
    }
    assert(sl.take(0) =~= Seq::<Seq<char>>::empty());
    for i in 0..n
        invariant
            n == ls@.len() == sl.len(),
            sl == lines(x@),
            forall|k: int| 0 <= k < n ==> #[trigger] ls@[k]@ == sl[k],
            count == kept_lines(sl.take(i as int)).len(),
            count <= i,
            joined@ == join_with(kept_lines(sl.take(i as int)), seq!['\n']),
    {
        proof {
            reveal_strlit("\n");
        }
        assert(sl.take(i + 1).drop_last() =~= sl.take(i as int));
        assert(sl.take(i + 1).last() == sl[i as int]);
        let l = ls[i].as_str();
        let keep = !contains_str(l, "envlock check") && !contains_str(l, "# envlock pre-commit hook");
        if keep {
            let ghost prev = kept_lines(sl.take(i as int));
            let ghost next = kept_lines(sl.take(i + 1));
            assert(next == prev.push(sl[i as int]));
            assert(next.drop_last() =~= prev);
            if count > 0 {
                joined.append("\n");
            }
            joined.append(l);
            if count == 0 {
                assert(joined@ =~= join_with(next, seq!['\n']));
            } else {
                assert(joined@ =~= join_with(next, seq!['\n']));
            }
            count = count + 1;
        } else {
            assert(kept_lines(sl.take(i + 1)) =~= kept_lines(sl.take(i as int)));
        }
    }
    assert(sl.take(n as int) =~= sl);
    let mut out = trim_end_str(joined.as_str());
    proof {
        reveal_strlit("\n");
    }
    out.append("\n");
    assert(out@ =~= spec_stripped_hook(x@));
    HookUninstall::Rewrite(out)
}


proof fn lemma_occurs_middle(a: Seq<char>, t: Seq<char>, b: Seq<char>)
    ensures
        has_sub(a + t + b, t),
{
    assert((a + t + b).subrange(a.len() as int, a.len() + t.len() as int) =~= t);
    assert(occurs_at(a + t + b, t, a.len() as int));
}

#[verifier::rlimit(40)]
proof fn lemma_installed_hooks_run_check(x: Seq<char>)
    ensures
        has_sub(spec_hook_content(), spec_check_command()),
        has_sub(ensure_newline(x) + spec_hook_addition(), spec_check_command()),
{
    reveal_strlit(
        "#!/bin/sh\n# envlock pre-commit hook \u{2014} prevents committing secrets\nenvlock check\n",
    );
    reveal_strlit("\n# envlock pre-commit hook\nenvlock check\n");
    reveal_strlit("envlock check");
    reveal_strlit("#!/bin/sh\n# envlock pre-commit hook \u{2014} prevents committing secrets\n");
    reveal_strlit("\n");
    reveal_strlit("\n# envlock pre-commit hook\n");
    let pre = "#!/bin/sh\n# envlock pre-commit hook \u{2014} prevents committing secrets\n"@;
    assert(spec_hook_content() =~= pre + spec_check_command() + "\n"@);
    lemma_occurs_middle(pre, spec_check_command(), "\n"@);
    let pre2 = ensure_newline(x) + "\n# envlock pre-commit hook\n"@;
    assert(ensure_newline(x) + spec_hook_addition() =~= pre2 + spec_check_command() + "\n"@);
    lemma_occurs_middle(pre2, spec_check_command(), "\n"@);
}

proof fn lemma_check_command_shape()
    ensures
        spec_check_command().len() > 0,
        forall|j: int| 0 <= j < spec_check_command().len() ==> #[trigger] spec_check_command()[j] != '\n',
        spec_check_command().last() != '\n',
{
    reveal_strlit("envlock check");
}

proof fn lemma_join_occurrence(ls: Seq<Seq<char>>, t: Seq<char>)
    requires
        t.len() > 0,
        forall|j: int| 0 <= j < t.len() ==> #[trigger] t[j] != '\n',
        has_sub(join_with(ls, seq!['\n']), t),
    ensures
        exists|k: int| 0 <= k < ls.len() && has_sub(#[trigger] ls[k], t),
    decreases ls.len(),
{
    let s = join_with(ls, seq!['\n']);
    let i = choose|i: int| #[trigger] occurs_at(s, t, i);
    if ls.len() == 0 {
        assert(s.len() == 0);
    } else if ls.len() == 1 {
        assert(has_sub(ls[0], t));
    } else {
        let a = join_with(ls.drop_last(), seq!['\n']);
        let b = ls.last();
        assert(s == a + seq!['\n'] + b);
        if i + t.len() <= a.len() {
            assert(a.subrange(i, i + t.len()) =~= s.subrange(i, i + t.len()));
            assert(occurs_at(a, t, i));
            lemma_join_occurrence(ls.drop_last(), t);
            let k = choose|k: int| 0 <= k < ls.drop_last().len() && has_sub(#[trigger] ls.drop_last()[k], t);
            assert(ls[k] == ls.drop_last()[k]);
        } else if i >= a.len() + 1 {
            let i2 = i - a.len() - 1;
            assert(b.subrange(i2, i2 + t.len()) =~= s.subrange(i, i + t.len()));
            assert(occurs_at(b, t, i2));
            assert(has_sub(ls[ls.len() - 1], t));
        } else {
            let j = a.len() - i;
            assert(s.subrange(i, i + t.len())[j] == s[a.len() as int]);
            assert(t[j] == '\n');
        }
    }
}

proof fn lemma_kept_lines_clean(ls: Seq<Seq<char>>)
    ensures
        forall|k: int| 0 <= k < kept_lines(ls).len() ==> keeps_line(#[trigger] kept_lines(ls)[k]),
    decreases ls.len(),
{
    if ls.len() > 0 {
        lemma_kept_lines_clean(ls.drop_last());
        let kl = kept_lines(ls);
        let prev = kept_lines(ls.drop_last());
        assert forall|k: int| 0 <= k < kl.len() implies keeps_line(#[trigger] kl[k]) by {
            if k < prev.len() {
                assert(kl[k] == prev[k]);
            }
        }
    }
}

/// Installing the hook twice changes nothing the second time: a hook that
/// envlock created or appended to already runs `envlock check`.
pub proof fn hook_install_idempotent(existing: Option<Seq<char>>)
    ensures
        spec_install(existing).0 matches Some(new) ==> spec_install(Some(new)).0 is None,
{
    lemma_installed_hooks_run_check(
        match existing {
            Some(x) => x,
            None => Seq::<char>::empty(),
        },
    );
}

/// Uninstalling leaves no `envlock check` behind: the hook is deleted, or
/// rewritten without any line that runs it.
pub proof fn hook_uninstall_removes_check(existing: Option<Seq<char>>)
    ensures
        spec_uninstall(existing) matches Removal::Rewrite(new) ==> !has_sub(new, spec_check_command()),
{
    if let Removal::Rewrite(_) = spec_uninstall(existing) {
        lemma_stripped_hook_clean(existing->0);
    }
}

proof fn lemma_stripped_hook_clean(x: Seq<char>)
    ensures
        !has_sub(spec_stripped_hook(x), spec_check_command()),
{
    let t = spec_check_command();
    lemma_check_command_shape();
    let kl = kept_lines(lines(x));
    lemma_kept_lines_clean(lines(x));
    let j = join_with(kl, seq!['\n']);
    if has_sub(j, t) {
        lemma_join_occurrence(kl, t);
        let k = choose|k: int| 0 <= k < kl.len() && has_sub(#[trigger] kl[k], t);
        assert(keeps_line(kl[k]));
        assert(false);
    }
    let te = trim_end(j);
    lemma_trim_end_shape(j);
    if has_sub(te, t) {
        let i = choose|i: int| #[trigger] occurs_at(te, t, i);
        assert(j.subrange(i, i + t.len()) =~= te.subrange(i, i + t.len()));
        assert(occurs_at(j, t, i));
        assert(false);
    }
    let out = te.push('\n');
    if has_sub(out, t) {
        let i = choose|i: int| #[trigger] occurs_at(out, t, i);
        if i + t.len() <= te.len() {
            assert(te.subrange(i, i + t.len()) =~= out.subrange(i, i + t.len()));
            assert(occurs_at(te, t, i));
        } else {
            assert(out.subrange(i, i + t.len())[t.len() - 1] == out[te.len() as int]);
            assert(t[t.len() - 1] == '\n');
        }
        assert(false);
    }
}

/// A hook that envlock created is deleted whole when uninstalled.
pub proof fn hook_created_then_removed()
    ensures
        spec_install(None) == (Some(spec_hook_content()), true),
        spec_uninstall(Some(spec_hook_content())) == Removal::Delete,
{
    lemma_installed_hooks_run_check(Seq::<char>::empty());
}

/// A text without a newline occurs in `s` followed by a newline only where
/// it occurs in `s`.
proof fn lemma_sub_push_newline(s: Seq<char>, t: Seq<char>)
    requires
        t.len() > 0,
        forall|j: int| 0 <= j < t.len() ==> #[trigger] t[j] != '\n',
        has_sub(s.push('\n'), t),
    ensures
        has_sub(s, t),
{
    let sn = s.push('\n');
    let i = choose|i: int| #[trigger] occurs_at(sn, t, i);
    if i + t.len() <= s.len() {
        assert(s.subrange(i, i + t.len()) =~= sn.subrange(i, i + t.len()));
        assert(occurs_at(s, t, i));
    } else {
        let j = s.len() - i;
        assert(sn.subrange(i, i + t.len())[j] == sn[s.len() as int]);
        assert(t[j] == '\n');
    }
}

proof fn lemma_kept_append(p: Seq<Seq<char>>, q: Seq<Seq<char>>)
    ensures
        kept_lines(p + q) == kept_lines(p) + kept_lines(q),
    decreases q.len(),
{
    if q.len() == 0 {
        assert(p + q =~= p);
        assert(kept_lines(p) + kept_lines(q) =~= kept_lines(p));
    } else {
        lemma_kept_append(p, q.drop_last());
        assert((p + q).drop_last() =~= p + q.drop_last());
        assert((p + q).last() == q.last());
        assert(kept_lines(p + q) =~= kept_lines(p) + kept_lines(q));
    }
}

proof fn lemma_kept_all(ls: Seq<Seq<char>>)
    requires
        forall|i: int| 0 <= i < ls.len() ==> keeps_line(#[trigger] ls[i]),
    ensures
        kept_lines(ls) == ls,
    decreases ls.len(),
{
    if ls.len() > 0 {
        let init = ls.drop_last();
        assert forall|i: int| 0 <= i < init.len() implies keeps_line(#[trigger] init[i]) by {
            assert(init[i] == ls[i]);
        }
        lemma_kept_all(init);
        assert(keeps_line(ls[ls.len() - 1]));
        assert(kept_lines(ls) =~= ls);
    }
}

proof fn lemma_join_cons(h: Seq<char>, ls: Seq<Seq<char>>)
    requires
        ls.len() > 0,
    ensures
        join_with(seq![h] + ls, seq!['\n']) == h + seq!['\n'] + join_with(ls, seq!['\n']),
    decreases ls.len(),
{
    let hl = seq![h] + ls;
    assert(hl.last() == ls.last());
    assert(hl.len() >= 2);
    assert(join_with(hl, seq!['\n']) == join_with(hl.drop_last(), seq!['\n']) + seq!['\n'] + hl.last());
    if ls.len() == 1 {
        assert(hl.drop_last() =~= seq![h]);
        assert(join_with(seq![h], seq!['\n']) == h);
        assert(join_with(ls, seq!['\n']) == ls[0]);
    } else {
        lemma_join_cons(h, ls.drop_last());
        assert(hl.drop_last() =~= seq![h] + ls.drop_last());
        assert(join_with(ls, seq!['\n']) == join_with(ls.drop_last(), seq!['\n']) + seq!['\n'] + ls.last());
        assert(join_with(hl, seq!['\n']) =~= h + seq!['\n'] + join_with(ls, seq!['\n']));
    }
}

/// Joining the lines of a text without `"\r\n"` gives the text back, but for
/// a final newline.
proof fn lemma_join_of_lines(s: Seq<char>)
    requires
        !has_sub(s, seq!['\r', '\n']),
    ensures
        join_with(lines(s), seq!['\n']) == if s.len() > 0 && s.last() == '\n' {
            s.drop_last()
        } else {
            s
        },
    decreases s.len(),
{
    if s.len() == 0 {
        assert(lines(s) =~= Seq::<Seq<char>>::empty());
    } else {
        let k = nl_index(s) as int;
        lemma_nl_index_bound(s);
        if k >= s.len() {
            assert(lines(s) == seq![s]);
            assert(s[s.len() - 1] != '\n');
        } else {
            let seg = s.take(k);
            let rest = s.skip(k + 1);
            if k > 0 && seg.last() == '\r' {
                assert(s.subrange(k - 1, k + 1) =~= seq!['\r', '\n']);
                assert(occurs_at(s, seq!['\r', '\n'], k - 1));
            }
            assert(strip_cr(seg) == seg);
            if has_sub(rest, seq!['\r', '\n']) {
                assert(rest =~= s.subrange(k + 1, s.len() as int));
                lemma_sub_of_subrange(s, k + 1, s.len() as int, seq!['\r', '\n']);
            }
            lemma_join_of_lines(rest);
            assert(lines(s) == seq![seg] + lines(rest));
            if rest.len() == 0 {
                assert(lines(rest) =~= Seq::<Seq<char>>::empty());
                assert(seq![seg] + lines(rest) =~= seq![seg]);
                assert(s.drop_last() =~= seg);
            } else {
                assert(lines(rest).len() > 0);
                lemma_join_cons(seg, lines(rest));
                assert(s =~= seg + seq!['\n'] + rest);
                if rest.last() == '\n' {
                    assert(s.drop_last() =~= seg + seq!['\n'] + rest.drop_last());
                }
            }
        }
    }
}

/// Dropping a final `'\r'` from the last line changes nothing that trimming
/// the end of the joined lines keeps.
proof fn lemma_join_strip_last(ls: Seq<Seq<char>>, ls2: Seq<Seq<char>>)
    requires
        ls.len() > 0,
        ls2.len() == ls.len(),
        forall|i: int| 0 <= i < ls.len() - 1 ==> #[trigger] ls2[i] == ls[i],
        ls2[ls.len() - 1] == strip_cr(ls[ls.len() - 1]),
    ensures
        trim_end(join_with(ls2, seq!['\n'])) == trim_end(join_with(ls, seq!['\n'])),
{
    let l = ls.last();
    if l.len() > 0 && l.last() == '\r' {
        let j = join_with(ls, seq!['\n']);
        if ls.len() == 1 {
            assert(join_with(ls2, seq!['\n']) == ls2[0]);
            assert(join_with(ls2, seq!['\n']) =~= j.drop_last());
        } else {
            assert(ls2.drop_last() =~= ls.drop_last());
            assert(join_with(ls2, seq!['\n']) =~= j.drop_last());
        }
        assert(j.last() == '\r');
    } else {
        assert(ls2 =~= ls);
    }
}

proof fn lemma_hook_literals()
    ensures
        spec_hook_marker().len() > 0,
        forall|j: int| 0 <= j < spec_hook_marker().len() ==> #[trigger] spec_hook_marker()[j] != '\n',
        spec_hook_marker().last() != '\r',
        spec_check_command().len() > 0,
        forall|j: int| 0 <= j < spec_check_command().len() ==> #[trigger] spec_check_command()[j] != '\n',
        spec_check_command().last() != '\r',
        spec_hook_addition() == seq!['\n'] + spec_hook_marker().push('\n') + spec_check_command().push('\n'),
        forall|j: int| 0 <= j < spec_hook_addition().len() ==> #[trigger] spec_hook_addition()[j] != '\u{2014}',
{
    reveal_strlit("# envlock pre-commit hook");
    reveal_strlit("envlock check");
    reveal_strlit("\n# envlock pre-commit hook\nenvlock check\n");
    assert(spec_hook_addition() =~= seq!['\n'] + spec_hook_marker().push('\n')
        + spec_check_command().push('\n'));
}

/// The text that marks the hook that envlock creates: the marker line and
/// the start of its explanation.
pub open spec fn created_hook_mark() -> Seq<char> {
    spec_hook_marker() + seq![' ', '\u{2014}']
}

proof fn lemma_created_hook_marked()
    ensures
        has_sub(trim(spec_hook_content()), created_hook_mark()),
{
    let h = spec_hook_content();
    reveal_strlit(
        "#!/bin/sh\n# envlock pre-commit hook \u{2014} prevents committing secrets\nenvlock check\n",
    );
    reveal_strlit("# envlock pre-commit hook");
    lemma_trim_start_skip(h, 0);
    assert(h.skip(0) =~= h);
    lemma_trim_end_take(h, h.len() - 1);
    let th = trim(h);
    assert(th =~= h.take(h.len() - 1));
    let t = created_hook_mark();
    assert(th.subrange(10, 10 + t.len() as int) =~= t);
    assert(occurs_at(th, t, 10));
}

/// A hook with a newline at its end, followed by what `install` appends, is
/// not the hook that envlock creates, when it had no marker line.
proof fn lemma_appended_not_created(a: Seq<char>)
    requires
        a.len() > 0,
        a.last() == '\n',
        !has_sub(a, spec_hook_marker()),
    ensures
        trim(a + spec_hook_addition()) != trim(spec_hook_content()),
{
    lemma_hook_literals();
    let marker = spec_hook_marker();
    let add = spec_hook_addition();
    let new = a + add;
    let t = created_hook_mark();
    assert forall|j: int| 0 <= j < t.len() implies #[trigger] t[j] != '\n' by {
        if j < marker.len() {
            assert(t[j] == marker[j]);
        }
    }
    if trim(new) == trim(spec_hook_content()) {
        lemma_created_hook_marked();
        lemma_sub_of_trim(new, t);
        let i = choose|i: int| #[trigger] occurs_at(new, t, i);
        if i + t.len() <= a.len() {
            assert(t.take(marker.len() as int) =~= marker);
            assert forall|k: int| 0 <= k < marker.len() implies #[trigger] a.subrange(
                i,
                i + marker.len(),
            )[k] == marker[k] by {
                assert(new.subrange(i, i + t.len())[k] == t[k]);
                assert(t[k] == marker[k]);
            }
            assert(a.subrange(i, i + marker.len()) =~= marker);
            assert(occurs_at(a, marker, i));
        } else if i >= a.len() {
            assert(new.subrange(i, i + t.len())[t.len() - 1] == add[i - a.len() + t.len() - 1]);
        } else {
            assert(new.subrange(i, i + t.len())[a.len() - 1 - i] == a[a.len() - 1]);
        }
    }
}

/// The lines of what `install` appends: an empty line, the marker and the
/// command.
proof fn lemma_addition_lines()
    ensures
        lines(spec_hook_addition()) == seq![Seq::<char>::empty(), spec_hook_marker(), spec_check_command()],
{
    lemma_hook_literals();
    let marker = spec_hook_marker();
    let check = spec_check_command();
    let e = Seq::<char>::empty();
    lemma_lines_single(e);
    lemma_lines_single(marker);
    lemma_lines_single(check);
    assert(e.push('\n') =~= seq!['\n']);
    lemma_lines_append(marker.push('\n'), check.push('\n'));
    lemma_lines_append(seq!['\n'], marker.push('\n') + check.push('\n'));
    assert(spec_hook_addition() =~= seq!['\n'] + (marker.push('\n') + check.push('\n')));
    assert(lines(spec_hook_addition()) =~= seq![e, marker, check]);
}

/// Of the appended lines, the rewrite keeps only the empty one.
proof fn lemma_kept_addition()
    ensures
        kept_lines(seq![Seq::<char>::empty(), spec_hook_marker(), spec_check_command()]) == seq![
            Seq::<char>::empty(),
        ],
{
    lemma_hook_literals();
    let marker = spec_hook_marker();
    let check = spec_check_command();
    let e = Seq::<char>::empty();
    assert(!has_sub(e, check));
    assert(!has_sub(e, marker));
    assert(marker.subrange(0, marker.len() as int) =~= marker);
    assert(occurs_at(marker, marker, 0));
    assert(check.subrange(0, check.len() as int) =~= check);
    assert(occurs_at(check, check, 0));
    let three = seq![e, marker, check];
    assert(three.drop_last() =~= seq![e, marker]);
    assert(seq![e, marker].drop_last() =~= seq![e]);
    assert(seq![e].drop_last() =~= Seq::<Seq<char>>::empty());
    assert(seq![e].last() == e);
    assert(keeps_line(e));
    assert(kept_lines(Seq::<Seq<char>>::empty()) =~= Seq::<Seq<char>>::empty());
    assert(kept_lines(seq![e]) =~= seq![e]);
    assert(seq![e, marker].last() == marker);
    assert(!keeps_line(marker));
    assert(kept_lines(seq![e, marker]) =~= seq![e]);
    assert(three.last() == check);
    assert(!keeps_line(check));
    assert(kept_lines(three) =~= seq![e]);
}

/// The lines that the rewrite keeps of a hook followed by what `install`
/// appends: the hook's own lines and one empty line.
proof fn lemma_kept_after_append(a: Seq<char>)
    requires
        a.len() > 0,
        a.last() == '\n',
        !has_sub(a, spec_check_command()),
        !has_sub(a, spec_hook_marker()),
    ensures
        kept_lines(lines(a + spec_hook_addition())) == lines(a).push(Seq::<char>::empty()),
        lines(a).len() > 0,
{
    let marker = spec_hook_marker();
    let check = spec_check_command();
    lemma_lines_append(a, spec_hook_addition());
    lemma_addition_lines();
    lemma_kept_addition();
    assert forall|i: int| 0 <= i < lines(a).len() implies keeps_line(#[trigger] lines(a)[i]) by {
        if has_sub(lines(a)[i], check) {
            lemma_line_sub(a, i, check);
        }
        if has_sub(lines(a)[i], marker) {
            lemma_line_sub(a, i, marker);
        }
    }
    lemma_kept_all(lines(a));
    let three = seq![Seq::<char>::empty(), marker, check];
    lemma_kept_append(lines(a), three);
    assert(lines(a).push(Seq::<char>::empty()) =~= lines(a) + seq![Seq::<char>::empty()]);
    lemma_nl_index_bound(a);
    assert(lines(a).len() > 0);
}

/// The lines of a hook with a newline ensured at its end join back to the
/// hook, up to whitespace at its end.
proof fn lemma_join_hook_lines(x: Seq<char>)
    requires
        !has_sub(x, seq!['\r', '\n']),
    ensures
        trim_end(join_with(lines(ensure_newline(x)), seq!['\n'])) == trim_end(x),
{
    let a = ensure_newline(x);
    if x.len() > 0 && x.last() == '\n' {
        lemma_join_of_lines(x);
        assert(trim_end(x) == trim_end(x.drop_last()));
    } else if x.len() == 0 {
        let e = Seq::<char>::empty();
        lemma_lines_single(e);
        assert(a =~= e.push('\n'));
        assert(lines(a) =~= seq![e]);
    } else {
        lemma_lines_push_newline(x);
        lemma_join_of_lines(x);
        lemma_join_strip_last(lines(x), lines(a));
    }
}

/// Installing the hook into an existing one and uninstalling it again gives
/// back the hook as it was, up to whitespace at its end, when the hook had
/// none of envlock's lines (and no `"\r\n"` line ends, which the rewrite
/// turns into `"\n"`).
pub proof fn hook_install_then_uninstall(x: Seq<char>)
    requires
        !has_sub(x, spec_check_command()),
        !has_sub(x, spec_hook_marker()),
        !has_sub(x, seq!['\r', '\n']),
    ensures
        spec_install(Some(x)).0 matches Some(new) && spec_uninstall(Some(new)) == Removal::Rewrite(
            trim_end(x).push('\n'),
        ),
{
    lemma_hook_literals();
    let marker = spec_hook_marker();
    let check = spec_check_command();
    let a = ensure_newline(x);
    let new = a + spec_hook_addition();
    assert(spec_install(Some(x)).0 == Some(new));
    lemma_installed_hooks_run_check(x);
    if !(x.len() > 0 && x.last() == '\n') {
        if has_sub(a, check) {
            lemma_sub_push_newline(x, check);
        }
        if has_sub(a, marker) {
            lemma_sub_push_newline(x, marker);
        }
    }
    lemma_appended_not_created(a);
    lemma_kept_after_append(a);
    let la = lines(a);
    let e = Seq::<char>::empty();
    assert(la.push(e).drop_last() =~= la);
    let j = join_with(la, seq!['\n']);
    assert(join_with(la.push(e), seq!['\n']) =~= j.push('\n'));
    assert(j.push('\n').drop_last() =~= j);
    assert(trim_end(j.push('\n')) == trim_end(j));
    lemma_join_hook_lines(x);
}

} // verus!
