//! The `.gitignore` entries that envlock manages: which are missing from a
//! given `.gitignore`, and the content that adds them.

use vstd::prelude::*;
use crate::text::{
    lemma_terminated_lines, plain_line, terminated_lines, views,
    ends_with_str, lemma_lines_append, lemma_lines_push_newline, lemma_lines_single,
    lemma_trim_id, lemma_trim_strip_cr, lines, split_lines, str_eq, trim, trim_str,
};

verus! {

/// The entries whose absence from `.gitignore` is a problem: the plaintext
/// `.env` and the private key.
pub open spec fn spec_protected_entries() -> Seq<Seq<char>> {
    seq![".env"@, ".envlock/identity.txt"@]
}

/// The entries envlock keeps in `.gitignore`, in order: the protected ones,
/// then the temp file that `edit` writes.
pub open spec fn spec_managed_entries() -> Seq<Seq<char>> {
    seq![".env"@, ".envlock/identity.txt"@, ".env.edit.tmp"@]
}

/// The comment line written above the entries that envlock appends.
pub open spec fn spec_section_header() -> Seq<char> {
    "# envlock managed\n"@
}

/// Whether some line of `content`, trimmed, equals `entry`.
pub open spec fn spec_line_exists(content: Seq<char>, entry: Seq<char>) -> bool {
    exists|i: int| 0 <= i < lines(content).len() && trim(#[trigger] lines(content)[i]) == entry
}

/// The entries of `entries` that no line of `content` holds, in order.
pub open spec fn missing_from(content: Seq<char>, entries: Seq<Seq<char>>) -> Seq<Seq<char>>
    decreases entries.len(),
{
    if entries.len() == 0 {
        seq![]
    } else {
        missing_from(content, entries.drop_last()) + if spec_line_exists(content, entries.last()) {
            Seq::<Seq<char>>::empty()
        } else {
            seq![entries.last()]
        }
    }
}

/// The protected entries that `content` lacks.
pub open spec fn spec_missing_entries(content: Seq<char>) -> Seq<Seq<char>> {
    missing_from(content, spec_protected_entries())
}

/// The managed entries that `content` lacks: what an update appends.
pub open spec fn spec_entries_to_add(content: Seq<char>) -> Seq<Seq<char>> {
    missing_from(content, spec_managed_entries())
}

/// `content`, ended by a newline when it is non-empty and lacks one.
pub open spec fn with_final_newline(content: Seq<char>) -> Seq<char> {
    if content.len() > 0 && content.last() != '\n' {
        content.push('\n')
    } else {
        content
    }
}

/// The new `.gitignore` content, or `None` when nothing is missing.
pub open spec fn spec_gitignore_update(content: Seq<char>) -> Option<Seq<char>> {
    let missing = spec_entries_to_add(content);
    if missing.len() == 0 {
        None
    } else {
        Some(with_final_newline(content) + spec_section_header() + terminated_lines(missing))
    }
}

/// The entries whose absence from `.gitignore` is a problem.
pub fn protected_entries() -> (res: Vec<String>)
    ensures
        views(res@) == spec_protected_entries(),
{
    let mut res: Vec<String> = Vec::new();
    res.push(String::from_str(".env"));
    res.push(String::from_str(".envlock/identity.txt"));
    assert(views(res@) =~= spec_protected_entries());
    res
}

/// The entries envlock keeps in `.gitignore`.
pub fn managed_entries() -> (res: Vec<String>)
    ensures
        views(res@) == spec_managed_entries(),
{
    let mut res = protected_entries();
    let ghost prev = views(res@);
    res.push(String::from_str(".env.edit.tmp"));
    assert(views(res@) =~= prev.push(".env.edit.tmp"@));
    assert(views(res@) =~= spec_managed_entries());
    res
}

/// Whether `entry` already stands as its own line in `content`, ignoring
/// whitespace around the line.
pub fn line_exists(content: &str, entry: &str) -> (res: bool)
    ensures
        res == spec_line_exists(content@, entry@),
{
    let ls = split_lines(content);
    let n = ls.len();
    let mut i: usize = 0;
    while i < n
        invariant
            i <= n == ls@.len() == lines(content@).len(),
            forall|k: int| 0 <= k < n ==> #[trigger] ls@[k]@ == lines(content@)[k],
            forall|k: int| 0 <= k < i ==> trim(#[trigger] lines(content@)[k]) != entry@,
        decreases n - i,
    {
        let t = trim_str(ls[i].as_str());
        if str_eq(t.as_str(), entry) {
            assert(trim(lines(content@)[i as int]) == entry@);
            return true;
        }
        i = i + 1;
    }
    false
}

/// The entries of `entries` that no line of `content` holds, in order.
pub fn missing_from_list(content: &str, entries: &Vec<String>) -> (res: Vec<String>)
    ensures
        views(res@) == missing_from(content@, views(entries@)),
{
    let ghost es = views(entries@);
    let mut res: Vec<String> = Vec::new();
    let mut i: usize = 0;
    assert(es.take(0) =~= Seq::<Seq<char>>::empty());
    assert(views(res@) =~= Seq::<Seq<char>>::empty());
    while i < entries.len()
        invariant
            i <= entries@.len() == es.len(),
            es == views(entries@),
            views(res@) == missing_from(content@, es.take(i as int)),
        decreases entries@.len() - i,
    {
        let ghost prev = views(res@);
        assert(es.take(i + 1).drop_last() =~= es.take(i as int));
        assert(es.take(i + 1).last() == entries@[i as int]@);
        if !line_exists(content, entries[i].as_str()) {
            res.push(entries[i].clone());
            assert(views(res@) =~= prev.push(entries@[i as int]@));
        } else {
            assert(missing_from(content@, es.take(i + 1)) =~= prev);
        }
        i = i + 1;
    }
    assert(es.take(es.len() as int) =~= es);
    res
}

/// The protected entries missing from the `.gitignore` content `content`
/// (pass the empty string when there is no `.gitignore`).
pub fn missing_entries(content: &str) -> (res: Vec<String>)
    ensures
        views(res@) == spec_missing_entries(content@),
{
    missing_from_list(content, &protected_entries())
}

/// The `.gitignore` content with the missing managed entries appended under a
/// section header, or `None` when every entry is already present.
pub fn ensure_gitignore_entries(content: &str) -> (res: Option<String>)
    ensures
        res matches Some(s) ==> spec_gitignore_update(content@) == Some(s@),
        res is None ==> spec_gitignore_update(content@) is None,
{
    let missing = missing_from_list(content, &managed_entries());
    if missing.len() == 0 {
        return None;
    }
    proof {
        reveal_strlit("\n");
        assert("\n"@ =~= seq!['\n']);
    }
    let mut out = String::from_str(content);
    assert(out@ == content@);
    let nonempty = out.as_str().unicode_len() > 0;
    let has_nl = ends_with_str(out.as_str(), "\n");
    assert(nonempty == (content@.len() > 0));
    assert(has_nl <==> content@.len() > 0 && content@.last() == '\n') by {
        if content@.len() > 0 {
            assert(content@.skip(content@.len() - 1)[0] == content@.last());
            if content@.last() == '\n' {
                assert(content@.skip(content@.len() - 1) =~= "\n"@);
            }
        }
    }
    if nonempty && !has_nl {
        out.append("\n");
        assert(out@ =~= content@.push('\n'));
    }
    assert(out@ == with_final_newline(content@));
    out.append("# envlock managed\n");
    let ghost ms = spec_entries_to_add(content@);
    assert forall|k: int| 0 <= k < ms.len() implies #[trigger] missing@[k]@ == ms[k] by {
        assert(views(missing@)[k] == missing@[k]@);
    }
    let ghost base = out@;
    let mut i: usize = 0;
    assert(ms.take(0) =~= Seq::<Seq<char>>::empty());
    while i < missing.len()
        invariant
            i <= missing@.len() == ms.len(),
            forall|k: int| 0 <= k < ms.len() ==> #[trigger] missing@[k]@ == ms[k],
            out@ == base + terminated_lines(ms.take(i as int)),
        decreases missing@.len() - i,
    {
        assert(ms.take(i + 1).drop_last() =~= ms.take(i as int));
        assert(ms.take(i + 1).last() == ms[i as int]);
        proof {
            reveal_strlit("\n");
            assert("\n"@ =~= seq!['\n']);
        }
        let ghost before = out@;
        out.append(missing[i].as_str());
        assert(out@ == before + ms[i as int]);
        out.append("\n");
        assert(out@ == before + ms[i as int] + seq!['\n']);
        assert(out@ =~= base + terminated_lines(ms.take(i + 1)));
        i = i + 1;
    }
    assert(ms.take(ms.len() as int) =~= ms);
    Some(out)
}


proof fn lemma_managed_plain()
    ensures
        forall|i: int|
            0 <= i < spec_managed_entries().len() ==> plain_line(#[trigger] spec_managed_entries()[i]),
        forall|i: int|
            0 <= i < spec_protected_entries().len() ==> plain_line(#[trigger] spec_protected_entries()[i]),
        forall|i: int|
            0 <= i < spec_protected_entries().len() ==> #[trigger] spec_protected_entries()[i]
                == spec_managed_entries()[i],
        spec_protected_entries().len() <= spec_managed_entries().len(),
        plain_line(spec_section_header().drop_last()),
        spec_section_header() == spec_section_header().drop_last().push('\n'),
{
    reveal_strlit(".env");
    reveal_strlit(".envlock/identity.txt");
    reveal_strlit(".env.edit.tmp");
    reveal_strlit("# envlock managed\n");
    let h = spec_section_header();
    assert(h.drop_last().push('\n') =~= h);
}

/// What `missing_from` keeps: plain entries, every entry no line holds, and
/// nothing when every entry is held.
proof fn lemma_missing_from(content: Seq<char>, es: Seq<Seq<char>>)
    requires
        forall|i: int| 0 <= i < es.len() ==> plain_line(#[trigger] es[i]),
    ensures
        forall|j: int| 0 <= j < missing_from(content, es).len() ==> plain_line(
            #[trigger] missing_from(content, es)[j],
        ),
        forall|i: int|
            0 <= i < es.len() && !spec_line_exists(content, #[trigger] es[i]) ==> missing_from(
                content,
                es,
            ).contains(es[i]),
        missing_from(content, es).len() == 0 <==> (forall|i: int|
            0 <= i < es.len() ==> spec_line_exists(content, #[trigger] es[i])),
    decreases es.len(),
{
    if es.len() > 0 {
        let init = es.drop_last();
        assert forall|i: int| 0 <= i < init.len() implies plain_line(#[trigger] init[i]) by {
            assert(init[i] == es[i]);
        }
        lemma_missing_from(content, init);
        let m = missing_from(content, es);
        let mi = missing_from(content, init);
        let e = es.last();
        assert(plain_line(es[es.len() - 1]));
        assert forall|j: int| 0 <= j < m.len() implies plain_line(#[trigger] m[j]) by {
            if j < mi.len() {
                assert(m[j] == mi[j]);
            } else {
                assert(m[j] == e);
            }
        }
        assert forall|i: int|
            0 <= i < es.len() && !spec_line_exists(content, #[trigger] es[i]) implies m.contains(es[i]) by {
            if i < es.len() - 1 {
                assert(init[i] == es[i]);
                let j = choose|j: int| 0 <= j < mi.len() && mi[j] == es[i];
                assert(m[j] == mi[j]);
            } else {
                assert(m[m.len() - 1] == e);
            }
        }
        if m.len() == 0 {
            assert forall|i: int| 0 <= i < es.len() implies spec_line_exists(content, #[trigger] es[i]) by {
                if !spec_line_exists(content, es[i]) {
                    assert(m.contains(es[i]));
                }
            }
        } else if forall|i: int| 0 <= i < es.len() ==> spec_line_exists(content, #[trigger] es[i]) {
            assert forall|i: int| 0 <= i < init.len() implies spec_line_exists(content, #[trigger] init[i]) by {
                assert(init[i] == es[i]);
                assert(spec_line_exists(content, es[i]));
            }
            assert(spec_line_exists(content, es[es.len() - 1]));
            assert(m =~= mi);
        }
    }
}

/// How the lines of an updated `.gitignore` relate to the old ones.
proof fn lemma_update_lines(content: Seq<char>)
    requires
        spec_gitignore_update(content) is Some,
    ensures
        ({
            let new = spec_gitignore_update(content)->0;
            let old_n = lines(content).len();
            let missing = spec_entries_to_add(content);
            &&& lines(new).len() == old_n + 1 + missing.len()
            &&& forall|i: int| 0 <= i < old_n ==> trim(#[trigger] lines(new)[i]) == trim(lines(content)[i])
            &&& lines(new)[old_n as int] == spec_section_header().drop_last()
            &&& forall|j: int| 0 <= j < missing.len() ==> #[trigger] lines(new)[old_n + 1 + j] == missing[j]
        }),
{
    lemma_managed_plain();
    lemma_missing_from(content, spec_managed_entries());
    let missing = spec_entries_to_add(content);
    let c1 = with_final_newline(content);
    let h = spec_section_header();
    let b = terminated_lines(missing);
    let new = spec_gitignore_update(content)->0;
    assert(new == c1 + h + b);
    lemma_terminated_lines(missing);
    lemma_lines_single(h.drop_last());
    lemma_lines_append(h, b);
    assert(c1.len() == 0 || c1.last() == '\n');
    lemma_lines_append(c1, h + b);
    assert(new =~= c1 + (h + b));
    assert(lines(h) == seq![h.drop_last()]);
    let old_n = lines(content).len();
    if content.len() > 0 && content.last() != '\n' {
        lemma_lines_push_newline(content);
        assert forall|i: int| 0 <= i < old_n implies trim(#[trigger] lines(new)[i]) == trim(
            lines(content)[i],
        ) by {
            assert(lines(new)[i] == lines(c1)[i]);
            if i == old_n - 1 {
                lemma_trim_strip_cr(lines(content)[i]);
            }
        }
    } else {
        assert forall|i: int| 0 <= i < old_n implies trim(#[trigger] lines(new)[i]) == trim(
            lines(content)[i],
        ) by {
            assert(lines(new)[i] == lines(c1)[i]);
        }
    }
    assert(lines(new)[old_n as int] == lines(h + b)[0]);
    assert forall|j: int| 0 <= j < missing.len() implies #[trigger] lines(new)[old_n + 1 + j]
        == missing[j] by {
        assert(lines(new)[old_n + 1 + j] == lines(h + b)[1 + j]);
    }
}

/// After envlock updates a `.gitignore` (or finds nothing to add), every
/// managed entry (`.env`, the private key and the edit temp file) stands on a
/// line of its own, none is missing any more, and a second update adds
/// nothing.
pub proof fn gitignore_update_covers_entries(content: Seq<char>)
    ensures
        ({
            let after = match spec_gitignore_update(content) {
                Some(new) => new,
                None => content,
            };
            &&& forall|i: int|
                0 <= i < spec_managed_entries().len() ==> spec_line_exists(
                    after,
                    #[trigger] spec_managed_entries()[i],
                )
            &&& spec_missing_entries(after).len() == 0
            &&& spec_gitignore_update(after) is None
        }),
{
    lemma_managed_plain();
    let es = spec_managed_entries();
    lemma_missing_from(content, es);
    let after = match spec_gitignore_update(content) {
        Some(new) => new,
        None => content,
    };
    if let Some(new) = spec_gitignore_update(content) {
        lemma_update_lines(content);
        let missing = spec_entries_to_add(content);
        let old_n = lines(content).len();
        assert forall|i: int| 0 <= i < es.len() implies spec_line_exists(new, #[trigger] es[i]) by {
            if spec_line_exists(content, es[i]) {
                let k = choose|k: int|
                    0 <= k < lines(content).len() && trim(#[trigger] lines(content)[k]) == es[i];
                assert(trim(lines(new)[k]) == es[i]);
            } else {
                assert(missing.contains(es[i]));
                let j = choose|j: int| 0 <= j < missing.len() && missing[j] == es[i];
                assert(lines(new)[old_n + 1 + j] == es[i]);
                lemma_trim_id(es[i]);
                assert(trim(lines(new)[old_n + 1 + j]) == es[i]);
            }
        }
    }
    lemma_missing_from(after, es);
    let ps = spec_protected_entries();
    lemma_missing_from(after, ps);
    assert forall|i: int| 0 <= i < ps.len() implies spec_line_exists(after, #[trigger] ps[i]) by {
        assert(ps[i] == es[i]);
    }
}

/// Updating a `.gitignore` only appends: the old content stays as a prefix,
/// its lines keep their places (up to whitespace at their ends), and after
/// them come the section header and exactly the entries that were missing,
/// so an entry already present is never written twice.
pub proof fn gitignore_update_only_appends(content: Seq<char>)
    requires
        spec_gitignore_update(content) is Some,
    ensures
        ({
            let new = spec_gitignore_update(content)->0;
            let old_n = lines(content).len();
            let missing = spec_entries_to_add(content);
            &&& new.take(content.len() as int) == content
            &&& lines(new).len() == old_n + 1 + missing.len()
            &&& forall|i: int| 0 <= i < old_n ==> trim(#[trigger] lines(new)[i]) == trim(lines(content)[i])
            &&& lines(new)[old_n as int] == spec_section_header().drop_last()
            &&& forall|j: int| 0 <= j < missing.len() ==> #[trigger] lines(new)[old_n + 1 + j] == missing[j]
        }),
{
    lemma_update_lines(content);
    let new = spec_gitignore_update(content)->0;
    assert(new.take(content.len() as int) =~= content);
}

} // verus!
