//! Where envlock keeps its files inside a project, and the format of the
//! recipients file. Paths are `/`-separated strings.

use vstd::prelude::*;
use crate::error::Error;
use crate::text::{
    ends_with_str, lemma_terminated_lines, lemma_trim_id, lines, nl_index, plain_line, split_lines,
    strip_cr, lemma_lines_no_newline, lemma_trim_plain,
    terminated_lines, trim, trim_str, views,
};

verus! {

/// `part` appended to `base` as a relative path component.
pub open spec fn path_join(base: Seq<char>, part: Seq<char>) -> Seq<char> {
    if base.len() == 0 {
        part
    } else if base.last() == '/' {
        base + part
    } else {
        base + seq!['/'] + part
    }
}

/// The `.envlock/` directory of the project at `root`.
pub open spec fn spec_envlock_dir(root: Seq<char>) -> Seq<char> {
    path_join(root, ".envlock"@)
}

/// The private identity file of the project at `root`.
pub open spec fn spec_identity_path(root: Seq<char>) -> Seq<char> {
    path_join(spec_envlock_dir(root), "identity.txt"@)
}

/// The recipients file of the project at `root`.
pub open spec fn spec_recipients_path(root: Seq<char>) -> Seq<char> {
    path_join(spec_envlock_dir(root), "recipients.txt"@)
}

/// The vault that belongs to a plaintext file.
pub open spec fn spec_vault_path(plaintext: Seq<char>) -> Seq<char> {
    plaintext + ".vault"@
}

/// The plaintext file that belongs to a vault, when its name ends with `.vault`.
pub open spec fn spec_plaintext_path(vault: Seq<char>) -> Option<Seq<char>> {
    if ".vault"@.len() <= vault.len() && vault.skip(vault.len() - ".vault"@.len()) == ".vault"@ {
        Some(vault.take(vault.len() - ".vault"@.len()))
    } else {
        None
    }
}

/// The lines of `ls`, trimmed, without those that trim to nothing.
pub open spec fn nonblank_trimmed(ls: Seq<Seq<char>>) -> Seq<Seq<char>>
    decreases ls.len(),
{
    if ls.len() == 0 {
        seq![]
    } else {
        nonblank_trimmed(ls.drop_last()) + if trim(ls.last()).len() == 0 {
            Seq::<Seq<char>>::empty()
        } else {
            seq![trim(ls.last())]
        }
    }
}

/// The recipients that a recipients file with content `content` lists.
pub open spec fn spec_recipients_of(content: Seq<char>) -> Seq<Seq<char>> {
    nonblank_trimmed(lines(content))
}

/// The content of a recipients file listing `recipients`: one per line.
pub open spec fn spec_recipients_content(recipients: Seq<Seq<char>>) -> Seq<char> {
    if recipients.len() == 0 {
        seq!['\n']
    } else {
        terminated_lines(recipients)
    }
}

/// A file to be written: its path and its whole new content.
pub struct FileWrite {
    pub path: String,
    pub content: String,
}

/// `part` appended to `base` as a relative path component.
pub fn join_path(base: &str, part: &str) -> (res: String)
    ensures
        res@ == path_join(base@, part@),
{
    let mut s = String::from_str(base);
    if base.unicode_len() == 0 {
        return String::from_str(part);
    }
    proof {
        reveal_strlit("/");
    }
    if !ends_with_str(base, "/") {
        s.append("/");
    } else {
        assert(base@.skip(base@.len() - 1)[0] == base@.last());
    }
    s.append(part);
    proof {
        if base@.last() == '/' {
            assert(base@.skip(base@.len() - 1) =~= "/"@);
        }
    }
    s
}

/// The `.envlock/` directory inside `project_root`.
pub fn envlock_dir(project_root: &str) -> (res: String)
    ensures
        res@ == spec_envlock_dir(project_root@),
{
    join_path(project_root, ".envlock")
}

/// The private identity file inside `.envlock/`.
pub fn identity_path(project_root: &str) -> (res: String)
    ensures
        res@ == spec_identity_path(project_root@),
{
    let dir = envlock_dir(project_root);
    join_path(dir.as_str(), "identity.txt")
}

/// The recipients file inside `.envlock/`.
pub fn recipients_path(project_root: &str) -> (res: String)
    ensures
        res@ == spec_recipients_path(project_root@),
{
    let dir = envlock_dir(project_root);
    join_path(dir.as_str(), "recipients.txt")
}

/// The default vault path of a plaintext path: `.env` gives `.env.vault`.
pub fn vault_path(plaintext_path: &str) -> (res: String)
    ensures
        res@ == spec_vault_path(plaintext_path@),
{
    let mut s = String::from_str(plaintext_path);
    s.append(".vault");
    s
}

/// The plaintext path of a vault path: `.env.vault` gives `.env`. A path
/// that does not end with `.vault` is refused.
pub fn plaintext_path(vault_path: &str) -> (res: Result<String, Error>)
    ensures
        match res {
            Ok(p) => spec_plaintext_path(vault_path@) == Some(p@),
            Err(e) => spec_plaintext_path(vault_path@) is None && (e matches Error::NotAVault(v)
                && v@ == vault_path@),
        },
{
    if !ends_with_str(vault_path, ".vault") {
        return Err(Error::NotAVault(String::from_str(vault_path)));
    }
    let n = vault_path.unicode_len();
    let m = ".vault".unicode_len();
    Ok(String::from_str(vault_path.substring_char(0, n - m)))
}

/// The identity file's content, or the error for a project without one
/// (`content` is `None` when the file does not exist).
pub fn read_identity(content: Option<String>) -> (res: Result<String, Error>)
    ensures
        match content {
            Some(c) => res matches Ok(s) && s@ == c@,
            None => res matches Err(Error::NoIdentity),
        },
{
    match content {
        Some(c) => Ok(c),
        None => Err(Error::NoIdentity),
    }
}

/// The recipients listed in the recipients file of the project at
/// `project_root`: its lines, trimmed, without blank ones. `content` is
/// `None` when the file does not exist.
pub fn read_recipients(project_root: &str, content: Option<&str>) -> (res: Result<
    Vec<String>,
    Error,
>)
    ensures
        match content {
            None => res matches Err(Error::NoRecipientsFile(p)) && p@ == spec_recipients_path(
                project_root@,
            ),
            Some(c) => if spec_recipients_of(c@).len() == 0 {
                res matches Err(Error::EmptyRecipients)
            } else {
                res matches Ok(rs) && rs@.len() == spec_recipients_of(c@).len() && forall|i: int|
                    0 <= i < rs@.len() ==> #[trigger] rs@[i]@ == spec_recipients_of(c@)[i]
            },
        },
{
    let c = match content {
        None => return Err(Error::NoRecipientsFile(recipients_path(project_root))),
        Some(c) => c,
    };
    let ls = split_lines(c);
    let ghost sl = lines(c@);
    let mut out: Vec<String> = Vec::new();
    let mut i: usize = 0;
    assert(sl.take(0) =~= Seq::<Seq<char>>::empty());
    while i < ls.len()
        invariant
            i <= ls@.len() == sl.len(),
            sl == lines(c@),
            forall|k: int| 0 <= k < sl.len() ==> #[trigger] ls@[k]@ == sl[k],
            out@.len() == nonblank_trimmed(sl.take(i as int)).len(),
            forall|k: int| 0 <= k < out@.len() ==> #[trigger] out@[k]@ == nonblank_trimmed(
                sl.take(i as int),
            )[k],
        decreases ls@.len() - i,
    {
        assert(sl.take(i + 1).drop_last() =~= sl.take(i as int));
        assert(sl.take(i + 1).last() == sl[i as int]);
        let t = trim_str(ls[i].as_str());
        if t.as_str().unicode_len() > 0 {
            out.push(t);
        }
        assert(out@.len() == nonblank_trimmed(sl.take(i + 1)).len());
        i = i + 1;
    }
    assert(sl.take(sl.len() as int) =~= sl);
    if out.len() == 0 {
        return Err(Error::EmptyRecipients);
    }
    Ok(out)
}

/// The recipients file content for `recipients`: one per line, each ended
/// by a newline.
pub fn recipients_content(recipients: &Vec<String>) -> (res: String)
    ensures
        res@ == spec_recipients_content(views(recipients@)),
{
    let ghost rs = views(recipients@);
    proof {
        reveal_strlit("\n");
    }
    if recipients.len() == 0 {
        return String::from_str("\n");
    }
    let mut s = String::new();
    let mut i: usize = 0;
    assert(rs.take(0) =~= Seq::<Seq<char>>::empty());
    while i < recipients.len()
        invariant
            i <= recipients@.len() == rs.len(),
            rs == views(recipients@),
            s@ == terminated_lines(rs.take(i as int)),
        decreases recipients@.len() - i,
    {
        proof {
            reveal_strlit("\n");
        }
        assert(rs.take(i + 1).drop_last() =~= rs.take(i as int));
        assert(rs.take(i + 1).last() == recipients@[i as int]@);
        s.append(recipients[i].as_str());
        s.append("\n");
        assert(s@ =~= terminated_lines(rs.take(i + 1)));
        i = i + 1;
    }
    assert(rs.take(rs.len() as int) =~= rs);
    s
}

/// The write that replaces the recipients file with `recipients`.
pub fn write_recipients_list(project_root: &str, recipients: &Vec<String>) -> (res: FileWrite)
    ensures
        res.path@ == spec_recipients_path(project_root@),
        res.content@ == spec_recipients_content(views(recipients@)),
{
    FileWrite { path: recipients_path(project_root), content: recipients_content(recipients) }
}

/// The write that makes `recipient` the only recipient (used by `init`).
pub fn write_recipients(project_root: &str, recipient: &str) -> (res: FileWrite)
    ensures
        res.path@ == spec_recipients_path(project_root@),
        res.content@ == spec_recipients_content(seq![recipient@]),
{
    let mut v: Vec<String> = Vec::new();
    v.push(String::from_str(recipient));
    assert(views(v@) =~= seq![recipient@]);
    write_recipients_list(project_root, &v)
}

/// The vault path of a plaintext path leads back to it, and a vault path
/// that has a plaintext path is that path's vault path.
pub proof fn vault_plaintext_inverse(plaintext: Seq<char>, vault: Seq<char>)
    ensures
        spec_plaintext_path(spec_vault_path(plaintext)) == Some(plaintext),
        spec_plaintext_path(vault) == Some(plaintext) ==> spec_vault_path(plaintext) == vault,
{
    reveal_strlit(".vault");
    let v = spec_vault_path(plaintext);
    assert(v.skip(v.len() - ".vault"@.len()) =~= ".vault"@);
    assert(v.take(v.len() - ".vault"@.len()) =~= plaintext);
    if spec_plaintext_path(vault) == Some(plaintext) {
        assert(plaintext + ".vault"@ =~= vault);
    }
}

proof fn lemma_nonblank_plain(rs: Seq<Seq<char>>)
    requires
        forall|i: int| 0 <= i < rs.len() ==> plain_line(#[trigger] rs[i]),
    ensures
        nonblank_trimmed(rs) == rs,
    decreases rs.len(),
{
    if rs.len() > 0 {
        let init = rs.drop_last();
        assert forall|i: int| 0 <= i < init.len() implies plain_line(#[trigger] init[i]) by {
            assert(init[i] == rs[i]);
        }
        lemma_nonblank_plain(init);
        assert(plain_line(rs[rs.len() - 1]));
        lemma_trim_id(rs.last());
        assert(nonblank_trimmed(rs) =~= rs);
    }
}

proof fn lemma_nonblank_plain_of(ls: Seq<Seq<char>>)
    requires
        forall|i: int, j: int| 0 <= i < ls.len() && 0 <= j < ls[i].len() ==> #[trigger] ls[i][j] != '\n',
    ensures
        forall|i: int| 0 <= i < nonblank_trimmed(ls).len() ==> plain_line(#[trigger] nonblank_trimmed(ls)[i]),
    decreases ls.len(),
{
    if ls.len() > 0 {
        let init = ls.drop_last();
        assert forall|i: int, j: int| 0 <= i < init.len() && 0 <= j < init[i].len() implies #[trigger] init[i][j]
            != '\n' by {
            assert(init[i] == ls[i]);
        }
        lemma_nonblank_plain_of(init);
        let l = ls.last();
        if trim(l).len() > 0 {
            assert forall|j: int| 0 <= j < l.len() implies #[trigger] l[j] != '\n' by {
                assert(l == ls[ls.len() - 1]);
            }
            lemma_trim_plain(l);
        }
        let nb = nonblank_trimmed(ls);
        let ni = nonblank_trimmed(init);
        assert forall|i: int| 0 <= i < nb.len() implies plain_line(#[trigger] nb[i]) by {
            if i < ni.len() {
                assert(nb[i] == ni[i]);
            } else {
                assert(nb[i] == trim(l));
            }
        }
    }
}

/// Every recipient that a recipients file lists is a non-empty line without
/// whitespace at its ends.
pub proof fn recipients_read_are_plain(content: Seq<char>)
    ensures
        forall|i: int|
            0 <= i < spec_recipients_of(content).len() ==> plain_line(
                #[trigger] spec_recipients_of(content)[i],
            ),
{
    lemma_lines_no_newline(content);
    lemma_nonblank_plain_of(lines(content));
}

/// Reading a recipients file, writing the list back and reading it again
/// gives the same list.
pub proof fn recipients_read_write_read(content: Seq<char>)
    ensures
        spec_recipients_of(spec_recipients_content(spec_recipients_of(content))) == spec_recipients_of(
            content,
        ),
{
    recipients_read_are_plain(content);
    recipients_write_read(spec_recipients_of(content));
}

/// Reading back a recipients file that envlock wrote gives the recipients it
/// was written with, provided each is a non-empty single line without
/// whitespace at its ends (as recipients that envlock accepts are).
pub proof fn recipients_write_read(recipients: Seq<Seq<char>>)
    requires
        forall|i: int| 0 <= i < recipients.len() ==> plain_line(#[trigger] recipients[i]),
    ensures
        spec_recipients_of(spec_recipients_content(recipients)) == recipients,
{
    if recipients.len() == 0 {
        let c = seq!['\n'];
        assert(nl_index(c) == 0);
        assert(c.take(0) =~= Seq::<char>::empty());
        assert(c.skip(1) =~= Seq::<char>::empty());
        let e = Seq::<char>::empty();
        assert(strip_cr(c.take(0)) =~= e);
        assert(lines(e) == Seq::<Seq<char>>::empty());
        assert(lines(c) == seq![strip_cr(c.take(0))] + lines(c.skip(1)));
        assert(lines(c) =~= seq![e]);
        assert(trim(e).len() == 0) by {
            lemma_trim_id(e);
        }
        let one = seq![e];
        assert(one.drop_last() =~= Seq::<Seq<char>>::empty());
        assert(one.last() == e);
        assert(nonblank_trimmed(one.drop_last()) == Seq::<Seq<char>>::empty());
        assert(nonblank_trimmed(one) =~= Seq::<Seq<char>>::empty());
    } else {
        lemma_terminated_lines(recipients);
        lemma_nonblank_plain(recipients);
    }
}

} // verus!
