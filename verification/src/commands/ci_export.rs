//! `envlock ci export`: a vault's pairs written out for a CI provider's
//! secret import, as dotenv lines, a JSON object, or GitHub's env file.

use vstd::prelude::*;
use crate::envfile::{dollar_byte, dotenvy_keys, dotenvy_shape, pairs_view, parse_env, shape_collect, spec_collect_pairs};
use crate::envmap::keys_of;
use crate::error::{Error, Purpose};
use crate::text::{cat3, chars_of, contains_str, has_sub, str_eq, views};

verus! {

/// The JSON escape of one character.
pub open spec fn escape_char(c: char) -> Seq<char> {
    if c == '\\' {
        seq!['\\', '\\']
    } else if c == '"' {
        seq!['\\', '"']
    } else if c == '\n' {
        seq!['\\', 'n']
    } else if c == '\r' {
        seq!['\\', 'r']
    } else if c == '\t' {
        seq!['\\', 't']
    } else {
        seq![c]
    }
}

/// `s` with backslash, double quote, newline, carriage return and tab
/// escaped for a JSON string.
pub open spec fn spec_escape_json(s: Seq<char>) -> Seq<char>
    decreases s.len(),
{
    if s.len() == 0 {
        seq![]
    } else {
        spec_escape_json(s.drop_last()) + escape_char(s.last())
    }
}

fn escape_piece(c: char) -> (res: &'static str)
    ensures
        res@ == escape_char(c) || (res@.len() == 0 && escape_char(c) == seq![c]),
{
    proof {
        reveal_strlit("\\\\");
        reveal_strlit("\\\"");
        reveal_strlit("\\n");
        reveal_strlit("\\r");
        reveal_strlit("\\t");
        reveal_strlit("");
    }
    if c == '\\' {
        "\\\\"
    } else if c == '"' {
        "\\\""
    } else if c == '\n' {
        "\\n"
    } else if c == '\r' {
        "\\r"
    } else if c == '\t' {
        "\\t"
    } else {
        ""
    }
}

/// `s` escaped for a JSON string.
pub fn escape_json(s: &str) -> (res: String)
    ensures
        res@ == spec_escape_json(s@),
{
    let cs = chars_of(s);
    let mut out = String::new();
    assert(s@.take(0) =~= Seq::<char>::empty());
    for i in 0..cs.len()
        invariant
            cs@ == s@,
            out@ == spec_escape_json(s@.take(i as int)),
    {
        assert(s@.take(i + 1).drop_last() =~= s@.take(i as int));
        assert(s@.take(i + 1).last() == cs@[i as int]);
        let p = escape_piece(cs[i]);
        if p.unicode_len() > 0 {
            out.append(p);
        } else {
            out.append(s.substring_char(i, i + 1));
            assert(s@.subrange(i as int, i + 1) =~= seq![cs@[i as int]]);
        }
        assert(out@ =~= spec_escape_json(s@.take(i + 1)));
    }
    assert(s@.take(cs@.len() as int) =~= s@);
    out
}

/// The dotenv lines of `ps`.
pub open spec fn dotenv_lines(ps: Seq<(Seq<char>, Seq<char>)>) -> Seq<Seq<char>> {
    ps.map_values(|p: (Seq<char>, Seq<char>)| p.0 + "="@ + p.1)
}

/// The JSON member line of pair `i` of `n`.
pub open spec fn json_member(p: (Seq<char>, Seq<char>), last: bool) -> Seq<char> {
    "  \""@ + p.0 + "\": \""@ + spec_escape_json(p.1) + "\""@ + if last { ""@ } else { ","@ }
}

/// The JSON object lines of `ps`.
pub open spec fn json_lines(ps: Seq<(Seq<char>, Seq<char>)>) -> Seq<Seq<char>> {
    seq!["{"@] + Seq::new(ps.len(), |i: int| json_member(ps[i], i == ps.len() - 1)) + seq!["}"@]
}

/// The GitHub env-file lines of one pair: a heredoc when the value spans
/// lines.
pub open spec fn github_entry(p: (Seq<char>, Seq<char>)) -> Seq<Seq<char>> {
    if has_sub(p.1, "\n"@) {
        seq![p.0 + "<<EOF"@, p.1, "EOF"@]
    } else {
        seq![p.0 + "="@ + p.1]
    }
}

/// The GitHub env-file lines of `ps`.
pub open spec fn github_lines(ps: Seq<(Seq<char>, Seq<char>)>) -> Seq<Seq<char>>
    decreases ps.len(),
{
    if ps.len() == 0 {
        seq![]
    } else {
        github_lines(ps.drop_last()) + github_entry(ps.last())
    }
}

/// The lines of `ps` in `format`, if it is one envlock knows.
pub open spec fn spec_export_lines(ps: Seq<(Seq<char>, Seq<char>)>, format: Seq<char>) -> Option<Seq<Seq<char>>> {
    if format == "dotenv"@ {
        Some(dotenv_lines(ps))
    } else if format == "json"@ {
        Some(json_lines(ps))
    } else if format == "github"@ {
        Some(github_lines(ps))
    } else {
        None
    }
}

/// The lines that print `pairs` in `format` (`dotenv`, `json` or `github`).
pub fn export_lines(pairs: &Vec<(String, String)>, format: &str) -> (res: Result<Vec<String>, Error>)
    ensures
        match spec_export_lines(pairs_view(pairs@), format@) {
            Some(ls) => res matches Ok(v) && views(v@) == ls,
            None => res matches Err(Error::UnknownFormat(f)) && f@ == format@,
        },
{
    let ghost ps = pairs_view(pairs@);
    let mut out: Vec<String> = Vec::new();
    if str_eq(format, "dotenv") {
        for i in 0..pairs.len()
            invariant
                ps == pairs_view(pairs@),
                views(out@) == dotenv_lines(ps.take(i as int)),
        {
            let ghost before = views(out@);
            out.push(cat3(pairs[i].0.as_str(), "=", pairs[i].1.as_str()));
            assert(views(out@) =~= before.push(ps[i as int].0 + "="@ + ps[i as int].1));
            assert(ps.take(i + 1) =~= ps.take(i as int).push(ps[i as int]));
            assert(views(out@) =~= dotenv_lines(ps.take(i + 1)));
        }
        assert(ps.take(ps.len() as int) =~= ps);
        Ok(out)
    } else if str_eq(format, "json") {
        out.push(String::from_str("{"));
        let n = pairs.len();
        for i in 0..n
            invariant
                n == pairs@.len(),
                ps == pairs_view(pairs@),
                views(out@) == seq!["{"@] + Seq::new(i as nat, |j: int| json_member(ps[j], j == ps.len() - 1)),
        {
            let mut s = cat3("  \"", pairs[i].0.as_str(), "\": \"");
            let e = escape_json(pairs[i].1.as_str());
            s.append(e.as_str());
            s.append("\"");
            if i == n - 1 {
                s.append("");
            } else {
                s.append(",");
            }
            let ghost before = views(out@);
            out.push(s);
            assert(views(out@) =~= before.push(json_member(ps[i as int], i == ps.len() - 1)));
            assert(views(out@) =~= seq!["{"@] + Seq::new((i + 1) as nat, |j: int| json_member(ps[j], j == ps.len() - 1)));
        }
        let ghost before = views(out@);
        out.push(String::from_str("}"));
        assert(views(out@) =~= json_lines(ps));
        Ok(out)
    } else if str_eq(format, "github") {
        proof {
            reveal_strlit("\n");
            reveal_strlit("");
        }
        for i in 0..pairs.len()
            invariant
                ps == pairs_view(pairs@),
                views(out@) == github_lines(ps.take(i as int)),
        {
            let ghost before = views(out@);
            proof {
                reveal_strlit("");
            }
            assert(ps.take(i + 1).drop_last() =~= ps.take(i as int));
            assert(ps.take(i + 1).last() == ps[i as int]);
            if contains_str(pairs[i].1.as_str(), "\n") {
                out.push(cat3(pairs[i].0.as_str(), "<<EOF", ""));
                out.push(pairs[i].1.clone());
                out.push(String::from_str("EOF"));
                assert(views(out@) =~= before + github_entry(ps[i as int]));
            } else {
                out.push(cat3(pairs[i].0.as_str(), "=", pairs[i].1.as_str()));
                assert(views(out@) =~= before + github_entry(ps[i as int]));
            }
            assert(views(out@) =~= github_lines(ps.take(i + 1)));
        }
        assert(ps.take(ps.len() as int) =~= ps);
        Ok(out)
    } else {
        Err(Error::UnknownFormat(String::from_str(format)))
    }
}

/// Whether envlock knows the export format `format`.
pub open spec fn known_format(format: Seq<char>) -> bool {
    format == "dotenv"@ || format == "json"@ || format == "github"@
}

/// What `ci export` prints for the pairs parsed from the vault named
/// `vault`, in `format`: a vault without pairs, then an unknown format, are
/// refused.
pub fn export_pairs(pairs: &Vec<(String, String)>, vault: &str, format: &str) -> (res: Result<Vec<String>, Error>)
    ensures
        pairs@.len() == 0 ==> (res matches Err(Error::NoPairs(v, p)) && v@ == vault@ && p
            == Purpose::Export),
        pairs@.len() > 0 ==> match spec_export_lines(pairs_view(pairs@), format@) {
            Some(ls) => res matches Ok(v) && views(v@) == ls,
            None => res matches Err(Error::UnknownFormat(f)) && f@ == format@,
        },
{
    if pairs.len() == 0 {
        return Err(Error::NoPairs(String::from_str(vault), Purpose::Export));
    }
    export_lines(pairs, format)
}

/// What `ci export` prints for a vault's decrypted `plaintext` in `format`,
/// and the number of secrets exported: an empty vault, content that dotenvy
/// rejects, a vault without pairs and an unknown format are refused, in that
/// order.
pub fn export(plaintext: &[u8], vault: &str, format: &str) -> (res: Result<(Vec<String>, usize), Error>)
    ensures
        plaintext@.len() == 0 ==> (res matches Err(Error::EmptyVault(v, p)) && v@ == vault@ && p
            == Purpose::Export),
        plaintext@.len() > 0 ==> match shape_collect(dotenvy_keys(plaintext@)) {
            Err(m) => res matches Err(Error::EnvParse(e)) && e@ == m,
            Ok(ks) => if ks.len() == 0 {
                res matches Err(Error::NoPairs(v, p)) && v@ == vault@ && p == Purpose::Export
            } else if !known_format(format@) {
                res matches Err(Error::UnknownFormat(f)) && f@ == format@
            } else {
                res matches Ok(out) && out.1 == ks.len() && exists|ps: Seq<(Seq<char>, Seq<char>)>|
                    keys_of(ps) == ks && #[trigger] spec_export_lines(ps, format@) == Some(
                        views(out.0@),
                    )
            },
        },
        plaintext@.len() > 0 && !plaintext@.contains(dollar_byte()) ==> match spec_collect_pairs(
            dotenvy_shape(plaintext@),
        ) {
            Ok(ps) => ps.len() > 0 && known_format(format@) ==> (res matches Ok(out)
                && spec_export_lines(ps, format@) == Some(views(out.0@))),
            Err(_) => true,
        },
{
    if plaintext.len() == 0 {
        return Err(Error::EmptyVault(String::from_str(vault), Purpose::Export));
    }
    let pairs = parse_env(plaintext)?;
    let lines = export_pairs(&pairs, vault, format)?;
    proof {
        let ps = pairs_view(pairs@);
        assert(keys_of(ps).len() == pairs@.len());
        assert(spec_export_lines(ps, format@) == Some(views(lines@)));
    }
    Ok((lines, pairs.len()))
}

} // verus!
