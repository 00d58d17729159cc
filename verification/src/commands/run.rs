//! `envlock run -- <command...>`: the variables that a vault injects into a
//! command's environment.

use vstd::prelude::*;
use crate::envfile::{
    dotenvy_firsts, fits_lines, is_env_key, pairs_view, parse_env_lines, reports_fault, reports_outcome, spec_assemble,
    spec_parse_lines, LineFault,
};
use crate::envmap::keys_of;
use crate::error::{Error, Purpose};
use crate::text::{lines, trim};
use vstd::utf8::{decode_utf8, valid_utf8};

verus! {

/// The error for a missing command, with the usage line.
pub fn require_command(command: &Vec<String>, usage: &str) -> (res: Result<(), Error>)
    ensures
        command@.len() == 0 <==> res is Err,
        res matches Err(e) ==> e matches Error::NoCommand(u) && u@ == usage@,
{
    if command.len() == 0 {
        return Err(Error::NoCommand(String::from_str(usage)));
    }
    Ok(())
}

/// The key-value pairs to inject from a vault's decrypted `plaintext`, its
/// lines parsed one by one. An empty vault, and one without any pair, are
/// refused, naming `vault`.
pub fn run_pairs(plaintext: &[u8], vault: &str) -> (res: Result<Vec<(String, String)>, Error>)
    ensures
        plaintext@.len() == 0 ==> (res matches Err(Error::EmptyVault(v, p)) && v@ == vault@ && p
            == Purpose::Run),
        plaintext@.len() > 0 && !valid_utf8(plaintext@) ==> res matches Err(Error::NotUtf8),
        plaintext@.len() > 0 && valid_utf8(plaintext@) ==> ({
            let ls = lines(decode_utf8(plaintext@));
            match spec_parse_lines(ls, ls.len() as int) {
                Ok(ks) => if ks.len() == 0 {
                    res matches Err(Error::NoPairs(v, p)) && v@ == vault@ && p == Purpose::Run
                } else {
                    res matches Ok(ps) && keys_of(pairs_view(ps@)) == ks
                },
                Err(f) => res matches Err(e) && reports_fault(e, f),
            }
        }),
        plaintext@.len() > 0 && valid_utf8(plaintext@) ==> ({
            let ls = lines(decode_utf8(plaintext@));
            exists|fs: Seq<Option<Result<(Seq<char>, Seq<char>), Seq<char>>>>|
                #[trigger] fits_lines(ls, fs) && run_outcome(res, spec_assemble(ls, fs, ls.len() as int), vault@)
        }),
        plaintext@.len() > 0 && valid_utf8(plaintext@) ==> ({
            let ls = lines(decode_utf8(plaintext@));
            (forall|i: int| 0 <= i < ls.len() ==> !(#[trigger] trim(ls[i])).contains('$'))
                ==> run_outcome(res, spec_assemble(ls, dotenvy_firsts(ls), ls.len() as int), vault@)
        }),
        res matches Ok(ps) ==> forall|j: int| 0 <= j < ps@.len() ==> is_env_key(#[trigger] ps@[j].0@),
{
    if plaintext.len() == 0 {
        return Err(Error::EmptyVault(String::from_str(vault), Purpose::Run));
    }
    let r = parse_env_lines(plaintext);
    let ghost ls = lines(decode_utf8(plaintext@));
    let ghost fs = choose|fs: Seq<Option<Result<(Seq<char>, Seq<char>), Seq<char>>>>|
        #[trigger] fits_lines(ls, fs) && reports_outcome(r, spec_assemble(ls, fs, ls.len() as int));
    let pairs = r?;
    if pairs.len() == 0 {
        let res = Err(Error::NoPairs(String::from_str(vault), Purpose::Run));
        proof {
            assert(fits_lines(ls, fs));
        }
        return res;
    }
    proof {
        assert(fits_lines(ls, fs));
    }
    Ok(pairs)
}

/// What `run` makes of the outcome `r` of reading a vault's lines: an
/// empty list of pairs is refused, naming the vault.
pub open spec fn run_outcome(
    res: Result<Vec<(String, String)>, Error>,
    r: Result<Seq<(Seq<char>, Seq<char>)>, LineFault>,
    vault: Seq<char>,
) -> bool {
    match r {
        Ok(ps) => if ps.len() == 0 {
            res matches Err(Error::NoPairs(v, p)) && v@ == vault && p == Purpose::Run
        } else {
            res matches Ok(v) && pairs_view(v@) == ps
        },
        Err(f) => res matches Err(e) && reports_fault(e, f),
    }
}

} // verus!
