//! Where the ledger lives.
use vstd::prelude::*;
use vstd::string::*;


verus! {

/// The ledger's place under the home directory.
pub open spec fn ledger_suffix() -> Seq<char> {
    ".local/state/careen/ledger.jsonl"@
}

/// `base` joined with the relative path `rel`, as a Unix path: a `/` goes
/// between them unless `base` is empty or already ends in `/`.
pub open spec fn join_path(base: Seq<char>, rel: Seq<char>) -> Seq<char> {
    if base.len() == 0 || base.last() == '/' {
        base + rel
    } else {
        base + seq!['/'] + rel
    }
}

/// The ledger file: the path given, else `.local/state/careen/ledger.jsonl`
/// under the home directory, else under `/tmp`.
pub open spec fn ledger_path_of(given: Option<Seq<char>>, home: Option<Seq<char>>) -> Seq<char> {
    match given {
        Some(p) => p,
        None => join_path(
            match home {
                Some(h) => h,
                None => "/tmp"@,
            },
            ledger_suffix(),
        ),
    }
}

/// Whether the text ends with `/`.
fn ends_with_slash(s: &str) -> (r: bool)
    ensures
        r == (s@.len() > 0 && s@.last() == '/'),
{
    let n = s.unicode_len();
    if n == 0 {
        false
    } else {
        s.get_char(n - 1) == '/'
    }
}

/// The ledger file: `given` when there is one, else
/// `.local/state/careen/ledger.jsonl` under `home` (under `/tmp` when no home
/// directory is known).
pub fn ledger_path(given: Option<&str>, home: Option<&str>) -> (r: String)
    ensures
        r@ == ledger_path_of(
            match given {
                Some(p) => Some(p@),
                None => None,
            },
            match home {
                Some(h) => Some(h@),
                None => None,
            },
        ),
{
    match given {
        Some(p) => String::from_str(p),
        None => {
            let base: &str = match home {
                Some(h) => h,
                None => "/tmp",
            };
            let mut path = String::from_str(base);
            if base.unicode_len() > 0 && !ends_with_slash(base) {
                path.append("/");
                proof {
                    reveal_strlit("/");
                }
            }
            path.append(".local/state/careen/ledger.jsonl");
            path
        },
    }
}

} // verus!
