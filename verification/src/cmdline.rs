//! Orchestrator-side pure logic: deriving the cache file's name from the
//! hash, and building the subprocess argument list that re-runs previously
//! failing tests with an exact-match filter.

use crate::text::{line_views, str_eq};
use vstd::prelude::*;
use vstd::string::*;

verus! {

/// The decimal digit characters.
pub open spec fn digit_char(d: int) -> char {
    if d == 0 {
        '0'
    } else if d == 1 {
        '1'
    } else if d == 2 {
        '2'
    } else if d == 3 {
        '3'
    } else if d == 4 {
        '4'
    } else if d == 5 {
        '5'
    } else if d == 6 {
        '6'
    } else if d == 7 {
        '7'
    } else if d == 8 {
        '8'
    } else {
        '9'
    }
}

/// The decimal digits of `n`, most significant first, no leading zeros
/// (a single `'0'` for zero).
pub open spec fn dec_spec(n: nat) -> Seq<char>
    decreases n,
{
    if n < 10 {
        seq![digit_char(n as int)]
    } else {
        dec_spec(n / 10).push(digit_char((n % 10) as int))
    }
}

/// Writes `n` in decimal.
pub fn u64_to_dec(n: u64) -> (r: String)
    ensures
        r@ == dec_spec(n as nat),
    decreases n,
{
    let d = (n % 10) as usize;
    proof {
        reveal_strlit("0123456789");
    }
    let digit = "0123456789".substring_ascii(d, d + 1);
    proof {
        assert(digit@ =~= seq![digit_char(d as int)]);
    }
    if n < 10 {
        digit.to_owned()
    } else {
        let mut s = u64_to_dec(n / 10);
        s.append(digit);
        proof {
            assert(dec_spec((n / 10) as nat) + seq![digit_char((n % 10) as int)] =~= dec_spec(
                (n / 10) as nat,
            ).push(digit_char((n % 10) as int)));
        }
        s
    }
}

/// The cache file's name for a given manifest-path hash.
pub fn cache_file_name(h: u64) -> (r: String)
    ensures
        r@ == "testf-"@ + dec_spec(h as nat) + ".txt"@,
{
    let mut r = String::from_str("testf-");
    let dec = u64_to_dec(h);
    r.append(dec.as_str());
    r.append(".txt");
    r
}

/// Whether an argument list already carries the `--` separator.
pub open spec fn has_separator(args: Seq<Seq<char>>) -> bool {
    exists|k: int| 0 <= k < args.len() && args[k] == "--"@
}

/// The subprocess argument list: the caller's arguments unchanged, and,
/// only when prior failing names exist, a `--` separator (unless already
/// present), each prior name verbatim, and the exact-match flag.
pub open spec fn build_args_spec(args: Seq<Seq<char>>, prior: Seq<Seq<char>>) -> Seq<Seq<char>> {
    if prior.len() == 0 {
        args
    } else {
        let base = if has_separator(args) {
            args
        } else {
            args.push("--"@)
        };
        base + prior + seq!["--exact"@]
    }
}

/// Builds the subprocess argument list from the caller's arguments and the
/// previously failing names.
pub fn build_args(args: &Vec<String>, prior: &Vec<String>) -> (r: Vec<String>)
    ensures
        line_views(r@) == build_args_spec(line_views(args@), line_views(prior@)),
{
    let n = args.len();
    let mut r: Vec<String> = Vec::new();
    let mut k: usize = 0;
    while k < n
        invariant
            0 <= k <= n,
            n == args@.len(),
            line_views(r@) == line_views(args@).take(k as int),
        decreases n - k,
    {
        let ghost before = r@;
        r.push(args[k].clone());
        proof {
            assert(line_views(r@) =~= line_views(before).push(args@[k as int]@));
            assert(line_views(args@).take(k as int).push(args@[k as int]@) =~= line_views(
                args@,
            ).take(k + 1));
        }
        k = k + 1;
    }
    proof {
        assert(line_views(args@).take(n as int) =~= line_views(args@));
    }
    if prior.len() == 0 {
        return r;
    }
    let mut found = false;
    let mut j: usize = 0;
    while j < n
        invariant
            0 <= j <= n,
            n == args@.len(),
            found == exists|k: int| 0 <= k < j && line_views(args@)[k] == "--"@,
        decreases n - j,
    {
        if str_eq(args[j].as_str(), "--") {
            found = true;
            proof {
                assert(line_views(args@)[j as int] == "--"@);
            }
        }
        j = j + 1;
    }
    proof {
        assert(found == has_separator(line_views(args@)));
    }
    if !found {
        let ghost before = r@;
        r.push(String::from_str("--"));
        proof {
            assert(line_views(r@) =~= line_views(args@).push("--"@));
        }
    }
    let ghost base = line_views(r@);
    let m = prior.len();
    let mut p: usize = 0;
    while p < m
        invariant
            0 <= p <= m,
            m == prior@.len(),
            line_views(r@) == base + line_views(prior@).take(p as int),
        decreases m - p,
    {
        let ghost before = r@;
        r.push(prior[p].clone());
        proof {
            assert(line_views(r@) =~= line_views(before).push(prior@[p as int]@));
            assert(line_views(prior@).take(p as int).push(prior@[p as int]@) =~= line_views(
                prior@,
            ).take(p + 1));
            assert((base + line_views(prior@).take(p as int)).push(prior@[p as int]@) =~= base
                + line_views(prior@).take(p + 1));
        }
        p = p + 1;
    }
    let ghost with_prior = line_views(r@);
    r.push(String::from_str("--exact"));
    proof {
        assert(line_views(prior@).take(m as int) =~= line_views(prior@));
        assert(with_prior =~= base + line_views(prior@));
        assert(line_views(r@) =~= (base + line_views(prior@)) + seq!["--exact"@]);
    }
    r
}

} // verus!
