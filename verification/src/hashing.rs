//! The polynomial rolling hash that keys the failure cache file: for each
//! character of the input, `h = h * 31 + code_point`, wrapping modulo 2^64.

use vstd::prelude::*;
use vstd::string::*;
use vstd::wrapping::u64_specs;

verus! {

/// The hash of a character sequence: accumulator starts at 0 and folds each
/// character in with `h * 31 + c`, wrapping modulo 2^64.
pub open spec fn hash_spec(s: Seq<char>) -> u64
    decreases s.len(),
{
    if s.len() == 0 {
        0u64
    } else {
        u64_specs::wrapping_add(
            u64_specs::wrapping_mul(hash_spec(s.drop_last()), 31u64),
            s.last() as u64,
        )
    }
}

/// Derives the cache-file key from a path string. Deterministic: the result
/// is a function of the characters of `input` alone.
pub fn hash(input: &str) -> (h: u64)
    ensures
        h == hash_spec(input@),
{
    let n = input.unicode_len();
    let mut h: u64 = 0;
    let mut i: usize = 0;
    while i < n
        invariant
            0 <= i <= n,
            n == input@.len(),
            h == hash_spec(input@.take(i as int)),
        decreases n - i,
    {
        let c = input.get_char(i);
        h = h.wrapping_mul(31).wrapping_add(c as u64);
        proof {
            let t = input@.take(i + 1);
            assert(t.drop_last() =~= input@.take(i as int));
            assert(t.last() == input@[i as int]);
        }
        i = i + 1;
    }
    proof {
        assert(input@.take(n as int) =~= input@);
    }
    h
}

/// The hash is a pure function of the input string: identical inputs give
/// identical hashes, on every call.
pub proof fn lemma_hash_deterministic(s: Seq<char>, t: Seq<char>)
    requires
        s == t,
    ensures
        hash_spec(s) == hash_spec(t),
{
}

} // verus!
