//! Character and string helpers shared by the scanner and the cache codec:
//! the whitespace predicate, whitespace trimming, and string equality over
//! character sequences.

use vstd::prelude::*;
use vstd::string::*;

verus! {

/// The Unicode `White_Space` code points, the set that trimming removes.
pub open spec fn is_space(c: char) -> bool {
    let u = c as int;
    u == 0x20 || u == 0x09 || u == 0x0A || u == 0x0B || u == 0x0C || u == 0x0D || u == 0x85
        || u == 0xA0 || u == 0x1680 || (0x2000 <= u && u <= 0x200A) || u == 0x2028 || u == 0x2029
        || u == 0x202F || u == 0x205F || u == 0x3000
}

/// The views of a sequence of strings, element by element.
pub open spec fn line_views(lines: Seq<String>) -> Seq<Seq<char>> {
    Seq::new(lines.len(), |i: int| lines[i]@)
}

/// What is left of `s` after removing its leading whitespace.
pub open spec fn drop_leading(s: Seq<char>) -> Seq<char>
    decreases s.len(),
{
    if s.len() > 0 && is_space(s[0]) {
        drop_leading(s.drop_first())
    } else {
        s
    }
}

/// What is left of `s` after removing its trailing whitespace.
pub open spec fn drop_trailing(s: Seq<char>) -> Seq<char>
    decreases s.len(),
{
    if s.len() > 0 && is_space(s.last()) {
        drop_trailing(s.drop_last())
    } else {
        s
    }
}

/// `s` with leading and trailing whitespace removed.
pub open spec fn trim_spec(s: Seq<char>) -> Seq<char> {
    drop_trailing(drop_leading(s))
}

pub fn is_space_char(c: char) -> (r: bool)
    ensures
        r == is_space(c),
{
    let u = c as u32;
    u == 0x20 || u == 0x09 || u == 0x0A || u == 0x0B || u == 0x0C || u == 0x0D || u == 0x85
        || u == 0xA0 || u == 0x1680 || (0x2000 <= u && u <= 0x200A) || u == 0x2028 || u == 0x2029
        || u == 0x202F || u == 0x205F || u == 0x3000
}

/// Dropping leading whitespace keeps the suffix that starts at the first
/// non-whitespace character.
proof fn lemma_drop_leading_at(s: Seq<char>, i: int)
    requires
        0 <= i <= s.len(),
        forall|j: int| 0 <= j < i ==> is_space(s[j]),
        i < s.len() ==> !is_space(s[i]),
    ensures
        drop_leading(s) == s.subrange(i, s.len() as int),
    decreases i,
{
    if i == 0 {
        assert(s.subrange(0, s.len() as int) =~= s);
    } else {
        assert(is_space(s[0]));
        lemma_drop_leading_at(s.drop_first(), i - 1);
        assert(s.drop_first().subrange(i - 1, s.drop_first().len() as int) =~= s.subrange(
            i,
            s.len() as int,
        ));
    }
}

/// Dropping trailing whitespace keeps the prefix that ends after the last
/// non-whitespace character.
proof fn lemma_drop_trailing_at(s: Seq<char>, j: int)
    requires
        0 <= j <= s.len(),
        forall|k: int| j <= k < s.len() ==> is_space(s[k]),
        j > 0 ==> !is_space(s[j - 1]),
    ensures
        drop_trailing(s) == s.subrange(0, j),
    decreases s.len() - j,
{
    if j == s.len() {
        if s.len() > 0 {
            assert(!is_space(s.last()));
        }
        assert(s.subrange(0, s.len() as int) =~= s);
    } else {
        assert(is_space(s.last()));
        lemma_drop_trailing_at(s.drop_last(), j);
        assert(s.drop_last().subrange(0, j) =~= s.subrange(0, j));
    }
}

/// Whitespace trimming, as `str::trim` performs it.
pub fn trim_str<'a>(l: &'a str) -> (r: &'a str)
    ensures
        r@ == trim_spec(l@),
{
    let n = l.unicode_len();
    let mut i: usize = 0;
    while i < n && is_space_char(l.get_char(i))
        invariant
            0 <= i <= n,
            n == l@.len(),
            forall|j: int| 0 <= j < i ==> is_space(l@[j]),
        decreases n - i,
    {
        i = i + 1;
    }
    let mut j: usize = n;
    while j > i && is_space_char(l.get_char(j - 1))
        invariant
            i <= j <= n,
            n == l@.len(),
            forall|k: int| j <= k < n ==> is_space(l@[k]),
        decreases j,
    {
        j = j - 1;
    }
    proof {
        lemma_drop_leading_at(l@, i as int);
        let sub = l@.subrange(i as int, n as int);
        assert(forall|k: int|
            j - i <= k < sub.len() ==> is_space(#[trigger] sub[k]) == is_space(l@[k + i]));
        if j > i {
            assert(sub[j - i - 1] == l@[j - 1]);
        }
        lemma_drop_trailing_at(sub, j - i);
        assert(sub.subrange(0, j - i) =~= l@.subrange(i as int, j as int));
    }
    l.substring_char(i, j)
}

/// Equality of two strings as character sequences.
pub fn str_eq(a: &str, b: &str) -> (r: bool)
    ensures
        r == (a@ == b@),
{
    let an = a.unicode_len();
    let bn = b.unicode_len();
    if an != bn {
        return false;
    }
    let mut i: usize = 0;
    while i < an
        invariant
            0 <= i <= an,
            an == a@.len(),
            an == b@.len(),
            forall|j: int| 0 <= j < i ==> a@[j] == b@[j],
        decreases an - i,
    {
        if a.get_char(i) != b.get_char(i) {
            return false;
        }
        i = i + 1;
    }
    proof {
        assert(a@ =~= b@);
    }
    true
}

} // verus!
