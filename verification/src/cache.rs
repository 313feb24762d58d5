//! The failure cache: its text codec — names joined by single spaces on
//! save, content split on every single space on load — and an in-memory
//! cache holding the same model as the cache file on disk.

use crate::text::line_views;
use vstd::prelude::*;
use vstd::string::*;

verus! {

/// Splitting a text on every single space character. The result always has
/// at least one token; consecutive spaces yield empty tokens, and the empty
/// text yields one empty token.
pub open spec fn split_spec(s: Seq<char>) -> Seq<Seq<char>>
    decreases s.len(),
{
    if s.len() == 0 {
        seq![Seq::empty()]
    } else if s[0] == ' ' {
        seq![Seq::<char>::empty()] + split_spec(s.drop_first())
    } else {
        let rest = split_spec(s.drop_first());
        seq![seq![s[0]] + rest[0]] + rest.drop_first()
    }
}

/// Names joined by a single space, with no trailing separator.
pub open spec fn join_spec(names: Seq<Seq<char>>) -> Seq<char>
    decreases names.len(),
{
    if names.len() == 0 {
        Seq::empty()
    } else if names.len() == 1 {
        names[0]
    } else {
        join_spec(names.drop_last()) + seq![' '] + names.last()
    }
}

/// A name is storable verbatim when it contains no space character.
pub open spec fn space_free(name: Seq<char>) -> bool {
    forall|i: int| 0 <= i < name.len() ==> name[i] != ' '
}

/// A split has at least one token.
pub proof fn lemma_split_len(s: Seq<char>)
    ensures
        split_spec(s).len() >= 1,
    decreases s.len(),
{
    if s.len() == 0 {
    } else {
        lemma_split_len(s.drop_first());
    }
}

/// Prepending a space-free prefix extends the first token of a split.
proof fn lemma_split_prepend(w: Seq<char>, v: Seq<char>)
    requires
        space_free(w),
    ensures
        split_spec(w + v) == seq![w + split_spec(v)[0]] + split_spec(v).drop_first(),
    decreases w.len(),
{
    lemma_split_len(v);
    if w.len() == 0 {
        assert(w + v =~= v);
        assert(w + split_spec(v)[0] =~= split_spec(v)[0]);
        assert(seq![split_spec(v)[0]] + split_spec(v).drop_first() =~= split_spec(v));
    } else {
        let c = w[0];
        assert(c != ' ');
        assert((w + v).len() > 0);
        assert((w + v)[0] == c);
        assert((w + v).drop_first() =~= w.drop_first() + v);
        lemma_split_prepend(w.drop_first(), v);
        let rest = split_spec(w.drop_first() + v);
        assert(split_spec(w + v) == seq![seq![c] + rest[0]] + rest.drop_first());
        assert(rest[0] == w.drop_first() + split_spec(v)[0]);
        assert(seq![c] + (w.drop_first() + split_spec(v)[0]) =~= w + split_spec(v)[0]);
        assert(rest.drop_first() =~= split_spec(v).drop_first());
    }
}

/// A split cuts at every space: splitting around a single space is the
/// concatenation of the two sides' splits.
pub proof fn lemma_split_at_space(a: Seq<char>, b: Seq<char>)
    ensures
        split_spec(a + seq![' '] + b) == split_spec(a) + split_spec(b),
    decreases a.len(),
{
    lemma_split_len(b);
    if a.len() == 0 {
        let s = a + seq![' '] + b;
        assert(s.len() > 0);
        assert(s[0] == ' ');
        assert(s.drop_first() =~= b);
        assert(split_spec(s) == seq![Seq::<char>::empty()] + split_spec(b));
        assert(split_spec(a) =~= seq![Seq::<char>::empty()]);
    } else {
        let s = a + seq![' '] + b;
        let c = a[0];
        assert(s[0] == c);
        assert(s.drop_first() =~= a.drop_first() + seq![' '] + b);
        lemma_split_at_space(a.drop_first(), b);
        lemma_split_len(a.drop_first());
        if c == ' ' {
            assert(split_spec(s) == seq![Seq::<char>::empty()] + split_spec(
                a.drop_first() + seq![' '] + b,
            ));
            assert(split_spec(a) == seq![Seq::<char>::empty()] + split_spec(a.drop_first()));
            assert(seq![Seq::<char>::empty()] + (split_spec(a.drop_first()) + split_spec(b))
                =~= (seq![Seq::<char>::empty()] + split_spec(a.drop_first())) + split_spec(b));
        } else {
            let rest = split_spec(a.drop_first() + seq![' '] + b);
            assert(split_spec(s) == seq![seq![c] + rest[0]] + rest.drop_first());
            let ar = split_spec(a.drop_first());
            assert(rest == ar + split_spec(b));
            assert(rest[0] == ar[0]);
            assert(rest.drop_first() =~= ar.drop_first() + split_spec(b));
            assert(split_spec(a) == seq![seq![c] + ar[0]] + ar.drop_first());
            assert(seq![seq![c] + ar[0]] + (ar.drop_first() + split_spec(b)) =~= (seq![
                seq![c] + ar[0],
            ] + ar.drop_first()) + split_spec(b));
        }
    }
}

/// A space-free text splits into exactly itself.
proof fn lemma_split_space_free(w: Seq<char>)
    requires
        space_free(w),
    ensures
        split_spec(w) == seq![w],
{
    lemma_split_prepend(w, Seq::empty());
    assert(w + Seq::<char>::empty() =~= w);
    assert(w + split_spec(Seq::empty())[0] =~= w);
    assert(seq![w] + split_spec(Seq::<char>::empty()).drop_first() =~= seq![w]);
}

/// The cache codec round-trips: splitting the joined text gives back the
/// original names, for any non-empty sequence of space-free names. (The
/// empty sequence joins to the empty text, which splits into one empty
/// token instead.)
pub proof fn lemma_cache_round_trip(names: Seq<Seq<char>>)
    requires
        names.len() > 0,
        forall|i: int| 0 <= i < names.len() ==> space_free(#[trigger] names[i]),
    ensures
        split_spec(join_spec(names)) == names,
    decreases names.len(),
{
    if names.len() == 1 {
        lemma_split_space_free(names[0]);
        assert(seq![names[0]] =~= names);
    } else {
        let pre = names.drop_last();
        assert(forall|i: int| 0 <= i < pre.len() ==> space_free(#[trigger] pre[i]));
        lemma_cache_round_trip(pre);
        lemma_split_at_space(join_spec(pre), names.last());
        lemma_split_space_free(names.last());
        assert(pre + seq![names.last()] =~= names);
    }
}

/// Splits a cache text on every single space character.
pub fn split_names(s: &str) -> (r: Vec<String>)
    ensures
        line_views(r@) == split_spec(s@),
{
    let n = s.unicode_len();
    let mut r: Vec<String> = Vec::new();
    let mut start: usize = 0;
    let mut i: usize = 0;
    proof {
        assert(line_views(r@) =~= Seq::<Seq<char>>::empty());
        assert(s@.skip(0) =~= s@);
        assert(line_views(r@) + split_spec(s@) =~= split_spec(s@));
    }
    while i < n
        invariant
            0 <= start <= i <= n,
            n == s@.len(),
            forall|k: int| start <= k < i ==> s@[k] != ' ',
            split_spec(s@) == line_views(r@) + split_spec(s@.skip(start as int)),
        decreases n - i,
    {
        if s.get_char(i) == ' ' {
            let token = s.substring_char(start, i);
            let ghost before = r@;
            r.push(token.to_owned());
            proof {
                let w = s@.subrange(start as int, i as int);
                let tail = s@.skip(i + 1);
                assert(s@.skip(start as int) =~= w + seq![' '] + tail);
                lemma_split_at_space(w, tail);
                lemma_split_space_free(w);
                assert(line_views(r@) =~= line_views(before).push(w));
                assert(line_views(before).push(w) + split_spec(tail) =~= line_views(before) + (
                seq![w] + split_spec(tail)));
            }
            start = i + 1;
        }
        i = i + 1;
    }
    let token = s.substring_char(start, n);
    let ghost before = r@;
    r.push(token.to_owned());
    proof {
        let w = s@.subrange(start as int, n as int);
        assert(s@.skip(start as int) =~= w);
        lemma_split_space_free(w);
        assert(line_views(r@) =~= line_views(before).push(w));
        assert(line_views(before).push(w) =~= line_views(before) + seq![w]);
    }
    r
}

/// Joins names with single spaces, with no trailing separator.
pub fn join_names(names: &Vec<String>) -> (r: String)
    ensures
        r@ == join_spec(line_views(names@)),
{
    let n = names.len();
    let mut r = String::new();
    let mut k: usize = 0;
    while k < n
        invariant
            0 <= k <= n,
            n == names@.len(),
            r@ == join_spec(line_views(names@).take(k as int)),
        decreases n - k,
    {
        if k > 0 {
            r.append(" ");
        }
        r.append(names[k].as_str());
        proof {
            reveal_strlit(" ");
            assert(" "@ =~= seq![' ']);
            let vs = line_views(names@);
            assert(vs.take(k + 1).drop_last() =~= vs.take(k as int));
            assert(vs.take(k + 1).last() == names@[k as int]@);
            if k == 0 {
                assert(r@ =~= vs.take(1)[0]);
            } else {
                assert(r@ =~= join_spec(vs.take(k as int)) + seq![' '] + vs.take(k + 1).last());
            }
        }
        k = k + 1;
    }
    proof {
        if n == 0 {
            assert(line_views(names@).take(0) =~= line_views(names@));
        } else {
            assert(line_views(names@).take(n as int) =~= line_views(names@));
        }
    }
    r
}

/// What a cache holds: nothing, or one text blob.
pub type CacheModel = Option<Seq<char>>;

/// What loading yields: an absent cache reads as no names at all; a present
/// text splits on every single space.
pub open spec fn load_spec(m: CacheModel) -> Seq<Seq<char>> {
    match m {
        Option::None => Seq::empty(),
        Option::Some(content) => split_spec(content),
    }
}

/// What saving leaves behind: the joined names, overwriting any prior record.
pub open spec fn save_spec(names: Seq<Seq<char>>) -> CacheModel {
    Option::Some(join_spec(names))
}

/// What clearing leaves behind: no record.
pub open spec fn clear_spec() -> CacheModel {
    Option::None
}

/// Loading after save and clear yields no names: a cleared cache reads as
/// empty whatever was saved before.
pub proof fn lemma_save_clear_load(names: Seq<Seq<char>>)
    ensures
        load_spec(clear_spec()) == Seq::<Seq<char>>::empty(),
{
}

/// Loading a freshly saved record reproduces the saved names, for any
/// non-empty sequence of space-free names.
pub proof fn lemma_save_load(names: Seq<Seq<char>>)
    requires
        names.len() > 0,
        forall|i: int| 0 <= i < names.len() ==> space_free(#[trigger] names[i]),
    ensures
        load_spec(save_spec(names)) == names,
{
    lemma_cache_round_trip(names);
}

/// An in-memory failure cache, holding the same model a cache file does.
pub struct MemCache {
    pub record: Option<String>,
}

impl MemCache {
    pub open spec fn model(&self) -> CacheModel {
        match self.record {
            Option::None => Option::None,
            Option::Some(ref content) => Option::Some(content@),
        }
    }

    /// A cache with no record.
    pub fn new() -> (c: MemCache)
        ensures
            c.model() == clear_spec(),
    {
        MemCache { record: Option::None }
    }

    /// Reads the cached names: none when no record exists, else the record
    /// split on every single space.
    pub fn load(&self) -> (r: Vec<String>)
        ensures
            line_views(r@) == load_spec(self.model()),
    {
        match &self.record {
            Option::None => {
                let r = Vec::new();
                proof {
                    assert(line_views(r@) =~= Seq::<Seq<char>>::empty());
                }
                r
            },
            Option::Some(content) => split_names(content.as_str()),
        }
    }

    /// Overwrites the record with the joined names.
    pub fn save(&mut self, names: &Vec<String>)
        ensures
            final(self).model() == save_spec(line_views(names@)),
    {
        self.record = Option::Some(join_names(names));
    }

    /// Deletes the record; a no-op when none exists.
    pub fn clear(&mut self)
        ensures
            final(self).model() == clear_spec(),
    {
        self.record = Option::None;
    }

    /// Applies the end-of-run policy: on success the record is deleted; on
    /// failure the collected names overwrite it, even when none were
    /// collected.
    pub fn apply_run_outcome(&mut self, success: bool, names: &Vec<String>)
        ensures
            final(self).model() == if success {
                clear_spec()
            } else {
                save_spec(line_views(names@))
            },
    {
        if success {
            self.clear();
        } else {
            self.save(names);
        }
    }
}

} // verus!
