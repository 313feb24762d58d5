//! The failure-output scanner: a line-by-line state machine that counts
//! exact `failures:` marker lines and, once the second marker has been seen,
//! collects every line indented by four or more spaces, trimmed, skipping
//! lines that trim to nothing.

use crate::text::{line_views, trim_spec, trim_str, str_eq};
use vstd::prelude::*;
use vstd::string::*;

verus! {

/// The marker line that separates the diagnostic dump from the final
/// summary of failing test names.
pub open spec fn marker_line() -> Seq<char> {
    "failures:"@
}

/// A line is a candidate name line when it starts with four spaces
/// (more leading spaces still match).
pub open spec fn is_candidate(l: Seq<char>) -> bool {
    l.len() >= 4 && l[0] == ' ' && l[1] == ' ' && l[2] == ' ' && l[3] == ' '
}

/// The mathematical scanner state: the names collected so far and the
/// number of marker lines seen, saturating at `u32::MAX`.
pub ghost struct ScanModel {
    pub names: Seq<Seq<char>>,
    pub count: nat,
}

pub open spec fn scan_init() -> ScanModel {
    ScanModel { names: Seq::empty(), count: 0 }
}

/// The marker count after one more line: up by one on an exact marker line,
/// unchanged otherwise, never past `u32::MAX`.
pub open spec fn step_count(c: nat, l: Seq<char>) -> nat {
    if l == marker_line() {
        if c < u32::MAX {
            (c + 1) as nat
        } else {
            c
        }
    } else {
        c
    }
}

/// One step of the scanner on a single line. The marker check comes first,
/// so collection is judged against the count that includes this very line.
pub open spec fn scan_step(m: ScanModel, l: Seq<char>) -> ScanModel {
    let c = step_count(m.count, l);
    if c == 2 && is_candidate(l) && trim_spec(l).len() > 0 {
        ScanModel { names: m.names.push(trim_spec(l)), count: c }
    } else {
        ScanModel { names: m.names, count: c }
    }
}

/// The scanner folded over a whole sequence of lines.
pub open spec fn scan_lines(m: ScanModel, lines: Seq<Seq<char>>) -> ScanModel
    decreases lines.len(),
{
    if lines.len() == 0 {
        m
    } else {
        scan_lines(scan_step(m, lines[0]), lines.drop_first())
    }
}

/// The names a fresh scan of `lines` collects.
pub open spec fn collected(lines: Seq<Seq<char>>) -> Seq<Seq<char>> {
    scan_lines(scan_init(), lines).names
}

/// The scanner's executable state.
pub struct State {
    pub names: Vec<String>,
    pub f_count: u32,
}

impl View for State {
    type V = ScanModel;

    open spec fn view(&self) -> ScanModel {
        ScanModel { names: line_views(self.names@), count: self.f_count as nat }
    }
}

impl Default for State {
    /// A fresh scanner state: nothing collected, no marker seen.
    fn default() -> (s: State)
        ensures
            s@ == scan_init(),
    {
        let s = State { names: Vec::new(), f_count: 0 };
        proof {
            assert(s@.names =~= scan_init().names);
        }
        s
    }
}

fn is_marker(l: &str) -> (r: bool)
    ensures
        r == (l@ == marker_line()),
{
    str_eq(l, "failures:")
}

fn has_four_space_prefix(l: &str) -> (r: bool)
    ensures
        r == is_candidate(l@),
{
    let n = l.unicode_len();
    if n < 4 {
        return false;
    }
    l.get_char(0) == ' ' && l.get_char(1) == ' ' && l.get_char(2) == ' ' && l.get_char(3) == ' '
}

/// Feeds one line of the test runner's output into the scanner state.
pub fn failed_tests_s(l: &str, state: &mut State)
    ensures
        final(state)@ == scan_step(old(state)@, l@),
{
    if is_marker(l) {
        if state.f_count < u32::MAX {
            state.f_count = state.f_count + 1;
        }
    }
    if state.f_count == 2 && has_four_space_prefix(l) {
        let name = trim_str(l);
        if name.unicode_len() > 0 {
            let ghost before = state.names@;
            state.names.push(name.to_owned());
            proof {
                assert(line_views(state.names@) =~= line_views(before).push(trim_spec(l@)));
            }
        }
    }
}

/// Feeds a whole transcript, line by line in order, into the scanner state.
pub fn scan_transcript(lines: &Vec<String>, state: &mut State)
    ensures
        final(state)@ == scan_lines(old(state)@, line_views(lines@)),
{
    let n = lines.len();
    let mut i: usize = 0;
    while i < n
        invariant
            0 <= i <= n,
            n == lines@.len(),
            state@ == scan_lines(old(state)@, line_views(lines@).take(i as int)),
        decreases n - i,
    {
        failed_tests_s(lines[i].as_str(), state);
        proof {
            let vs = line_views(lines@);
            assert(vs.take(i + 1).drop_last() =~= vs.take(i as int));
            assert(vs.take(i + 1).last() == lines@[i as int]@);
            lemma_scan_snoc(old(state)@, vs.take(i as int), vs[i as int]);
            assert(vs.take(i as int).push(vs[i as int]) =~= vs.take(i + 1));
        }
        i = i + 1;
    }
    proof {
        assert(line_views(lines@).take(n as int) =~= line_views(lines@));
    }
}

/// Folding one more line at the end is one more step.
pub proof fn lemma_scan_snoc(m: ScanModel, lines: Seq<Seq<char>>, l: Seq<char>)
    ensures
        scan_lines(m, lines.push(l)) == scan_step(scan_lines(m, lines), l),
    decreases lines.len(),
{
    if lines.len() == 0 {
        assert(lines.push(l).drop_first() =~= Seq::<Seq<char>>::empty());
        assert(lines.push(l)[0] == l);
        assert(scan_lines(m, lines.push(l)) == scan_lines(scan_step(m, l), Seq::empty()));
    } else {
        assert(lines.push(l)[0] == lines[0]);
        assert(lines.push(l).drop_first() =~= lines.drop_first().push(l));
        assert(scan_lines(m, lines.push(l)) == scan_lines(
            scan_step(m, lines[0]),
            lines.drop_first().push(l),
        ));
        lemma_scan_snoc(scan_step(m, lines[0]), lines.drop_first(), l);
        assert(scan_lines(m, lines) == scan_lines(scan_step(m, lines[0]), lines.drop_first()));
    }
}

/// The number of exact marker lines in a transcript.
pub open spec fn marker_count(lines: Seq<Seq<char>>) -> nat
    decreases lines.len(),
{
    if lines.len() == 0 {
        0
    } else {
        marker_count(lines.drop_last()) + (if lines.last() == marker_line() {
            1nat
        } else {
            0nat
        })
    }
}

/// The marker count, saturated at `u32::MAX` as the scanner keeps it.
pub open spec fn saturated(c: nat) -> nat {
    if c < u32::MAX {
        c
    } else {
        u32::MAX as nat
    }
}

/// After a fresh scan, the state's counter is the transcript's marker
/// count, saturated.
pub proof fn lemma_scan_count(lines: Seq<Seq<char>>)
    ensures
        scan_lines(scan_init(), lines).count == saturated(marker_count(lines)),
    decreases lines.len(),
{
    if lines.len() == 0 {
    } else {
        let pre = lines.drop_last();
        lemma_scan_count(pre);
        assert(pre.push(lines.last()) =~= lines);
        lemma_scan_snoc(scan_init(), pre, lines.last());
    }
}

/// Whether line `i` of the transcript is captured: it is a candidate line,
/// trims to something non-empty, and exactly two marker lines occur in the
/// transcript up to and including line `i` itself.
pub open spec fn is_captured_at(lines: Seq<Seq<char>>, i: int) -> bool {
    is_candidate(lines[i]) && trim_spec(lines[i]).len() > 0 && marker_count(lines.take(i + 1))
        == 2
}

/// The captured lines of a transcript, stated declaratively: the trimmed
/// contents of exactly the captured line positions, in order.
pub open spec fn captured_spec(lines: Seq<Seq<char>>) -> Seq<Seq<char>>
    decreases lines.len(),
{
    if lines.len() == 0 {
        Seq::empty()
    } else {
        let pre = captured_spec(lines.drop_last());
        if is_captured_at(lines, lines.len() - 1) {
            pre.push(trim_spec(lines.last()))
        } else {
            pre
        }
    }
}

/// Captured positions are stable under extending the transcript: whether
/// line `i` is captured depends only on the lines up to `i`.
proof fn lemma_captured_at_extend(lines: Seq<Seq<char>>, l: Seq<char>, i: int)
    requires
        0 <= i < lines.len(),
    ensures
        is_captured_at(lines.push(l), i) == is_captured_at(lines, i),
{
    assert(lines.push(l)[i] == lines[i]);
    assert(lines.push(l).take(i + 1) =~= lines.take(i + 1));
}

proof fn lemma_captured_spec_extend(lines: Seq<Seq<char>>, l: Seq<char>)
    ensures
        captured_spec(lines.push(l)) == if is_captured_at(lines.push(l), lines.len() as int) {
            captured_spec(lines).push(trim_spec(l))
        } else {
            captured_spec(lines)
        },
    decreases lines.len(),
{
    let ext = lines.push(l);
    assert(ext.drop_last() =~= lines);
    assert(ext.last() == l);
}

/// The scanner collects exactly the captured lines: those starting with
/// four or more spaces strictly after the second exact `failures:` marker,
/// trimmed, with lines that trim to nothing excluded.
pub proof fn lemma_collected_is_captured(lines: Seq<Seq<char>>)
    ensures
        collected(lines) == captured_spec(lines),
    decreases lines.len(),
{
    if lines.len() == 0 {
    } else {
        let pre = lines.drop_last();
        let l = lines.last();
        lemma_collected_is_captured(pre);
        assert(pre.push(l) =~= lines);
        lemma_scan_snoc(scan_init(), pre, l);
        lemma_scan_count(pre);
        lemma_captured_spec_extend(pre, l);
        let c2 = step_count(saturated(marker_count(pre)), l);
        assert(lines.take(lines.len() as int) =~= lines);
        assert(lines.take(lines.len() as int).drop_last() =~= pre);
        assert(marker_count(lines) == marker_count(pre) + (if l == marker_line() {
            1nat
        } else {
            0nat
        }));
        assert(c2 == saturated(marker_count(lines)));
        assert((c2 == 2) == (marker_count(lines) == 2));
    }
}

/// Before the second exact `failures:` marker nothing is ever collected: a
/// transcript with at most one marker line yields no names at all.
pub proof fn lemma_no_second_marker(lines: Seq<Seq<char>>)
    requires
        marker_count(lines) <= 1,
    ensures
        collected(lines) == Seq::<Seq<char>>::empty(),
    decreases lines.len(),
{
    lemma_collected_is_captured(lines);
    lemma_captured_empty(lines);
}

proof fn lemma_captured_empty(lines: Seq<Seq<char>>)
    requires
        marker_count(lines) <= 1,
    ensures
        captured_spec(lines) == Seq::<Seq<char>>::empty(),
    decreases lines.len(),
{
    if lines.len() == 0 {
    } else {
        let pre = lines.drop_last();
        lemma_captured_empty(pre);
        let i = lines.len() - 1;
        assert(lines.take(i + 1) =~= lines);
    }
}

/// Scanning is a pure function of the transcript: two scans from fresh
/// states over the same lines collect the same names, in the same order.
pub proof fn lemma_scan_idempotent(first: ScanModel, second: ScanModel, lines: Seq<Seq<char>>)
    requires
        first == scan_init(),
        second == scan_init(),
    ensures
        scan_lines(first, lines).names == scan_lines(second, lines).names,
{
}

} // verus!
