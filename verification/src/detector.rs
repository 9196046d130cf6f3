//! Detection of recurring patterns in sequences of values.
use vstd::prelude::*;

use crate::motif::{contour_of, Direction};

verus! {

/// Finds recurring patterns (motifs) in sequences of values.
#[derive(Debug, Clone, Copy)]
pub struct MotifDetector {
    /// Minimum pattern length to detect.
    pub min_length: usize,
    /// Maximum pattern length to detect.
    pub max_length: usize,
    /// Minimum number of occurrences for a pattern to count as a motif.
    pub min_occurrences: usize,
}

/// A detected pattern with its occurrence count and positions.
#[derive(Debug, Clone, PartialEq)]
pub struct DetectedPattern {
    /// The pattern elements.
    pub pattern: Vec<i32>,
    /// Number of times it appears.
    pub occurrences: usize,
    /// Starting positions where it appears, in increasing order.
    pub positions: Vec<usize>,
}

/// The mathematical content of a `DetectedPattern`.
pub struct PatternView {
    pub pattern: Seq<i32>,
    pub occurrences: int,
    pub positions: Seq<int>,
}

impl View for DetectedPattern {
    type V = PatternView;

    open spec fn view(&self) -> PatternView {
        PatternView {
            pattern: self.pattern@,
            occurrences: self.occurrences as int,
            positions: self.positions@.map_values(|p: usize| p as int),
        }
    }
}

// ----------------------------------------------------------------------------
// Specification
// ----------------------------------------------------------------------------

/// The `len` elements that start at `start`.
pub open spec fn window(s: Seq<i32>, start: int, len: int) -> Seq<i32> {
    s.subrange(start, start + len)
}

/// The starting positions below `k` at which `pat` occurs, in increasing order.
pub open spec fn occurrences_below(s: Seq<i32>, pat: Seq<i32>, k: int) -> Seq<int>
    decreases k,
{
    if k <= 0 {
        Seq::empty()
    } else if window(s, k - 1, pat.len() as int) == pat {
        occurrences_below(s, pat, k - 1).push(k - 1)
    } else {
        occurrences_below(s, pat, k - 1)
    }
}

/// Every starting position at which `pat` occurs in `s`, in increasing order.
pub open spec fn occurrence_positions(s: Seq<i32>, pat: Seq<i32>) -> Seq<int> {
    occurrences_below(s, pat, s.len() - pat.len() + 1)
}

/// Whether the window at `start` already occurs at an earlier position.
pub open spec fn seen_before(s: Seq<i32>, start: int, len: int) -> bool {
    exists|k: int| 0 <= k < start && #[trigger] window(s, k, len) == window(s, start, len)
}

/// The window at `start` with all of its occurrences.
pub open spec fn pattern_at(s: Seq<i32>, start: int, len: int) -> PatternView {
    let pat = window(s, start, len);
    let pos = occurrence_positions(s, pat);
    PatternView { pattern: pat, occurrences: pos.len() as int, positions: pos }
}

/// The distinct windows of length `len` that start below `upto`, in order of
/// first appearance, that occur at least `min_occ` times.
pub open spec fn patterns_of_len(s: Seq<i32>, len: int, upto: int, min_occ: int) -> Seq<PatternView>
    decreases upto,
{
    if upto <= 0 {
        Seq::empty()
    } else {
        let prev = patterns_of_len(s, len, upto - 1, min_occ);
        let p = pattern_at(s, upto - 1, len);
        if !seen_before(s, upto - 1, len) && p.occurrences >= min_occ {
            prev.push(p)
        } else {
            prev
        }
    }
}

/// The recurring patterns of every length from `lo` to `hi`, shorter first.
pub open spec fn patterns_in_lengths(s: Seq<i32>, lo: int, hi: int, min_occ: int) -> Seq<
    PatternView,
>
    decreases hi - lo + 1,
{
    if hi < lo {
        Seq::empty()
    } else {
        patterns_in_lengths(s, lo, hi - 1, min_occ) + patterns_of_len(
            s,
            hi,
            s.len() - hi + 1,
            min_occ,
        )
    }
}

/// Insert `p` after every element of `q` that occurs at least as often,
/// scanning from the back.
pub open spec fn insert_by_occurrences(q: Seq<PatternView>, p: PatternView) -> Seq<PatternView>
    decreases q.len(),
{
    if q.len() == 0 || q.last().occurrences >= p.occurrences {
        q.push(p)
    } else {
        insert_by_occurrences(q.drop_last(), p).push(q.last())
    }
}

/// Stable sort by occurrence count, most frequent first.
pub open spec fn sort_by_occurrences(v: Seq<PatternView>) -> Seq<PatternView>
    decreases v.len(),
{
    if v.len() == 0 {
        Seq::empty()
    } else {
        insert_by_occurrences(sort_by_occurrences(v.drop_last()), v.last())
    }
}

/// The patterns that `detect` reports on `s`.
pub open spec fn detected(s: Seq<i32>, d: MotifDetector) -> Seq<PatternView> {
    let max_len = if d.max_length <= s.len() {
        d.max_length as int
    } else {
        s.len() as int
    };
    sort_by_occurrences(
        patterns_in_lengths(s, d.min_length as int, max_len, d.min_occurrences as int),
    )
}

/// The code of a direction: up 1, down -1, same 0.
pub open spec fn direction_code(d: Direction) -> i32 {
    match d {
        Direction::Up => 1i32,
        Direction::Down => -1i32,
        Direction::Same => 0i32,
    }
}

/// The contour of `s` encoded as integers.
pub open spec fn contour_codes(s: Seq<i32>) -> Seq<i32> {
    contour_of(s).map_values(|d: Direction| direction_code(d))
}

pub open spec fn views(v: Seq<DetectedPattern>) -> Seq<PatternView> {
    v.map_values(|p: DetectedPattern| p@)
}

// ----------------------------------------------------------------------------
// Lemmas
// ----------------------------------------------------------------------------

proof fn lemma_insert_at(q: Seq<PatternView>, p: PatternView, pos: int)
    requires
        0 <= pos <= q.len(),
        forall|j: int| pos <= j < q.len() ==> (#[trigger] q[j]).occurrences < p.occurrences,
        pos > 0 ==> q[pos - 1].occurrences >= p.occurrences,
    ensures
        insert_by_occurrences(q, p) == q.insert(pos, p),
    decreases q.len(),
{
    if q.len() == pos {
        assert(q.push(p) =~= q.insert(pos, p));
    } else {
        let r = q.drop_last();
        assert(q.last() == q[q.len() - 1]);
        assert forall|j: int| pos <= j < r.len() implies (#[trigger] r[j]).occurrences
            < p.occurrences by {
            assert(r[j] == q[j]);
        }
        if pos > 0 {
            assert(r[pos - 1] == q[pos - 1]);
        }
        lemma_insert_at(r, p, pos);
        assert(r.insert(pos, p).push(q.last()) =~= q.insert(pos, p));
    }
}

// ----------------------------------------------------------------------------
// Executable code
// ----------------------------------------------------------------------------

/// Whether the windows of length `len` at `i` and `j` hold the same values.
fn windows_equal(s: &[i32], i: usize, j: usize, len: usize) -> (r: bool)
    requires
        i + len <= s@.len(),
        j + len <= s@.len(),
    ensures
        r == (window(s@, i as int, len as int) == window(s@, j as int, len as int)),
{
    let n = s.len();
    let mut k: usize = 0;
    while k < len
        invariant
            n == s@.len(),
            i + len <= s@.len(),
            j + len <= s@.len(),
            0 <= k <= len,
            forall|t: int|
                0 <= t < k ==> #[trigger] window(s@, i as int, len as int)[t] == window(
                    s@,
                    j as int,
                    len as int,
                )[t],
        decreases len - k,
    {
        if s[i + k] != s[j + k] {
            assert(window(s@, i as int, len as int)[k as int] != window(
                s@,
                j as int,
                len as int,
            )[k as int]);
            return false;
        }
        k = k + 1;
    }
    assert(window(s@, i as int, len as int) =~= window(s@, j as int, len as int));
    true
}

/// Whether the window at `start` occurs at an earlier position.
fn occurs_earlier(s: &[i32], start: usize, len: usize) -> (r: bool)
    requires
        start + len <= s@.len(),
    ensures
        r == seen_before(s@, start as int, len as int),
{
    let mut k: usize = 0;
    while k < start
        invariant
            start + len <= s@.len(),
            0 <= k <= start,
            forall|t: int|
                0 <= t < k ==> #[trigger] window(s@, t, len as int) != window(
                    s@,
                    start as int,
                    len as int,
                ),
        decreases start - k,
    {
        if windows_equal(s, k, start, len) {
            return true;
        }
        k = k + 1;
    }
    false
}

/// Every position at which the window at `start` occurs.
fn find_positions(s: &[i32], start: usize, len: usize) -> (r: Vec<usize>)
    requires
        start + len <= s@.len(),
        s@.len() < usize::MAX,
    ensures
        r@.map_values(|p: usize| p as int) == occurrence_positions(
            s@,
            window(s@, start as int, len as int),
        ),
{
    let n = s.len();
    let ghost pat = window(s@, start as int, len as int);
    let mut r: Vec<usize> = Vec::new();
    let mut i: usize = 0;
    assert(r@.map_values(|p: usize| p as int) =~= occurrences_below(s@, pat, 0));
    while i <= n - len
        invariant
            n == s@.len(),
            n < usize::MAX,
            start + len <= n,
            pat == window(s@, start as int, len as int),
            pat.len() == len,
            0 <= i <= n - len + 1,
            r@.map_values(|p: usize| p as int) == occurrences_below(s@, pat, i as int),
        decreases n - len + 1 - i,
    {
        if windows_equal(s, i, start, len) {
            r.push(i);
            assert(r@.map_values(|p: usize| p as int) =~= occurrences_below(s@, pat, i as int)
                .push(i as int));
        }
        i = i + 1;
    }
    r
}

/// Insert `p` into `out` at the place that keeps `out` sorted by occurrence
/// count, most frequent first, after every pattern occurring at least as often.
fn insert_sorted(out: &mut Vec<DetectedPattern>, p: DetectedPattern)
    ensures
        views(final(out)@) == insert_by_occurrences(views(old(out)@), p@),
{
    let ghost q = views(out@);
    let mut pos = out.len();
    while pos > 0 && out[pos - 1].occurrences < p.occurrences
        invariant
            q == views(out@),
            0 <= pos <= out@.len(),
            forall|j: int| pos <= j < q.len() ==> (#[trigger] q[j]).occurrences < p@.occurrences,
        decreases pos,
    {
        assert(q[pos - 1] == out@[pos - 1]@);
        pos = pos - 1;
    }
    proof {
        if pos > 0 {
            assert(q[pos - 1] == out@[pos - 1]@);
        }
        lemma_insert_at(q, p@, pos as int);
    }
    out.insert(pos, p);
    assert(views(out@) =~= q.insert(pos as int, p@));
}

impl Default for MotifDetector {
    fn default() -> (d: MotifDetector)
        ensures
            d.min_length == 2,
            d.max_length == 8,
            d.min_occurrences == 2,
    {
        MotifDetector::new()
    }
}

impl MotifDetector {
    /// A detector for patterns of length 2 to 8 that occur at least twice.
    pub fn new() -> (d: MotifDetector)
        ensures
            d.min_length == 2,
            d.max_length == 8,
            d.min_occurrences == 2,
    {
        MotifDetector { min_length: 2, max_length: 8, min_occurrences: 2 }
    }

    /// A detector with the given parameters.
    pub fn with_params(min_length: usize, max_length: usize, min_occurrences: usize) -> (d:
        MotifDetector)
        ensures
            d.min_length == min_length,
            d.max_length == max_length,
            d.min_occurrences == min_occurrences,
    {
        MotifDetector { min_length, max_length, min_occurrences }
    }

    /// All windows of a length between `min_length` and `max_length` that
    /// occur at least `min_occurrences` times, each once, with every position
    /// at which it occurs; sorted by occurrence count, most frequent first,
    /// and among equal counts shorter first, then by first appearance.
    pub fn detect(&self, sequence: &[i32]) -> (r: Vec<DetectedPattern>)
        requires
            sequence@.len() < usize::MAX,
        ensures
            views(r@) == detected(sequence@, *self),
    {
        let s = sequence;
        let n = s.len();
        let max_len = if self.max_length <= n {
            self.max_length
        } else {
            n
        };
        let lo = self.min_length;
        let mo = self.min_occurrences;
        let mut out: Vec<DetectedPattern> = Vec::new();
        let mut len = lo;
        while len <= max_len
            invariant
                n == s@.len(),
                n < usize::MAX,
                max_len <= n,
                max_len == (if self.max_length <= n {
                    self.max_length
                } else {
                    n
                }),
                lo == self.min_length,
                mo == self.min_occurrences,
                lo <= len,
                len <= max_len + 1 || len == lo,
                views(out@) == sort_by_occurrences(
                    patterns_in_lengths(s@, lo as int, len - 1, mo as int),
                ),
            decreases max_len + 1 - len,
        {
            let ghost before = patterns_in_lengths(s@, lo as int, len - 1, mo as int);
            let mut start: usize = 0;
            while start <= n - len
                invariant
                    n == s@.len(),
                    n < usize::MAX,
                    lo <= len <= max_len <= n,
                    mo == self.min_occurrences,
                    0 <= start <= n - len + 1,
                    before == patterns_in_lengths(s@, lo as int, len - 1, mo as int),
                    views(out@) == sort_by_occurrences(
                        before + patterns_of_len(s@, len as int, start as int, mo as int),
                    ),
                decreases n - len + 1 - start,
            {
                let ghost cur = before + patterns_of_len(s@, len as int, start as int, mo as int);
                if !occurs_earlier(s, start, len) {
                    let positions = find_positions(s, start, len);
                    if positions.len() >= mo {
                        let mut pattern: Vec<i32> = Vec::new();
                        let mut k: usize = start;
                        while k < start + len
                            invariant
                                start + len <= n,
                                n == s@.len(),
                                start <= k <= start + len,
                                pattern@ == s@.subrange(start as int, k as int),
                            decreases start + len - k,
                        {
                            pattern.push(s[k]);
                            k = k + 1;
                            assert(pattern@ =~= s@.subrange(start as int, k as int));
                        }
                        let occ = positions.len();
                        let p = DetectedPattern { pattern, occurrences: occ, positions };
                        assert(p@ == pattern_at(s@, start as int, len as int));
                        assert(cur.push(p@).drop_last() =~= cur);
                        assert(before + patterns_of_len(s@, len as int, start + 1, mo as int)
                            =~= cur.push(p@));
                        insert_sorted(&mut out, p);
                    } else {
                        assert(before + patterns_of_len(s@, len as int, start + 1, mo as int)
                            =~= cur);
                    }
                } else {
                    assert(before + patterns_of_len(s@, len as int, start + 1, mo as int) =~= cur);
                }
                start = start + 1;
            }
            assert(patterns_in_lengths(s@, lo as int, len as int, mo as int) =~= before
                + patterns_of_len(s@, len as int, (n - len + 1) as int, mo as int));
            len = len + 1;
        }
        assert(patterns_in_lengths(s@, lo as int, len - 1, mo as int) == patterns_in_lengths(
            s@,
            lo as int,
            max_len as int,
            mo as int,
        ));
        out
    }

    /// The first pattern that `detect` reports, if any.
    pub fn detect_most_frequent(&self, sequence: &[i32]) -> (r: Option<DetectedPattern>)
        requires
            sequence@.len() < usize::MAX,
        ensures
            detected(sequence@, *self).len() == 0 ==> r is None,
            detected(sequence@, *self).len() > 0 ==> (r matches Some(p) && p@ == detected(
                sequence@,
                *self,
            )[0]),
    {
        let mut all = self.detect(sequence);
        if all.len() == 0 {
            None
        } else {
            assert(views(all@)[0] == all@[0]@);
            Some(all.remove(0))
        }
    }

    /// Detection on the shape of `sequence` rather than its values: each
    /// step is encoded as 1 (up), -1 (down) or 0 (same), and the patterns of
    /// that code sequence are reported, their positions counted in steps.
    pub fn detect_by_contour(&self, sequence: &[i32]) -> (r: Vec<DetectedPattern>)
        ensures
            views(r@) == detected(contour_codes(sequence@), *self),
    {
        let s = sequence;
        let n = s.len();
        let mut codes: Vec<i32> = Vec::new();
        let mut i: usize = 0;
        while i + 1 < n
            invariant
                n == s@.len(),
                0 <= i,
                n > 0 ==> i < n,
                n == 0 ==> i == 0,
                codes@.len() == i,
                forall|k: int| 0 <= k < i ==> codes@[k] == contour_codes(s@)[k],
            decreases n - i,
        {
            let c: i32 = if s[i + 1] > s[i] {
                1
            } else if s[i + 1] < s[i] {
                -1
            } else {
                0
            };
            assert(contour_codes(s@)[i as int] == c);
            codes.push(c);
            i = i + 1;
        }
        assert(codes@ =~= contour_codes(s@));
        assert(codes@.len() < usize::MAX);
        self.detect(codes.as_slice())
    }
}

} // verus!
