//! The `Motif` type: a short named sequence of integer values, with the
//! measurements that describe its shape.
use vstd::prelude::*;
use vstd::string::StringExecFns;

verus! {

/// Direction of motion between two consecutive values.
#[derive(Debug, Clone, Copy, PartialEq, Eq, Hash, Structural)]
pub enum Direction {
    Up,
    Down,
    Same,
}

/// The direction of a step of the given size.
pub open spec fn direction_of(delta: int) -> Direction {
    if delta > 0 {
        Direction::Up
    } else if delta < 0 {
        Direction::Down
    } else {
        Direction::Same
    }
}

/// A short pattern of values with a name and an optional identifier.
#[derive(Debug, PartialEq)]
pub struct Motif {
    /// The sequence of values (pitches, action codes, ...).
    pub elements: Vec<i32>,
    /// A human-readable label.
    pub name: String,
    /// An optional unique identifier.
    pub id: Option<String>,
}

/// The mathematical content of a `Motif`.
pub struct MotifView {
    pub elements: Seq<i32>,
    pub name: Seq<char>,
    pub id: Option<Seq<char>>,
}

impl View for Motif {
    type V = MotifView;

    open spec fn view(&self) -> MotifView {
        MotifView {
            elements: self.elements@,
            name: self.name@,
            id: match self.id {
                Some(s) => Some(s@),
                None => None,
            },
        }
    }
}

impl Clone for Motif {
    fn clone(&self) -> (res: Self)
        ensures
            res@ == self@,
    {
        let id = match &self.id {
            Some(s) => Some(s.clone()),
            None => None,
        };
        let elements = self.elements.clone();
        assert(elements@ =~= self.elements@);
        Motif { elements, name: self.name.clone(), id }
    }
}

// ----------------------------------------------------------------------------
// Specifications of the measurements
// ----------------------------------------------------------------------------

/// The step from element `i` to element `i + 1`.
pub open spec fn step(s: Seq<i32>, i: int) -> int {
    s[i + 1] - s[i]
}

/// The deltas between consecutive elements.
pub open spec fn intervals_of(s: Seq<i32>) -> Seq<int> {
    if s.len() == 0 {
        Seq::empty()
    } else {
        Seq::new((s.len() - 1) as nat, |i: int| step(s, i))
    }
}

/// Whether every delta between consecutive elements is an `i32`.
pub open spec fn intervals_fit(s: Seq<i32>) -> bool {
    forall|i: int| 0 <= i < s.len() - 1 ==> i32::MIN <= #[trigger] step(s, i) <= i32::MAX
}

/// The shape of the sequence: the direction of each step.
pub open spec fn contour_of(s: Seq<i32>) -> Seq<Direction> {
    intervals_of(s).map_values(|d: int| direction_of(d))
}

pub open spec fn max_int(a: int, b: int) -> int {
    if a >= b {
        a
    } else {
        b
    }
}

pub open spec fn min_int(a: int, b: int) -> int {
    if a <= b {
        a
    } else {
        b
    }
}

/// The largest element (0 for an empty sequence).
pub open spec fn seq_max(s: Seq<i32>) -> int
    decreases s.len(),
{
    if s.len() == 0 {
        0
    } else if s.len() == 1 {
        s[0] as int
    } else {
        max_int(seq_max(s.drop_last()), s.last() as int)
    }
}

/// The smallest element (0 for an empty sequence).
pub open spec fn seq_min(s: Seq<i32>) -> int
    decreases s.len(),
{
    if s.len() == 0 {
        0
    } else if s.len() == 1 {
        s[0] as int
    } else {
        min_int(seq_min(s.drop_last()), s.last() as int)
    }
}

/// The range covered by the values.
pub open spec fn span_of(s: Seq<i32>) -> int {
    seq_max(s) - seq_min(s)
}

pub open spec fn abs_int(x: int) -> int {
    if x < 0 {
        -x
    } else {
        x
    }
}

/// Sum of the absolute values.
pub open spec fn sum_abs(v: Seq<int>) -> int
    decreases v.len(),
{
    if v.len() == 0 {
        0
    } else {
        sum_abs(v.drop_last()) + abs_int(v.last())
    }
}

/// Total motion: the sum of the absolute intervals.
pub open spec fn total_motion_of(s: Seq<i32>) -> int {
    sum_abs(intervals_of(s))
}

/// Whether the interval sequence reads the same backwards.
pub open spec fn is_symmetrical_seq(s: Seq<i32>) -> bool {
    intervals_of(s) == intervals_of(s).reverse()
}

pub open spec fn min3(a: int, b: int, c: int) -> int {
    min_int(min_int(a, b), c)
}

/// Levenshtein distance between two sequences: the least number of single
/// element insertions, deletions and substitutions that turn one into the other.
pub open spec fn levenshtein(a: Seq<i32>, b: Seq<i32>) -> int
    decreases a.len() + b.len(),
{
    if a.len() == 0 {
        b.len() as int
    } else if b.len() == 0 {
        a.len() as int
    } else {
        min3(
            levenshtein(a.drop_last(), b) + 1,
            levenshtein(a, b.drop_last()) + 1,
            levenshtein(a.drop_last(), b.drop_last()) + (if a.last() == b.last() {
                0int
            } else {
                1int
            }),
        )
    }
}

// ----------------------------------------------------------------------------
// Lemmas
// ----------------------------------------------------------------------------

pub proof fn lemma_seq_max_bounds(s: Seq<i32>)
    requires
        s.len() > 0,
    ensures
        forall|i: int| 0 <= i < s.len() ==> s[i] <= seq_max(s),
        exists|i: int| 0 <= i < s.len() && s[i] == seq_max(s),
    decreases s.len(),
{
    if s.len() > 1 {
        lemma_seq_max_bounds(s.drop_last());
        let k = choose|i: int| 0 <= i < s.len() - 1 && s.drop_last()[i] == seq_max(s.drop_last());
        assert(s[k] == s.drop_last()[k]);
        assert forall|i: int| 0 <= i < s.len() implies s[i] <= seq_max(s) by {
            if i < s.len() - 1 {
                assert(s[i] == s.drop_last()[i]);
            }
        }
        if seq_max(s) == s.last() {
            assert(s[s.len() - 1] == seq_max(s));
        }
    } else {
        assert(s[0] == seq_max(s));
    }
}

pub proof fn lemma_seq_min_bounds(s: Seq<i32>)
    requires
        s.len() > 0,
    ensures
        forall|i: int| 0 <= i < s.len() ==> seq_min(s) <= s[i],
        exists|i: int| 0 <= i < s.len() && s[i] == seq_min(s),
    decreases s.len(),
{
    if s.len() > 1 {
        lemma_seq_min_bounds(s.drop_last());
        let k = choose|i: int| 0 <= i < s.len() - 1 && s.drop_last()[i] == seq_min(s.drop_last());
        assert(s[k] == s.drop_last()[k]);
        assert forall|i: int| 0 <= i < s.len() implies seq_min(s) <= s[i] by {
            if i < s.len() - 1 {
                assert(s[i] == s.drop_last()[i]);
            }
        }
        if seq_min(s) == s.last() {
            assert(s[s.len() - 1] == seq_min(s));
        }
    } else {
        assert(s[0] == seq_min(s));
    }
}

proof fn lemma_sum_abs_prefix(v: Seq<int>, k: int)
    requires
        0 <= k <= v.len(),
    ensures
        0 <= sum_abs(v.take(k)) <= sum_abs(v),
        forall|i: int| 0 <= i < v.len() ==> abs_int(#[trigger] v[i]) <= sum_abs(v),
    decreases v.len(),
{
    if v.len() == 0 {
        assert(v.take(k) =~= v);
    } else {
        if k == v.len() {
            assert(v.take(k) =~= v);
            lemma_sum_abs_prefix(v.drop_last(), k - 1);
        } else {
            assert(v.take(k) =~= v.drop_last().take(k));
            lemma_sum_abs_prefix(v.drop_last(), k);
        }
        assert forall|i: int| 0 <= i < v.len() implies abs_int(#[trigger] v[i]) <= sum_abs(v) by {
            if i < v.len() - 1 {
                assert(v[i] == v.drop_last()[i]);
            }
        }
    }
}

pub proof fn lemma_levenshtein_bound(a: Seq<i32>, b: Seq<i32>)
    ensures
        0 <= levenshtein(a, b) <= max_int(a.len() as int, b.len() as int),
    decreases a.len() + b.len(),
{
    if a.len() != 0 && b.len() != 0 {
        lemma_levenshtein_bound(a.drop_last(), b);
        lemma_levenshtein_bound(a, b.drop_last());
        lemma_levenshtein_bound(a.drop_last(), b.drop_last());
    }
}

// ----------------------------------------------------------------------------
// Executable code
// ----------------------------------------------------------------------------

/// The smallest and the largest element of a non-empty sequence.
fn extremes(s: &Vec<i32>) -> (r: (i32, i32))
    requires
        s@.len() > 0,
    ensures
        r.0 == seq_min(s@),
        r.1 == seq_max(s@),
{
    let n = s.len();
    let mut lo = s[0];
    let mut hi = s[0];
    let mut i: usize = 1;
    assert(s@.take(1).drop_last() =~= Seq::<i32>::empty());
    while i < n
        invariant
            n == s@.len(),
            1 <= i <= n,
            lo == seq_min(s@.take(i as int)),
            hi == seq_max(s@.take(i as int)),
        decreases n - i,
    {
        assert(s@.take(i + 1).drop_last() =~= s@.take(i as int));
        if s[i] < lo {
            lo = s[i];
        }
        if s[i] > hi {
            hi = s[i];
        }
        i = i + 1;
    }
    assert(s@.take(n as int) =~= s@);
    (lo, hi)
}

impl Motif {
    /// Create a new motif from a sequence of values.
    pub fn new(elements: Vec<i32>, name: &str) -> (m: Motif)
        ensures
            m@ == (MotifView { elements: elements@, name: name@, id: None }),
    {
        Motif { elements, name: String::from_str(name), id: None }
    }

    /// Create a motif with an identifier.
    pub fn with_id(elements: Vec<i32>, name: &str, id: &str) -> (m: Motif)
        ensures
            m@ == (MotifView { elements: elements@, name: name@, id: Some(id@) }),
    {
        Motif { elements, name: String::from_str(name), id: Some(String::from_str(id)) }
    }

    /// Number of elements in the motif.
    pub fn len(&self) -> (n: usize)
        ensures
            n == self.elements@.len(),
    {
        self.elements.len()
    }

    /// Whether the motif has no elements.
    pub fn is_empty(&self) -> (b: bool)
        ensures
            b == (self.elements@.len() == 0),
    {
        self.elements.len() == 0
    }

    /// The deltas between consecutive elements.
    pub fn intervals(&self) -> (ivs: Vec<i32>)
        requires
            intervals_fit(self.elements@),
        ensures
            ivs@.map_values(|x: i32| x as int) == intervals_of(self.elements@),
            self.elements@.len() > 0 ==> ivs@.len() == self.elements@.len() - 1,
            forall|k: int| 0 <= k < ivs@.len() ==> ivs@[k] == step(self.elements@, k),
    {
        let s = &self.elements;
        let n = s.len();
        let mut ivs: Vec<i32> = Vec::new();
        if n == 0 {
            assert(ivs@.map_values(|x: i32| x as int) =~= intervals_of(s@));
            return ivs;
        }
        let mut i: usize = 0;
        while i + 1 < n
            invariant
                n == s@.len(),
                n > 0,
                0 <= i < n,
                intervals_fit(s@),
                ivs@.len() == i,
                forall|k: int| 0 <= k < i ==> ivs@[k] == step(s@, k),
            decreases n - i,
        {
            assert(i32::MIN <= step(s@, i as int) <= i32::MAX);
            let d = s[i + 1] - s[i];
            ivs.push(d);
            i = i + 1;
        }
        assert(ivs@.map_values(|x: i32| x as int) =~= intervals_of(s@));
        ivs
    }

    /// The range covered by the motif: largest minus smallest element
    /// (0 for an empty motif).
    pub fn span(&self) -> (r: i32)
        requires
            span_of(self.elements@) <= i32::MAX,
        ensures
            r == span_of(self.elements@),
    {
        if self.elements.len() == 0 {
            return 0;
        }
        let (lo, hi) = extremes(&self.elements);
        proof {
            lemma_seq_max_bounds(self.elements@);
            lemma_seq_min_bounds(self.elements@);
        }
        hi - lo
    }

    /// Whether `span` can be computed: the range of the values is an `i32`.
    pub fn span_fits(&self) -> (b: bool)
        ensures
            b == (span_of(self.elements@) <= i32::MAX),
    {
        if self.elements.len() == 0 {
            return true;
        }
        let (lo, hi) = extremes(&self.elements);
        (hi as i64) - (lo as i64) <= i32::MAX as i64
    }

    /// Sum of the absolute intervals.
    pub fn total_motion(&self) -> (r: i32)
        requires
            intervals_fit(self.elements@),
            total_motion_of(self.elements@) <= i32::MAX,
        ensures
            r == total_motion_of(self.elements@),
    {
        let ivs = self.intervals();
        let ghost v = intervals_of(self.elements@);
        assert(ivs@.len() == v.len());
        assert forall|k: int| 0 <= k < v.len() implies ivs@[k] == v[k] by {
            assert(ivs@.map_values(|x: i32| x as int)[k] == v[k]);
        }
        let mut total: i32 = 0;
        let mut i: usize = 0;
        assert(v.take(0) =~= Seq::<int>::empty());
        while i < ivs.len()
            invariant
                ivs@.len() == v.len(),
                forall|k: int| 0 <= k < v.len() ==> ivs@[k] == v[k],
                sum_abs(v) <= i32::MAX,
                0 <= i <= v.len(),
                total == sum_abs(v.take(i as int)),
            decreases v.len() - i,
        {
            proof {
                lemma_sum_abs_prefix(v, i + 1);
                assert(v.take(i + 1).drop_last() =~= v.take(i as int));
                assert(abs_int(v[i as int]) <= sum_abs(v));
            }
            let x = ivs[i];
            let a = if x < 0 { -x } else { x };
            total = total + a;
            i = i + 1;
        }
        assert(v.take(v.len() as int) =~= v);
        total
    }

    /// Whether the interval sequence is a palindrome.
    pub fn is_symmetrical(&self) -> (b: bool)
        requires
            intervals_fit(self.elements@),
        ensures
            b == is_symmetrical_seq(self.elements@),
    {
        let ivs = self.intervals();
        let ghost v = intervals_of(self.elements@);
        assert forall|k: int| 0 <= k < v.len() implies ivs@[k] == v[k] by {
            assert(ivs@.map_values(|x: i32| x as int)[k] == v[k]);
        }
        let n = ivs.len();
        let mut i: usize = 0;
        while i < n
            invariant
                v == intervals_of(self.elements@),
                n == v.len(),
                ivs@.len() == n,
                forall|k: int| 0 <= k < v.len() ==> ivs@[k] == v[k],
                0 <= i <= n,
                forall|k: int| 0 <= k < i ==> #[trigger] v[k] == v[n - 1 - k],
            decreases n - i,
        {
            if ivs[i] != ivs[n - 1 - i] {
                assert(v.reverse().len() == n);
                assert(v.reverse()[i as int] == v[n - 1 - i]);
                assert(v[i as int] != v.reverse()[i as int]);
                return false;
            }
            i = i + 1;
        }
        assert(v =~= v.reverse());
        true
    }

    /// The shape of the motif: the direction of each step.
    pub fn contour(&self) -> (c: Vec<Direction>)
        requires
            intervals_fit(self.elements@),
        ensures
            c@ == contour_of(self.elements@),
    {
        let ivs = self.intervals();
        let ghost v = intervals_of(self.elements@);
        assert forall|k: int| 0 <= k < v.len() implies ivs@[k] == v[k] by {
            assert(ivs@.map_values(|x: i32| x as int)[k] == v[k]);
        }
        let mut c: Vec<Direction> = Vec::new();
        let mut i: usize = 0;
        while i < ivs.len()
            invariant
                ivs@.len() == v.len(),
                forall|k: int| 0 <= k < v.len() ==> ivs@[k] == v[k],
                0 <= i <= v.len(),
                c@.len() == i,
                forall|k: int| 0 <= k < i ==> c@[k] == direction_of(v[k]),
            decreases v.len() - i,
        {
            let x = ivs[i];
            let d = if x > 0 {
                Direction::Up
            } else if x < 0 {
                Direction::Down
            } else {
                Direction::Same
            };
            c.push(d);
            i = i + 1;
        }
        assert(c@ =~= contour_of(self.elements@));
        c
    }

    /// Number of distinct values among the elements.
    pub fn distinct_count(&self) -> (n: usize)
        ensures
            n == self.elements@.to_set().len(),
    {
        broadcast use {vstd::set::group_set_axioms, vstd::seq_lib::seq_to_set_is_finite};

        let s = &self.elements;
        let n = s.len();
        let mut count: usize = 0;
        let mut i: usize = 0;
        assert(s@.take(0).to_set() =~= Set::<i32>::empty());
        while i < n
            invariant
                n == s@.len(),
                0 <= i <= n,
                count <= i,
                count == s@.take(i as int).to_set().len(),
            decreases n - i,
        {
            let mut seen = false;
            let mut k: usize = 0;
            while k < i
                invariant
                    n == s@.len(),
                    0 <= k <= i < n,
                    seen == exists|j: int| 0 <= j < k && s@[j] == s@[i as int],
                decreases i - k,
            {
                if s[k] == s[i] {
                    seen = true;
                }
                k = k + 1;
            }
            proof {
                let pre = s@.take(i as int);
                assert(s@.take(i + 1) =~= pre.push(s@[i as int]));
                pre.lemma_push_to_set_commute(s@[i as int]);
                if seen {
                    let j = choose|j: int| 0 <= j < i && s@[j] == s@[i as int];
                    assert(pre[j] == s@[i as int]);
                    assert(pre.to_set().contains(s@[i as int]));
                } else {
                    assert forall|j: int| 0 <= j < pre.len() implies pre[j] != s@[i as int] by {
                        assert(pre[j] == s@[j]);
                    }
                    assert(!pre.to_set().contains(s@[i as int]));
                }
            }
            if !seen {
                count = count + 1;
            }
            i = i + 1;
        }
        assert(s@.take(n as int) =~= s@);
        count
    }

    /// Whether this motif has the same contour as `other`.
    pub fn contour_matches(&self, other: &Motif) -> (b: bool)
        requires
            intervals_fit(self.elements@),
            intervals_fit(other.elements@),
        ensures
            b == (contour_of(self.elements@) == contour_of(other.elements@)),
    {
        let a = self.contour();
        let c = other.contour();
        directions_equal(&a, &c)
    }

    /// Levenshtein distance between the element sequences.
    pub fn edit_distance(&self, other: &Motif) -> (d: usize)
        requires
            self.elements@.len() < usize::MAX,
            other.elements@.len() < usize::MAX,
        ensures
            d == levenshtein(self.elements@, other.elements@),
    {
        let a = &self.elements;
        let b = &other.elements;
        let m = a.len();
        let n = b.len();
        // prev[j] holds the distance between the first i - 1 elements of `a`
        // and the first j elements of `b`.
        let mut prev: Vec<usize> = Vec::new();
        let mut j: usize = 0;
        while j <= n
            invariant
                n == b@.len(),
                n < usize::MAX,
                0 <= j <= n + 1,
                prev@.len() == j,
                forall|k: int| 0 <= k < j ==> prev@[k] == k,
            decreases n + 1 - j,
        {
            prev.push(j);
            j = j + 1;
        }
        assert forall|k: int| 0 <= k <= n implies prev@[k] == levenshtein(
            a@.take(0),
            b@.take(k),
        ) by {
            assert(a@.take(0).len() == 0);
        }
        let mut i: usize = 1;
        while i <= m
            invariant
                m == a@.len(),
                n == b@.len(),
                m < usize::MAX,
                n < usize::MAX,
                1 <= i <= m + 1,
                prev@.len() == n + 1,
                forall|k: int|
                    0 <= k <= n ==> prev@[k] == levenshtein(a@.take(i - 1), #[trigger] b@.take(k)),
            decreases m + 1 - i,
        {
            let ghost ai = a@.take(i as int);
            let ghost ap = a@.take(i - 1);
            assert(ai.drop_last() =~= ap);
            let mut cur: Vec<usize> = Vec::new();
            cur.push(i);
            assert(b@.take(0).len() == 0);
            assert(cur@[0] == levenshtein(ai, b@.take(0)));
            let mut j: usize = 1;
            while j <= n
                invariant
                    m == a@.len(),
                    n == b@.len(),
                    m < usize::MAX,
                    n < usize::MAX,
                    1 <= i <= m,
                    1 <= j <= n + 1,
                    ai == a@.take(i as int),
                    ap == a@.take(i - 1),
                    ai.drop_last() == ap,
                    prev@.len() == n + 1,
                    forall|k: int|
                        0 <= k <= n ==> prev@[k] == levenshtein(ap, #[trigger] b@.take(k)),
                    cur@.len() == j,
                    forall|k: int| 0 <= k < j ==> cur@[k] == levenshtein(ai, #[trigger] b@.take(k)),
                decreases n + 1 - j,
            {
                let ghost bj = b@.take(j as int);
                let ghost bp = b@.take(j - 1);
                assert(bj.drop_last() =~= bp);
                assert(ai.last() == a@[i - 1]);
                assert(bj.last() == b@[j - 1]);
                proof {
                    lemma_levenshtein_bound(ap, bj);
                    lemma_levenshtein_bound(ai, bp);
                    lemma_levenshtein_bound(ap, bp);
                }
                let cost: usize = if a[i - 1] == b[j - 1] {
                    0
                } else {
                    1
                };
                let del = prev[j] + 1;
                let ins = cur[j - 1] + 1;
                let sub = prev[j - 1] + cost;
                let mut best = if del < ins {
                    del
                } else {
                    ins
                };
                if sub < best {
                    best = sub;
                }
                cur.push(best);
                assert(cur@[j as int] == levenshtein(ai, bj));
                j = j + 1;
            }
            prev = cur;
            i = i + 1;
        }
        assert(a@.take(m as int) =~= a@);
        assert(b@.take(n as int) =~= b@);
        prev[n]
    }
}

/// Element-wise comparison of two direction sequences.
pub(crate) fn directions_equal(a: &Vec<Direction>, b: &Vec<Direction>) -> (r: bool)
    ensures
        r == (a@ == b@),
{
    if a.len() != b.len() {
        return false;
    }
    let mut i: usize = 0;
    while i < a.len()
        invariant
            a@.len() == b@.len(),
            0 <= i <= a@.len(),
            forall|k: int| 0 <= k < i ==> a@[k] == b@[k],
        decreases a@.len() - i,
    {
        if a[i] != b[i] {
            return false;
        }
        i = i + 1;
    }
    assert(a@ =~= b@);
    true
}

} // verus!
