//! Transformations that derive a new motif from an existing one, after the
//! techniques of musical development.
use vstd::prelude::*;
use vstd::string::StringExecFns;

use crate::motif::{intervals_fit, intervals_of, step, Motif, MotifView};

verus! {

/// A transformation that produces a new motif from an existing one.
#[derive(Debug, Clone, Copy, PartialEq, Eq, Structural)]
pub enum MotifTransform {
    /// Flip all intervals (up becomes down, down becomes up).
    Inversion,
    /// Reverse the order of the elements.
    Retrograde,
    /// Scale the intervals by a factor.
    Augmentation { factor: i32 },
    /// Divide the intervals (truncating toward zero).
    Diminution { divisor: i32 },
    /// Shift every element by a constant.
    Transposition { interval: i32 },
    /// Invert, then reverse.
    RetrogradeInversion,
    /// Follow the motif with a copy of itself shifted by `shift`.
    Sequence { shift: i32 },
    /// Remove the last element.
    Elision,
    /// Append an element.
    Extension { value: i32 },
    /// Keep only `len` elements from `start` (as many as there are).
    Fragmentation { start: usize, len: usize },
}

// ----------------------------------------------------------------------------
// Specification
// ----------------------------------------------------------------------------

pub open spec fn fits_i32(x: int) -> bool {
    i32::MIN <= x <= i32::MAX
}

/// Integer division truncating toward zero, as Rust's `/` on `i32`.
pub open spec fn trunc_div(a: int, b: int) -> int {
    if a >= 0 {
        a / b
    } else {
        -((-a) / b)
    }
}

/// Sum of a sequence of integers.
pub open spec fn sum(v: Seq<int>) -> int
    decreases v.len(),
{
    if v.len() == 0 {
        0
    } else {
        sum(v.drop_last()) + v.last()
    }
}

/// The running totals `start, start + v[0], start + v[0] + v[1], ...`.
pub open spec fn running_totals(start: int, v: Seq<int>) -> Seq<int> {
    Seq::new(v.len() + 1, |k: int| start + sum(v.take(k)))
}

/// Mirror every element around the first one.
pub open spec fn inversion_of(s: Seq<i32>) -> Seq<int> {
    Seq::new(s.len(), |k: int| 2 * s[0] - s[k])
}

/// Keep the first element and scale every distance from it by `factor`.
pub open spec fn augmentation_of(s: Seq<i32>, factor: int) -> Seq<int> {
    Seq::new(s.len(), |k: int| s[0] + factor * (s[k] - s[0]))
}

/// The intervals, each divided by `divisor` with truncation.
pub open spec fn diminished_intervals(s: Seq<i32>, divisor: int) -> Seq<int> {
    intervals_of(s).map_values(|d: int| trunc_div(d, divisor))
}

/// Keep the first element and rebuild from the divided intervals.
pub open spec fn diminution_of(s: Seq<i32>, divisor: int) -> Seq<int> {
    running_totals(s[0] as int, diminished_intervals(s, divisor))
}

/// Add `delta` to every element.
pub open spec fn shifted(s: Seq<i32>, delta: int) -> Seq<int> {
    s.map_values(|x: i32| x + delta)
}

pub open spec fn as_ints(s: Seq<i32>) -> Seq<int> {
    s.map_values(|x: i32| x as int)
}

pub open spec fn all_fit(v: Seq<int>) -> bool {
    forall|k: int| 0 <= k < v.len() ==> fits_i32(#[trigger] v[k])
}

/// The end of a fragment: `start + len`, cut at the motif's length.
pub open spec fn fragment_end(n: int, start: int, len: int) -> int {
    if start + len <= n {
        start + len
    } else {
        n
    }
}

/// The inputs on which `apply` completes: every value it computes is an
/// `i32` and every index it uses is in range.
pub open spec fn can_apply(t: MotifTransform, s: Seq<i32>) -> bool {
    match t {
        MotifTransform::Inversion => s.len() > 0 && intervals_fit(s) && all_fit(inversion_of(s)),
        MotifTransform::Retrograde => true,
        MotifTransform::Augmentation { factor } => {
            &&& s.len() > 0
            &&& intervals_fit(s)
            &&& forall|k: int| 0 <= k < s.len() - 1 ==> fits_i32(factor * #[trigger] step(s, k))
            &&& all_fit(augmentation_of(s, factor as int))
        },
        MotifTransform::Diminution { divisor } => {
            &&& s.len() > 0
            &&& (divisor != 0 || s.len() <= 1)
            &&& intervals_fit(s)
            &&& (divisor == -1 ==> forall|k: int|
                0 <= k < s.len() - 1 ==> #[trigger] step(s, k) != i32::MIN)
            &&& all_fit(diminution_of(s, divisor as int))
        },
        MotifTransform::Transposition { interval } => all_fit(shifted(s, interval as int)),
        MotifTransform::RetrogradeInversion => s.len() > 0 && intervals_fit(s) && all_fit(
            inversion_of(s),
        ),
        MotifTransform::Sequence { shift } => all_fit(shifted(s, shift as int)),
        MotifTransform::Elision => true,
        MotifTransform::Extension { .. } => true,
        MotifTransform::Fragmentation { start, len } => start + len <= usize::MAX && start
            <= s.len(),
    }
}

/// The elements of the transformed motif.
pub open spec fn transform_elements(t: MotifTransform, s: Seq<i32>) -> Seq<int> {
    match t {
        MotifTransform::Inversion => inversion_of(s),
        MotifTransform::Retrograde => as_ints(s.reverse()),
        MotifTransform::Augmentation { factor } => augmentation_of(s, factor as int),
        MotifTransform::Diminution { divisor } => diminution_of(s, divisor as int),
        MotifTransform::Transposition { interval } => shifted(s, interval as int),
        MotifTransform::RetrogradeInversion => inversion_of(s).reverse(),
        MotifTransform::Sequence { shift } => as_ints(s) + shifted(s, shift as int),
        MotifTransform::Elision => if s.len() == 0 {
            Seq::empty()
        } else {
            as_ints(s.drop_last())
        },
        MotifTransform::Extension { value } => as_ints(s.push(value)),
        MotifTransform::Fragmentation { start, len } => as_ints(
            s.subrange(start as int, fragment_end(s.len() as int, start as int, len as int)),
        ),
    }
}

/// The name of the variant, which tags the name of a derived motif.
pub open spec fn variant_name(t: MotifTransform) -> Seq<char> {
    match t {
        MotifTransform::Inversion => "Inversion"@,
        MotifTransform::Retrograde => "Retrograde"@,
        MotifTransform::Augmentation { .. } => "Augmentation"@,
        MotifTransform::Diminution { .. } => "Diminution"@,
        MotifTransform::Transposition { .. } => "Transposition"@,
        MotifTransform::RetrogradeInversion => "RetrogradeInversion"@,
        MotifTransform::Sequence { .. } => "Sequence"@,
        MotifTransform::Elision => "Elision"@,
        MotifTransform::Extension { .. } => "Extension"@,
        MotifTransform::Fragmentation { .. } => "Fragmentation"@,
    }
}

/// The name given to the transformed motif: `"<name> (<Variant>)"`.
pub open spec fn derived_name(t: MotifTransform, name: Seq<char>) -> Seq<char> {
    name + " ("@ + variant_name(t) + ")"@
}

/// The motif that `apply` produces.
pub open spec fn apply_view(t: MotifTransform, m: MotifView) -> MotifView {
    MotifView {
        elements: transform_elements(t, m.elements).map_values(|x: int| x as i32),
        name: derived_name(t, m.name),
        id: None,
    }
}

// ----------------------------------------------------------------------------
// Lemmas
// ----------------------------------------------------------------------------

proof fn lemma_augmentation_step(s0: int, a: int, b: int, f: int)
    ensures
        s0 + f * (a - s0) + f * (b - a) == s0 + f * (b - s0),
{
    assert(f * (a - s0) + f * (b - a) == f * (b - s0)) by (nonlinear_arith);
}

proof fn lemma_trunc_div_fits(a: int, d: int)
    requires
        fits_i32(a),
        d != 0,
        !(a == i32::MIN && d == -1),
    ensures
        fits_i32(trunc_div(a, d)),
{
    if a >= 0 {
        if d > 0 {
            assert(0 <= a / d <= a) by (nonlinear_arith)
                requires
                    a >= 0,
                    d > 0,
            ;
        } else {
            assert(-a <= a / d <= 0) by (nonlinear_arith)
                requires
                    a >= 0,
                    d < 0,
            ;
        }
    } else {
        let b = -a;
        if d > 0 {
            assert(0 <= b / d <= b) by (nonlinear_arith)
                requires
                    b > 0,
                    d > 0,
            ;
        } else {
            assert(d <= -1);
            if d == -1 {
                assert(b / d == -b);
            } else {
                assert(-b / 2 <= b / d <= 0) by (nonlinear_arith)
                    requires
                        b > 0,
                        d <= -2,
                ;
            }
        }
    }
}

// ----------------------------------------------------------------------------
// Executable code
// ----------------------------------------------------------------------------

/// Division truncating toward zero.
fn div_toward_zero(a: i32, d: i32) -> (q: i32)
    requires
        d != 0,
        !(a == i32::MIN && d == -1),
    ensures
        q == trunc_div(a as int, d as int),
{
    proof {
        lemma_trunc_div_fits(a as int, d as int);
    }
    let ua: u64 = if a < 0 {
        (-(a as i64)) as u64
    } else {
        a as u64
    };
    let ud: u64 = if d < 0 {
        (-(d as i64)) as u64
    } else {
        d as u64
    };
    let uq: u64 = ua / ud;
    proof {
        let ia = a as int;
        let id = d as int;
        if ia >= 0 {
            if id > 0 {
                assert(uq == ia / id);
            } else {
                assert(ia / id == -(ia / (-id))) by (nonlinear_arith)
                    requires
                        ia >= 0,
                        id < 0,
                ;
            }
        } else {
            if id > 0 {
                assert(uq == (-ia) / id);
            } else {
                assert((-ia) / id == -((-ia) / (-id))) by (nonlinear_arith)
                    requires
                        -ia > 0,
                        id < 0,
                ;
            }
        }
        assert(uq <= 0x8000_0000u64) by (nonlinear_arith)
            requires
                ua <= 0x8000_0000u64,
                ud >= 1,
                uq == ua / ud,
        ;
    }
    let sq: i64 = uq as i64;
    let r: i64 = if (a < 0) != (d < 0) {
        -sq
    } else {
        sq
    };
    r as i32
}

fn inversion_elements(m: &Motif) -> (r: Vec<i32>)
    requires
        can_apply(MotifTransform::Inversion, m.elements@),
    ensures
        as_ints(r@) == inversion_of(m.elements@),
{
    let s = &m.elements;
    let ivs = m.intervals();
    let ghost v = intervals_of(s@);
    let n = s.len();
    let mut r: Vec<i32> = Vec::new();
    r.push(s[0]);
    let mut k: usize = 0;
    while k + 1 < n
        invariant
            n == s@.len(),
            n > 0,
            all_fit(inversion_of(s@)),
            ivs@.map_values(|x: i32| x as int) == v,
            ivs@.len() == n - 1,
            forall|j: int| 0 <= j < ivs@.len() ==> ivs@[j] == step(s@, j),
            v == intervals_of(s@),
            0 <= k < n,
            r@.len() == k + 1,
            forall|j: int| 0 <= j <= k ==> r@[j] == 2 * s@[0] - s@[j],
        decreases n - k,
    {
        assert(ivs@.map_values(|x: i32| x as int)[k as int] == v[k as int]);
        assert(fits_i32(inversion_of(s@)[k + 1]));
        let last = r[k];
        let next = last - ivs[k];
        r.push(next);
        k = k + 1;
    }
    assert(as_ints(r@) =~= inversion_of(s@));
    r
}

fn augmentation_elements(m: &Motif, factor: i32) -> (r: Vec<i32>)
    requires
        can_apply(MotifTransform::Augmentation { factor }, m.elements@),
    ensures
        as_ints(r@) == augmentation_of(m.elements@, factor as int),
{
    let s = &m.elements;
    let ivs = m.intervals();
    let ghost v = intervals_of(s@);
    let n = s.len();
    let mut r: Vec<i32> = Vec::new();
    r.push(s[0]);
    let mut k: usize = 0;
    while k + 1 < n
        invariant
            n == s@.len(),
            n > 0,
            forall|j: int| 0 <= j < s@.len() - 1 ==> fits_i32(factor * #[trigger] step(s@, j)),
            all_fit(augmentation_of(s@, factor as int)),
            ivs@.map_values(|x: i32| x as int) == v,
            ivs@.len() == n - 1,
            forall|j: int| 0 <= j < ivs@.len() ==> ivs@[j] == step(s@, j),
            v == intervals_of(s@),
            0 <= k < n,
            r@.len() == k + 1,
            forall|j: int| 0 <= j <= k ==> r@[j] == s@[0] + factor * (s@[j] - s@[0]),
        decreases n - k,
    {
        assert(ivs@.map_values(|x: i32| x as int)[k as int] == v[k as int]);
        assert(fits_i32(augmentation_of(s@, factor as int)[k + 1]));
        assert(fits_i32(factor * step(s@, k as int)));
        proof {
            lemma_augmentation_step(s@[0] as int, s@[k as int] as int, s@[k + 1] as int, factor as int);
        }
        let last = r[k];
        let d = ivs[k] * factor;
        let next = last + d;
        r.push(next);
        k = k + 1;
    }
    assert(as_ints(r@) =~= augmentation_of(s@, factor as int));
    r
}

fn diminution_elements(m: &Motif, divisor: i32) -> (r: Vec<i32>)
    requires
        can_apply(MotifTransform::Diminution { divisor }, m.elements@),
    ensures
        as_ints(r@) == diminution_of(m.elements@, divisor as int),
{
    let s = &m.elements;
    let ivs = m.intervals();
    let ghost v = intervals_of(s@);
    let ghost w = diminished_intervals(s@, divisor as int);
    let n = s.len();
    let mut r: Vec<i32> = Vec::new();
    r.push(s[0]);
    assert(w.take(0) =~= Seq::<int>::empty());
    let mut k: usize = 0;
    while k + 1 < n
        invariant
            n == s@.len(),
            n > 0,
            divisor != 0 || n <= 1,
            intervals_fit(s@),
            divisor == -1 ==> forall|j: int|
                0 <= j < s@.len() - 1 ==> #[trigger] step(s@, j) != i32::MIN,
            all_fit(diminution_of(s@, divisor as int)),
            ivs@.map_values(|x: i32| x as int) == v,
            ivs@.len() == n - 1,
            forall|j: int| 0 <= j < ivs@.len() ==> ivs@[j] == step(s@, j),
            v == intervals_of(s@),
            w == diminished_intervals(s@, divisor as int),
            0 <= k < n,
            r@.len() == k + 1,
            forall|j: int| 0 <= j <= k ==> r@[j] == s@[0] + sum(#[trigger] w.take(j)),
        decreases n - k,
    {
        assert(ivs@.map_values(|x: i32| x as int)[k as int] == v[k as int]);
        assert(fits_i32(diminution_of(s@, divisor as int)[k + 1]));
        assert(w.take(k + 1).drop_last() =~= w.take(k as int));
        assert(step(s@, k as int) == v[k as int]);
        let last = r[k];
        let d = div_toward_zero(ivs[k], divisor);
        let next = last + d;
        r.push(next);
        k = k + 1;
    }
    assert(as_ints(r@) =~= diminution_of(s@, divisor as int));
    r
}

fn shifted_elements(s: &Vec<i32>, delta: i32) -> (r: Vec<i32>)
    requires
        all_fit(shifted(s@, delta as int)),
    ensures
        as_ints(r@) == shifted(s@, delta as int),
{
    let mut r: Vec<i32> = Vec::new();
    let mut k: usize = 0;
    while k < s.len()
        invariant
            all_fit(shifted(s@, delta as int)),
            0 <= k <= s@.len(),
            r@.len() == k,
            forall|j: int| 0 <= j < k ==> r@[j] == s@[j] + delta,
        decreases s@.len() - k,
    {
        assert(fits_i32(shifted(s@, delta as int)[k as int]));
        r.push(s[k] + delta);
        k = k + 1;
    }
    assert(as_ints(r@) =~= shifted(s@, delta as int));
    r
}

fn reversed(s: &Vec<i32>) -> (r: Vec<i32>)
    ensures
        r@ == s@.reverse(),
{
    let mut r: Vec<i32> = Vec::new();
    let n = s.len();
    let mut k: usize = 0;
    while k < n
        invariant
            n == s@.len(),
            0 <= k <= n,
            r@.len() == k,
            forall|j: int| 0 <= j < k ==> r@[j] == s@[n - 1 - j],
        decreases n - k,
    {
        r.push(s[n - 1 - k]);
        k = k + 1;
    }
    assert(r@ =~= s@.reverse());
    r
}

fn copy_range(s: &Vec<i32>, from: usize, to: usize) -> (r: Vec<i32>)
    requires
        from <= to <= s@.len(),
    ensures
        r@ == s@.subrange(from as int, to as int),
{
    let mut r: Vec<i32> = Vec::new();
    let mut k: usize = from;
    while k < to
        invariant
            from <= k <= to <= s@.len(),
            r@ == s@.subrange(from as int, k as int),
        decreases to - k,
    {
        r.push(s[k]);
        k = k + 1;
        assert(r@ =~= s@.subrange(from as int, k as int));
    }
    r
}

proof fn lemma_as_ints_roundtrip(v: Seq<i32>)
    ensures
        as_ints(v).map_values(|x: int| x as i32) == v,
{
    assert(as_ints(v).map_values(|x: int| x as i32) =~= v);
}

/// Whether every step of `s` is an `i32`.
fn steps_fit(s: &Vec<i32>) -> (b: bool)
    ensures
        b == intervals_fit(s@),
{
    let n = s.len();
    let mut k: usize = 0;
    while k + 1 < n
        invariant
            n == s@.len(),
            0 <= k,
            n > 0 ==> k < n,
            n == 0 ==> k == 0,
            forall|j: int| 0 <= j < k ==> i32::MIN <= #[trigger] step(s@, j) <= i32::MAX,
        decreases n - k,
    {
        let d: i64 = s[k + 1] as i64 - s[k] as i64;
        if d < i32::MIN as i64 || d > i32::MAX as i64 {
            assert(!(i32::MIN <= step(s@, k as int) <= i32::MAX));
            return false;
        }
        k = k + 1;
    }
    true
}

/// Whether every element of `s` shifted by `delta` is an `i32`.
fn shift_fits(s: &Vec<i32>, delta: i32) -> (b: bool)
    ensures
        b == all_fit(shifted(s@, delta as int)),
{
    let mut k: usize = 0;
    while k < s.len()
        invariant
            0 <= k <= s@.len(),
            forall|j: int| 0 <= j < k ==> fits_i32(#[trigger] shifted(s@, delta as int)[j]),
        decreases s@.len() - k,
    {
        let v: i64 = s[k] as i64 + delta as i64;
        if v < i32::MIN as i64 || v > i32::MAX as i64 {
            assert(!fits_i32(shifted(s@, delta as int)[k as int]));
            return false;
        }
        k = k + 1;
    }
    true
}

/// Whether every element of the inversion of `s` is an `i32`.
fn inversion_fits(s: &Vec<i32>) -> (b: bool)
    requires
        s@.len() > 0,
    ensures
        b == all_fit(inversion_of(s@)),
{
    let mut k: usize = 0;
    while k < s.len()
        invariant
            s@.len() > 0,
            0 <= k <= s@.len(),
            forall|j: int| 0 <= j < k ==> fits_i32(#[trigger] inversion_of(s@)[j]),
        decreases s@.len() - k,
    {
        let v: i64 = 2 * (s[0] as i64) - s[k] as i64;
        if v < i32::MIN as i64 || v > i32::MAX as i64 {
            assert(!fits_i32(inversion_of(s@)[k as int]));
            return false;
        }
        k = k + 1;
    }
    true
}

/// Whether every scaled step and every element of the augmentation of `s`
/// is an `i32`.
fn augmentation_fits(s: &Vec<i32>, factor: i32) -> (b: bool)
    requires
        s@.len() > 0,
    ensures
        b == ((forall|j: int| 0 <= j < s@.len() - 1 ==> fits_i32(factor * #[trigger] step(s@, j)))
            && all_fit(augmentation_of(s@, factor as int))),
{
    let n = s.len();
    let mut k: usize = 0;
    while k + 1 < n
        invariant
            n == s@.len(),
            n > 0,
            0 <= k < n,
            forall|j: int| 0 <= j < k ==> fits_i32(factor * #[trigger] step(s@, j)),
        decreases n - k,
    {
        let d: i128 = s[k + 1] as i128 - s[k] as i128;
        assert(-0x1_0000_0000 <= d <= 0x1_0000_0000);
        assert(-0x1_0000_0000_0000_0000 <= d * (factor as i128) <= 0x1_0000_0000_0000_0000)
            by (nonlinear_arith)
            requires
                -0x1_0000_0000 <= d <= 0x1_0000_0000,
                i32::MIN <= factor <= i32::MAX,
        ;
        let v: i128 = d * (factor as i128);
        assert(v == factor * step(s@, k as int)) by (nonlinear_arith)
            requires
                v == d * (factor as i128),
                d == step(s@, k as int),
        ;
        if v < i32::MIN as i128 || v > i32::MAX as i128 {
            assert(!fits_i32(factor * step(s@, k as int)));
            return false;
        }
        k = k + 1;
    }
    let mut k: usize = 0;
    while k < n
        invariant
            n == s@.len(),
            n > 0,
            0 <= k <= n,
            forall|j: int| 0 <= j < n - 1 ==> fits_i32(factor * #[trigger] step(s@, j)),
            forall|j: int| 0 <= j < k ==> fits_i32(#[trigger] augmentation_of(s@, factor as int)[j]),
        decreases n - k,
    {
        let d: i128 = s[k] as i128 - s[0] as i128;
        assert(-0x1_0000_0000_0000_0000 <= d * (factor as i128) <= 0x1_0000_0000_0000_0000)
            by (nonlinear_arith)
            requires
                -0x1_0000_0000 <= d <= 0x1_0000_0000,
                i32::MIN <= factor <= i32::MAX,
        ;
        let v: i128 = s[0] as i128 + d * (factor as i128);
        assert(v == s@[0] + factor * (s@[k as int] - s@[0])) by (nonlinear_arith)
            requires
                v == s@[0] + d * (factor as i128),
                d == s@[k as int] - s@[0],
        ;
        if v < i32::MIN as i128 || v > i32::MAX as i128 {
            assert(!fits_i32(augmentation_of(s@, factor as int)[k as int]));
            return false;
        }
        k = k + 1;
    }
    true
}

/// Whether the diminution of `s` by `divisor` can be computed.
fn diminution_fits(s: &Vec<i32>, divisor: i32) -> (b: bool)
    requires
        s@.len() > 0,
        divisor != 0 || s@.len() <= 1,
        intervals_fit(s@),
    ensures
        b == ((divisor == -1 ==> forall|j: int|
            0 <= j < s@.len() - 1 ==> #[trigger] step(s@, j) != i32::MIN) && all_fit(
            diminution_of(s@, divisor as int),
        )),
{
    let n = s.len();
    if divisor == -1 {
        let mut k: usize = 0;
        while k + 1 < n
            invariant
                n == s@.len(),
                n > 0,
                divisor == -1,
                0 <= k < n,
                forall|j: int| 0 <= j < k ==> #[trigger] step(s@, j) != i32::MIN,
            decreases n - k,
        {
            let d: i64 = s[k + 1] as i64 - s[k] as i64;
            if d == i32::MIN as i64 {
                assert(step(s@, k as int) == i32::MIN);
                return false;
            }
            k = k + 1;
        }
    }
    let ghost w = diminished_intervals(s@, divisor as int);
    let mut total: i64 = s[0] as i64;
    let mut k: usize = 0;
    assert(w.take(0) =~= Seq::<int>::empty());
    while k + 1 < n
        invariant
            n == s@.len(),
            n > 0,
            divisor != 0 || n <= 1,
            intervals_fit(s@),
            divisor == -1 ==> forall|j: int|
                0 <= j < s@.len() - 1 ==> #[trigger] step(s@, j) != i32::MIN,
            w == diminished_intervals(s@, divisor as int),
            0 <= k < n,
            total == s@[0] + sum(w.take(k as int)),
            fits_i32(total as int),
            forall|j: int|
                0 <= j <= k ==> fits_i32(#[trigger] diminution_of(s@, divisor as int)[j]),
        decreases n - k,
    {
        assert(i32::MIN <= step(s@, k as int) <= i32::MAX);
        let d = s[k + 1] as i64 - s[k] as i64;
        let q = div_toward_zero(d as i32, divisor);
        assert(w.take(k + 1).drop_last() =~= w.take(k as int));
        total = total + q as i64;
        if total < i32::MIN as i64 || total > i32::MAX as i64 {
            assert(!fits_i32(diminution_of(s@, divisor as int)[k + 1]));
            return false;
        }
        k = k + 1;
    }
    true
}

impl MotifTransform {
    /// The name of the variant (the first word of its debug form).
    pub fn variant_label(&self) -> (r: &'static str)
        ensures
            r@ == variant_name(*self),
    {
        match self {
            MotifTransform::Inversion => "Inversion",
            MotifTransform::Retrograde => "Retrograde",
            MotifTransform::Augmentation { .. } => "Augmentation",
            MotifTransform::Diminution { .. } => "Diminution",
            MotifTransform::Transposition { .. } => "Transposition",
            MotifTransform::RetrogradeInversion => "RetrogradeInversion",
            MotifTransform::Sequence { .. } => "Sequence",
            MotifTransform::Elision => "Elision",
            MotifTransform::Extension { .. } => "Extension",
            MotifTransform::Fragmentation { .. } => "Fragmentation",
        }
    }

    /// Whether `apply` can transform `motif`: every value it computes is an
    /// `i32` and every index it uses is in range.
    pub fn can_apply_to(&self, motif: &Motif) -> (b: bool)
        ensures
            b == can_apply(*self, motif.elements@),
    {
        let s = &motif.elements;
        match self {
            MotifTransform::Inversion | MotifTransform::RetrogradeInversion => {
                s.len() > 0 && steps_fit(s) && inversion_fits(s)
            },
            MotifTransform::Retrograde => true,
            MotifTransform::Augmentation { factor } => {
                s.len() > 0 && steps_fit(s) && augmentation_fits(s, *factor)
            },
            MotifTransform::Diminution { divisor } => {
                s.len() > 0 && (*divisor != 0 || s.len() <= 1) && steps_fit(s) && diminution_fits(
                    s,
                    *divisor,
                )
            },
            MotifTransform::Transposition { interval } => shift_fits(s, *interval),
            MotifTransform::Sequence { shift } => shift_fits(s, *shift),
            MotifTransform::Elision => true,
            MotifTransform::Extension { .. } => true,
            MotifTransform::Fragmentation { start, len } => *start <= usize::MAX - *len && *start
                <= s.len(),
        }
    }

    /// The elements of the transformed motif.
    fn elements_of(&self, motif: &Motif) -> (r: Vec<i32>)
        requires
            can_apply(*self, motif.elements@),
        ensures
            as_ints(r@) == transform_elements(*self, motif.elements@),
    {
        let s = &motif.elements;
        match self {
            MotifTransform::Inversion => inversion_elements(motif),
            MotifTransform::Retrograde => {
                let r = reversed(s);
                r
            },
            MotifTransform::Augmentation { factor } => augmentation_elements(motif, *factor),
            MotifTransform::Diminution { divisor } => diminution_elements(motif, *divisor),
            MotifTransform::Transposition { interval } => shifted_elements(s, *interval),
            MotifTransform::RetrogradeInversion => {
                let inv = inversion_elements(motif);
                let r = reversed(&inv);
                assert(as_ints(r@) =~= inversion_of(s@).reverse());
                r
            },
            MotifTransform::Sequence { shift } => {
                let mut r = s.clone();
                assert(r@ =~= s@);
                let sh = shifted_elements(s, *shift);
                let mut k: usize = 0;
                while k < sh.len()
                    invariant
                        0 <= k <= sh@.len(),
                        r@ == s@ + sh@.take(k as int),
                    decreases sh@.len() - k,
                {
                    r.push(sh[k]);
                    k = k + 1;
                    assert(r@ =~= s@ + sh@.take(k as int));
                }
                assert(sh@.take(sh@.len() as int) =~= sh@);
                assert(as_ints(r@) =~= as_ints(s@) + shifted(s@, *shift as int));
                r
            },
            MotifTransform::Elision => {
                let mut r = s.clone();
                assert(r@ =~= s@);
                r.pop();
                assert(as_ints(r@) =~= transform_elements(*self, s@));
                r
            },
            MotifTransform::Extension { value } => {
                let mut r = s.clone();
                assert(r@ =~= s@);
                r.push(*value);
                r
            },
            MotifTransform::Fragmentation { start, len } => {
                let n = s.len();
                let end = if *start + *len < n {
                    *start + *len
                } else {
                    n
                };
                copy_range(s, *start, end)
            },
        }
    }

    /// Apply the transformation to a motif, producing a new motif named
    /// `"<name> (<Variant>)"` without an identifier.
    pub fn apply(&self, motif: &Motif) -> (r: Motif)
        requires
            can_apply(*self, motif.elements@),
        ensures
            r@ == apply_view(*self, motif@),
    {
        let elements = self.elements_of(motif);
        proof {
            lemma_as_ints_roundtrip(elements@);
        }
        let mut name = motif.name.clone();
        name.append(" (");
        name.append(self.variant_label());
        name.append(")");
        Motif { elements, name, id: None }
    }

    /// A one-line description of the transformation.
    pub fn description(&self) -> (r: &'static str)
        ensures
            r@ == description_of(*self),
    {
        match self {
            MotifTransform::Inversion => "Flip intervals: up becomes down, down becomes up",
            MotifTransform::Retrograde => "Reverse the order of all elements",
            MotifTransform::Augmentation { .. } => "Stretch intervals to make the motif longer/larger",
            MotifTransform::Diminution { .. } => "Compress intervals to make the motif shorter/smaller",
            MotifTransform::Transposition { .. } => "Shift all elements by a constant",
            MotifTransform::RetrogradeInversion => "Reverse then invert — the most transformative operation",
            MotifTransform::Sequence { .. } => "Repeat the motif at a different level",
            MotifTransform::Elision => "Remove the last element, shortening the motif",
            MotifTransform::Extension { .. } => "Add an element to the motif",
            MotifTransform::Fragmentation { .. } => "Use only a portion of the original motif",
        }
    }
}

/// The description of each transformation.
pub open spec fn description_of(t: MotifTransform) -> Seq<char> {
    match t {
        MotifTransform::Inversion => "Flip intervals: up becomes down, down becomes up"@,
        MotifTransform::Retrograde => "Reverse the order of all elements"@,
        MotifTransform::Augmentation { .. } => "Stretch intervals to make the motif longer/larger"@,
        MotifTransform::Diminution { .. } => "Compress intervals to make the motif shorter/smaller"@,
        MotifTransform::Transposition { .. } => "Shift all elements by a constant"@,
        MotifTransform::RetrogradeInversion => "Reverse then invert — the most transformative operation"@,
        MotifTransform::Sequence { .. } => "Repeat the motif at a different level"@,
        MotifTransform::Elision => "Remove the last element, shortening the motif"@,
        MotifTransform::Extension { .. } => "Add an element to the motif"@,
        MotifTransform::Fragmentation { .. } => "Use only a portion of the original motif"@,
    }
}

} // verus!
