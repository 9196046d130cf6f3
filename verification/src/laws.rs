//! Properties that hold of the library as a whole: how the transformations
//! act on intervals and contours, what they undo, and what edit distance,
//! chains and stage plans guarantee.
use vstd::prelude::*;

use crate::chain::{chain_result, MotifChain};
use crate::detector::{
    detected, insert_by_occurrences, occurrence_positions, occurrences_below, pattern_at,
    patterns_in_lengths,
    patterns_of_len, seen_before, sort_by_occurrences, window, MotifDetector, PatternView,
};
use crate::family::{family_applicable, is_most_similar, standard_family_transforms};
use crate::development::{
    ascending_trend, count_direction, presentation_percent, standard_plan, trend_of,
    StagePlanView,
};
use crate::motif::{
    contour_of, direction_of, intervals_of, levenshtein, lemma_levenshtein_bound,
    lemma_seq_max_bounds, lemma_seq_min_bounds, seq_max, seq_min, span_of, step, sum_abs,
    total_motion_of, Direction, MotifView,
};
use crate::transform::{
    apply_view, can_apply, diminished_intervals, diminution_of, fits_i32, inversion_of, sum,
    MotifTransform,
};

verus! {

/// The direction of the opposite motion.
pub open spec fn flipped(d: Direction) -> Direction {
    match d {
        Direction::Up => Direction::Down,
        Direction::Down => Direction::Up,
        Direction::Same => Direction::Same,
    }
}

/// Retrograde undoes itself: reversing twice gives back the elements.
pub proof fn law_retrograde_twice(m: MotifView)
    ensures
        apply_view(
            MotifTransform::Retrograde,
            apply_view(MotifTransform::Retrograde, m),
        ).elements == m.elements,
{
    let once = apply_view(MotifTransform::Retrograde, m);
    assert(once.elements =~= m.elements.reverse());
    let twice = apply_view(MotifTransform::Retrograde, once);
    assert(twice.elements =~= m.elements);
}

/// Inversion flips every interval: up by `d` becomes down by `d`.
pub proof fn law_inversion_flips_intervals(m: MotifView)
    requires
        can_apply(MotifTransform::Inversion, m.elements),
    ensures
        intervals_of(apply_view(MotifTransform::Inversion, m).elements) == intervals_of(
            m.elements,
        ).map_values(|d: int| -d),
        contour_of(apply_view(MotifTransform::Inversion, m).elements) == contour_of(
            m.elements,
        ).map_values(|d: Direction| flipped(d)),
{
    let s = m.elements;
    let r = apply_view(MotifTransform::Inversion, m).elements;
    assert forall|k: int| 0 <= k < s.len() implies r[k] == 2 * s[0] - s[k] by {
        assert(crate::transform::fits_i32(inversion_of(s)[k]));
    }
    assert(intervals_of(r) =~= intervals_of(s).map_values(|d: int| -d));
    assert(contour_of(r) =~= contour_of(s).map_values(|d: Direction| flipped(d)));
}

/// Inversion undoes itself: inverting twice gives back the elements, when
/// both inversions can be computed.
pub proof fn law_inversion_twice(m: MotifView)
    requires
        can_apply(MotifTransform::Inversion, m.elements),
        can_apply(
            MotifTransform::Inversion,
            apply_view(MotifTransform::Inversion, m).elements,
        ),
    ensures
        apply_view(
            MotifTransform::Inversion,
            apply_view(MotifTransform::Inversion, m),
        ).elements == m.elements,
{
    let s = m.elements;
    let once = apply_view(MotifTransform::Inversion, m);
    let r = once.elements;
    assert forall|k: int| 0 <= k < s.len() implies r[k] == 2 * s[0] - s[k] by {
        assert(crate::transform::fits_i32(inversion_of(s)[k]));
    }
    let twice = apply_view(MotifTransform::Inversion, once);
    assert forall|k: int| 0 <= k < r.len() implies twice.elements[k] == 2 * r[0] - r[k] by {
        assert(crate::transform::fits_i32(inversion_of(r)[k]));
    }
    assert(twice.elements =~= s);
}

/// Augmentation multiplies every interval by the factor; with a positive
/// factor the contour is kept.
pub proof fn law_augmentation_scales_intervals(m: MotifView, factor: i32)
    requires
        can_apply(MotifTransform::Augmentation { factor }, m.elements),
    ensures
        intervals_of(apply_view(MotifTransform::Augmentation { factor }, m).elements)
            == intervals_of(m.elements).map_values(|d: int| factor * d),
        factor > 0 ==> contour_of(
            apply_view(MotifTransform::Augmentation { factor }, m).elements,
        ) == contour_of(m.elements),
{
    let s = m.elements;
    let f = factor as int;
    let r = apply_view(MotifTransform::Augmentation { factor }, m).elements;
    assert forall|k: int| 0 <= k < s.len() implies r[k] == s[0] + f * (s[k] - s[0]) by {
        assert(crate::transform::fits_i32(crate::transform::augmentation_of(s, f)[k]));
    }
    assert forall|k: int| 0 <= k < s.len() - 1 implies step(r, k) == f * step(s, k) by {
        let a = s[k] - s[0];
        let b = s[k + 1] - s[0];
        assert(f * b - f * a == f * (b - a)) by (nonlinear_arith);
    }
    assert(intervals_of(r) =~= intervals_of(s).map_values(|d: int| factor * d));
    if factor > 0 {
        assert forall|k: int| 0 <= k < s.len() - 1 implies direction_of(step(r, k))
            == direction_of(step(s, k)) by {
            let d = step(s, k);
            assert(d > 0 ==> f * d > 0) by (nonlinear_arith)
                requires
                    f > 0,
            ;
            assert(d < 0 ==> f * d < 0) by (nonlinear_arith)
                requires
                    f > 0,
            ;
            assert(d == 0 ==> f * d == 0) by (nonlinear_arith);
        }
        assert(contour_of(r) =~= contour_of(s));
    }
}

/// Diminution divides every interval by the divisor, truncating toward zero.
pub proof fn law_diminution_divides_intervals(m: MotifView, divisor: i32)
    requires
        can_apply(MotifTransform::Diminution { divisor }, m.elements),
    ensures
        intervals_of(apply_view(MotifTransform::Diminution { divisor }, m).elements)
            == diminished_intervals(m.elements, divisor as int),
{
    let s = m.elements;
    let w = diminished_intervals(s, divisor as int);
    let r = apply_view(MotifTransform::Diminution { divisor }, m).elements;
    assert forall|k: int| 0 <= k < s.len() implies r[k] == s[0] + sum(#[trigger] w.take(k)) by {
        assert(fits_i32(diminution_of(s, divisor as int)[k]));
    }
    assert forall|k: int| 0 <= k < s.len() - 1 implies step(r, k) == w[k] by {
        assert(w.take(k + 1).drop_last() =~= w.take(k));
        assert(r[k + 1] == s[0] + sum(w.take(k + 1)));
        assert(r[k] == s[0] + sum(w.take(k)));
    }
    assert(intervals_of(r) =~= w);
}

/// Transposition keeps every interval, hence the contour and the span.
pub proof fn law_transposition_keeps_shape(m: MotifView, interval: i32)
    requires
        can_apply(MotifTransform::Transposition { interval }, m.elements),
    ensures
        intervals_of(apply_view(MotifTransform::Transposition { interval }, m).elements)
            == intervals_of(m.elements),
        contour_of(apply_view(MotifTransform::Transposition { interval }, m).elements)
            == contour_of(m.elements),
        span_of(apply_view(MotifTransform::Transposition { interval }, m).elements) == span_of(
            m.elements,
        ),
{
    let s = m.elements;
    let r = apply_view(MotifTransform::Transposition { interval }, m).elements;
    assert forall|k: int| 0 <= k < s.len() implies r[k] == s[k] + interval by {
        assert(crate::transform::fits_i32(crate::transform::shifted(s, interval as int)[k]));
    }
    assert(intervals_of(r) =~= intervals_of(s));
    assert(contour_of(r) =~= contour_of(s));
    lemma_span_shift(s, r, interval as int);
}

proof fn lemma_span_shift(s: Seq<i32>, r: Seq<i32>, d: int)
    requires
        r.len() == s.len(),
        forall|k: int| 0 <= k < s.len() ==> r[k] == s[k] + d,
    ensures
        crate::motif::seq_max(r) == crate::motif::seq_max(s) + d || s.len() == 0,
        crate::motif::seq_min(r) == crate::motif::seq_min(s) + d || s.len() == 0,
        span_of(r) == span_of(s),
    decreases s.len(),
{
    if s.len() > 1 {
        let s1 = s.drop_last();
        let r1 = r.drop_last();
        assert forall|k: int| 0 <= k < s1.len() implies r1[k] == s1[k] + d by {
            assert(r1[k] == r[k]);
            assert(s1[k] == s[k]);
        }
        lemma_span_shift(s1, r1, d);
        assert(r.last() == s.last() + d);
    }
}

/// The span of a non-empty motif is never negative.
pub proof fn law_span_nonnegative(s: Seq<i32>)
    ensures
        span_of(s) >= 0,
{
    if s.len() > 0 {
        lemma_seq_max_bounds(s);
        lemma_seq_min_bounds(s);
        assert(crate::motif::seq_min(s) <= s[0] <= crate::motif::seq_max(s));
    }
}

/// The number of distinct values is between 1 and the length for a
/// non-empty motif, and 0 for an empty one: compactness lies in (0, 1].
pub proof fn law_distinct_count_bounds(s: Seq<i32>)
    ensures
        s.to_set().len() <= s.len(),
        s.len() > 0 ==> s.to_set().len() >= 1,
        s.len() == 0 ==> s.to_set().len() == 0,
{
    broadcast use {vstd::set::group_set_axioms, vstd::seq_lib::seq_to_set_is_finite};

    s.lemma_cardinality_of_set();
    if s.len() > 0 {
        assert(s.to_set().contains(s[0]));
        vstd::set_lib::lemma_set_empty_equivalency_len(s.to_set());
    } else {
        assert(s.to_set() =~= Set::<i32>::empty());
    }
}

proof fn lemma_intervals_drop_last(s: Seq<i32>)
    requires
        s.len() >= 2,
    ensures
        intervals_of(s).drop_last() == intervals_of(s.drop_last()),
        intervals_of(s).last() == s.last() - s[s.len() - 2],
{
    assert(intervals_of(s).drop_last() =~= intervals_of(s.drop_last()));
}

/// Total motion is at least the span: every value between the lowest and
/// the highest is passed through.
pub proof fn law_total_motion_at_least_span(s: Seq<i32>)
    ensures
        total_motion_of(s) >= span_of(s),
    decreases s.len(),
{
    if s.len() <= 1 {
        assert(intervals_of(s).len() == 0);
        if s.len() == 1 {
            assert(seq_max(s) == seq_min(s));
        }
    } else {
        let t = s.drop_last();
        law_total_motion_at_least_span(t);
        lemma_intervals_drop_last(s);
        lemma_seq_max_bounds(t);
        lemma_seq_min_bounds(t);
        let y = t[t.len() - 1];
        assert(seq_min(t) <= y <= seq_max(t));
        assert(s[s.len() - 2] == y);
    }
}

proof fn lemma_constant_total_motion(s: Seq<i32>)
    requires
        forall|i: int, j: int| 0 <= i < s.len() && 0 <= j < s.len() ==> s[i] == s[j],
    ensures
        total_motion_of(s) == 0,
    decreases s.len(),
{
    if s.len() <= 1 {
        assert(intervals_of(s).len() == 0);
    } else {
        let t = s.drop_last();
        assert forall|i: int, j: int| 0 <= i < t.len() && 0 <= j < t.len() implies t[i] == t[j] by {
            assert(t[i] == s[i] && t[j] == s[j]);
        }
        lemma_constant_total_motion(t);
        lemma_intervals_drop_last(s);
        assert(s[s.len() - 1] == s[s.len() - 2]);
    }
}

/// Appending a value adds the size of the new step to the total motion;
/// a motif of at most one element has none.
pub proof fn law_total_motion_grows_by_step(s: Seq<i32>, x: i32)
    ensures
        s.len() <= 1 ==> total_motion_of(s) == 0,
        s.len() > 0 ==> total_motion_of(s.push(x)) == total_motion_of(s) + (if x >= s.last() {
            x - s.last()
        } else {
            s.last() - x
        }),
{
    if s.len() <= 1 {
        assert(intervals_of(s).len() == 0);
    }
    if s.len() > 0 {
        let t = s.push(x);
        assert(t.drop_last() =~= s);
        lemma_intervals_drop_last(t);
    }
}

/// Total motion is 0 exactly when all the elements are equal.
pub proof fn law_total_motion_zero_iff_constant(s: Seq<i32>)
    ensures
        total_motion_of(s) == 0 <==> forall|i: int, j: int|
            0 <= i < s.len() && 0 <= j < s.len() ==> s[i] == s[j],
{
    if forall|i: int, j: int| 0 <= i < s.len() && 0 <= j < s.len() ==> s[i] == s[j] {
        lemma_constant_total_motion(s);
    }
    if total_motion_of(s) == 0 && s.len() > 0 {
        law_total_motion_at_least_span(s);
        law_span_nonnegative(s);
        lemma_seq_max_bounds(s);
        lemma_seq_min_bounds(s);
        assert forall|i: int, j: int| 0 <= i < s.len() && 0 <= j < s.len() implies s[i]
            == s[j] by {
            assert(seq_min(s) <= s[i] <= seq_max(s));
            assert(seq_min(s) <= s[j] <= seq_max(s));
        }
    }
}

/// Motifs with the same contour have the same number of steps.
pub proof fn law_same_contour_same_steps(a: Seq<i32>, b: Seq<i32>)
    requires
        contour_of(a) == contour_of(b),
    ensures
        intervals_of(a).len() == intervals_of(b).len(),
{
    assert(contour_of(a).len() == intervals_of(a).len());
    assert(contour_of(b).len() == intervals_of(b).len());
}

// ----------------------------------------------------------------------------
// Edit distance
// ----------------------------------------------------------------------------

/// A motif is at distance 0 from itself.
pub proof fn law_edit_distance_identity(a: Seq<i32>)
    ensures
        levenshtein(a, a) == 0,
    decreases a.len(),
{
    if a.len() > 0 {
        law_edit_distance_identity(a.drop_last());
        lemma_levenshtein_bound(a.drop_last(), a);
        lemma_levenshtein_bound(a, a.drop_last());
    }
}

/// Edit distance is symmetric.
pub proof fn law_edit_distance_symmetric(a: Seq<i32>, b: Seq<i32>)
    ensures
        levenshtein(a, b) == levenshtein(b, a),
    decreases a.len() + b.len(),
{
    if a.len() > 0 && b.len() > 0 {
        law_edit_distance_symmetric(a.drop_last(), b);
        law_edit_distance_symmetric(a, b.drop_last());
        law_edit_distance_symmetric(a.drop_last(), b.drop_last());
    }
}

/// Edit distance is at least the difference of the lengths.
pub proof fn law_edit_distance_length_difference(a: Seq<i32>, b: Seq<i32>)
    ensures
        a.len() - b.len() <= levenshtein(a, b),
        b.len() - a.len() <= levenshtein(a, b),
    decreases a.len() + b.len(),
{
    if a.len() > 0 && b.len() > 0 {
        law_edit_distance_length_difference(a.drop_last(), b);
        law_edit_distance_length_difference(a, b.drop_last());
        law_edit_distance_length_difference(a.drop_last(), b.drop_last());
    }
}

/// Edit distance satisfies the triangle inequality.
pub proof fn law_edit_distance_triangle(a: Seq<i32>, b: Seq<i32>, c: Seq<i32>)
    ensures
        levenshtein(a, c) <= levenshtein(a, b) + levenshtein(b, c),
    decreases a.len() + b.len() + c.len(),
{
    lemma_levenshtein_bound(a, c);
    lemma_levenshtein_bound(a, b);
    lemma_levenshtein_bound(b, c);
    if b.len() == 0 {
    } else if a.len() == 0 {
        law_edit_distance_length_difference(b, c);
    } else if c.len() == 0 {
        law_edit_distance_length_difference(a, b);
    } else {
        let a1 = a.drop_last();
        let b1 = b.drop_last();
        let c1 = c.drop_last();
        law_edit_distance_triangle(a1, b, c);
        law_edit_distance_triangle(a, b, c1);
        law_edit_distance_triangle(a, b1, c);
        law_edit_distance_triangle(a, b1, c1);
        law_edit_distance_triangle(a1, b1, c);
        law_edit_distance_triangle(a1, b1, c1);
        lemma_levenshtein_bound(a, c1);
        lemma_levenshtein_bound(a1, c);
        lemma_levenshtein_bound(a1, c1);
        lemma_levenshtein_bound(a1, b);
        lemma_levenshtein_bound(a, b1);
        lemma_levenshtein_bound(a1, b1);
        lemma_levenshtein_bound(b1, c);
        lemma_levenshtein_bound(b, c1);
        lemma_levenshtein_bound(b1, c1);
    }
}

/// Edit distance is 0 exactly between equal sequences.
pub proof fn law_edit_distance_zero_iff_equal(a: Seq<i32>, b: Seq<i32>)
    ensures
        levenshtein(a, b) == 0 <==> a == b,
    decreases a.len() + b.len(),
{
    if a == b {
        law_edit_distance_identity(a);
    } else if a.len() == 0 || b.len() == 0 {
        if a.len() == 0 && b.len() == 0 {
            assert(a =~= b);
        }
    } else {
        lemma_levenshtein_bound(a.drop_last(), b);
        lemma_levenshtein_bound(a, b.drop_last());
        lemma_levenshtein_bound(a.drop_last(), b.drop_last());
        law_edit_distance_zero_iff_equal(a.drop_last(), b.drop_last());
        if levenshtein(a, b) == 0 {
            assert(a.drop_last() == b.drop_last());
            assert(a.last() == b.last());
            assert(a.len() == b.len());
            assert forall|k: int| 0 <= k < a.len() implies a[k] == b[k] by {
                if k < a.len() - 1 {
                    assert(a[k] == a.drop_last()[k]);
                    assert(b[k] == b.drop_last()[k]);
                }
            }
            assert(a =~= b);
        }
    }
}

/// Every transformation of the standard family keeps the seed's length.
pub proof fn law_standard_family_keeps_length(m: MotifView)
    requires
        family_applicable(m.elements),
    ensures
        forall|i: int|
            0 <= i < standard_family_transforms().len() ==> (#[trigger] apply_view(
                standard_family_transforms()[i],
                m,
            )).elements.len() == m.elements.len(),
{
    assert forall|i: int| 0 <= i < standard_family_transforms().len() implies (
    #[trigger] apply_view(standard_family_transforms()[i], m)).elements.len()
        == m.elements.len() by {
        assert(can_apply(standard_family_transforms()[i], m.elements));
    }
}

/// A family whose first member equals the query answers the query with
/// that member at distance 0.
pub proof fn law_exact_first_member_is_most_similar(
    ms: Seq<Seq<i32>>,
    q: Seq<i32>,
    r: (usize, usize),
)
    requires
        ms.len() > 0,
        ms[0] == q,
        is_most_similar(ms, q, r),
    ensures
        r == (0usize, 0usize),
{
    law_edit_distance_identity(q);
    lemma_levenshtein_bound(ms[r.0 as int], q);
    if r.0 > 0 {
        assert(r.1 < levenshtein(ms[0], q));
    }
}

// ----------------------------------------------------------------------------
// Chains
// ----------------------------------------------------------------------------

/// A consistent chain starts at its seed, ends at its result, and keeps one
/// more motif than it has transformations.
pub proof fn law_chain_endpoints(c: MotifChain)
    requires
        c.wf(),
    ensures
        c.intermediates@.len() == c.transforms@.len() + 1,
        c.intermediates@[0]@ == c.seed@,
        c.intermediates@[c.transforms@.len() as int]@ == c.result@,
        c.result@ == chain_result(c.seed@, c.transforms@),
{
    assert(c.transforms@.take(0) =~= Seq::<MotifTransform>::empty());
    assert(c.transforms@.take(c.transforms@.len() as int) =~= c.transforms@);
    assert(c.intermediates@[0]@ == chain_result(c.seed@, c.transforms@.take(0)));
    assert(c.intermediates@[c.transforms@.len() as int]@ == chain_result(
        c.seed@,
        c.transforms@.take(c.transforms@.len() as int),
    ));
}

// ----------------------------------------------------------------------------
// Development
// ----------------------------------------------------------------------------

/// The complexities of an arc built by the standard development: the
/// presentation followed by the planned stages.
pub open spec fn standard_complexities(m: MotifView) -> Seq<int> {
    seq![presentation_percent()] + standard_plan(m).map_values(
        |p: StagePlanView| p.complexity_percent,
    )
}

/// The standard development has at least five stages with the presentation,
/// its complexity rises at every stage, so its trend is ascending.
pub proof fn law_standard_development_ascends(m: MotifView)
    ensures
        standard_plan(m).len() + 1 >= 6,
        forall|i: int, j: int|
            0 <= i < j < standard_complexities(m).len() ==> standard_complexities(m)[i]
                < standard_complexities(m)[j],
        ascending_trend(trend_of(standard_complexities(m))),
{
    let v = standard_complexities(m);
    let t = trend_of(v);
    if m.elements.len() >= 3 {
        assert(v =~= seq![10int, 20, 35, 45, 60, 75, 90]);
    } else {
        assert(v =~= seq![10int, 20, 35, 60, 75, 90]);
    }
    assert forall|k: int| 0 <= k < t.len() implies t[k] == Direction::Up by {
        assert(v[k + 1] > v[k]);
    }
    lemma_all_up_ascending(t);
}

proof fn lemma_all_up_ascending(t: Seq<Direction>)
    requires
        forall|k: int| 0 <= k < t.len() ==> t[k] == Direction::Up,
    ensures
        count_direction(t, Direction::Down) == 0,
        ascending_trend(t),
    decreases t.len(),
{
    if t.len() > 0 {
        lemma_all_up_ascending(t.drop_last());
        lemma_count_nonnegative(t.drop_last(), Direction::Up);
    }
}

proof fn lemma_count_nonnegative(t: Seq<Direction>, d: Direction)
    ensures
        count_direction(t, d) >= 0,
    decreases t.len(),
{
    if t.len() > 0 {
        lemma_count_nonnegative(t.drop_last(), d);
    }
}

// ----------------------------------------------------------------------------
// Detection
// ----------------------------------------------------------------------------

/// Occurrence counts never increase along the sequence.
pub open spec fn sorted_by_occurrences(v: Seq<PatternView>) -> bool {
    forall|i: int, j: int| 0 <= i < j < v.len() ==> v[i].occurrences >= v[j].occurrences
}

/// No two entries report the same pattern.
pub open spec fn distinct_patterns(v: Seq<PatternView>) -> bool {
    forall|i: int, j: int| 0 <= i < j < v.len() ==> v[i].pattern != v[j].pattern
}

/// `p` reports the first occurrence, below `upto`, of a window of length `len`.
pub open spec fn first_window_below(s: Seq<i32>, len: int, upto: int, p: PatternView) -> bool {
    exists|k: int| 0 <= k < upto && p == pattern_at(s, k, len) && !seen_before(s, k, len)
}

proof fn lemma_insert_shape(q: Seq<PatternView>, p: PatternView)
    ensures
        exists|pos: int|
            {
                &&& 0 <= pos <= q.len()
                &&& insert_by_occurrences(q, p) == q.insert(pos, p)
                &&& forall|j: int| pos <= j < q.len() ==> q[j].occurrences < p.occurrences
                &&& pos > 0 ==> q[pos - 1].occurrences >= p.occurrences
            },
    decreases q.len(),
{
    if q.len() == 0 || q.last().occurrences >= p.occurrences {
        let pos = q.len() as int;
        assert(q.push(p) =~= q.insert(pos, p));
        if pos > 0 {
            assert(q[pos - 1] == q.last());
        }
    } else {
        let r = q.drop_last();
        lemma_insert_shape(r, p);
        let pos = choose|pos: int|
            {
                &&& 0 <= pos <= r.len()
                &&& insert_by_occurrences(r, p) == r.insert(pos, p)
                &&& forall|j: int| pos <= j < r.len() ==> r[j].occurrences < p.occurrences
                &&& pos > 0 ==> r[pos - 1].occurrences >= p.occurrences
            };
        assert(r.insert(pos, p).push(q.last()) =~= q.insert(pos, p));
        assert forall|j: int| pos <= j < q.len() implies q[j].occurrences < p.occurrences by {
            if j < r.len() {
                assert(q[j] == r[j]);
            }
        }
        if pos > 0 {
            assert(q[pos - 1] == r[pos - 1]);
        }
    }
}

proof fn lemma_sort(v: Seq<PatternView>)
    ensures
        sort_by_occurrences(v).len() == v.len(),
        sort_by_occurrences(v).to_multiset() == v.to_multiset(),
        sorted_by_occurrences(sort_by_occurrences(v)),
        distinct_patterns(v) ==> distinct_patterns(sort_by_occurrences(v)),
    decreases v.len(),
{
    if v.len() == 0 {
        assert(sort_by_occurrences(v) =~= v);
    } else {
        let w = v.drop_last();
        let p = v.last();
        let q = sort_by_occurrences(w);
        lemma_sort(w);
        lemma_insert_shape(q, p);
        let pos = choose|pos: int|
            {
                &&& 0 <= pos <= q.len()
                &&& insert_by_occurrences(q, p) == q.insert(pos, p)
                &&& forall|j: int| pos <= j < q.len() ==> q[j].occurrences < p.occurrences
                &&& pos > 0 ==> q[pos - 1].occurrences >= p.occurrences
            };
        let r = q.insert(pos, p);
        assert(sort_by_occurrences(v) == r);
        vstd::seq_lib::to_multiset_insert(q, pos, p);
        assert(w.push(p) =~= v);
        vstd::seq_lib::to_multiset_build(w, p);
        assert forall|i: int, j: int| 0 <= i < j < r.len() implies r[i].occurrences
            >= r[j].occurrences by {
            if j < pos {
                assert(r[i] == q[i] && r[j] == q[j]);
            } else if j == pos {
                assert(r[i] == q[i]);
                assert(q[i].occurrences >= q[pos - 1].occurrences || i == pos - 1);
            } else if i < pos {
                assert(r[i] == q[i] && r[j] == q[j - 1]);
            } else if i == pos {
                assert(r[j] == q[j - 1]);
            } else {
                assert(r[i] == q[i - 1] && r[j] == q[j - 1]);
            }
        }
        if distinct_patterns(v) {
            assert forall|i: int, j: int| 0 <= i < j < w.len() implies w[i].pattern
                != w[j].pattern by {
                assert(w[i] == v[i] && w[j] == v[j]);
            }
            assert forall|k: int| 0 <= k < q.len() implies q[k].pattern != p.pattern by {
                vstd::seq_lib::to_multiset_contains(q, q[k]);
                vstd::seq_lib::to_multiset_contains(w, q[k]);
                assert(q.contains(q[k]));
                assert(w.contains(q[k]));
                let m = choose|m: int| 0 <= m < w.len() && w[m] == q[k];
                assert(v[m] == w[m]);
                assert(v[m].pattern != v[v.len() - 1].pattern);
            }
            assert forall|i: int, j: int| 0 <= i < j < r.len() implies r[i].pattern
                != r[j].pattern by {
                if j < pos {
                    assert(r[i] == q[i] && r[j] == q[j]);
                } else if j == pos {
                    assert(r[i] == q[i]);
                } else if i < pos {
                    assert(r[i] == q[i] && r[j] == q[j - 1]);
                } else if i == pos {
                    assert(r[j] == q[j - 1]);
                } else {
                    assert(r[i] == q[i - 1] && r[j] == q[j - 1]);
                }
            }
        }
    }
}

proof fn lemma_pattern_at(s: Seq<i32>, k: int, len: int)
    requires
        0 <= len,
        0 <= k,
        k + len <= s.len(),
    ensures
        pattern_at(s, k, len).pattern.len() == len,
        pattern_at(s, k, len).pattern == window(s, k, len),
        pattern_at(s, k, len).positions == occurrence_positions(s, window(s, k, len)),
        pattern_at(s, k, len).occurrences == pattern_at(s, k, len).positions.len(),
{
}

proof fn lemma_patterns_of_len(s: Seq<i32>, len: int, upto: int, mo: int)
    requires
        0 <= len,
        0 <= upto <= s.len() - len + 1,
    ensures
        forall|i: int|
            0 <= i < patterns_of_len(s, len, upto, mo).len() ==> first_window_below(
                s,
                len,
                upto,
                #[trigger] patterns_of_len(s, len, upto, mo)[i],
            ) && patterns_of_len(s, len, upto, mo)[i].occurrences >= mo,
        distinct_patterns(patterns_of_len(s, len, upto, mo)),
        forall|k: int|
            0 <= k < upto && !seen_before(s, k, len) && #[trigger] pattern_at(s, k, len).occurrences
                >= mo ==> patterns_of_len(s, len, upto, mo).contains(pattern_at(s, k, len)),
    decreases upto,
{
    if upto > 0 {
        let prev = patterns_of_len(s, len, upto - 1, mo);
        lemma_patterns_of_len(s, len, upto - 1, mo);
        let u = upto - 1;
        let p = pattern_at(s, u, len);
        let v = patterns_of_len(s, len, upto, mo);
        assert forall|i: int| 0 <= i < prev.len() implies first_window_below(
            s,
            len,
            upto,
            #[trigger] prev[i],
        ) by {
            assert(first_window_below(s, len, upto - 1, prev[i]));
            let k = choose|k: int|
                0 <= k < upto - 1 && prev[i] == pattern_at(s, k, len) && !seen_before(s, k, len);
            assert(0 <= k < upto);
        }
        if !seen_before(s, u, len) && p.occurrences >= mo {
            assert(v == prev.push(p));
            assert(first_window_below(s, len, upto, p));
            assert forall|i: int| 0 <= i < prev.len() implies prev[i].pattern != p.pattern by {
                assert(first_window_below(s, len, upto - 1, prev[i]));
                let k = choose|k: int|
                    0 <= k < upto - 1 && prev[i] == pattern_at(s, k, len) && !seen_before(
                        s,
                        k,
                        len,
                    );
                assert(window(s, k, len) != window(s, u, len));
            }
            assert forall|i: int, j: int| 0 <= i < j < v.len() implies v[i].pattern
                != v[j].pattern by {
                if j < prev.len() {
                    assert(v[i] == prev[i] && v[j] == prev[j]);
                } else {
                    assert(v[i] == prev[i] && v[j] == p);
                }
            }
            assert forall|i: int| 0 <= i < v.len() implies first_window_below(
                s,
                len,
                upto,
                #[trigger] v[i],
            ) && v[i].occurrences >= mo by {
                if i < prev.len() {
                    assert(v[i] == prev[i]);
                }
            }
            assert forall|k: int|
                0 <= k < upto && !seen_before(s, k, len) && #[trigger] pattern_at(
                    s,
                    k,
                    len,
                ).occurrences >= mo implies v.contains(pattern_at(s, k, len)) by {
                if k < u {
                    let i = choose|i: int| 0 <= i < prev.len() && prev[i] == pattern_at(s, k, len);
                    assert(v[i] == prev[i]);
                } else {
                    assert(v[prev.len() as int] == p);
                }
            }
        } else {
            assert(v == prev);
            assert forall|k: int|
                0 <= k < upto && !seen_before(s, k, len) && #[trigger] pattern_at(
                    s,
                    k,
                    len,
                ).occurrences >= mo implies v.contains(pattern_at(s, k, len)) by {
                if k < u {
                } else {
                    assert(k == u);
                }
            }
        }
    }
}

/// `p` reports the first occurrence of a window whose length is between
/// `lo` and `hi`, occurring at least `mo` times.
pub open spec fn reported_window(s: Seq<i32>, lo: int, hi: int, mo: int, p: PatternView) -> bool {
    exists|len: int|
        lo <= len <= hi && #[trigger] first_window_below(s, len, s.len() - len + 1, p)
            && p.occurrences >= mo
}

proof fn lemma_patterns_in_lengths(s: Seq<i32>, lo: int, hi: int, mo: int)
    requires
        0 <= lo,
        hi <= s.len(),
    ensures
        forall|i: int|
            0 <= i < patterns_in_lengths(s, lo, hi, mo).len() ==> reported_window(
                s,
                lo,
                hi,
                mo,
                #[trigger] patterns_in_lengths(s, lo, hi, mo)[i],
            ),
        forall|i: int|
            0 <= i < patterns_in_lengths(s, lo, hi, mo).len() ==> lo <= (
            #[trigger] patterns_in_lengths(s, lo, hi, mo)[i]).pattern.len() <= hi,
        distinct_patterns(patterns_in_lengths(s, lo, hi, mo)),
        forall|len: int, k: int|
            lo <= len <= hi && 0 <= k <= s.len() - len && !seen_before(s, k, len)
                && #[trigger] pattern_at(s, k, len).occurrences >= mo ==> patterns_in_lengths(
                s,
                lo,
                hi,
                mo,
            ).contains(pattern_at(s, k, len)),
    decreases hi - lo + 1,
{
    if hi >= lo {
        let a = patterns_in_lengths(s, lo, hi - 1, mo);
        let b = patterns_of_len(s, hi, s.len() - hi + 1, mo);
        let v = patterns_in_lengths(s, lo, hi, mo);
        lemma_patterns_in_lengths(s, lo, hi - 1, mo);
        lemma_patterns_of_len(s, hi, s.len() - hi + 1, mo);
        assert(v == a + b);
        assert forall|j: int| 0 <= j < b.len() implies (#[trigger] b[j]).pattern.len() == hi
            && reported_window(s, lo, hi, mo, b[j]) by {
            assert(first_window_below(s, hi, s.len() - hi + 1, b[j]));
            let k = choose|k: int|
                0 <= k < s.len() - hi + 1 && b[j] == pattern_at(s, k, hi) && !seen_before(
                    s,
                    k,
                    hi,
                );
            lemma_pattern_at(s, k, hi);
        }
        assert forall|i: int| 0 <= i < a.len() implies reported_window(
            s,
            lo,
            hi,
            mo,
            #[trigger] a[i],
        ) by {
            assert(reported_window(s, lo, hi - 1, mo, a[i]));
            let len = choose|len: int|
                lo <= len <= hi - 1 && #[trigger] first_window_below(s, len, s.len() - len + 1, a[i])
                    && a[i].occurrences >= mo;
            assert(lo <= len <= hi);
        }
        assert forall|i: int| 0 <= i < v.len() implies reported_window(
            s,
            lo,
            hi,
            mo,
            #[trigger] v[i],
        ) && lo <= v[i].pattern.len() <= hi by {
            if i < a.len() {
                assert(v[i] == a[i]);
            } else {
                assert(v[i] == b[i - a.len()]);
            }
        }
        assert forall|i: int, j: int| 0 <= i < j < v.len() implies v[i].pattern
            != v[j].pattern by {
            if j < a.len() {
                assert(v[i] == a[i] && v[j] == a[j]);
            } else if i < a.len() {
                assert(v[i] == a[i] && v[j] == b[j - a.len()]);
                assert(a[i].pattern.len() <= hi - 1);
            } else {
                assert(v[i] == b[i - a.len()] && v[j] == b[j - a.len()]);
            }
        }
        assert forall|len: int, k: int|
            lo <= len <= hi && 0 <= k <= s.len() - len && !seen_before(s, k, len)
                && #[trigger] pattern_at(s, k, len).occurrences >= mo implies v.contains(
            pattern_at(s, k, len),
        ) by {
            if len < hi {
                let i = choose|i: int| 0 <= i < a.len() && a[i] == pattern_at(s, k, len);
                assert(v[i] == a[i]);
            } else {
                let j = choose|j: int| 0 <= j < b.len() && b[j] == pattern_at(s, k, len);
                assert(v[a.len() + j] == b[j]);
            }
        }
    }
}

proof fn lemma_first_occurrence(s: Seq<i32>, start: int, len: int)
    requires
        0 <= start,
    ensures
        exists|k: int|
            0 <= k <= start && window(s, k, len) == window(s, start, len) && !seen_before(
                s,
                k,
                len,
            ),
    decreases start,
{
    if seen_before(s, start, len) {
        let k1 = choose|k: int| 0 <= k < start && #[trigger] window(s, k, len) == window(s, start, len);
        lemma_first_occurrence(s, k1, len);
    } else {
        assert(window(s, start, len) == window(s, start, len));
    }
}

/// The largest pattern length that `detect` considers on `s`.
pub open spec fn max_detected_len(s: Seq<i32>, d: MotifDetector) -> int {
    if d.max_length <= s.len() {
        d.max_length as int
    } else {
        s.len() as int
    }
}

/// Every pattern that `detect` reports is a window of `s` whose length is
/// within the detector's bounds; it comes with every position at which it
/// occurs, and it occurs at least `min_occurrences` times.
pub proof fn law_detect_reports_recurring_windows(s: Seq<i32>, d: MotifDetector)
    ensures
        forall|i: int|
            0 <= i < detected(s, d).len() ==> {
                let p = #[trigger] detected(s, d)[i];
                &&& d.min_length <= p.pattern.len() <= max_detected_len(s, d)
                &&& p.positions == occurrence_positions(s, p.pattern)
                &&& p.occurrences == p.positions.len()
                &&& p.occurrences >= d.min_occurrences
                &&& exists|k: int| 0 <= k <= s.len() - p.pattern.len() && window(s, k, p.pattern.len() as int) == p.pattern
            },
{
    let lo = d.min_length as int;
    let hi = max_detected_len(s, d);
    let mo = d.min_occurrences as int;
    let raw = patterns_in_lengths(s, lo, hi, mo);
    let v = detected(s, d);
    lemma_patterns_in_lengths(s, lo, hi, mo);
    lemma_sort(raw);
    assert forall|i: int| 0 <= i < v.len() implies {
        let p = #[trigger] v[i];
        &&& d.min_length <= p.pattern.len() <= max_detected_len(s, d)
        &&& p.positions == occurrence_positions(s, p.pattern)
        &&& p.occurrences == p.positions.len()
        &&& p.occurrences >= d.min_occurrences
        &&& exists|k: int| 0 <= k <= s.len() - p.pattern.len() && window(s, k, p.pattern.len() as int) == p.pattern
    } by {
        let p = v[i];
        vstd::seq_lib::to_multiset_contains(v, p);
        vstd::seq_lib::to_multiset_contains(raw, p);
        assert(v.contains(p));
        let m = choose|m: int| 0 <= m < raw.len() && raw[m] == p;
        assert(reported_window(s, lo, hi, mo, raw[m]));
        let len = choose|len: int|
            lo <= len <= hi && #[trigger] first_window_below(s, len, s.len() - len + 1, p)
                && p.occurrences >= mo;
        let k = choose|k: int|
            0 <= k < s.len() - len + 1 && p == pattern_at(s, k, len) && !seen_before(s, k, len);
        lemma_pattern_at(s, k, len);
    }
}

/// The patterns that `detect` reports are all different, and are sorted by
/// occurrence count, most frequent first.
pub proof fn law_detect_distinct_and_sorted(s: Seq<i32>, d: MotifDetector)
    ensures
        distinct_patterns(detected(s, d)),
        sorted_by_occurrences(detected(s, d)),
{
    let lo = d.min_length as int;
    let hi = max_detected_len(s, d);
    let mo = d.min_occurrences as int;
    lemma_patterns_in_lengths(s, lo, hi, mo);
    lemma_sort(patterns_in_lengths(s, lo, hi, mo));
}

/// `detect` misses nothing: every window whose length is within the
/// detector's bounds and that occurs at least `min_occurrences` times is
/// reported.
pub proof fn law_detect_complete(s: Seq<i32>, d: MotifDetector, start: int, len: int)
    requires
        d.min_length <= len <= max_detected_len(s, d),
        0 <= start <= s.len() - len,
        occurrence_positions(s, window(s, start, len)).len() >= d.min_occurrences,
    ensures
        exists|i: int|
            0 <= i < detected(s, d).len() && #[trigger] detected(s, d)[i] == pattern_at(
                s,
                start,
                len,
            ),
{
    let lo = d.min_length as int;
    let hi = max_detected_len(s, d);
    let mo = d.min_occurrences as int;
    let raw = patterns_in_lengths(s, lo, hi, mo);
    let v = detected(s, d);
    lemma_patterns_in_lengths(s, lo, hi, mo);
    lemma_sort(raw);
    lemma_first_occurrence(s, start, len);
    let k = choose|k: int|
        0 <= k <= start && window(s, k, len) == window(s, start, len) && !seen_before(s, k, len);
    assert(pattern_at(s, k, len) == pattern_at(s, start, len));
    let p = pattern_at(s, start, len);
    assert(pattern_at(s, k, len).occurrences >= mo);
    assert(0 <= k <= s.len() - len);
    assert(raw.contains(pattern_at(s, k, len)));
    assert(raw.contains(p));
    vstd::seq_lib::to_multiset_contains(raw, p);
    vstd::seq_lib::to_multiset_contains(v, p);
    assert(v.contains(p));
}

/// Where a pattern first occurs.
pub open spec fn first_position(p: PatternView) -> int {
    p.positions[0]
}

/// Among patterns of equal frequency, shorter ones come first, and among
/// those of equal length the one that occurs first.
pub open spec fn reported_before(p: PatternView, q: PatternView) -> bool {
    p.pattern.len() < q.pattern.len() || (p.pattern.len() == q.pattern.len() && first_position(p)
        < first_position(q))
}

proof fn lemma_no_occurrences_below(s: Seq<i32>, pat: Seq<i32>, u: int)
    requires
        forall|t: int| 0 <= t < u ==> #[trigger] window(s, t, pat.len() as int) != pat,
    ensures
        occurrences_below(s, pat, u).len() == 0,
    decreases u,
{
    if u > 0 {
        lemma_no_occurrences_below(s, pat, u - 1);
        assert(window(s, u - 1, pat.len() as int) != pat);
    }
}

proof fn lemma_first_of_occurrences(s: Seq<i32>, pat: Seq<i32>, k: int, u: int)
    requires
        0 <= k < u,
        window(s, k, pat.len() as int) == pat,
        forall|t: int| 0 <= t < k ==> #[trigger] window(s, t, pat.len() as int) != pat,
    ensures
        occurrences_below(s, pat, u).len() > 0,
        occurrences_below(s, pat, u)[0] == k,
    decreases u,
{
    if u == k + 1 {
        lemma_no_occurrences_below(s, pat, k);
    } else {
        lemma_first_of_occurrences(s, pat, k, u - 1);
    }
}

proof fn lemma_first_position(s: Seq<i32>, k: int, len: int)
    requires
        0 <= len,
        0 <= k,
        k + len <= s.len(),
        !seen_before(s, k, len),
    ensures
        pattern_at(s, k, len).positions.len() > 0,
        first_position(pattern_at(s, k, len)) == k,
{
    let pat = window(s, k, len);
    assert(pat.len() == len);
    assert forall|t: int| 0 <= t < k implies #[trigger] window(s, t, pat.len() as int) != pat by {
        if window(s, t, len) == window(s, k, len) {
            assert(seen_before(s, k, len));
        }
    }
    lemma_first_of_occurrences(s, pat, k, s.len() - len + 1);
}

proof fn lemma_patterns_of_len_order(s: Seq<i32>, len: int, upto: int, mo: int)
    requires
        0 <= len,
        0 <= upto <= s.len() - len + 1,
    ensures
        forall|i: int|
            0 <= i < patterns_of_len(s, len, upto, mo).len() ==> (#[trigger] patterns_of_len(
                s,
                len,
                upto,
                mo,
            )[i]).pattern.len() == len && 0 <= first_position(patterns_of_len(s, len, upto, mo)[i])
                < upto,
        forall|i: int, j: int|
            0 <= i < j < patterns_of_len(s, len, upto, mo).len() ==> first_position(
                #[trigger] patterns_of_len(s, len, upto, mo)[i],
            ) < first_position(#[trigger] patterns_of_len(s, len, upto, mo)[j]),
    decreases upto,
{
    if upto > 0 {
        let prev = patterns_of_len(s, len, upto - 1, mo);
        let v = patterns_of_len(s, len, upto, mo);
        let u = upto - 1;
        lemma_patterns_of_len_order(s, len, upto - 1, mo);
        if !seen_before(s, u, len) && pattern_at(s, u, len).occurrences >= mo {
            let p = pattern_at(s, u, len);
            lemma_first_position(s, u, len);
            lemma_pattern_at(s, u, len);
            assert(v == prev.push(p));
            assert forall|i: int| 0 <= i < v.len() implies (#[trigger] v[i]).pattern.len() == len
                && 0 <= first_position(v[i]) < upto by {
                if i < prev.len() {
                    assert(v[i] == prev[i]);
                }
            }
            assert forall|i: int, j: int| 0 <= i < j < v.len() implies first_position(
                #[trigger] v[i],
            ) < first_position(#[trigger] v[j]) by {
                assert(v[i] == prev[i]);
                if j < prev.len() {
                    assert(v[j] == prev[j]);
                }
            }
        } else {
            assert(v == prev);
        }
    }
}

proof fn lemma_patterns_in_lengths_order(s: Seq<i32>, lo: int, hi: int, mo: int)
    requires
        0 <= lo,
        hi <= s.len(),
    ensures
        forall|i: int|
            0 <= i < patterns_in_lengths(s, lo, hi, mo).len() ==> (
            #[trigger] patterns_in_lengths(s, lo, hi, mo)[i]).pattern.len() <= hi,
        forall|i: int, j: int|
            0 <= i < j < patterns_in_lengths(s, lo, hi, mo).len() ==> reported_before(
                #[trigger] patterns_in_lengths(s, lo, hi, mo)[i],
                #[trigger] patterns_in_lengths(s, lo, hi, mo)[j],
            ),
    decreases hi - lo + 1,
{
    if hi >= lo {
        let a = patterns_in_lengths(s, lo, hi - 1, mo);
        let b = patterns_of_len(s, hi, s.len() - hi + 1, mo);
        let v = patterns_in_lengths(s, lo, hi, mo);
        lemma_patterns_in_lengths_order(s, lo, hi - 1, mo);
        lemma_patterns_of_len_order(s, hi, s.len() - hi + 1, mo);
        assert(v == a + b);
        assert forall|i: int| 0 <= i < v.len() implies (#[trigger] v[i]).pattern.len()
            <= hi by {
            if i < a.len() {
                assert(v[i] == a[i]);
            } else {
                assert(v[i] == b[i - a.len()]);
            }
        }
        assert forall|i: int, j: int| 0 <= i < j < v.len() implies reported_before(
            #[trigger] v[i],
            #[trigger] v[j],
        ) by {
            if j < a.len() {
                assert(v[i] == a[i] && v[j] == a[j]);
            } else if i < a.len() {
                assert(v[i] == a[i] && v[j] == b[j - a.len()]);
            } else {
                assert(v[i] == b[i - a.len()] && v[j] == b[j - a.len()]);
            }
        }
    }
}

/// `f` maps each position of `r` to the position of the same entry in `v`,
/// one to one, keeping the order of entries of equal frequency.
pub open spec fn stable_arrangement(v: Seq<PatternView>, r: Seq<PatternView>, f: Seq<int>) -> bool {
    &&& f.len() == r.len() == v.len()
    &&& forall|i: int| 0 <= i < r.len() ==> 0 <= #[trigger] f[i] < v.len() && r[i] == v[f[i]]
    &&& forall|i: int, j: int| 0 <= i < j < r.len() ==> #[trigger] f[i] != #[trigger] f[j]
    &&& forall|i: int, j: int|
        0 <= i < j < r.len() && r[i].occurrences == r[j].occurrences ==> #[trigger] f[i]
            < #[trigger] f[j]
}

proof fn lemma_sort_stable(v: Seq<PatternView>)
    ensures
        exists|f: Seq<int>| stable_arrangement(v, sort_by_occurrences(v), f),
    decreases v.len(),
{
    if v.len() == 0 {
        assert(stable_arrangement(v, sort_by_occurrences(v), Seq::<int>::empty()));
    } else {
        let w = v.drop_last();
        let p = v.last();
        let q = sort_by_occurrences(w);
        let n = v.len() - 1;
        lemma_sort_stable(w);
        let g = choose|g: Seq<int>| stable_arrangement(w, q, g);
        lemma_insert_shape(q, p);
        let pos = choose|pos: int|
            {
                &&& 0 <= pos <= q.len()
                &&& insert_by_occurrences(q, p) == q.insert(pos, p)
                &&& forall|j: int| pos <= j < q.len() ==> q[j].occurrences < p.occurrences
                &&& pos > 0 ==> q[pos - 1].occurrences >= p.occurrences
            };
        let r = q.insert(pos, p);
        let f = g.insert(pos, n);
        assert(sort_by_occurrences(v) == r);
        assert forall|i: int| 0 <= i < r.len() implies 0 <= #[trigger] f[i] < v.len() && r[i]
            == v[f[i]] by {
            if i < pos {
                assert(f[i] == g[i] && r[i] == q[i] && v[g[i]] == w[g[i]]);
            } else if i == pos {
                assert(f[i] == n && r[i] == p);
            } else {
                assert(f[i] == g[i - 1] && r[i] == q[i - 1] && v[g[i - 1]] == w[g[i - 1]]);
            }
        }
        assert forall|i: int, j: int| 0 <= i < j < r.len() implies #[trigger] f[i]
            != #[trigger] f[j] by {
            if j < pos {
                assert(f[i] == g[i] && f[j] == g[j]);
            } else if j == pos {
                assert(f[i] == g[i]);
            } else if i < pos {
                assert(f[i] == g[i] && f[j] == g[j - 1]);
            } else if i == pos {
                assert(f[j] == g[j - 1]);
            } else {
                assert(f[i] == g[i - 1] && f[j] == g[j - 1]);
            }
        }
        assert forall|i: int, j: int|
            0 <= i < j < r.len() && r[i].occurrences == r[j].occurrences implies #[trigger] f[i]
                < #[trigger] f[j] by {
            if j < pos {
                assert(f[i] == g[i] && f[j] == g[j] && r[i] == q[i] && r[j] == q[j]);
            } else if j == pos {
                assert(f[i] == g[i]);
            } else if i < pos {
                assert(f[i] == g[i] && f[j] == g[j - 1] && r[i] == q[i] && r[j] == q[j - 1]);
            } else if i == pos {
                assert(r[j] == q[j - 1]);
                assert(q[j - 1].occurrences < p.occurrences);
            } else {
                assert(f[i] == g[i - 1] && f[j] == g[j - 1] && r[i] == q[i - 1] && r[j] == q[j
                    - 1]);
            }
        }
        assert(stable_arrangement(v, r, f));
    }
}

/// Among patterns that occur equally often, `detect` reports shorter ones
/// first, and among those of equal length the one that occurs first.
pub proof fn law_detect_ties_in_order(s: Seq<i32>, d: MotifDetector)
    ensures
        forall|i: int, j: int|
            0 <= i < j < detected(s, d).len() && detected(s, d)[i].occurrences == detected(
                s,
                d,
            )[j].occurrences ==> reported_before(
                #[trigger] detected(s, d)[i],
                #[trigger] detected(s, d)[j],
            ),
{
    let lo = d.min_length as int;
    let hi = max_detected_len(s, d);
    let mo = d.min_occurrences as int;
    let raw = patterns_in_lengths(s, lo, hi, mo);
    let v = detected(s, d);
    lemma_patterns_in_lengths_order(s, lo, hi, mo);
    lemma_sort_stable(raw);
    let f = choose|f: Seq<int>| stable_arrangement(raw, v, f);
    assert forall|i: int, j: int|
        0 <= i < j < v.len() && v[i].occurrences == v[j].occurrences implies reported_before(
        #[trigger] v[i],
        #[trigger] v[j],
    ) by {
        assert(f[i] < f[j]);
        assert(v[i] == raw[f[i]] && v[j] == raw[f[j]]);
        assert(reported_before(raw[f[i]], raw[f[j]]));
    }
}

// ----------------------------------------------------------------------------
// Characterizations of the measures and queries in terms of elements
// ----------------------------------------------------------------------------

/// A motif is symmetrical exactly when its `k`-th step equals its `k`-th
/// step from the end, for every `k`.
pub proof fn law_symmetry_is_palindromic_steps(s: Seq<i32>)
    ensures
        crate::motif::is_symmetrical_seq(s) <==> forall|k: int|
            0 <= k < s.len() - 1 ==> #[trigger] step(s, k) == step(s, s.len() - 2 - k),
{
    let v = intervals_of(s);
    if forall|k: int| 0 <= k < s.len() - 1 ==> #[trigger] step(s, k) == step(s, s.len() - 2 - k) {
        if s.len() > 0 {
            assert forall|k: int| 0 <= k < v.len() implies v[k] == v.reverse()[k] by {
                assert(step(s, k) == step(s, s.len() - 2 - k));
            }
        }
        assert(v =~= v.reverse());
    }
    if crate::motif::is_symmetrical_seq(s) {
        assert forall|k: int| 0 <= k < s.len() - 1 implies #[trigger] step(s, k) == step(
            s,
            s.len() - 2 - k,
        ) by {
            assert(v[k] == v.reverse()[k]);
        }
    }
}

proof fn lemma_count_is_multiset_count(t: Seq<Direction>, d: Direction)
    ensures
        count_direction(t, d) == t.to_multiset().count(d),
    decreases t.len(),
{
    broadcast use vstd::multiset::group_multiset_axioms;

    if t.len() == 0 {
        vstd::seq_lib::to_multiset_contains(t, d);
    } else {
        lemma_count_is_multiset_count(t.drop_last(), d);
        assert(t.drop_last().push(t.last()) =~= t);
        vstd::seq_lib::to_multiset_build(t.drop_last(), t.last());
    }
}

/// A trend is ascending exactly when, over the whole trend, it rises at
/// least as often as it falls.
pub proof fn law_ascending_counts_all_steps(t: Seq<Direction>)
    ensures
        ascending_trend(t) <==> t.to_multiset().count(Direction::Up) >= t.to_multiset().count(
            Direction::Down,
        ),
{
    lemma_count_is_multiset_count(t, Direction::Up);
    lemma_count_is_multiset_count(t, Direction::Down);
}

/// Appending a fall to a trend with as many falls as rises makes it
/// descending; appending a rise to an ascending trend keeps it ascending.
pub proof fn law_ascending_after_one_more_step(t: Seq<Direction>)
    ensures
        t.to_multiset().count(Direction::Up) == t.to_multiset().count(Direction::Down)
            ==> !ascending_trend(t.push(Direction::Down)),
        ascending_trend(t) ==> ascending_trend(t.push(Direction::Up)),
{
    broadcast use vstd::multiset::group_multiset_axioms;

    law_ascending_counts_all_steps(t);
    law_ascending_counts_all_steps(t.push(Direction::Down));
    law_ascending_counts_all_steps(t.push(Direction::Up));
    vstd::seq_lib::to_multiset_build(t, Direction::Down);
    vstd::seq_lib::to_multiset_build(t, Direction::Up);
}

/// `by_contour` keeps, in order, exactly the members whose contour is the
/// whole query.
pub proof fn law_by_contour_selects_exact_matches(
    ms: Seq<MotifView>,
    c: Seq<Direction>,
)
    ensures
        crate::family::with_contour(ms, c) == ms.filter(
            |m: MotifView| contour_of(m.elements) == c,
        ),
        forall|i: int|
            0 <= i < crate::family::with_contour(ms, c).len() ==> contour_of(
                (#[trigger] crate::family::with_contour(ms, c)[i]).elements,
            ) == c && ms.contains(crate::family::with_contour(ms, c)[i]),
        forall|i: int|
            0 <= i < ms.len() && contour_of((#[trigger] ms[i]).elements) == c
                ==> crate::family::with_contour(ms, c).contains(ms[i]),
    decreases ms.len(),
{
    reveal(Seq::filter);
    let r = crate::family::with_contour(ms, c);
    if ms.len() > 0 {
        let w = ms.drop_last();
        let rw = crate::family::with_contour(w, c);
        law_by_contour_selects_exact_matches(w, c);
        assert forall|i: int| 0 <= i < r.len() implies contour_of((#[trigger] r[i]).elements)
            == c && ms.contains(r[i]) by {
            if i < rw.len() {
                assert(r[i] == rw[i]);
                let j = choose|j: int| 0 <= j < w.len() && w[j] == rw[i];
                assert(ms[j] == w[j]);
            } else {
                assert(r[i] == ms.last());
                assert(ms[ms.len() - 1] == ms.last());
            }
        }
        assert forall|i: int| 0 <= i < ms.len() && contour_of((#[trigger] ms[i]).elements) == c
            implies r.contains(ms[i]) by {
            if i < w.len() {
                assert(ms[i] == w[i]);
                let j = choose|j: int| 0 <= j < rw.len() && rw[j] == w[i];
                assert(r[j] == rw[j]);
            } else {
                assert(r[r.len() - 1] == ms.last());
            }
        }
    }
}

/// The total length of no members is 0, of one member its number of
/// elements, and of two groups of members the sum of their totals.
pub proof fn law_total_length_adds_element_counts(a: Seq<MotifView>, b: Seq<MotifView>, m: MotifView)
    ensures
        crate::family::total_len(Seq::empty()) == 0,
        crate::family::total_len(seq![m]) == m.elements.len(),
        crate::family::total_len(a + b) == crate::family::total_len(a) + crate::family::total_len(
            b,
        ),
    decreases b.len(),
{
    assert(seq![m].drop_last() =~= Seq::<MotifView>::empty());
    if b.len() == 0 {
        assert(a + b =~= a);
    } else {
        law_total_length_adds_element_counts(a, b.drop_last(), m);
        assert((a + b).drop_last() =~= a + b.drop_last());
    }
}

/// Members that all have `len` elements total `len` per member.
pub proof fn law_total_length_of_equal_members(ms: Seq<MotifView>, len: int)
    requires
        forall|i: int| 0 <= i < ms.len() ==> (#[trigger] ms[i]).elements.len() == len,
    ensures
        crate::family::total_len(ms) == ms.len() * len,
    decreases ms.len(),
{
    if ms.len() > 0 {
        let w = ms.drop_last();
        assert forall|i: int| 0 <= i < w.len() implies (#[trigger] w[i]).elements.len() == len by {
            assert(w[i] == ms[i]);
        }
        law_total_length_of_equal_members(w, len);
        assert(ms.last() == ms[ms.len() - 1]);
        assert(ms.len() * len == w.len() * len + len) by (nonlinear_arith)
            requires
                ms.len() == w.len() + 1,
        ;
    }
}

// ----------------------------------------------------------------------------
// The stages of the standard development, element by element
// ----------------------------------------------------------------------------

proof fn lemma_inversion_elements(m: MotifView)
    requires
        can_apply(MotifTransform::Inversion, m.elements),
    ensures
        apply_view(MotifTransform::Inversion, m).elements.len() == m.elements.len(),
        forall|k: int|
            0 <= k < m.elements.len() ==> #[trigger] apply_view(
                MotifTransform::Inversion,
                m,
            ).elements[k] == 2 * m.elements[0] - m.elements[k],
{
    let s = m.elements;
    assert forall|k: int| 0 <= k < s.len() implies #[trigger] apply_view(
        MotifTransform::Inversion,
        m,
    ).elements[k] == 2 * s[0] - s[k] by {
        assert(fits_i32(inversion_of(s)[k]));
    }
}

proof fn lemma_retrograde_inversion_elements(m: MotifView)
    requires
        can_apply(MotifTransform::RetrogradeInversion, m.elements),
    ensures
        apply_view(MotifTransform::RetrogradeInversion, m).elements.len() == m.elements.len(),
        forall|k: int|
            0 <= k < m.elements.len() ==> #[trigger] apply_view(
                MotifTransform::RetrogradeInversion,
                m,
            ).elements[k] == 2 * m.elements[0] - m.elements[m.elements.len() - 1 - k],
{
    let s = m.elements;
    let n = s.len();
    assert forall|k: int| 0 <= k < n implies #[trigger] apply_view(
        MotifTransform::RetrogradeInversion,
        m,
    ).elements[k] == 2 * s[0] - s[n - 1 - k] by {
        assert(fits_i32(inversion_of(s)[n - 1 - k]));
        assert(inversion_of(s).reverse()[k] == inversion_of(s)[n - 1 - k]);
    }
}

proof fn lemma_retrograde_elements(m: MotifView)
    ensures
        apply_view(MotifTransform::Retrograde, m).elements.len() == m.elements.len(),
        forall|k: int|
            0 <= k < m.elements.len() ==> #[trigger] apply_view(
                MotifTransform::Retrograde,
                m,
            ).elements[k] == m.elements[m.elements.len() - 1 - k],
{
}

proof fn lemma_augmentation_elements(m: MotifView, factor: i32)
    requires
        can_apply(MotifTransform::Augmentation { factor }, m.elements),
    ensures
        apply_view(MotifTransform::Augmentation { factor }, m).elements.len() == m.elements.len(),
        forall|k: int|
            0 <= k < m.elements.len() ==> #[trigger] apply_view(
                MotifTransform::Augmentation { factor },
                m,
            ).elements[k] == m.elements[0] + factor * (m.elements[k] - m.elements[0]),
{
    let s = m.elements;
    assert forall|k: int| 0 <= k < s.len() implies #[trigger] apply_view(
        MotifTransform::Augmentation { factor },
        m,
    ).elements[k] == s[0] + factor * (s[k] - s[0]) by {
        assert(fits_i32(crate::transform::augmentation_of(s, factor as int)[k]));
    }
}

proof fn lemma_sequence_elements(m: MotifView, shift: i32)
    requires
        can_apply(MotifTransform::Sequence { shift }, m.elements),
    ensures
        apply_view(MotifTransform::Sequence { shift }, m).elements.len() == 2 * m.elements.len(),
        forall|k: int|
            0 <= k < m.elements.len() ==> #[trigger] apply_view(
                MotifTransform::Sequence { shift },
                m,
            ).elements[k] == m.elements[k],
        forall|k: int|
            0 <= k < m.elements.len() ==> #[trigger] apply_view(
                MotifTransform::Sequence { shift },
                m,
            ).elements[m.elements.len() + k] == m.elements[k] + shift,
{
    let s = m.elements;
    let n = s.len();
    assert forall|k: int| 0 <= k < n implies #[trigger] apply_view(
        MotifTransform::Sequence { shift },
        m,
    ).elements[n + k] == s[k] + shift by {
        assert(fits_i32(crate::transform::shifted(s, shift as int)[k]));
    }
}

/// The stages of the standard development, element by element: repetition
/// is the seed followed by the seed raised by 2; inversion mirrors every
/// element around the first; fragmentation (for seeds of at least three
/// elements) keeps the first two; augmentation doubles every distance from
/// the first element; combination is the seed backwards followed by the
/// same raised by 5; full development augments the retrograde inversion by
/// 2 and follows it with the same raised by 7. Each stage motif is named
/// after the seed with the transformations applied.
pub proof fn law_standard_plan_stages(m: MotifView)
    requires
        crate::development::standard_plan_applicable(m),
    ensures
        ({
            let p = standard_plan(m);
            let e = m.elements;
            let n = e.len() as int;
            let o: int = if n >= 3 {
                1
            } else {
                0
            };
            &&& p.len() == 5 + o
            &&& p[0].name == "Repetition"@ && p[1].name == "Inversion"@
            &&& n >= 3 ==> p[2].name == "Fragmentation"@
            &&& p[2 + o].name == "Augmentation"@ && p[3 + o].name == "Combination"@
            &&& p[4 + o].name == "Full Development"@
            &&& p[0].motif.name == m.name + " ("@ + "Sequence"@ + ")"@
            &&& p[1].motif.name == m.name + " ("@ + "Inversion"@ + ")"@
            &&& p[2 + o].motif.name == m.name + " ("@ + "Augmentation"@ + ")"@
            &&& n >= 3 ==> p[2].motif.name == m.name + " ("@ + "Fragmentation"@ + ")"@
            &&& p[3 + o].motif.name == m.name + " ("@ + "Retrograde"@ + ")"@ + " ("@
                + "Sequence"@ + ")"@
            &&& p[4 + o].motif.name == m.name + " ("@ + "RetrogradeInversion"@ + ")"@ + " ("@
                + "Augmentation"@ + ")"@ + " ("@ + "Sequence"@ + ")"@
            &&& p[0].complexity_percent == 20 && p[1].complexity_percent == 35
            &&& n >= 3 ==> p[2].complexity_percent == 45
            &&& p[2 + o].complexity_percent == 60 && p[3 + o].complexity_percent == 75
            &&& p[4 + o].complexity_percent == 90
            &&& p[0].motif.elements.len() == 2 * n
            &&& forall|k: int|
                #![trigger p[0].motif.elements[k]]
                0 <= k < n ==> p[0].motif.elements[k] == e[k] && p[0].motif.elements[n + k] == e[k]
                    + 2
            &&& p[1].motif.elements.len() == n
            &&& forall|k: int| #![trigger p[1].motif.elements[k]] 0 <= k < n ==> p[1].motif.elements[k] == 2 * e[0] - e[k]
            &&& n >= 3 ==> p[2].motif.elements == e.take(2)
            &&& p[2 + o].motif.elements.len() == n
            &&& forall|k: int|
                #![trigger p[2 + o].motif.elements[k]]
                0 <= k < n ==> p[2 + o].motif.elements[k] == e[0] + 2 * (e[k] - e[0])
            &&& p[3 + o].motif.elements.len() == 2 * n
            &&& forall|k: int|
                #![trigger p[3 + o].motif.elements[k]]
                0 <= k < n ==> p[3 + o].motif.elements[k] == e[n - 1 - k] && p[3
                    + o].motif.elements[n + k] == e[n - 1 - k] + 5
            &&& p[4 + o].motif.elements.len() == 2 * n
            &&& forall|k: int|
                #![trigger p[4 + o].motif.elements[k]]
                0 <= k < n ==> p[4 + o].motif.elements[k] == 2 * e[0] + e[n - 1] - 2 * e[n - 1
                    - k] && p[4 + o].motif.elements[n + k] == 2 * e[0] + e[n - 1] - 2 * e[n - 1
                    - k] + 7
        }),
{
    let e = m.elements;
    let n = e.len() as int;
    let p = standard_plan(m);
    let retro = apply_view(MotifTransform::Retrograde, m);
    let ri = apply_view(MotifTransform::RetrogradeInversion, m);
    let aug_ri = apply_view(MotifTransform::Augmentation { factor: 2 }, ri);
    lemma_sequence_elements(m, 2);
    lemma_inversion_elements(m);
    lemma_augmentation_elements(m, 2);
    lemma_retrograde_elements(m);
    lemma_sequence_elements(retro, 5);
    lemma_retrograde_inversion_elements(m);
    lemma_augmentation_elements(ri, 2);
    lemma_sequence_elements(aug_ri, 7);
    let o: int = if n >= 3 {
        1
    } else {
        0
    };
    assert(p.len() == 5 + o);
    if n >= 3 {
        let frag = apply_view(MotifTransform::Fragmentation { start: 0, len: 2 }, m);
        assert(frag.elements =~= e.take(2));
    }
    let full = p[4 + o].motif.elements;
    assert(full == apply_view(MotifTransform::Sequence { shift: 7 }, aug_ri).elements);
    assert forall|k: int| #![trigger full[k]] 0 <= k < n implies full[k] == 2 * e[0] + e[n - 1] - 2 * e[n - 1 - k]
        && full[n + k] == 2 * e[0] + e[n - 1] - 2 * e[n - 1 - k] + 7 by {
        assert(ri.elements[k] == 2 * e[0] - e[n - 1 - k]);
        assert(ri.elements[0] == 2 * e[0] - e[n - 1]);
        assert(aug_ri.elements[k] == ri.elements[0] + 2 * (ri.elements[k] - ri.elements[0]));
    }
    let comb = p[3 + o].motif.elements;
    assert forall|k: int| #![trigger comb[k]] 0 <= k < n implies comb[k] == e[n - 1 - k] && comb[n + k] == e[n - 1
        - k] + 5 by {
        assert(retro.elements[k] == e[n - 1 - k]);
    }
}

} // verus!
