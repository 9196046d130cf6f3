//! The integer side of developmental arcs: the stages of the standard
//! development of a seed motif, and the trend test over stage complexities.
use vstd::prelude::*;
use vstd::string::StringExecFns;

use crate::chain::MotifChain;
use crate::motif::{Direction, Motif, MotifView};
use crate::transform::{apply_view, can_apply, MotifTransform};

verus! {

/// A stage of development: its name, its motif, its complexity in
/// hundredths (0 to 100) and what changed.
#[derive(Debug)]
pub struct StagePlan {
    pub name: String,
    pub motif: Motif,
    pub complexity_percent: u32,
    pub description: String,
}

/// The mathematical content of a `StagePlan`.
pub struct StagePlanView {
    pub name: Seq<char>,
    pub motif: MotifView,
    pub complexity_percent: int,
    pub description: Seq<char>,
}

impl View for StagePlan {
    type V = StagePlanView;

    open spec fn view(&self) -> StagePlanView {
        StagePlanView {
            name: self.name@,
            motif: self.motif@,
            complexity_percent: self.complexity_percent as int,
            description: self.description@,
        }
    }
}

pub open spec fn stage(name: Seq<char>, motif: MotifView, percent: int, description: Seq<char>) -> StagePlanView {
    StagePlanView { name, motif, complexity_percent: percent, description }
}

/// The complexity of the presentation stage that opens every arc, in hundredths.
pub open spec fn presentation_percent() -> int {
    10
}

/// The stages that the standard development adds after the presentation of
/// `m`: repetition, inversion, fragmentation (only for motifs of at least
/// three elements), augmentation, combination and full development.
pub open spec fn standard_plan(m: MotifView) -> Seq<StagePlanView> {
    let repeated = apply_view(MotifTransform::Sequence { shift: 2 }, m);
    let inverted = apply_view(MotifTransform::Inversion, m);
    let fragmented = apply_view(MotifTransform::Fragmentation { start: 0, len: 2 }, m);
    let augmented = apply_view(MotifTransform::Augmentation { factor: 2 }, m);
    let combined = apply_view(
        MotifTransform::Sequence { shift: 5 },
        apply_view(MotifTransform::Retrograde, m),
    );
    let full = apply_view(
        MotifTransform::Sequence { shift: 7 },
        apply_view(
            MotifTransform::Augmentation { factor: 2 },
            apply_view(MotifTransform::RetrogradeInversion, m),
        ),
    );
    let head = seq![
        stage("Repetition"@, repeated, 20, "Repeat the motif at a new level"@),
        stage("Inversion"@, inverted, 35, "Invert the motif's intervals"@),
    ];
    let middle = if m.elements.len() >= 3 {
        seq![stage("Fragmentation"@, fragmented, 45, "Extract a fragment for development"@)]
    } else {
        Seq::empty()
    };
    let tail = seq![
        stage("Augmentation"@, augmented, 60, "Stretch the motif's intervals"@),
        stage("Combination"@, combined, 75, "Combine retrograde with sequencing"@),
        stage(
            "Full Development"@,
            full,
            90,
            "Full development: retrograde inversion, augmented and sequenced"@,
        ),
    ];
    head + middle + tail
}

/// Whether every transformation of the standard development can be applied.
pub open spec fn standard_plan_applicable(m: MotifView) -> bool {
    let ri = apply_view(MotifTransform::RetrogradeInversion, m);
    &&& can_apply(MotifTransform::Sequence { shift: 2 }, m.elements)
    &&& can_apply(MotifTransform::Inversion, m.elements)
    &&& can_apply(MotifTransform::Augmentation { factor: 2 }, m.elements)
    &&& can_apply(
        MotifTransform::Sequence { shift: 5 },
        apply_view(MotifTransform::Retrograde, m).elements,
    )
    &&& can_apply(MotifTransform::RetrogradeInversion, m.elements)
    &&& can_apply(MotifTransform::Augmentation { factor: 2 }, ri.elements)
    &&& can_apply(
        MotifTransform::Sequence { shift: 7 },
        apply_view(MotifTransform::Augmentation { factor: 2 }, ri).elements,
    )
}

/// Number of occurrences of `d` in `s`.
pub open spec fn count_direction(s: Seq<Direction>, d: Direction) -> int
    decreases s.len(),
{
    if s.len() == 0 {
        0
    } else {
        count_direction(s.drop_last(), d) + (if s.last() == d {
            1int
        } else {
            0int
        })
    }
}

/// A trend is ascending when it rises at least as often as it falls.
pub open spec fn ascending_trend(s: Seq<Direction>) -> bool {
    count_direction(s, Direction::Up) >= count_direction(s, Direction::Down)
}

/// The direction of each step between consecutive values.
pub open spec fn trend_of(v: Seq<int>) -> Seq<Direction> {
    Seq::new(
        (if v.len() == 0 {
            0
        } else {
            v.len() - 1
        }) as nat,
        |i: int|
            if v[i + 1] > v[i] {
                Direction::Up
            } else if v[i + 1] < v[i] {
                Direction::Down
            } else {
                Direction::Same
            },
    )
}

fn make_stage(name: &str, motif: Motif, percent: u32, description: &str) -> (r: StagePlan)
    ensures
        r@ == stage(name@, motif@, percent as int, description@),
{
    StagePlan {
        name: String::from_str(name),
        motif,
        complexity_percent: percent,
        description: String::from_str(description),
    }
}

/// The stages of the standard development of `seed`, after its presentation.
pub fn standard_development_plan(seed: &Motif) -> (r: Vec<StagePlan>)
    requires
        standard_plan_applicable(seed@),
    ensures
        r@.map_values(|p: StagePlan| p@) == standard_plan(seed@),
{
    let mut plan: Vec<StagePlan> = Vec::new();
    let repeated = MotifTransform::Sequence { shift: 2 }.apply(seed);
    plan.push(make_stage("Repetition", repeated, 20, "Repeat the motif at a new level"));
    let inverted = MotifTransform::Inversion.apply(seed);
    plan.push(make_stage("Inversion", inverted, 35, "Invert the motif's intervals"));
    if seed.len() >= 3 {
        let fragmented = MotifTransform::Fragmentation { start: 0, len: 2 }.apply(seed);
        plan.push(
            make_stage("Fragmentation", fragmented, 45, "Extract a fragment for development"),
        );
    }
    let augmented = MotifTransform::Augmentation { factor: 2 }.apply(seed);
    plan.push(make_stage("Augmentation", augmented, 60, "Stretch the motif's intervals"));
    let retrograde = MotifTransform::Retrograde.apply(seed);
    let combined = MotifTransform::Sequence { shift: 5 }.apply(&retrograde);
    plan.push(make_stage("Combination", combined, 75, "Combine retrograde with sequencing"));
    let full = MotifTransform::RetrogradeInversion.apply(seed);
    let start = MotifChain::from_seed(full.clone());
    let augmented_chain = MotifChain::then_apply(start, MotifTransform::Augmentation { factor: 2 });
    let full_chain = MotifChain::then_apply(augmented_chain, MotifTransform::Sequence { shift: 7 });
    plan.push(
        make_stage(
            "Full Development",
            full_chain.result,
            90,
            "Full development: retrograde inversion, augmented and sequenced",
        ),
    );
    assert(plan@.map_values(|p: StagePlan| p@) =~= standard_plan(seed@));
    plan
}

/// Whether every transformation of the standard development of `seed` can
/// be applied.
pub fn standard_plan_is_applicable(seed: &Motif) -> (b: bool)
    ensures
        b == standard_plan_applicable(seed@),
{
    let repeat = MotifTransform::Sequence { shift: 2 };
    let double = MotifTransform::Augmentation { factor: 2 };
    let combine = MotifTransform::Sequence { shift: 5 };
    let ok = repeat.can_apply_to(seed) && MotifTransform::Inversion.can_apply_to(seed)
        && double.can_apply_to(seed) && MotifTransform::RetrogradeInversion.can_apply_to(seed);
    if !ok {
        return false;
    }
    let retrograde = MotifTransform::Retrograde.apply(seed);
    if !combine.can_apply_to(&retrograde) {
        return false;
    }
    let ri = MotifTransform::RetrogradeInversion.apply(seed);
    if !double.can_apply_to(&ri) {
        return false;
    }
    let augmented = MotifTransform::Augmentation { factor: 2 }.apply(&ri);
    MotifTransform::Sequence { shift: 7 }.can_apply_to(&augmented)
}

/// Whether a trend rises at least as often as it falls.
pub fn trend_is_ascending(steps: &[Direction]) -> (b: bool)
    ensures
        b == ascending_trend(steps@),
{
    let mut ups: usize = 0;
    let mut downs: usize = 0;
    let mut i: usize = 0;
    let n = steps.len();
    assert(steps@.take(0) =~= Seq::<Direction>::empty());
    while i < n
        invariant
            n == steps@.len(),
            0 <= i <= n,
            ups + downs <= i,
            ups == count_direction(steps@.take(i as int), Direction::Up),
            downs == count_direction(steps@.take(i as int), Direction::Down),
        decreases n - i,
    {
        assert(steps@.take(i + 1).drop_last() =~= steps@.take(i as int));
        match steps[i] {
            Direction::Up => {
                ups = ups + 1;
            },
            Direction::Down => {
                downs = downs + 1;
            },
            Direction::Same => {},
        }
        i = i + 1;
    }
    assert(steps@.take(n as int) =~= steps@);
    ups >= downs
}

} // verus!
