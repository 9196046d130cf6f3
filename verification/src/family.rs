//! Families of motifs derived from a common seed.
use vstd::prelude::*;
use vstd::string::StringExecFns;

use crate::motif::{contour_of, directions_equal, intervals_fit, levenshtein, Direction, Motif, MotifView};
use crate::transform::{apply_view, can_apply, MotifTransform};

verus! {

/// A collection of related motifs derived from a common seed.
#[derive(Debug, Clone, PartialEq)]
pub struct MotifFamily {
    /// The seed motif that defines the family.
    pub seed: Motif,
    /// All motifs in the family.
    pub members: Vec<Motif>,
    /// How each member was derived.
    pub derivations: Vec<String>,
}

/// The transformations from which `generate_full` derives the family.
pub open spec fn standard_family_transforms() -> Seq<MotifTransform> {
    seq![
        MotifTransform::Inversion,
        MotifTransform::Retrograde,
        MotifTransform::RetrogradeInversion,
        MotifTransform::Augmentation { factor: 2 },
        MotifTransform::Diminution { divisor: 2 },
        MotifTransform::Transposition { interval: 7 },
        MotifTransform::Transposition { interval: -5i32 },
    ]
}

/// The labels recorded for the members that `generate_full` derives.
pub open spec fn standard_family_labels() -> Seq<Seq<char>> {
    seq![
        "Inversion"@,
        "Retrograde"@,
        "Retrograde Inversion"@,
        "Augmentation ×2"@,
        "Diminution ÷2"@,
        "Transposition +7"@,
        "Transposition -5"@,
    ]
}

/// Whether every standard transformation can be applied to `s`.
pub open spec fn family_applicable(s: Seq<i32>) -> bool {
    forall|i: int|
        0 <= i < standard_family_transforms().len() ==> can_apply(
            #[trigger] standard_family_transforms()[i],
            s,
        )
}

pub open spec fn motif_views(ms: Seq<Motif>) -> Seq<MotifView> {
    ms.map_values(|m: Motif| m@)
}

pub open spec fn string_views(ss: Seq<String>) -> Seq<Seq<char>> {
    ss.map_values(|s: String| s@)
}

/// The members of `ms` whose contour is `c`, in order.
pub open spec fn with_contour(ms: Seq<MotifView>, c: Seq<Direction>) -> Seq<MotifView>
    decreases ms.len(),
{
    if ms.len() == 0 {
        Seq::empty()
    } else if contour_of(ms.last().elements) == c {
        with_contour(ms.drop_last(), c).push(ms.last())
    } else {
        with_contour(ms.drop_last(), c)
    }
}

/// The element sequences of the members.
pub open spec fn member_elements(ms: Seq<Motif>) -> Seq<Seq<i32>> {
    ms.map_values(|m: Motif| m.elements@)
}

/// `r` is the index of the first of `ms` at the least edit distance from
/// `q`, with that distance; `(0, usize::MAX)` when `ms` is empty.
pub open spec fn is_most_similar(ms: Seq<Seq<i32>>, q: Seq<i32>, r: (usize, usize)) -> bool {
    if ms.len() == 0 {
        r == (0usize, usize::MAX)
    } else {
        &&& r.0 < ms.len()
        &&& r.1 == levenshtein(ms[r.0 as int], q)
        &&& forall|i: int| 0 <= i < ms.len() ==> r.1 <= levenshtein(#[trigger] ms[i], q)
        &&& forall|i: int| 0 <= i < r.0 ==> r.1 < levenshtein(#[trigger] ms[i], q)
    }
}

/// Sum of the lengths of the members.
pub open spec fn total_len(ms: Seq<MotifView>) -> int
    decreases ms.len(),
{
    if ms.len() == 0 {
        0
    } else {
        total_len(ms.drop_last()) + ms.last().elements.len()
    }
}

proof fn lemma_total_len_prefix(ms: Seq<MotifView>, k: int)
    requires
        0 <= k <= ms.len(),
    ensures
        total_len(ms.take(k)) <= total_len(ms),
    decreases ms.len(),
{
    if k < ms.len() {
        assert(ms.take(k) =~= ms.drop_last().take(k));
        lemma_total_len_prefix(ms.drop_last(), k);
    } else {
        assert(ms.take(k) =~= ms);
    }
}

impl MotifFamily {
    /// A family with the seed as its only member, derived as "Original".
    pub fn from_seed(seed: Motif) -> (f: MotifFamily)
        ensures
            f.seed@ == seed@,
            f.members@.len() == 1,
            f.members@[0]@ == seed@,
            f.derivations@.len() == 1,
            f.derivations@[0]@ == "Original"@,
    {
        let first = seed.clone();
        let mut members: Vec<Motif> = Vec::new();
        members.push(first);
        let mut derivations: Vec<String> = Vec::new();
        derivations.push(String::from_str("Original"));
        let f = MotifFamily { seed, members, derivations };
        f
    }

    /// The seed followed by its inversion, retrograde, retrograde inversion,
    /// augmentation by 2, diminution by 2, and transpositions by +7 and -5.
    pub fn generate_full(seed: Motif) -> (f: MotifFamily)
        requires
            family_applicable(seed.elements@),
        ensures
            f.seed@ == seed@,
            f.members@.len() == 8,
            f.derivations@.len() == 8,
            f.members@[0]@ == seed@,
            f.derivations@[0]@ == "Original"@,
            forall|i: int|
                0 <= i < 7 ==> (#[trigger] f.members@[i + 1])@ == apply_view(
                    standard_family_transforms()[i],
                    seed@,
                ),
            forall|i: int|
                0 <= i < 7 ==> (#[trigger] f.derivations@[i + 1])@
                    == standard_family_labels()[i],
            forall|i: int|
                0 <= i < 8 ==> (#[trigger] f.members@[i]).elements@.len()
                    == seed.elements@.len(),
    {
        proof {
            crate::laws::law_standard_family_keeps_length(seed@);
        }
        let ghost sv = seed@;
        let mut family = MotifFamily::from_seed(seed);
        let mut transforms: Vec<MotifTransform> = Vec::new();
        transforms.push(MotifTransform::Inversion);
        transforms.push(MotifTransform::Retrograde);
        transforms.push(MotifTransform::RetrogradeInversion);
        transforms.push(MotifTransform::Augmentation { factor: 2 });
        transforms.push(MotifTransform::Diminution { divisor: 2 });
        transforms.push(MotifTransform::Transposition { interval: 7 });
        transforms.push(MotifTransform::Transposition { interval: -5 });
        let mut labels: Vec<&str> = Vec::new();
        labels.push("Inversion");
        labels.push("Retrograde");
        labels.push("Retrograde Inversion");
        labels.push("Augmentation ×2");
        labels.push("Diminution ÷2");
        labels.push("Transposition +7");
        labels.push("Transposition -5");
        assert(transforms@ =~= standard_family_transforms());
        assert(labels@.map_values(|l: &str| l@) =~= standard_family_labels());
        let mut i: usize = 0;
        while i < 7
            invariant
                transforms@ == standard_family_transforms(),
                labels@.len() == 7,
                forall|j: int| 0 <= j < 7 ==> (#[trigger] labels@[j])@ == standard_family_labels()[j],
                family.seed@ == sv,
                family_applicable(family.seed@.elements),
                0 <= i <= 7,
                family.members@.len() == i + 1,
                family.derivations@.len() == i + 1,
                family.members@[0]@ == family.seed@,
                family.derivations@[0]@ == "Original"@,
                forall|j: int|
                    0 <= j < i ==> (#[trigger] family.members@[j + 1])@ == apply_view(
                        standard_family_transforms()[j],
                        family.seed@,
                    ),
                forall|j: int|
                    0 <= j < i ==> (#[trigger] family.derivations@[j + 1])@
                        == standard_family_labels()[j],
            decreases 7 - i,
        {
            let t = transforms[i];
            assert(can_apply(standard_family_transforms()[i as int], family.seed@.elements));
            let derived = t.apply(&family.seed);
            family.members.push(derived);
            family.derivations.push(String::from_str(labels[i]));
            i = i + 1;
        }
        assert forall|j: int| 0 <= j < 8 implies (#[trigger] family.members@[j]).elements@.len()
            == sv.elements.len() by {
            if j > 0 {
                assert(family.members@[(j - 1) + 1]@ == apply_view(
                    standard_family_transforms()[j - 1],
                    sv,
                ));
            }
        }
        family
    }

    /// Number of motifs in the family.
    pub fn size(&self) -> (n: usize)
        ensures
            n == self.members@.len(),
    {
        self.members.len()
    }

    /// Whether some member has exactly the elements of `motif`.
    pub fn contains(&self, motif: &Motif) -> (b: bool)
        ensures
            b == exists|i: int|
                0 <= i < self.members@.len() && (#[trigger] self.members@[i]).elements@
                    == motif.elements@,
    {
        let mut i: usize = 0;
        while i < self.members.len()
            invariant
                0 <= i <= self.members@.len(),
                forall|j: int|
                    0 <= j < i ==> (#[trigger] self.members@[j]).elements@ != motif.elements@,
            decreases self.members@.len() - i,
        {
            if same_elements(&self.members[i].elements, &motif.elements) {
                assert(self.members@[i as int].elements@ == motif.elements@);
                return true;
            }
            i = i + 1;
        }
        false
    }

    /// The members whose contour equals `contour`, in order.
    pub fn by_contour(&self, contour: &[Direction]) -> (r: Vec<&Motif>)
        requires
            forall|i: int|
                0 <= i < self.members@.len() ==> intervals_fit(
                    (#[trigger] self.members@[i]).elements@,
                ),
        ensures
            r@.map_values(|m: &Motif| m@) == with_contour(motif_views(self.members@), contour@),
    {
        let mut target: Vec<Direction> = Vec::new();
        let mut k: usize = 0;
        while k < contour.len()
            invariant
                0 <= k <= contour@.len(),
                target@ == contour@.take(k as int),
            decreases contour@.len() - k,
        {
            target.push(contour[k]);
            k = k + 1;
            assert(target@ =~= contour@.take(k as int));
        }
        assert(target@ =~= contour@);
        let ghost ms = motif_views(self.members@);
        let mut r: Vec<&Motif> = Vec::new();
        let mut i: usize = 0;
        assert(ms.take(0) =~= Seq::<MotifView>::empty());
        while i < self.members.len()
            invariant
                ms == motif_views(self.members@),
                target@ == contour@,
                forall|j: int|
                    0 <= j < self.members@.len() ==> intervals_fit(
                        (#[trigger] self.members@[j]).elements@,
                    ),
                0 <= i <= self.members@.len(),
                r@.map_values(|m: &Motif| m@) == with_contour(ms.take(i as int), contour@),
            decreases self.members@.len() - i,
        {
            let m = &self.members[i];
            assert(ms.take(i + 1).drop_last() =~= ms.take(i as int));
            assert(ms.take(i + 1).last() == m@);
            let c = m.contour();
            if directions_equal(&c, &target) {
                r.push(m);
                assert(r@.map_values(|m: &Motif| m@) =~= with_contour(ms.take(i as int), contour@).push(m@));
            }
            i = i + 1;
        }
        assert(ms.take(ms.len() as int) =~= ms);
        r
    }

    /// The index of the first member at the least edit distance from
    /// `motif`, with that distance; `(0, usize::MAX)` for a family without
    /// members.
    pub fn most_similar(&self, motif: &Motif) -> (r: (usize, usize))
        requires
            motif.elements@.len() < usize::MAX,
            forall|i: int|
                0 <= i < self.members@.len() ==> (#[trigger] self.members@[i]).elements@.len()
                    < usize::MAX,
        ensures
            is_most_similar(member_elements(self.members@), motif.elements@, r),
    {
        let mut best_idx: usize = 0;
        let mut best_dist: usize = usize::MAX;
        let mut i: usize = 0;
        while i < self.members.len()
            invariant
                motif.elements@.len() < usize::MAX,
                forall|j: int|
                    0 <= j < self.members@.len() ==> (#[trigger] self.members@[j]).elements@.len()
                        < usize::MAX,
                0 <= i <= self.members@.len(),
                i == 0 ==> best_idx == 0 && best_dist == usize::MAX,
                i > 0 ==> best_idx < i && best_dist == levenshtein(
                    self.members@[best_idx as int].elements@,
                    motif.elements@,
                ),
                forall|j: int|
                    0 <= j < i ==> best_dist <= levenshtein(
                        (#[trigger] self.members@[j]).elements@,
                        motif.elements@,
                    ),
                forall|j: int|
                    0 <= j < best_idx ==> best_dist < levenshtein(
                        (#[trigger] self.members@[j]).elements@,
                        motif.elements@,
                    ),
            decreases self.members@.len() - i,
        {
            let dist = self.members[i].edit_distance(motif);
            if dist < best_dist {
                best_dist = dist;
                best_idx = i;
            }
            i = i + 1;
        }
        let r = (best_idx, best_dist);
        let ghost ms = member_elements(self.members@);
        assert forall|i: int| 0 <= i < ms.len() implies ms[i] == self.members@[i].elements@ by {}
        r
    }

    /// The shortest and longest member lengths; `(0, 0)` without members.
    pub fn length_range(&self) -> (r: (usize, usize))
        ensures
            self.members@.len() == 0 ==> r == (0usize, 0usize),
            self.members@.len() > 0 ==> {
                &&& exists|i: int|
                    0 <= i < self.members@.len() && (#[trigger] self.members@[i]).elements@.len()
                        == r.0
                &&& exists|i: int|
                    0 <= i < self.members@.len() && (#[trigger] self.members@[i]).elements@.len()
                        == r.1
                &&& forall|i: int|
                    0 <= i < self.members@.len() ==> r.0 <= (
                    #[trigger] self.members@[i]).elements@.len() <= r.1
            },
    {
        let n = self.members.len();
        if n == 0 {
            return (0, 0);
        }
        let mut lo = self.members[0].len();
        let mut hi = lo;
        let mut i: usize = 1;
        while i < n
            invariant
                n == self.members@.len(),
                1 <= i <= n,
                exists|j: int| 0 <= j < i && (#[trigger] self.members@[j]).elements@.len() == lo,
                exists|j: int| 0 <= j < i && (#[trigger] self.members@[j]).elements@.len() == hi,
                forall|j: int|
                    0 <= j < i ==> lo <= (#[trigger] self.members@[j]).elements@.len() <= hi,
            decreases n - i,
        {
            let l = self.members[i].len();
            if l < lo {
                lo = l;
            }
            if l > hi {
                hi = l;
            }
            i = i + 1;
        }
        (lo, hi)
    }

    /// Sum of the member lengths.
    pub fn total_length(&self) -> (t: usize)
        requires
            total_len(motif_views(self.members@)) <= usize::MAX,
        ensures
            t == total_len(motif_views(self.members@)),
    {
        let ghost ms = motif_views(self.members@);
        let mut t: usize = 0;
        let mut i: usize = 0;
        assert(ms.take(0) =~= Seq::<MotifView>::empty());
        while i < self.members.len()
            invariant
                ms == motif_views(self.members@),
                total_len(ms) <= usize::MAX,
                0 <= i <= self.members@.len(),
                t == total_len(ms.take(i as int)),
            decreases self.members@.len() - i,
        {
            proof {
                lemma_total_len_prefix(ms, i + 1);
                assert(ms.take(i + 1).drop_last() =~= ms.take(i as int));
            }
            t = t + self.members[i].len();
            i = i + 1;
        }
        assert(ms.take(ms.len() as int) =~= ms);
        t
    }
}

/// Whether two element vectors are equal.
pub(crate) fn same_elements(a: &Vec<i32>, b: &Vec<i32>) -> (r: bool)
    ensures
        r == (a@ == b@),
{
    if a.len() != b.len() {
        return false;
    }
    let mut i: usize = 0;
    while i < a.len()
        invariant
            a@.len() == b@.len(),
            0 <= i <= a@.len(),
            forall|k: int| 0 <= k < i ==> a@[k] == b@[k],
        decreases a@.len() - i,
    {
        if a[i] != b[i] {
            return false;
        }
        i = i + 1;
    }
    assert(a@ =~= b@);
    true
}

} // verus!
