//! Human-readable renderings of motifs, transformations, chains, families
//! and detected patterns.
use vstd::prelude::*;
use vstd::string::StringExecFns;

use crate::chain::MotifChain;
use crate::detector::{DetectedPattern, PatternView};
use crate::family::MotifFamily;
use crate::motif::{Direction, Motif, MotifView};
use crate::transform::MotifTransform;

verus! {

// ----------------------------------------------------------------------------
// Specification
// ----------------------------------------------------------------------------

/// The decimal digit `d` (0 to 9).
pub open spec fn digit_text(d: int) -> Seq<char> {
    if d == 0 {
        "0"@
    } else if d == 1 {
        "1"@
    } else if d == 2 {
        "2"@
    } else if d == 3 {
        "3"@
    } else if d == 4 {
        "4"@
    } else if d == 5 {
        "5"@
    } else if d == 6 {
        "6"@
    } else if d == 7 {
        "7"@
    } else if d == 8 {
        "8"@
    } else {
        "9"@
    }
}

/// The decimal notation of a natural number, without leading zeros.
pub open spec fn nat_text(n: nat) -> Seq<char>
    decreases n,
{
    if n < 10 {
        digit_text(n as int)
    } else {
        nat_text(n / 10) + digit_text((n % 10) as int)
    }
}

/// The decimal notation of an integer, with a leading `-` when negative.
pub open spec fn int_text(x: int) -> Seq<char> {
    if x < 0 {
        "-"@ + nat_text((-x) as nat)
    } else {
        nat_text(x as nat)
    }
}

/// The items in decimal, separated by `", "`.
pub open spec fn joined(v: Seq<int>) -> Seq<char>
    decreases v.len(),
{
    if v.len() == 0 {
        Seq::empty()
    } else if v.len() == 1 {
        int_text(v[0])
    } else {
        joined(v.drop_last()) + ", "@ + int_text(v.last())
    }
}

/// A list of integers in brackets, as Rust's debug form `[1, 2, 3]`.
pub open spec fn list_text(v: Seq<int>) -> Seq<char> {
    "["@ + joined(v) + "]"@
}

pub open spec fn i32s(v: Seq<i32>) -> Seq<int> {
    v.map_values(|x: i32| x as int)
}

pub open spec fn usizes(v: Seq<usize>) -> Seq<int> {
    v.map_values(|x: usize| x as int)
}

/// The arrow that shows a direction.
pub open spec fn direction_text(d: Direction) -> Seq<char> {
    match d {
        Direction::Up => "↑"@,
        Direction::Down => "↓"@,
        Direction::Same => "→"@,
    }
}

/// `"<name>: [e0, e1, ...]"`.
pub open spec fn motif_text(m: MotifView) -> Seq<char> {
    m.name + ": "@ + list_text(i32s(m.elements))
}

/// The short form of a transformation, such as `Augmentation(×2)`.
pub open spec fn transform_text(t: MotifTransform) -> Seq<char> {
    match t {
        MotifTransform::Inversion => "Inversion"@,
        MotifTransform::Retrograde => "Retrograde"@,
        MotifTransform::Augmentation { factor } => "Augmentation(×"@ + int_text(factor as int)
            + ")"@,
        MotifTransform::Diminution { divisor } => "Diminution(÷"@ + int_text(divisor as int)
            + ")"@,
        MotifTransform::Transposition { interval } => "Transposition(+"@ + int_text(
            interval as int,
        ) + ")"@,
        MotifTransform::RetrogradeInversion => "RetrogradeInversion"@,
        MotifTransform::Sequence { shift } => "Sequence(+"@ + int_text(shift as int) + ")"@,
        MotifTransform::Elision => "Elision"@,
        MotifTransform::Extension { value } => "Extension(+"@ + int_text(value as int) + ")"@,
        MotifTransform::Fragmentation { start, len } => "Fragmentation("@ + int_text(
            start as int,
        ) + ":"@ + int_text(start + len) + ")"@,
    }
}

/// Whether the short form of `t` can be computed: the end of a fragment
/// must be a `usize`.
pub open spec fn transform_text_fits(t: MotifTransform) -> bool {
    match t {
        MotifTransform::Fragmentation { start, len } => start + len <= usize::MAX,
        _ => true,
    }
}

/// `" → t1 → t2 ..."` for the transformations in order.
pub open spec fn arrows_text(ts: Seq<MotifTransform>) -> Seq<char>
    decreases ts.len(),
{
    if ts.len() == 0 {
        Seq::empty()
    } else {
        arrows_text(ts.drop_last()) + " → "@ + transform_text(ts.last())
    }
}

/// `"Chain: <seed name> → t1 → ... (depth: n)"`.
pub open spec fn chain_text(seed_name: Seq<char>, ts: Seq<MotifTransform>) -> Seq<char> {
    "Chain: "@ + seed_name + arrows_text(ts) + " (depth: "@ + int_text(ts.len() as int) + ")"@
}

/// One line per member: `"  <i>. <name> — <derivation>\n"`, numbered from 1.
pub open spec fn member_lines(names: Seq<Seq<char>>, derivations: Seq<Seq<char>>) -> Seq<char>
    decreases names.len(),
{
    if names.len() == 0 {
        Seq::empty()
    } else {
        member_lines(names.drop_last(), derivations) + "  "@ + int_text(names.len() as int)
            + ". "@ + names.last() + " — "@ + derivations[names.len() - 1] + "\n"@
    }
}

/// `"MotifFamily: <seed name> (<n> members)\n"` followed by the member lines.
pub open spec fn family_text(
    seed_name: Seq<char>,
    names: Seq<Seq<char>>,
    derivations: Seq<Seq<char>>,
) -> Seq<char> {
    "MotifFamily: "@ + seed_name + " ("@ + int_text(names.len() as int) + " members)\n"@
        + member_lines(names, derivations)
}

/// `"Pattern [..] (<n> occurrences at [..])"`.
pub open spec fn pattern_text(p: PatternView) -> Seq<char> {
    "Pattern "@ + list_text(i32s(p.pattern)) + " ("@ + int_text(p.occurrences) + " occurrences at "@
        + list_text(p.positions) + ")"@
}

// ----------------------------------------------------------------------------
// Executable code
// ----------------------------------------------------------------------------

fn digit_str(d: usize) -> (r: &'static str)
    requires
        d < 10,
    ensures
        r@ == digit_text(d as int),
{
    if d == 0 {
        "0"
    } else if d == 1 {
        "1"
    } else if d == 2 {
        "2"
    } else if d == 3 {
        "3"
    } else if d == 4 {
        "4"
    } else if d == 5 {
        "5"
    } else if d == 6 {
        "6"
    } else if d == 7 {
        "7"
    } else if d == 8 {
        "8"
    } else {
        "9"
    }
}

/// Append the decimal notation of `n`.
pub(crate) fn push_usize(out: &mut String, n: usize)
    ensures
        final(out)@ == old(out)@ + nat_text(n as nat),
    decreases n,
{
    if n >= 10 {
        push_usize(out, n / 10);
    }
    out.append(digit_str(n % 10));
    proof {
        if n >= 10 {
            assert(old(out)@ + nat_text((n / 10) as nat) + digit_text((n % 10) as int) =~= old(out)@
                + nat_text(n as nat));
        }
    }
}

/// Append the decimal notation of `x`.
pub(crate) fn push_i32(out: &mut String, x: i32)
    ensures
        final(out)@ == old(out)@ + int_text(x as int),
{
    if x < 0 {
        out.append("-");
        let m: i64 = -(x as i64);
        push_usize(out, m as usize);
        assert(old(out)@ + "-"@ + nat_text((-x) as nat) =~= old(out)@ + int_text(x as int));
    } else {
        push_usize(out, x as usize);
    }
}

/// Append `values` in brackets, separated by `", "`.
pub(crate) fn push_i32_list(out: &mut String, values: &Vec<i32>)
    ensures
        final(out)@ == old(out)@ + list_text(i32s(values@)),
{
    let ghost v = i32s(values@);
    let ghost start = old(out)@ + "["@;
    out.append("[");
    let mut i: usize = 0;
    assert(v.take(0) =~= Seq::<int>::empty());
    assert(start + joined(v.take(0)) =~= start);
    while i < values.len()
        invariant
            v == i32s(values@),
            0 <= i <= values@.len(),
            out@ == start + joined(v.take(i as int)),
        decreases values@.len() - i,
    {
        if i > 0 {
            out.append(", ");
        }
        push_i32(out, values[i]);
        proof {
            let t = v.take(i + 1);
            assert(t.drop_last() =~= v.take(i as int));
            assert(t.last() == values@[i as int] as int);
            assert(out@ =~= start + joined(t));
        }
        i = i + 1;
    }
    out.append("]");
    assert(v.take(v.len() as int) =~= v);
    assert(out@ =~= old(out)@ + list_text(i32s(values@)));
}

/// Append `values` in brackets, separated by `", "`.
pub(crate) fn push_usize_list(out: &mut String, values: &Vec<usize>)
    ensures
        final(out)@ == old(out)@ + list_text(usizes(values@)),
{
    let ghost v = usizes(values@);
    let ghost start = old(out)@ + "["@;
    out.append("[");
    let mut i: usize = 0;
    assert(v.take(0) =~= Seq::<int>::empty());
    assert(start + joined(v.take(0)) =~= start);
    while i < values.len()
        invariant
            v == usizes(values@),
            0 <= i <= values@.len(),
            out@ == start + joined(v.take(i as int)),
        decreases values@.len() - i,
    {
        if i > 0 {
            out.append(", ");
        }
        push_usize(out, values[i]);
        proof {
            let t = v.take(i + 1);
            assert(t.drop_last() =~= v.take(i as int));
            assert(t.last() == values@[i as int] as int);
            assert(out@ =~= start + joined(t));
        }
        i = i + 1;
    }
    out.append("]");
    assert(v.take(v.len() as int) =~= v);
    assert(out@ =~= old(out)@ + list_text(usizes(values@)));
}

impl Direction {
    /// The arrow for the direction: `↑`, `↓` or `→`.
    pub fn to_string(&self) -> (r: String)
        ensures
            r@ == direction_text(*self),
    {
        match self {
            Direction::Up => String::from_str("↑"),
            Direction::Down => String::from_str("↓"),
            Direction::Same => String::from_str("→"),
        }
    }
}

impl Motif {
    /// `"<name>: [e0, e1, ...]"`.
    pub fn to_string(&self) -> (r: String)
        ensures
            r@ == motif_text(self@),
    {
        let mut out = self.name.clone();
        out.append(": ");
        push_i32_list(&mut out, &self.elements);
        assert(out@ =~= motif_text(self@));
        out
    }
}

impl MotifTransform {
    /// The short form, such as `Inversion` or `Augmentation(×2)`.
    pub fn to_string(&self) -> (r: String)
        requires
            transform_text_fits(*self),
        ensures
            r@ == transform_text(*self),
    {
        let mut out = String::new();
        match self {
            MotifTransform::Inversion => out.append("Inversion"),
            MotifTransform::Retrograde => out.append("Retrograde"),
            MotifTransform::Augmentation { factor } => {
                out.append("Augmentation(×");
                push_i32(&mut out, *factor);
                out.append(")");
            },
            MotifTransform::Diminution { divisor } => {
                out.append("Diminution(÷");
                push_i32(&mut out, *divisor);
                out.append(")");
            },
            MotifTransform::Transposition { interval } => {
                out.append("Transposition(+");
                push_i32(&mut out, *interval);
                out.append(")");
            },
            MotifTransform::RetrogradeInversion => out.append("RetrogradeInversion"),
            MotifTransform::Sequence { shift } => {
                out.append("Sequence(+");
                push_i32(&mut out, *shift);
                out.append(")");
            },
            MotifTransform::Elision => out.append("Elision"),
            MotifTransform::Extension { value } => {
                out.append("Extension(+");
                push_i32(&mut out, *value);
                out.append(")");
            },
            MotifTransform::Fragmentation { start, len } => {
                out.append("Fragmentation(");
                push_usize(&mut out, *start);
                out.append(":");
                push_usize(&mut out, *start + *len);
                out.append(")");
            },
        }
        assert(out@ =~= transform_text(*self));
        out
    }
}

impl MotifChain {
    /// `"Chain: <seed name> → t1 → ... (depth: n)"`.
    pub fn to_string(&self) -> (r: String)
        requires
            forall|k: int|
                0 <= k < self.transforms@.len() ==> transform_text_fits(
                    #[trigger] self.transforms@[k],
                ),
        ensures
            r@ == chain_text(self.seed@.name, self.transforms@),
    {
        let ghost ts = self.transforms@;
        let ghost head = "Chain: "@ + self.seed@.name;
        let mut out = String::from_str("Chain: ");
        out.append(self.seed.name.as_str());
        let mut i: usize = 0;
        assert(ts.take(0) =~= Seq::<MotifTransform>::empty());
        assert(out@ =~= head + arrows_text(ts.take(0)));
        while i < self.transforms.len()
            invariant
                ts == self.transforms@,
                forall|k: int| 0 <= k < ts.len() ==> transform_text_fits(#[trigger] ts[k]),
                0 <= i <= ts.len(),
                out@ == head + arrows_text(ts.take(i as int)),
            decreases ts.len() - i,
        {
            out.append(" → ");
            let t = self.transforms[i].to_string();
            out.append(t.as_str());
            proof {
                let p = ts.take(i + 1);
                assert(p.drop_last() =~= ts.take(i as int));
                assert(p.last() == ts[i as int]);
                assert(out@ =~= head + arrows_text(p));
            }
            i = i + 1;
        }
        assert(ts.take(ts.len() as int) =~= ts);
        out.append(" (depth: ");
        push_usize(&mut out, self.transforms.len());
        out.append(")");
        assert(out@ =~= chain_text(self.seed@.name, self.transforms@));
        out
    }
}

impl MotifFamily {
    /// `"MotifFamily: <seed name> (<n> members)\n"`, then for each member
    /// `"  <i>. <name> — <derivation>\n"`, numbered from 1.
    pub fn to_string(&self) -> (r: String)
        requires
            self.derivations@.len() >= self.members@.len(),
        ensures
            r@ == family_text(
                self.seed@.name,
                self.members@.map_values(|m: Motif| m@.name),
                self.derivations@.map_values(|d: String| d@),
            ),
    {
        let ghost names = self.members@.map_values(|m: Motif| m@.name);
        let ghost ders = self.derivations@.map_values(|d: String| d@);
        let mut out = String::from_str("MotifFamily: ");
        out.append(self.seed.name.as_str());
        out.append(" (");
        push_usize(&mut out, self.members.len());
        out.append(" members)\n");
        let ghost head = out@;
        let mut i: usize = 0;
        assert(names.take(0) =~= Seq::<Seq<char>>::empty());
        assert(out@ =~= head + member_lines(names.take(0), ders));
        while i < self.members.len()
            invariant
                names == self.members@.map_values(|m: Motif| m@.name),
                ders == self.derivations@.map_values(|d: String| d@),
                self.derivations@.len() >= self.members@.len(),
                0 <= i <= self.members@.len(),
                out@ == head + member_lines(names.take(i as int), ders),
            decreases self.members@.len() - i,
        {
            out.append("  ");
            push_usize(&mut out, i + 1);
            out.append(". ");
            out.append(self.members[i].name.as_str());
            out.append(" — ");
            out.append(self.derivations[i].as_str());
            out.append("\n");
            proof {
                let p = names.take(i + 1);
                assert(p.drop_last() =~= names.take(i as int));
                assert(p.last() == self.members@[i as int]@.name);
                assert(ders[i as int] == self.derivations@[i as int]@);
                assert(out@ =~= head + member_lines(p, ders));
            }
            i = i + 1;
        }
        assert(names.take(names.len() as int) =~= names);
        out
    }
}

impl DetectedPattern {
    /// `"Pattern [..] (<n> occurrences at [..])"`.
    pub fn to_string(&self) -> (r: String)
        ensures
            r@ == pattern_text(self@),
    {
        let mut out = String::from_str("Pattern ");
        push_i32_list(&mut out, &self.pattern);
        out.append(" (");
        push_usize(&mut out, self.occurrences);
        out.append(" occurrences at ");
        push_usize_list(&mut out, &self.positions);
        out.append(")");
        assert(out@ =~= pattern_text(self@));
        out
    }
}

} // verus!
