//! Choosing the nearest hit among the candidates that a scene offers to a ray.
//!
//! A candidate is known here by its distance from the ray's origin, given as
//! the bit pattern of an IEEE-754 binary32 value. A distance that is not a
//! number arises from degenerate geometry; such a candidate is never chosen.

use vstd::arithmetic::power2::{lemma_pow2_pos, lemma_pow2_strictly_increases, lemma_pow2_unfold, pow2};
use vstd::prelude::*;

verus! {

/// The pattern without its sign bit.
pub open spec fn magnitude(bits: u32) -> u32 {
    bits & 0x7fff_ffffu32
}

/// Whether the sign bit is set.
pub open spec fn is_negative(bits: u32) -> bool {
    bits & 0x8000_0000u32 != 0
}

/// The eight exponent bits, as stored.
pub open spec fn biased_exponent(bits: u32) -> nat {
    ((bits >> 23) & 0xffu32) as nat
}

/// The twenty-three fraction bits.
pub open spec fn fraction(bits: u32) -> nat {
    (bits & 0x7f_ffffu32) as nat
}

/// Whether the pattern denotes no number: all exponent bits set and a
/// fraction that is not zero.
pub open spec fn is_nan(bits: u32) -> bool {
    biased_exponent(bits) == 255 && fraction(bits) != 0
}

/// The absolute value that the pattern denotes, multiplied by 2^149, which
/// makes it a natural number for every finite value: the fraction itself for
/// a subnormal, and the fraction with its implicit leading bit, shifted by the
/// exponent, otherwise. The same formula puts an infinity at 2^277, above
/// every finite value. It is not meant for a pattern that is not a number.
pub open spec fn scaled_magnitude(bits: u32) -> nat {
    if biased_exponent(bits) == 0 {
        fraction(bits)
    } else {
        (0x80_0000 + fraction(bits)) * pow2((biased_exponent(bits) - 1) as nat)
    }
}

/// The value that the pattern denotes, multiplied by 2^149. Both zeros are 0.
pub open spec fn scaled(bits: u32) -> int {
    if is_negative(bits) {
        -(scaled_magnitude(bits) as int)
    } else {
        scaled_magnitude(bits) as int
    }
}

/// Candidate `i` is the nearest of `distances`: it is a number, no candidate
/// that is a number is nearer, and every earlier one is strictly farther.
pub open spec fn is_nearest(distances: Seq<u32>, i: int) -> bool {
    &&& 0 <= i < distances.len()
    &&& !is_nan(distances[i])
    &&& forall|j: int|
        0 <= j < distances.len() && !is_nan(#[trigger] distances[j]) ==> scaled(distances[i])
            <= scaled(distances[j])
    &&& forall|j: int|
        0 <= j < i && !is_nan(#[trigger] distances[j]) ==> scaled(distances[i]) < scaled(
            distances[j],
        )
}

/// No candidate of `distances` is a number.
pub open spec fn none_is_number(distances: Seq<u32>) -> bool {
    forall|j: int| 0 <= j < distances.len() ==> is_nan(#[trigger] distances[j])
}

/// The integer by which the executable code orders a pattern: its magnitude,
/// negated where the sign bit is set.
spec fn rank(bits: u32) -> int {
    if is_negative(bits) {
        -(magnitude(bits) as int)
    } else {
        magnitude(bits) as int
    }
}

/// How the magnitude splits into exponent and fraction.
proof fn lemma_magnitude_parts(bits: u32)
    ensures
        magnitude(bits) == biased_exponent(bits) * 0x80_0000 + fraction(bits),
        biased_exponent(bits) <= 255,
        fraction(bits) < 0x80_0000,
{
    let m = bits & 0x7fff_ffffu32;
    let e = (bits >> 23) & 0xffu32;
    let f = bits & 0x7f_ffffu32;
    assert(e <= 255 && f < 0x80_0000 && m == e * 0x80_0000 + f) by (bit_vector)
        requires
            m == bits & 0x7fff_ffffu32,
            e == (bits >> 23) & 0xffu32,
            f == bits & 0x7f_ffffu32,
    ;
}

/// The scaled magnitude grows with the exponent and, within one exponent,
/// with the fraction.
proof fn lemma_scaled_parts_increase(e1: nat, f1: nat, e2: nat, f2: nat)
    requires
        f1 < 0x80_0000,
        f2 < 0x80_0000,
        e1 < e2 || (e1 == e2 && f1 < f2),
    ensures
        (if e1 == 0 {
            f1
        } else {
            (0x80_0000 + f1) * pow2((e1 - 1) as nat)
        }) < (if e2 == 0 {
            f2
        } else {
            (0x80_0000 + f2) * pow2((e2 - 1) as nat)
        }),
{
    if e1 == e2 {
        if e1 != 0 {
            let p = pow2((e1 - 1) as nat);
            lemma_pow2_pos((e1 - 1) as nat);
            assert((0x80_0000 + f1) * p < (0x80_0000 + f2) * p) by (nonlinear_arith)
                requires
                    f1 < f2,
                    p > 0,
            ;
        }
    } else {
        let above = pow2((e2 - 1) as nat);
        lemma_pow2_pos((e2 - 1) as nat);
        assert(0x80_0000 * above <= (0x80_0000 + f2) * above) by (nonlinear_arith)
            requires
                above > 0,
                f2 >= 0,
        ;
        if e1 == 0 {
            assert(0x80_0000 <= 0x80_0000 * above) by (nonlinear_arith)
                requires
                    above > 0,
            ;
        } else {
            let below = pow2((e1 - 1) as nat);
            lemma_pow2_pos((e1 - 1) as nat);
            lemma_pow2_unfold(e1);
            assert(pow2(e1) == 2 * below);
            if e1 < e2 - 1 {
                lemma_pow2_strictly_increases(e1, (e2 - 1) as nat);
            }
            assert(pow2(e1) <= above);
            assert((0x80_0000 + f1) * below < 0x80_0000 * (2 * below)) by (nonlinear_arith)
                requires
                    f1 < 0x80_0000,
                    below > 0,
            ;
            assert(0x80_0000 * (2 * below) <= 0x80_0000 * above) by (nonlinear_arith)
                requires
                    2 * below <= above,
            ;
        }
    }
}

/// Magnitudes are ordered as the absolute values that they denote.
proof fn lemma_magnitude_order(a: u32, b: u32)
    ensures
        magnitude(a) < magnitude(b) <==> scaled_magnitude(a) < scaled_magnitude(b),
        magnitude(a) == magnitude(b) <==> scaled_magnitude(a) == scaled_magnitude(b),
{
    lemma_magnitude_parts(a);
    lemma_magnitude_parts(b);
    let (ea, fa) = (biased_exponent(a), fraction(a));
    let (eb, fb) = (biased_exponent(b), fraction(b));
    if ea < eb || (ea == eb && fa < fb) {
        lemma_scaled_parts_increase(ea, fa, eb, fb);
    } else if eb < ea || (eb == ea && fb < fa) {
        lemma_scaled_parts_increase(eb, fb, ea, fa);
    }
}

/// A magnitude of zero denotes zero, and no other does.
proof fn lemma_magnitude_zero(a: u32)
    ensures
        magnitude(a) == 0 <==> scaled_magnitude(a) == 0,
{
    lemma_magnitude_order(a, 0u32);
    assert(0u32 & 0x7fff_ffffu32 == 0 && (0u32 >> 23) & 0xffu32 == 0 && 0u32 & 0x7f_ffffu32 == 0)
        by (bit_vector);
}

/// Ranks are ordered as the values that the patterns denote.
proof fn lemma_rank_order(a: u32, b: u32)
    ensures
        rank(a) < rank(b) <==> scaled(a) < scaled(b),
        rank(a) == rank(b) <==> scaled(a) == scaled(b),
{
    lemma_magnitude_order(a, b);
    lemma_magnitude_order(b, a);
    lemma_magnitude_zero(a);
    lemma_magnitude_zero(b);
}

/// Whether a distance is not a number.
pub fn not_a_number(bits: u32) -> (nan: bool)
    ensures
        nan == is_nan(bits),
{
    let m: u32 = bits & 0x7fff_ffff;
    proof {
        let e = (bits >> 23) & 0xffu32;
        let f = bits & 0x7f_ffffu32;
        assert((e == 255 && f != 0) <==> m > 0x7f80_0000u32) by (bit_vector)
            requires
                m == bits & 0x7fff_ffffu32,
                e == (bits >> 23) & 0xffu32,
                f == bits & 0x7f_ffffu32,
        ;
    }
    m > 0x7f80_0000
}

/// The rank of a pattern, for comparison.
fn ranked(bits: u32) -> (k: i64)
    ensures
        k == rank(bits),
{
    let m: u32 = bits & 0x7fff_ffff;
    assert(m <= 0x7fff_ffffu32) by (bit_vector)
        requires
            m == bits & 0x7fff_ffffu32,
    ;
    if bits & 0x8000_0000 != 0 {
        0 - (m as i64)
    } else {
        m as i64
    }
}

/// Whether distance `a` is strictly nearer than distance `b`. A distance that
/// is not a number is nearer than nothing, and everything that is a number is
/// nearer than it.
pub fn nearer(a: u32, b: u32) -> (yes: bool)
    ensures
        yes == (!is_nan(a) && (is_nan(b) || scaled(a) < scaled(b))),
{
    if not_a_number(a) {
        false
    } else if not_a_number(b) {
        true
    } else {
        proof {
            lemma_rank_order(a, b);
        }
        ranked(a) < ranked(b)
    }
}

/// Finds the nearest candidate: the index of the least distance that is a
/// number, the first such index where several are equally near. There is
/// none exactly when no candidate is a number, as when there is no
/// candidate at all.
pub fn nearest(distances: &[u32]) -> (found: Option<usize>)
    ensures
        match found {
            Some(i) => is_nearest(distances@, i as int),
            None => none_is_number(distances@),
        },
{
    let mut found: Option<usize> = None;
    let mut i: usize = 0;
    while i < distances.len()
        invariant
            i <= distances@.len(),
            match found {
                Some(b) => {
                    &&& b < i
                    &&& !is_nan(distances@[b as int])
                    &&& forall|j: int|
                        0 <= j < i && !is_nan(#[trigger] distances@[j]) ==> scaled(
                            distances@[b as int],
                        ) <= scaled(distances@[j])
                    &&& forall|j: int|
                        0 <= j < b && !is_nan(#[trigger] distances@[j]) ==> scaled(
                            distances@[b as int],
                        ) < scaled(distances@[j])
                },
                None => forall|j: int| 0 <= j < i ==> is_nan(#[trigger] distances@[j]),
            },
        decreases distances@.len() - i,
    {
        let replace = match found {
            Some(b) => nearer(distances[i], distances[b]),
            None => !not_a_number(distances[i]),
        };
        if replace {
            found = Some(i);
        }
        i = i + 1;
    }
    found
}

/// At most one candidate is the nearest.
pub proof fn lemma_nearest_is_unique(distances: Seq<u32>, i: int, j: int)
    requires
        is_nearest(distances, i),
        is_nearest(distances, j),
    ensures
        i == j,
{
}

/// A nearest candidate exists exactly when some candidate is a number.
pub proof fn lemma_nearest_or_none(distances: Seq<u32>, i: int)
    requires
        is_nearest(distances, i),
    ensures
        !none_is_number(distances),
{
}

/// The order in which the candidates are offered does not change how near
/// the chosen one is: two sequences that hold the same distances, each as
/// often as the other, have nearest candidates at the same distance.
pub proof fn lemma_nearest_ignores_order(a: Seq<u32>, i: int, b: Seq<u32>, j: int)
    requires
        a.to_multiset() == b.to_multiset(),
        is_nearest(a, i),
        is_nearest(b, j),
    ensures
        scaled(a[i]) == scaled(b[j]),
{
    a.to_multiset_ensures();
    b.to_multiset_ensures();
    assert(a.to_multiset().count(a[i]) > 0);
    assert(b.contains(a[i]));
    let k = choose|k: int| 0 <= k < b.len() && b[k] == a[i];
    assert(!is_nan(b[k]));
    assert(b.to_multiset().count(b[j]) > 0);
    assert(a.contains(b[j]));
    let l = choose|l: int| 0 <= l < a.len() && a[l] == b[j];
    assert(!is_nan(a[l]));
}

/// Whether any candidate is chosen does not depend on the order either.
pub proof fn lemma_none_ignores_order(a: Seq<u32>, b: Seq<u32>)
    requires
        a.to_multiset() == b.to_multiset(),
        none_is_number(a),
    ensures
        none_is_number(b),
{
    a.to_multiset_ensures();
    b.to_multiset_ensures();
    assert forall|j: int| 0 <= j < b.len() implies is_nan(#[trigger] b[j]) by {
        assert(b.to_multiset().count(b[j]) > 0);
        assert(a.contains(b[j]));
        let l = choose|l: int| 0 <= l < a.len() && a[l] == b[j];
        assert(is_nan(a[l]));
    }
}

} // verus!
