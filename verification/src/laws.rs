//! The structural laws of the generation rule: growing and shrinking are
//! inverse, every curve is self-similar to its prefixes, and flipping the
//! handedness mirrors the whole curve.

use vstd::prelude::*;

verus! {

use vstd::arithmetic::div_mod::lemma_mod_equivalence;
use vstd::arithmetic::div_mod::lemma_mod_twice;
use crate::curve::CurveFlags;
use crate::curve::DragonCurve;
use crate::curve::curve_seq;
use crate::curve::depth_offset;
use crate::curve::grow_one;
use crate::curve::lemma_prefix_self_similar;
use crate::curve::lemma_rotate_each_compose;
use crate::curve::lemma_rotate_each_zero;
use crate::curve::pow2;
use crate::curve::rotate_each;
use crate::dir::Dir;
use crate::dir::dir_at;
use crate::dir::dir_index;
use crate::dir::lemma_dir_at_congruent;
use crate::dir::lemma_dir_at_index;
use crate::dir::lemma_dir_index_at;
use crate::dir::rot;

/// Depth adjustment is idempotent: on a well-formed curve already at the
/// target depth the adjusted sequence is the sequence it has, so a second
/// adjustment to the same target leaves the curve identical.
pub proof fn lemma_adjust_idempotent(c: DragonCurve)
    requires
        c.wf(),
    ensures
        curve_seq(c.origin(), c.flags, c.depth as nat) == c.list@,
{
}

/// `k` subdivision levels applied to a segment sequence.
pub open spec fn grow_n(s: Seq<Dir>, flags: CurveFlags, k: nat) -> Seq<Dir>
    decreases k,
{
    if k == 0 {
        s
    } else {
        grow_one(grow_n(s, flags, (k - 1) as nat), flags)
    }
}

/// Growing a depth-d curve by `k` levels, one at a time, lands exactly on the
/// depth d + k curve: depth adjustment is the generation rule itself, so the
/// levels can be taken in any grouping.
pub proof fn lemma_curve_seq_grow_n(start: Dir, flags: CurveFlags, d: nat, k: nat)
    ensures
        curve_seq(start, flags, d + k) == grow_n(curve_seq(start, flags, d), flags, k),
    decreases k,
{
    if k > 0 {
        lemma_curve_seq_grow_n(start, flags, d, (k - 1) as nat);
    }
}

/// Self-similarity: the first 2^d segments of a curve of any greater depth
/// `big`, each rotated by the fixed depth-dependent offset (the depth
/// difference, negated when flipped), equal the full segment sequence of the
/// independently generated depth-d curve with the same start and flags.
pub proof fn lemma_self_similarity(start: Dir, flags: CurveFlags, d: nat, big: nat)
    requires
        d < big,
    ensures
        rotate_each(
            curve_seq(start, flags, big).subrange(0, pow2(d) as int),
            -depth_offset(flags, big - d),
        ) == curve_seq(start, flags, d),
{
    lemma_prefix_self_similar(start, flags, d, big);
    let off = depth_offset(flags, big - d);
    lemma_rotate_each_compose(curve_seq(start, flags, d), off, -off);
    lemma_rotate_each_zero(curve_seq(start, flags, d));
}

/// Grow/shrink inverse: growing a depth-d curve by k >= 1 levels and then
/// shrinking back down - taking the prefix of length 2^d and rotating it by
/// the fixed offset - reproduces the starting sequence segment for segment.
pub proof fn lemma_grow_shrink_inverse(start: Dir, flags: CurveFlags, d: nat, k: nat)
    requires
        k >= 1,
    ensures
        rotate_each(
            grow_n(curve_seq(start, flags, d), flags, k).subrange(0, pow2(d) as int),
            -depth_offset(flags, k as int),
        ) == curve_seq(start, flags, d),
{
    lemma_curve_seq_grow_n(start, flags, d, k);
    lemma_self_similarity(start, flags, d, d + k);
}

/// Reflection of a direction across the axis through `axis`: ordinals are
/// negated around the axis's ordinal, modulo 8.
pub open spec fn mirror_about(axis: Dir, d: Dir) -> Dir {
    dir_at(2 * dir_index(axis) - dir_index(d))
}

/// Every segment reflected across the axis through `axis`.
pub open spec fn mirror_each(axis: Dir, s: Seq<Dir>) -> Seq<Dir> {
    Seq::new(s.len(), |i: int| mirror_about(axis, s[i]))
}

/// The same flags with the handedness toggle inverted.
pub open spec fn flipped(flags: CurveFlags) -> CurveFlags {
    CurveFlags { levy: flags.levy, flip: !flags.flip }
}

/// Reflection turns a right rotation into a left rotation.
pub proof fn lemma_mirror_rot(axis: Dir, d: Dir, by: int)
    ensures
        mirror_about(axis, rot(d, by)) == rot(mirror_about(axis, d), -by),
{
    let a = dir_index(axis);
    let i = dir_index(d);
    lemma_dir_index_at(i + by);
    lemma_mod_twice(i + by, 8);
    lemma_mod_equivalence((i + by) % 8, i + by, 8);
    lemma_dir_at_congruent(2 * a - (i + by) % 8, 2 * a - (i + by));
    lemma_dir_index_at(2 * a - i);
    lemma_mod_twice(2 * a - i, 8);
    lemma_mod_equivalence((2 * a - i) % 8, 2 * a - i, 8);
    lemma_dir_at_congruent((2 * a - i) % 8 - by, 2 * a - i - by);
}

/// Subdivision under inverted handedness is the reflection of subdivision:
/// the turn bias inverts, and reflection swaps left and right turns.
pub proof fn lemma_grow_one_mirror(axis: Dir, s: Seq<Dir>, flags: CurveFlags)
    ensures
        grow_one(mirror_each(axis, s), flipped(flags)) == mirror_each(axis, grow_one(s, flags)),
{
    let lhs = grow_one(mirror_each(axis, s), flipped(flags));
    let rhs = mirror_each(axis, grow_one(s, flags));
    assert forall|i: int| 0 <= i < 2 * s.len() implies lhs[i] == rhs[i] by {
        let d = s[i / 2];
        lemma_mirror_rot(axis, d, -1);
        lemma_mirror_rot(axis, d, 1);
    }
    assert(lhs =~= rhs);
}

/// Flip symmetry: for a fixed start and depth, the segment sequence produced
/// with the handedness toggle set is the reflection, across the axis through
/// the start direction, of the sequence produced with it clear.
pub proof fn lemma_flip_symmetry(start: Dir, flags: CurveFlags, depth: nat)
    ensures
        curve_seq(start, flipped(flags), depth) == mirror_each(
            start,
            curve_seq(start, flags, depth),
        ),
    decreases depth,
{
    if depth == 0 {
        lemma_dir_at_index(start);
        assert(curve_seq(start, flipped(flags), 0) =~= mirror_each(
            start,
            curve_seq(start, flags, 0),
        ));
    } else {
        lemma_flip_symmetry(start, flags, (depth - 1) as nat);
        lemma_grow_one_mirror(start, curve_seq(start, flags, (depth - 1) as nat), flags);
    }
}

} // verus!
