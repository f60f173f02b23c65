//! The curve container and its depth-adjustment algorithm.
//!
//! A curve is an ordered sequence of directions ("segments") together with a
//! recursion depth and the two generation toggles fixed at construction. The
//! sequence always holds exactly 2^depth segments. Growing one level replaces
//! each segment with two by the Heighway/Levy subdivision rule; shrinking back
//! to a coarser depth never regenerates: it takes the self-similar prefix and
//! corrects its orientation by a fixed, depth-dependent rotation.

use vstd::prelude::*;

verus! {

use vstd::arithmetic::div_mod::lemma_mod_bound;
use vstd::arithmetic::div_mod::lemma_mod_equivalence;
use vstd::arithmetic::div_mod::lemma_mod_twice;
use vstd::pervasive::VecAdditionalExecFns;
use crate::dir::Dir;
use crate::dir::dir_index;
use crate::dir::lemma_dir_at_index;
use crate::dir::lemma_rot_rot;
use crate::dir::lemma_rot_zero;
use crate::dir::lemma_rot_congruent;
use crate::dir::rot;

/// The two independent generation toggles, fixed for the lifetime of a curve.
/// `levy` selects the Levy-C subdivision rule (no turn alternation) instead of
/// the Heighway dragon rule; `flip` mirrors the curve's handedness. Both clear
/// gives the canonical dragon curve.
#[derive(Clone, Copy, Debug, PartialEq, Eq, Structural)]
pub struct CurveFlags {
    pub levy: bool,
    pub flip: bool,
}

/// 2 to the power `e`.
pub open spec fn pow2(e: nat) -> nat
    decreases e,
{
    if e == 0 {
        1
    } else {
        2 * pow2((e - 1) as nat)
    }
}

/// Whether the subdivision of the segment at position `pos` turns right: the
/// turn bias alternates with the position's parity, except that `levy` removes
/// the alternation and `flip` inverts the overall handedness.
pub open spec fn turn_right(flags: CurveFlags, pos: int) -> bool {
    (flags.levy || pos % 2 == 0) != flags.flip
}

/// One subdivision level: each segment `d` becomes the pair `d` turned left
/// then `d` turned right when its position turns right, and the mirror-image
/// pair otherwise, doubling the sequence.
pub open spec fn grow_one(s: Seq<Dir>, flags: CurveFlags) -> Seq<Dir> {
    Seq::new(
        2 * s.len(),
        |i: int|
            {
                let d = s[i / 2];
                if i % 2 == 0 {
                    if turn_right(flags, i / 2) {
                        rot(d, -1)
                    } else {
                        rot(d, 1)
                    }
                } else {
                    if turn_right(flags, i / 2) {
                        rot(d, 1)
                    } else {
                        rot(d, -1)
                    }
                }
            },
    )
}

/// The segment sequence of the curve generated from start direction `start`
/// under `flags` at depth `depth`: `depth` subdivision levels applied to the
/// single-segment sequence.
pub open spec fn curve_seq(start: Dir, flags: CurveFlags, depth: nat) -> Seq<Dir>
    decreases depth,
{
    if depth == 0 {
        seq![start]
    } else {
        grow_one(curve_seq(start, flags, (depth - 1) as nat), flags)
    }
}

/// Every segment of `s` rotated by the same `by` 45 degree steps.
pub open spec fn rotate_each(s: Seq<Dir>, by: int) -> Seq<Dir> {
    Seq::new(s.len(), |i: int| rot(s[i], by))
}

/// The rotation that `k` subdivision levels apply to the self-similar prefix:
/// each level turns the early segments one step left (right when flipped), so
/// the prefix of a curve `k` levels deeper is the coarser curve rotated by
/// this offset.
pub open spec fn depth_offset(flags: CurveFlags, k: int) -> int {
    if flags.flip {
        k
    } else {
        -k
    }
}

/// 2^e is positive.
pub proof fn lemma_pow2_pos(e: nat)
    ensures
        pow2(e) >= 1,
    decreases e,
{
    if e > 0 {
        lemma_pow2_pos((e - 1) as nat);
    }
}

/// 2^e is monotone in e.
pub proof fn lemma_pow2_mono(a: nat, b: nat)
    requires
        a <= b,
    ensures
        pow2(a) <= pow2(b),
    decreases b,
{
    if a < b {
        lemma_pow2_mono(a, (b - 1) as nat);
        lemma_pow2_pos((b - 1) as nat);
    }
}

/// Length invariant: at every depth d, for any start and flags, the curve has
/// exactly 2^d segments.
pub proof fn lemma_curve_seq_len(start: Dir, flags: CurveFlags, depth: nat)
    ensures
        curve_seq(start, flags, depth).len() == pow2(depth),
    decreases depth,
{
    if depth > 0 {
        lemma_curve_seq_len(start, flags, (depth - 1) as nat);
    }
}

/// Rotating every segment by 0 changes nothing.
pub proof fn lemma_rotate_each_zero(s: Seq<Dir>)
    ensures
        rotate_each(s, 0) == s,
{
    assert forall|i: int| 0 <= i < s.len() implies rotate_each(s, 0)[i] == s[i] by {
        lemma_rot_zero(s[i]);
    }
    assert(rotate_each(s, 0) =~= s);
}

/// Two whole-sequence rotations compose into one by the sum of the steps.
pub proof fn lemma_rotate_each_compose(s: Seq<Dir>, a: int, b: int)
    ensures
        rotate_each(rotate_each(s, a), b) == rotate_each(s, a + b),
{
    assert forall|i: int| 0 <= i < s.len() implies rotate_each(rotate_each(s, a), b)[i]
        == rotate_each(s, a + b)[i] by {
        lemma_rot_rot(s[i], a, b);
    }
    assert(rotate_each(rotate_each(s, a), b) =~= rotate_each(s, a + b));
}

/// Whole-sequence rotation amounts that agree modulo 8 give the same sequence.
pub proof fn lemma_rotate_each_congruent(s: Seq<Dir>, a: int, b: int)
    requires
        (a - b) % 8 == 0,
    ensures
        rotate_each(s, a) == rotate_each(s, b),
{
    assert forall|i: int| 0 <= i < s.len() implies rotate_each(s, a)[i] == rotate_each(s, b)[i] by {
        lemma_rot_congruent(s[i], a, b);
    }
    assert(rotate_each(s, a) =~= rotate_each(s, b));
}

/// Subdivision commutes with whole-sequence rotation.
pub proof fn lemma_grow_one_rotate_each(s: Seq<Dir>, flags: CurveFlags, by: int)
    ensures
        grow_one(rotate_each(s, by), flags) == rotate_each(grow_one(s, flags), by),
{
    let lhs = grow_one(rotate_each(s, by), flags);
    let rhs = rotate_each(grow_one(s, flags), by);
    assert forall|i: int| 0 <= i < 2 * s.len() implies lhs[i] == rhs[i] by {
        let d = s[i / 2];
        lemma_rot_rot(d, by, -1);
        lemma_rot_rot(d, by, 1);
        lemma_rot_rot(d, -1, by);
        lemma_rot_rot(d, 1, by);
    }
    assert(lhs =~= rhs);
}

/// Subdivision is prefix-local: the first 2m segments of a subdivided sequence
/// are the subdivision of its first m segments.
pub proof fn lemma_grow_one_prefix(s: Seq<Dir>, flags: CurveFlags, m: int)
    requires
        0 <= m <= s.len(),
    ensures
        grow_one(s, flags).subrange(0, 2 * m) == grow_one(s.subrange(0, m), flags),
{
    assert(grow_one(s, flags).subrange(0, 2 * m) =~= grow_one(s.subrange(0, m), flags));
}

/// Prefix self-similarity: the first 2^d segments of the curve at any depth
/// `big >= d` are the full depth-d curve, rotated by the fixed offset that
/// `big - d` subdivision levels apply.
pub proof fn lemma_prefix_self_similar(start: Dir, flags: CurveFlags, d: nat, big: nat)
    requires
        d <= big,
    ensures
        curve_seq(start, flags, big).subrange(0, pow2(d) as int) == rotate_each(
            curve_seq(start, flags, d),
            depth_offset(flags, big - d),
        ),
    decreases big,
{
    lemma_curve_seq_len(start, flags, big);
    lemma_curve_seq_len(start, flags, d);
    lemma_pow2_mono(d, big);
    if d == big {
        assert(curve_seq(start, flags, big).subrange(0, pow2(d) as int) =~= curve_seq(
            start,
            flags,
            d,
        ));
        lemma_rotate_each_zero(curve_seq(start, flags, d));
    } else {
        let prev = (big - 1) as nat;
        let cp = curve_seq(start, flags, prev);
        lemma_curve_seq_len(start, flags, prev);
        lemma_pow2_pos(prev);
        if d == 0 {
            lemma_prefix_self_similar(start, flags, 0, prev);
            assert(cp.subrange(0, 1)[0] == cp[0]);
            assert(rotate_each(curve_seq(start, flags, 0), depth_offset(flags, prev as int))[0]
                == rot(start, depth_offset(flags, prev as int)));
            assert(cp[0] == rot(start, depth_offset(flags, prev as int)));
            let first = curve_seq(start, flags, big)[0];
            assert(first == if turn_right(flags, 0) {
                rot(cp[0], -1)
            } else {
                rot(cp[0], 1)
            });
            if flags.flip {
                lemma_rot_rot(start, depth_offset(flags, prev as int), 1);
            } else {
                lemma_rot_rot(start, depth_offset(flags, prev as int), -1);
            }
            assert(first == rot(start, depth_offset(flags, big as int)));
            assert(curve_seq(start, flags, big).subrange(0, 1) =~= rotate_each(
                curve_seq(start, flags, 0),
                depth_offset(flags, big - 0),
            ));
        } else {
            let dp = (d - 1) as nat;
            let off = depth_offset(flags, big - d);
            lemma_pow2_mono(dp, prev);
            lemma_prefix_self_similar(start, flags, dp, prev);
            lemma_grow_one_prefix(cp, flags, pow2(dp) as int);
            assert(pow2(d) == 2 * pow2(dp));
            assert(curve_seq(start, flags, big).subrange(0, pow2(d) as int) == grow_one(
                cp.subrange(0, pow2(dp) as int),
                flags,
            ));
            assert(cp.subrange(0, pow2(dp) as int) == rotate_each(
                curve_seq(start, flags, dp),
                off,
            ));
            lemma_grow_one_rotate_each(curve_seq(start, flags, dp), flags, off);
        }
    }
}

/// The first segment of a depth-d curve is the start direction rotated by the
/// offset of d subdivision levels.
pub proof fn lemma_curve_seq_first(start: Dir, flags: CurveFlags, d: nat)
    ensures
        curve_seq(start, flags, d)[0] == rot(start, depth_offset(flags, d as int)),
{
    lemma_prefix_self_similar(start, flags, 0, d);
    lemma_curve_seq_len(start, flags, d);
    lemma_pow2_pos(d);
    assert(curve_seq(start, flags, d).subrange(0, 1)[0] == curve_seq(start, flags, d)[0]);
    assert(rotate_each(curve_seq(start, flags, 0), depth_offset(flags, d as int))[0] == rot(
        start,
        depth_offset(flags, d as int),
    ));
}

/// The start direction is recovered from the first segment of a depth-d curve
/// by undoing the offset of d subdivision levels.
pub proof fn lemma_curve_origin(start: Dir, flags: CurveFlags, d: nat)
    ensures
        rot(curve_seq(start, flags, d)[0], -depth_offset(flags, d as int)) == start,
{
    lemma_curve_seq_first(start, flags, d);
    lemma_rot_rot(start, depth_offset(flags, d as int), -depth_offset(flags, d as int));
    lemma_rot_zero(start);
}

/// 2 to the power `e`, computed by repeated doubling.
fn pow2_exec(e: u8) -> (r: usize)
    requires
        pow2(e as nat) <= usize::MAX as nat,
    ensures
        r as nat == pow2(e as nat),
{
    let mut r: usize = 1;
    let mut i: u8 = 0;
    while i < e
        invariant
            i <= e,
            r as nat == pow2(i as nat),
            pow2(e as nat) <= usize::MAX as nat,
        decreases e - i,
    {
        proof {
            lemma_pow2_mono((i + 1) as nat, e as nat);
        }
        r = r * 2;
        i = i + 1;
    }
    r
}

/// One subdivision level over a segment vector: a single forward pass writing
/// the two replacement segments per input segment into a fresh buffer.
fn grow_step(v: &Vec<Dir>, flags: CurveFlags) -> (r: Vec<Dir>)
    requires
        2 * v@.len() <= usize::MAX as nat,
    ensures
        r@ == grow_one(v@, flags),
{
    let n = v.len();
    let mut out: Vec<Dir> = Vec::new();
    let mut i: usize = 0;
    let mut right: bool = true;
    while i < n
        invariant
            n == v@.len(),
            2 * v@.len() <= usize::MAX as nat,
            i <= n,
            right == (i as int % 2 == 0),
            out@ == grow_one(v@, flags).subrange(0, 2 * i as int),
        decreases n - i,
    {
        let d = v[i];
        let tr = (flags.levy || right) != flags.flip;
        if tr {
            out.push(d.left());
            out.push(d.right());
        } else {
            out.push(d.right());
            out.push(d.left());
        }
        proof {
            let g = grow_one(v@, flags);
            assert(g[2 * i as int] == (if tr {
                rot(v@[i as int], -1)
            } else {
                rot(v@[i as int], 1)
            }));
            assert(g[2 * i as int + 1] == (if tr {
                rot(v@[i as int], 1)
            } else {
                rot(v@[i as int], -1)
            }));
            assert(out@ =~= g.subrange(0, 2 * (i + 1) as int));
        }
        right = !right;
        i = i + 1;
    }
    proof {
        assert(out@ =~= grow_one(v@, flags));
    }
    out
}

/// One fractal approximation: the ordered segment sequence, its recursion
/// depth, and the generation toggles it was built with. The well-formedness
/// invariant `wf` ties the sequence to the generation rule, so the sequence
/// length is always exactly 2^depth.
#[derive(Debug, Clone)]
pub struct DragonCurve {
    pub list: Vec<Dir>,
    pub depth: u8,
    pub flags: CurveFlags,
}

impl DragonCurve {
    /// The start direction the curve was generated from, recovered from the
    /// first segment by undoing the rotation that `depth` subdivision levels
    /// apply. Whole-sequence rotation moves it; depth adjustment keeps it.
    pub open spec fn origin(&self) -> Dir {
        rot(self.list@[0], -depth_offset(self.flags, self.depth as int))
    }

    /// Well-formedness: the segment sequence is exactly the curve that the
    /// generation rule produces from the origin under these flags at this
    /// depth. Constructors establish it and every method preserves it.
    pub open spec fn wf(&self) -> bool {
        self.list@ == curve_seq(self.origin(), self.flags, self.depth as nat)
    }

    /// A depth-0 curve: the single segment `start`.
    pub fn new(start: Dir, flags: CurveFlags) -> (r: Self)
        ensures
            r.wf(),
            r.depth == 0,
            r.flags == flags,
            r.list@ == seq![start],
            r.origin() == start,
    {
        let mut list: Vec<Dir> = Vec::new();
        list.push(start);
        let r = DragonCurve { list, depth: 0, flags };
        proof {
            assert(r.list@ =~= seq![start]);
            lemma_rot_zero(start);
            assert(r.origin() == start);
            assert(curve_seq(start, flags, 0) =~= seq![start]);
        }
        r
    }

    /// Rotate every segment by `by` 45 degree steps; O(length). The origin
    /// moves by the same rotation.
    pub fn rotate_by(&mut self, by: u8)
        requires
            old(self).wf(),
        ensures
            final(self).wf(),
            final(self).depth == old(self).depth,
            final(self).flags == old(self).flags,
            final(self).list@ == rotate_each(old(self).list@, by as int),
            final(self).origin() == rot(old(self).origin(), by as int),
    {
        let ghost list0 = self.list@;
        let ghost start0 = self.origin();
        let n = self.list.len();
        let mut i: usize = 0;
        while i < n
            invariant
                n == self.list@.len(),
                i <= n,
                self.depth == old(self).depth,
                self.flags == old(self).flags,
                list0 == old(self).list@,
                forall|j: int| 0 <= j < i ==> self.list@[j] == rot(list0[j], by as int),
                forall|j: int| i <= j < n ==> self.list@[j] == list0[j],
            decreases n - i,
        {
            let d = self.list[i];
            self.list.set(i, d.rotate(by));
            i = i + 1;
        }
        proof {
            assert(self.list@ =~= rotate_each(list0, by as int));
            lemma_rotated_origin(start0, self.flags, self.depth as nat, by as int);
        }
    }

    /// Rotate the whole curve so that its first segment lands on `to`.
    pub fn rotate_to(&mut self, to: Dir)
        requires
            old(self).wf(),
        ensures
            final(self).wf(),
            final(self).depth == old(self).depth,
            final(self).flags == old(self).flags,
            final(self).list@ == rotate_each(
                old(self).list@,
                dir_index(to) - dir_index(old(self).list@[0]),
            ),
            final(self).list@[0] == to,
    {
        proof {
            lemma_curve_seq_len(old(self).origin(), self.flags, self.depth as nat);
            lemma_pow2_pos(self.depth as nat);
        }
        let first = self.list[0];
        let by = to.to_u8() + 8 - first.to_u8();
        self.rotate_by(by);
        proof {
            lemma_rotate_lands_first(old(self).list@, to, by as int);
        }
    }

    /// Set the recursion depth. A no-op when unchanged; `new_depth - depth`
    /// subdivision passes when growing; when shrinking, the self-similar
    /// prefix of length 2^new_depth rotated by the fixed offset, in time
    /// proportional to the target size. The origin never moves: the result is
    /// the curve generated from it at `new_depth`, whichever way it was
    /// reached.
    #[verifier::rlimit(60)]
    pub fn set_depth(&mut self, new_depth: u8)
        requires
            old(self).wf(),
            new_depth > old(self).depth ==> pow2(new_depth as nat) <= usize::MAX as nat,
        ensures
            final(self).wf(),
            final(self).depth == new_depth,
            final(self).flags == old(self).flags,
            final(self).origin() == old(self).origin(),
            final(self).list@ == curve_seq(old(self).origin(), old(self).flags, new_depth as nat),
            old(self).depth == new_depth ==> final(self).list@ == old(self).list@,
    {
        let ghost start0 = self.origin();
        if self.depth < new_depth {
            let mut d = self.depth;
            while d < new_depth
                invariant
                    d <= new_depth,
                    self.flags == old(self).flags,
                    pow2(new_depth as nat) <= usize::MAX as nat,
                    self.list@ == curve_seq(start0, self.flags, d as nat),
                decreases new_depth - d,
            {
                proof {
                    lemma_curve_seq_len(start0, self.flags, d as nat);
                    lemma_pow2_mono((d + 1) as nat, new_depth as nat);
                }
                let next = grow_step(&self.list, self.flags);
                self.list = next;
                d = d + 1;
            }
            self.depth = new_depth;
        } else if self.depth > new_depth {
            let k = self.depth - new_depth;
            let r: u8 = if self.flags.flip {
                (8 - k % 8) % 8
            } else {
                k % 8
            };
            proof {
                lemma_curve_seq_len(start0, self.flags, self.depth as nat);
                lemma_pow2_mono(new_depth as nat, self.depth as nat);
            }
            let n = self.list.len();
            let target = pow2_exec(new_depth);
            let ghost list0 = self.list@;
            let mut out: Vec<Dir> = Vec::new();
            let mut i: usize = 0;
            while i < target
                invariant
                    target <= n,
                    n == self.list@.len(),
                    i <= target,
                    self.flags == old(self).flags,
                    r == (if self.flags.flip {
                        (8 - (k as int % 8)) % 8
                    } else {
                        k as int % 8
                    }),
                    list0 == self.list@,
                    out@.len() == i,
                    forall|j: int| 0 <= j < i ==> out@[j] == rot(list0[j], r as int),
                decreases target - i,
            {
                let d = self.list[i];
                out.push(d.rotate(r));
                i = i + 1;
            }
            proof {
                assert(out@ =~= rotate_each(list0.subrange(0, target as int), r as int));
                lemma_prefix_self_similar(start0, self.flags, new_depth as nat, self.depth as nat);
                let off = depth_offset(self.flags, self.depth - new_depth);
                lemma_rotate_each_compose(
                    curve_seq(start0, self.flags, new_depth as nat),
                    off,
                    r as int,
                );
                lemma_mod_twice(k as int, 8);
                lemma_mod_equivalence(k as int % 8, k as int, 8);
                if self.flags.flip {
                    lemma_mod_bound(k as int, 8);
                    if k as int % 8 == 0 {
                        lemma_mod_equivalence(off + r, 0, 8);
                    } else {
                        lemma_mod_equivalence(off + r, 8, 8);
                    }
                } else {
                    lemma_mod_equivalence(off + r, 0, 8);
                }
                assert((off + r as int) % 8 == 0);
                lemma_rotate_each_congruent(
                    curve_seq(start0, self.flags, new_depth as nat),
                    off + r as int,
                    0,
                );
                lemma_rotate_each_zero(curve_seq(start0, self.flags, new_depth as nat));
                assert(out@ == curve_seq(start0, self.flags, new_depth as nat));
            }
            self.list = out;
            self.depth = new_depth;
        }
        proof {
            lemma_curve_seq_len(start0, self.flags, new_depth as nat);
            lemma_pow2_pos(new_depth as nat);
            lemma_curve_origin(start0, self.flags, new_depth as nat);
            assert(self.origin() == start0);
        }
    }

    /// Depth of the curve.
    pub fn depth(&self) -> (r: u8)
        ensures
            r == self.depth,
    {
        self.depth
    }

    /// Number of segments of the curve, not counting the final point; equal to
    /// 2^depth on a well-formed curve.
    pub fn len(&self) -> (r: usize)
        ensures
            r == self.list@.len(),
            self.wf() ==> r as nat == pow2(self.depth as nat),
    {
        proof {
            if self.wf() {
                lemma_curve_seq_len(self.origin(), self.flags, self.depth as nat);
            }
        }
        self.list.len()
    }

    /// The segment sequence.
    pub fn list(&self) -> (r: &Vec<Dir>)
        ensures
            r@ == self.list@,
    {
        &self.list
    }

    /// The generation toggles the curve was built with.
    pub fn flags(&self) -> (r: CurveFlags)
        ensures
            r == self.flags,
    {
        self.flags
    }
}

impl PartialEq for DragonCurve {
    /// Curves count as equal when they agree on depth and flags: two curves of
    /// the same variant at the same resolution, whatever their orientation.
    fn eq(&self, other: &Self) -> (r: bool) {
        self.depth == other.depth && self.flags == other.flags
    }
}

impl vstd::std_specs::cmp::PartialEqSpecImpl for DragonCurve {
    open spec fn obeys_eq_spec() -> bool {
        true
    }

    open spec fn eq_spec(&self, other: &Self) -> bool {
        self.depth == other.depth && self.flags == other.flags
    }
}

/// A whole-sequence rotation that agrees modulo 8 with the gap from the first
/// segment to `to` lands the first segment on `to`.
pub proof fn lemma_rotate_lands_first(s: Seq<Dir>, to: Dir, by: int)
    requires
        s.len() > 0,
        (by - (dir_index(to) - dir_index(s[0]))) % 8 == 0,
    ensures
        rotate_each(s, by) == rotate_each(s, dir_index(to) - dir_index(s[0])),
        rotate_each(s, by)[0] == to,
{
    let delta = dir_index(to) - dir_index(s[0]);
    lemma_rotate_each_congruent(s, by, delta);
    assert(rotate_each(s, delta)[0] == rot(s[0], delta));
    lemma_dir_at_index(to);
}

/// Rotating a whole curve gives the curve generated from the rotated start,
/// whose recovered origin is that rotated start.
pub proof fn lemma_rotated_origin(start: Dir, flags: CurveFlags, depth: nat, by: int)
    ensures
        rotate_each(curve_seq(start, flags, depth), by) == curve_seq(rot(start, by), flags, depth),
        rot(
            rotate_each(curve_seq(start, flags, depth), by)[0],
            -depth_offset(flags, depth as int),
        ) == rot(start, by),
{
    lemma_curve_seq_rotate(start, flags, depth, by);
    lemma_curve_origin(rot(start, by), flags, depth);
}

/// Generating from a rotated start is the same as rotating the whole curve.
pub proof fn lemma_curve_seq_rotate(start: Dir, flags: CurveFlags, depth: nat, by: int)
    ensures
        curve_seq(rot(start, by), flags, depth) == rotate_each(curve_seq(start, flags, depth), by),
    decreases depth,
{
    if depth == 0 {
        assert(curve_seq(rot(start, by), flags, 0) =~= rotate_each(
            curve_seq(start, flags, 0),
            by,
        ));
    } else {
        lemma_curve_seq_rotate(start, flags, (depth - 1) as nat, by);
        lemma_grow_one_rotate_each(curve_seq(start, flags, (depth - 1) as nat), flags, by);
    }
}

} // verus!
