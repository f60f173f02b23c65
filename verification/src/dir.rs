//! The direction model: an 8-valued compass encoding with modular rotation
//! arithmetic. A direction is one unit step on a compass rose at 45 degree
//! increments; "rotate by k" is addition modulo 8.

use vstd::prelude::*;

verus! {

use vstd::arithmetic::div_mod::lemma_add_mod_noop_right;
use vstd::arithmetic::div_mod::lemma_mod_equivalence;
use vstd::arithmetic::div_mod::lemma_mod_twice;

/// One of the eight compass directions. The variant names spell out the sign
/// of the x and y components of the step: `Npp` steps (+x, +y), `Np0` steps
/// (+x, 0), and so on, going around the rose one 45 degree turn at a time.
#[derive(Clone, Copy, Debug, PartialEq, Eq, Structural)]
pub enum Dir {
    Npp,
    Np0,
    Npm,
    N0m,
    Nmm,
    Nm0,
    Nmp,
    N0p,
}

/// Ordinal of a direction on the compass rose, in 0..8. Adjacent ordinals are
/// one 45 degree turn apart; +1 is a turn to the right.
pub open spec fn dir_index(d: Dir) -> int {
    match d {
        Dir::Npp => 0,
        Dir::Np0 => 1,
        Dir::Npm => 2,
        Dir::N0m => 3,
        Dir::Nmm => 4,
        Dir::Nm0 => 5,
        Dir::Nmp => 6,
        Dir::N0p => 7,
    }
}

/// The direction whose ordinal is `i` modulo 8.
pub open spec fn dir_at(i: int) -> Dir {
    let k = i % 8;
    if k == 0 {
        Dir::Npp
    } else if k == 1 {
        Dir::Np0
    } else if k == 2 {
        Dir::Npm
    } else if k == 3 {
        Dir::N0m
    } else if k == 4 {
        Dir::Nmm
    } else if k == 5 {
        Dir::Nm0
    } else if k == 6 {
        Dir::Nmp
    } else {
        Dir::N0p
    }
}

/// Rotation of a direction by `by` 45 degree steps (to the right for positive
/// `by`, to the left for negative), a total function closed over the 8 values.
pub open spec fn rot(d: Dir, by: int) -> Dir {
    dir_at(dir_index(d) + by)
}

/// The unit components of a step in direction `d`: each of the pair is -1, 0
/// or 1, giving the sign of the displacement along the x and the y axis.
pub open spec fn dir_components(d: Dir) -> (i8, i8) {
    match d {
        Dir::Npp => (1i8, 1i8),
        Dir::Np0 => (1i8, 0i8),
        Dir::Npm => (1i8, -1i8),
        Dir::N0m => (0i8, -1i8),
        Dir::Nmm => (-1i8, -1i8),
        Dir::Nm0 => (-1i8, 0i8),
        Dir::Nmp => (-1i8, 1i8),
        Dir::N0p => (0i8, 1i8),
    }
}

/// `dir_at` only looks at its argument modulo 8.
pub proof fn lemma_dir_at_mod(i: int)
    ensures
        dir_at(i % 8) == dir_at(i),
{
    lemma_mod_twice(i, 8);
}

/// `dir_at` inverts `dir_index` up to the modulus.
pub proof fn lemma_dir_index_at(i: int)
    ensures
        dir_index(dir_at(i)) == i % 8,
{
}

/// `dir_index` inverts `dir_at`.
pub proof fn lemma_dir_at_index(d: Dir)
    ensures
        dir_at(dir_index(d)) == d,
{
}

/// Rotating by 0 steps changes nothing.
pub proof fn lemma_rot_zero(d: Dir)
    ensures
        rot(d, 0) == d,
{
    lemma_dir_at_index(d);
}

/// Two rotations compose into a rotation by the sum of the steps.
pub proof fn lemma_rot_rot(d: Dir, a: int, b: int)
    ensures
        rot(rot(d, a), b) == rot(d, a + b),
{
    let x = dir_index(d) + a;
    lemma_dir_index_at(x);
    assert(dir_index(rot(d, a)) == x % 8);
    lemma_add_mod_noop_right(b, x, 8);
    assert((b + x % 8) % 8 == (b + x) % 8);
    lemma_dir_at_mod(x % 8 + b);
    lemma_dir_at_mod(x + b);
}

/// Ordinals that agree modulo 8 name the same direction.
pub proof fn lemma_dir_at_congruent(i: int, j: int)
    requires
        (i - j) % 8 == 0,
    ensures
        dir_at(i) == dir_at(j),
{
    lemma_mod_equivalence(i, j, 8);
}

/// Rotation amounts that agree modulo 8 rotate to the same direction.
pub proof fn lemma_rot_congruent(d: Dir, a: int, b: int)
    requires
        (a - b) % 8 == 0,
    ensures
        rot(d, a) == rot(d, b),
{
    let i = dir_index(d);
    lemma_mod_equivalence(a, b, 8);
    lemma_add_mod_noop_right(i, a, 8);
    lemma_add_mod_noop_right(i, b, 8);
    assert((i + a) % 8 == (i + b) % 8);
    lemma_dir_at_mod(i + a);
    lemma_dir_at_mod(i + b);
}

impl Dir {
    /// Ordinal of this direction, as in `dir_index`.
    pub fn to_u8(&self) -> (r: u8)
        ensures
            r == dir_index(*self),
    {
        match self {
            Dir::Npp => 0,
            Dir::Np0 => 1,
            Dir::Npm => 2,
            Dir::N0m => 3,
            Dir::Nmm => 4,
            Dir::Nm0 => 5,
            Dir::Nmp => 6,
            Dir::N0p => 7,
        }
    }

    /// The direction with ordinal `idx`, modulo 8; total over all of `u8`.
    pub fn from_u8(idx: u8) -> (r: Self)
        ensures
            r == dir_at(idx as int),
    {
        match idx % 8 {
            0 => Dir::Npp,
            1 => Dir::Np0,
            2 => Dir::Npm,
            3 => Dir::N0m,
            4 => Dir::Nmm,
            5 => Dir::Nm0,
            6 => Dir::Nmp,
            _ => Dir::N0p,
        }
    }

    /// Rotate by `by` 45 degree steps to the right; addition modulo 8, total,
    /// with no error states.
    pub fn rotate(&self, by: u8) -> (r: Self)
        ensures
            r == rot(*self, by as int),
    {
        let r = Self::from_u8(self.to_u8() + by % 8);
        proof {
            lemma_add_mod_noop_right(dir_index(*self), by as int, 8);
            lemma_dir_at_mod(dir_index(*self) + by % 8);
            lemma_dir_at_mod(dir_index(*self) + by);
        }
        r
    }

    /// One 45 degree turn to the right.
    pub fn right(&self) -> (r: Self)
        ensures
            r == rot(*self, 1),
    {
        self.rotate(1)
    }

    /// One 45 degree turn to the left; rotating by 7 is rotating by -1.
    pub fn left(&self) -> (r: Self)
        ensures
            r == rot(*self, -1),
    {
        let r = self.rotate(7);
        proof {
            lemma_rot_congruent(*self, 7, -1);
        }
        r
    }

    /// The unit components of a step in this direction, as in
    /// `dir_components`: the sign of the displacement along each axis.
    pub fn components(&self) -> (r: (i8, i8))
        ensures
            r == dir_components(*self),
    {
        match self {
            Dir::Npp => (1, 1),
            Dir::Np0 => (1, 0),
            Dir::Npm => (1, -1),
            Dir::N0m => (0, -1),
            Dir::Nmm => (-1, -1),
            Dir::Nm0 => (-1, 0),
            Dir::Nmp => (-1, 1),
            Dir::N0p => (0, 1),
        }
    }
}

} // verus!
