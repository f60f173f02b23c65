use dragon::{CurveFlags, Dir, DragonCurve};

const DRAGON: CurveFlags = CurveFlags { levy: false, flip: false };
const LEVY: CurveFlags = CurveFlags { levy: true, flip: false };
const FLIP: CurveFlags = CurveFlags { levy: false, flip: true };
const LEVY_FLIP: CurveFlags = CurveFlags { levy: true, flip: true };

fn all_flags() -> Vec<CurveFlags> {
    vec![DRAGON, LEVY, FLIP, LEVY_FLIP]
}

/// The reflection of `d` across the axis through `axis`.
fn mirror(axis: Dir, d: Dir) -> Dir {
    Dir::from_u8(2 * axis.to_u8() + 8 - d.to_u8())
}

#[test]
fn new_curve_is_one_segment_at_depth_0() {
    for flags in all_flags() {
        let c = DragonCurve::new(Dir::N0m, flags);
        assert_eq!(c.depth(), 0);
        assert_eq!(c.len(), 1);
        assert_eq!(c.list(), &vec![Dir::N0m]);
        assert_eq!(c.flags(), flags);
    }
}

#[test]
fn length_is_two_to_the_depth() {
    for flags in all_flags() {
        let mut c = DragonCurve::new(Dir::Np0, flags);
        for depth in 0..=10u8 {
            c.set_depth(depth);
            assert_eq!(c.depth(), depth);
            assert_eq!(c.len(), 1usize << depth);
            assert_eq!(c.list().len(), 1usize << depth);
        }
    }
}

#[test]
fn set_depth_twice_is_idempotent() {
    for flags in all_flags() {
        let mut c = DragonCurve::new(Dir::Nmp, flags);
        c.set_depth(6);
        let once = c.list().clone();
        c.set_depth(6);
        assert_eq!(c.list(), &once);
        c.set_depth(3);
        let shrunk = c.list().clone();
        c.set_depth(3);
        assert_eq!(c.list(), &shrunk);
    }
}

#[test]
fn grow_then_shrink_restores_the_sequence() {
    for flags in all_flags() {
        for (d, k) in [(0u8, 1u8), (0, 5), (2, 3), (3, 9), (4, 1)] {
            let mut c = DragonCurve::new(Dir::Np0, flags);
            c.set_depth(d);
            let before = c.list().clone();
            c.set_depth(d + k);
            c.set_depth(d);
            assert_eq!(c.list(), &before, "flags {flags:?}, d {d}, k {k}");
        }
    }
}

#[test]
fn prefix_rotated_by_the_offset_is_the_coarser_curve() {
    for flags in all_flags() {
        for (d, big) in [(0u8, 3u8), (2, 5), (4, 6)] {
            let mut coarse = DragonCurve::new(Dir::N0p, flags);
            coarse.set_depth(d);
            let mut fine = DragonCurve::new(Dir::N0p, flags);
            fine.set_depth(big);
            let k = big - d;
            let rot = if flags.flip { 8 - k % 8 } else { k % 8 };
            let unrotated_prefix: Vec<Dir> = fine.list()[..(1usize << d)]
                .iter()
                .map(|seg| seg.rotate(rot))
                .collect();
            assert_eq!(&unrotated_prefix, coarse.list(), "flags {flags:?}, d {d}, big {big}");
        }
    }
}

#[test]
fn flip_mirrors_the_curve() {
    let start = Dir::Np0;
    for (plain, with_flip) in [(DRAGON, FLIP), (LEVY, LEVY_FLIP)] {
        for depth in 0..=6u8 {
            let mut c = DragonCurve::new(start, plain);
            c.set_depth(depth);
            let mut f = DragonCurve::new(start, with_flip);
            f.set_depth(depth);
            let mirrored: Vec<Dir> = c.list().iter().map(|d| mirror(start, *d)).collect();
            assert_eq!(f.list(), &mirrored, "flags {plain:?}, depth {depth}");
        }
    }
}

#[test]
fn dragon_first_levels_from_plus_x() {
    let mut c = DragonCurve::new(Dir::Np0, DRAGON);
    assert_eq!(c.list(), &vec![Dir::Np0]);
    c.set_depth(1);
    assert_eq!(c.list(), &vec![Dir::Np0.left(), Dir::Np0.right()]);
    assert_eq!(c.list(), &vec![Dir::Npp, Dir::Npm]);
    c.set_depth(2);
    assert_eq!(c.len(), 4);
    assert_eq!(c.list(), &vec![Dir::N0p, Dir::Np0, Dir::N0m, Dir::Np0]);
    c.set_depth(1);
    assert_eq!(c.list(), &vec![Dir::Npp, Dir::Npm]);
}

#[test]
fn levy_first_levels_from_plus_x() {
    let mut c = DragonCurve::new(Dir::Np0, LEVY);
    c.set_depth(1);
    assert_eq!(c.list(), &vec![Dir::Npp, Dir::Npm]);
    c.set_depth(2);
    assert_eq!(c.list(), &vec![Dir::N0p, Dir::Np0, Dir::Np0, Dir::N0m]);
}

#[test]
fn flipped_dragon_first_level_from_plus_x() {
    let mut c = DragonCurve::new(Dir::Np0, FLIP);
    c.set_depth(1);
    assert_eq!(c.list(), &vec![Dir::Npm, Dir::Npp]);
}

#[test]
fn growing_in_one_jump_equals_growing_level_by_level() {
    for flags in all_flags() {
        let mut direct = DragonCurve::new(Dir::Np0, flags);
        direct.set_depth(5);
        let mut stepwise = DragonCurve::new(Dir::Np0, flags);
        for depth in 1..=5u8 {
            stepwise.set_depth(depth);
        }
        assert_eq!(direct.list(), stepwise.list(), "flags {flags:?}");
    }
}

#[test]
fn shrink_to_depth_0_leaves_the_rotated_first_segment() {
    for flags in all_flags() {
        for depth in 1..=9u8 {
            let mut c = DragonCurve::new(Dir::Nm0, flags);
            c.set_depth(depth);
            c.set_depth(0);
            assert_eq!(c.len(), 1);
            assert_eq!(c.list(), &vec![Dir::Nm0], "flags {flags:?}, depth {depth}");
        }
    }
}

#[test]
fn rotate_by_rotates_every_segment() {
    let mut c = DragonCurve::new(Dir::Np0, DRAGON);
    c.set_depth(3);
    let before = c.list().clone();
    c.rotate_by(3);
    assert_eq!(c.len(), before.len());
    for (seg, old) in c.list().iter().zip(before.iter()) {
        assert_eq!(*seg, old.rotate(3));
    }
    c.rotate_by(5);
    assert_eq!(c.list(), &before);
}

#[test]
fn rotate_to_lands_the_first_segment() {
    let mut c = DragonCurve::new(Dir::Np0, DRAGON);
    c.set_depth(4);
    c.rotate_to(Dir::Nmm);
    assert_eq!(c.list()[0], Dir::Nmm);
    assert_eq!(c.depth(), 4);
    c.rotate_to(Dir::Npp);
    assert_eq!(c.list()[0], Dir::Npp);
}

#[test]
fn depth_adjustment_keeps_flags() {
    let mut c = DragonCurve::new(Dir::Np0, LEVY_FLIP);
    c.set_depth(5);
    c.set_depth(2);
    c.rotate_by(1);
    assert_eq!(c.flags(), LEVY_FLIP);
}

#[test]
fn curves_compare_by_depth_and_flags() {
    let mut a = DragonCurve::new(Dir::Np0, DRAGON);
    let mut b = DragonCurve::new(Dir::N0p, DRAGON);
    a.set_depth(3);
    b.set_depth(3);
    assert_eq!(a, b);
    b.set_depth(4);
    assert_ne!(a, b);
    let c = DragonCurve::new(Dir::Np0, LEVY);
    let d = DragonCurve::new(Dir::Np0, DRAGON);
    assert_ne!(c, d);
}
