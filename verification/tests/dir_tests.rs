use dragon::Dir;

#[test]
fn rotate_is_addition_mod_8() {
    assert_eq!(Dir::Np0.rotate(0), Dir::Np0);
    assert_eq!(Dir::Np0.rotate(1), Dir::Npm);
    assert_eq!(Dir::Np0.rotate(7), Dir::Npp);
    assert_eq!(Dir::Np0.rotate(8), Dir::Np0);
    assert_eq!(Dir::N0p.rotate(1), Dir::Npp);
    assert_eq!(Dir::N0p.rotate(250), Dir::Np0);
}

#[test]
fn right_and_left_are_one_step() {
    assert_eq!(Dir::Np0.right(), Dir::Npm);
    assert_eq!(Dir::Np0.left(), Dir::Npp);
    assert_eq!(Dir::Npp.left(), Dir::N0p);
    for i in 0..8u8 {
        let d = Dir::from_u8(i);
        assert_eq!(d.right().left(), d);
        assert_eq!(d.left().right(), d);
    }
}

#[test]
fn from_u8_wraps_modulo_8() {
    assert_eq!(Dir::from_u8(0), Dir::Npp);
    assert_eq!(Dir::from_u8(7), Dir::N0p);
    assert_eq!(Dir::from_u8(8), Dir::Npp);
    assert_eq!(Dir::from_u8(13), Dir::Nm0);
    for i in 0..8u8 {
        assert_eq!(Dir::from_u8(i).to_u8(), i);
    }
}

#[test]
fn components_give_the_step_signs() {
    assert_eq!(Dir::Npp.components(), (1, 1));
    assert_eq!(Dir::Np0.components(), (1, 0));
    assert_eq!(Dir::Npm.components(), (1, -1));
    assert_eq!(Dir::N0m.components(), (0, -1));
    assert_eq!(Dir::Nmm.components(), (-1, -1));
    assert_eq!(Dir::Nm0.components(), (-1, 0));
    assert_eq!(Dir::Nmp.components(), (-1, 1));
    assert_eq!(Dir::N0p.components(), (0, 1));
}

#[test]
fn diagonal_and_axis_directions_alternate() {
    for i in 0..8u8 {
        let (x, y) = Dir::from_u8(i).components();
        let diagonal = x != 0 && y != 0;
        assert_eq!(diagonal, i % 2 == 0);
    }
}
