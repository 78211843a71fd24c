use pcl_rustic_core::{PclError, Transform};

fn translation(tx: i64, ty: i64, tz: i64) -> Transform {
    Transform::from([
        [1, 0, 0, tx],
        [0, 1, 0, ty],
        [0, 0, 1, tz],
        [0, 0, 0, 1],
    ])
}

#[test]
fn identity_maps_coordinates_to_themselves() {
    let id = Transform::identity();
    assert_eq!(id.apply_to_point(7, -3, Some(11)), (7, -3, 11));
    assert_eq!(id.apply_to_point(7, -3, None), (7, -3, 0));
}

#[test]
fn compose_with_identity_changes_nothing() {
    let t = translation(10, 20, 30);
    let id = Transform::identity();
    let left = t.compose(&id);
    let right = id.compose(&t);
    for &(x, y, z) in &[(1i64, 2i64, 3i64), (-5, 0, 9), (100, -100, 0)] {
        let expect = t.apply_to_point(x, y, Some(z));
        assert_eq!(left.apply_to_point(x, y, Some(z)), expect);
        assert_eq!(right.apply_to_point(x, y, Some(z)), expect);
    }
}

#[test]
fn translation_moves_a_point() {
    let t = translation(10, 20, 30);
    assert_eq!(t.apply_to_point(1, 2, Some(3)), (11, 22, 33));
}

#[test]
fn composition_is_associative_on_coordinates() {
    let t1 = translation(1, 2, 3);
    let t2 = Transform::from([
        [0, -1, 0, 0],
        [1, 0, 0, 0],
        [0, 0, 1, 0],
        [0, 0, 0, 1],
    ]);
    let t3 = translation(-7, 5, 2);
    let a = t1.compose(&t2).compose(&t3);
    let b = t1.compose(&t2.compose(&t3));
    for &(x, y, z) in &[(0i64, 0i64, 0i64), (3, -4, 12), (8, 8, -1)] {
        assert_eq!(
            a.apply_to_point(x, y, Some(z)),
            b.apply_to_point(x, y, Some(z))
        );
    }
}

#[test]
fn composition_applies_self_first() {
    // rotate by 90 degrees in the plane, then translate
    let rot = Transform::from([
        [0, -1, 0, 0],
        [1, 0, 0, 0],
        [0, 0, 1, 0],
        [0, 0, 0, 1],
    ]);
    let shift = translation(10, 0, 0);
    let rotate_then_shift = rot.compose(&shift);
    // (1, 0) rotates to (0, 1), then shifts to (10, 1)
    assert_eq!(rotate_then_shift.apply_to_point(1, 0, Some(0)), (10, 1, 0));
}

#[test]
fn from_rows_accepts_exactly_four_by_four() {
    let rows = vec![
        vec![1, 0, 0, 0],
        vec![0, 1, 0, 0],
        vec![0, 0, 1, 0],
        vec![0, 0, 0, 1],
    ];
    let t = Transform::from_rows(rows).unwrap();
    assert_eq!(t, Transform::identity());

    let bad = Transform::from_rows(vec![vec![1, 2, 3]]);
    assert_eq!(bad, Err(PclError::ShapeError { rows: 1, cols: 3 }));

    let ragged = Transform::from_rows(vec![
        vec![1, 0, 0, 0],
        vec![0, 1, 0],
        vec![0, 0, 1, 0],
        vec![0, 0, 0, 1],
    ]);
    assert_eq!(ragged, Err(PclError::ShapeError { rows: 4, cols: 3 }));
}

#[test]
fn nonunit_weight_divides_truncating() {
    let halving = Transform::from([
        [1, 0, 0, 0],
        [0, 1, 0, 0],
        [0, 0, 1, 0],
        [0, 0, 0, 2],
    ]);
    assert_eq!(halving.apply_to_point(5, 7, Some(9)), (2, 3, 4));
    assert_eq!(halving.apply_to_point(-5, 7, Some(9)), (-2, 3, 4));
}

#[test]
fn zero_weight_returns_unnormalized_components() {
    let degenerate = Transform::from([
        [1, 0, 0, 0],
        [0, 1, 0, 0],
        [0, 0, 1, 0],
        [0, 0, 0, 0],
    ]);
    assert_eq!(degenerate.apply_to_point(5, 7, Some(9)), (5, 7, 9));
}

#[test]
fn checked_operations_reject_overflow() {
    let big = Transform::from([
        [i64::MAX, i64::MAX, i64::MAX, i64::MAX],
        [i64::MAX, i64::MAX, i64::MAX, i64::MAX],
        [i64::MAX, i64::MAX, i64::MAX, i64::MAX],
        [i64::MAX, i64::MAX, i64::MAX, i64::MAX],
    ]);
    assert!(big.compose_checked(&big).is_none());
    assert!(big.apply_to_point_checked(i64::MAX, i64::MAX, Some(i64::MAX)).is_none());

    let t = translation(1, 2, 3);
    let ok = t.compose_checked(&t).unwrap();
    assert_eq!(ok.apply_to_point(0, 0, Some(0)), (2, 4, 6));
    assert_eq!(t.apply_to_point_checked(1, 1, None), Some((2, 3, 3)));
}

#[test]
fn composed_translations_add_up() {
    // would fail if composition handed one operand back unchanged
    let t1 = translation(1, 2, 3);
    let t2 = translation(10, 20, 30);
    let both = t1.compose(&t2);
    assert_eq!(both.apply_to_point(0, 0, Some(0)), (11, 22, 33));
    assert_ne!(both, t1);
    assert_ne!(both, t2);
}

#[test]
fn default_is_identity() {
    let t: Transform = Default::default();
    assert_eq!(t, Transform::identity());
}
