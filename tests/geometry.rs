use sea_wars::geometry::{Rotation, Vec2};

#[test]
fn vec2_arithmetic() {
    let a = Vec2::new(3, 5);
    let b = Vec2::new(1, 2);
    assert_eq!(Vec2::new(4, 7), a.add(&b));
    assert_eq!(Vec2::new(2, 3), a.sub(&b));
    assert_eq!(Vec2::new(5, 3), a.swap());
    assert!(a.ge(&b));
    assert!(!b.ge(&a));
    assert!(b.lt(&a));
    assert!(!a.lt(&a));
    let mut c = a;
    c.set_x(9);
    c.set_y(8);
    assert_eq!((9, 8), (c.x(), c.y()));
}

#[test]
fn containment_is_half_open() {
    let start = Vec2::new(1, 1);
    let size = Vec2::new(2, 3);
    assert!(Vec2::new(1, 1).is_inside(&start, &size));
    assert!(Vec2::new(2, 3).is_inside(&start, &size));
    assert!(!Vec2::new(3, 1).is_inside(&start, &size));
    assert!(!Vec2::new(1, 4).is_inside(&start, &size));
    assert!(!Vec2::new(0, 2).is_inside(&start, &size));
}

#[test]
fn rotation_ordinals_and_directions() {
    let all = [Rotation::Left, Rotation::Down, Rotation::Right, Rotation::Up];
    let values: Vec<u64> = all.iter().map(|r| r.value()).collect();
    let directions: Vec<u64> = all.iter().map(|r| r.direction()).collect();
    assert_eq!(vec![0, 1, 2, 3], values);
    assert_eq!(vec![1, 1, 0, 0], directions);
    for v in 0..4u64 {
        assert_eq!(v, Rotation::from_value(v).value());
    }
}

#[test]
fn other_rotations_skip_the_current_one() {
    assert_eq!(
        vec![Rotation::Left, Rotation::Right, Rotation::Up],
        (0..3).map(|i| Rotation::Down.other(i)).collect::<Vec<_>>()
    );
    assert_eq!(
        vec![Rotation::Down, Rotation::Right, Rotation::Up],
        (0..3).map(|i| Rotation::Left.other(i)).collect::<Vec<_>>()
    );
    assert_eq!(
        vec![Rotation::Left, Rotation::Down, Rotation::Right],
        (0..3).map(|i| Rotation::Up.other(i)).collect::<Vec<_>>()
    );
}

#[test]
fn random_rotation_covers_all_four() {
    let mut seen = [false; 4];
    for _ in 0..400 {
        seen[Rotation::random().value() as usize] = true;
    }
    assert_eq!([true; 4], seen);
}
