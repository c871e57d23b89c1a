use iridium::{AABBIter, Fixed, Vec3, AABB};

fn fx(v: f32) -> Fixed {
    Fixed::from_raw((v * 65536.0) as i32)
}

fn v3(x: f32, y: f32, z: f32) -> Vec3 {
    Vec3::new(fx(x), fx(y), fx(z))
}

fn drain(mut it: AABBIter) -> Vec<Vec3> {
    let mut out = Vec::new();
    while let Some(p) = it.next() {
        out.push(p);
    }
    out
}

#[test]
fn the_aabb_iter_works() {
    let aabb = AABB {
        min: v3(0.0, 0.0, 0.0),
        max: v3(1.0, 1.0, 1.0),
    };
    let mut iter = aabb.points();

    assert_eq!(iter.next(), Some(v3(0.0, 0.0, 0.0)));
    assert_eq!(iter.next(), Some(v3(1.0, 1.0, 1.0)));
    assert_eq!(iter.next(), Some(v3(0.0, 0.0, 1.0)));
    assert_eq!(iter.next(), Some(v3(0.0, 1.0, 0.0)));
    assert_eq!(iter.next(), Some(v3(0.0, 1.0, 1.0)));
    assert_eq!(iter.next(), Some(v3(1.0, 0.0, 1.0)));
    assert_eq!(iter.next(), Some(v3(1.0, 1.0, 0.0)));
    assert_eq!(iter.next(), Some(v3(1.0, 0.0, 0.0)));
    assert_eq!(iter.next(), None);
}

#[test]
fn aabb_iter_stays_exhausted() {
    let aabb = AABB::new(v3(0.0, 0.0, 0.0), v3(1.0, 1.0, 1.0));
    let mut iter = aabb.points();
    for _ in 0..8 {
        assert!(iter.next().is_some());
    }
    assert_eq!(iter.next(), None);
    assert_eq!(iter.next(), None);
}

#[test]
fn aabb_points_can_be_walked_again() {
    let aabb = AABB::new(v3(-2.0, 0.5, 3.0), v3(4.0, 0.75, 3.25));
    let first = drain(aabb.points());
    let second = drain(aabb.points());
    assert_eq!(first.len(), 8);
    assert_eq!(first, second);
}

#[test]
fn aabb_points_mix_min_and_max_in_order() {
    let aabb = AABB::new(v3(-2.0, 0.5, 3.0), v3(4.0, 0.75, 3.25));
    let got = drain(aabb.points());
    let want = vec![
        v3(-2.0, 0.5, 3.0),
        v3(4.0, 0.75, 3.25),
        v3(-2.0, 0.5, 3.25),
        v3(-2.0, 0.75, 3.0),
        v3(-2.0, 0.75, 3.25),
        v3(4.0, 0.5, 3.25),
        v3(4.0, 0.75, 3.0),
        v3(4.0, 0.5, 3.0),
    ];
    assert_eq!(got, want);
}

#[test]
fn degenerate_box_still_has_eight_points() {
    let p = v3(2.5, -1.0, 7.0);
    let got = drain(AABB::new(p, p).points());
    assert_eq!(got, vec![p; 8]);
}

#[test]
fn aabb_new_keeps_its_corners() {
    let aabb = AABB::new(v3(1.0, 2.0, 3.0), v3(4.0, 5.0, 6.0));
    assert_eq!(aabb.min, v3(1.0, 2.0, 3.0));
    assert_eq!(aabb.max, v3(4.0, 5.0, 6.0));
}

#[test]
fn aabb_translated_moves_both_corners() {
    let aabb = AABB::new(v3(0.0, 0.0, 0.0), v3(1.0, 1.0, 1.0));
    let moved = aabb.translated(v3(5.0, -5.0, 0.5));
    assert_eq!(moved.min, v3(5.0, -5.0, 0.5));
    assert_eq!(moved.max, v3(6.0, -4.0, 1.5));
}

#[test]
fn aabb_translated_clamps_at_the_range_end() {
    let aabb = AABB::new(v3(0.0, 0.0, 0.0), v3(1.0, 1.0, 1.0));
    let far = Vec3::new(Fixed::from_raw(i32::MAX - 10), fx(0.0), Fixed::from_raw(i32::MIN));
    let moved = aabb.translated(far);
    assert_eq!(moved.min.x.raw, i32::MAX - 10);
    assert_eq!(moved.max.x.raw, i32::MAX);
    assert_eq!(moved.min.z.raw, i32::MIN);
    assert_eq!(moved.max.z.raw, i32::MIN + 65536);
    assert!(moved.min.le(&moved.max));
}

#[test]
fn fixed_from_int_is_exact() {
    assert_eq!(Fixed::from_int(0).raw, 0);
    assert_eq!(Fixed::from_int(1).raw, 65536);
    assert_eq!(Fixed::from_int(12).raw, 786432);
    assert_eq!(Fixed::from_int(-3).raw, -196608);
    assert_eq!(Fixed::from_int(i16::MAX).raw, 2147418112);
    assert_eq!(Fixed::from_int(i16::MIN).raw, i32::MIN);
    assert_eq!(Fixed::zero(), Fixed::from_int(0));
    assert_eq!(Fixed::one(), Fixed::from_int(1));
}

#[test]
fn fixed_saturating_add_clamps() {
    assert_eq!(fx(1.5).saturating_add(fx(2.25)), fx(3.75));
    assert_eq!(fx(1.5).saturating_add(fx(-2.0)), fx(-0.5));
    assert_eq!(Fixed::from_raw(i32::MAX).saturating_add(Fixed::from_raw(1)).raw, i32::MAX);
    assert_eq!(Fixed::from_raw(i32::MIN).saturating_add(Fixed::from_raw(-1)).raw, i32::MIN);
}

#[test]
fn fixed_div_count_rounds_toward_zero() {
    assert_eq!(fx(12.0).div_count(12), fx(1.0));
    assert_eq!(fx(12.0).div_count(6), fx(2.0));
    assert_eq!(fx(12.0).div_count(5).raw, 157286);
    assert_eq!(fx(-12.0).div_count(5).raw, -157286);
    assert_eq!(Fixed::from_raw(5).div_count(12).raw, 0);
    assert_eq!(Fixed::from_raw(-5).div_count(12).raw, 0);
    assert_eq!(Fixed::from_raw(i32::MIN).div_count(1).raw, i32::MIN);
    assert_eq!(fx(12.0).div_count(usize::MAX).raw, 0);
}

#[test]
fn fixed_recip_rounds_toward_zero_and_clamps() {
    assert_eq!(fx(1.0).recip(), fx(1.0));
    assert_eq!(fx(2.0).recip(), fx(0.5));
    assert_eq!(fx(0.5).recip(), fx(2.0));
    assert_eq!(fx(3.0).recip().raw, 21845);
    assert_eq!(fx(-2.0).recip(), fx(-0.5));
    assert_eq!(fx(-3.0).recip().raw, -21845);
    assert_eq!(Fixed::from_raw(0).recip().raw, i32::MAX);
    assert_eq!(Fixed::from_raw(1).recip().raw, i32::MAX);
    assert_eq!(Fixed::from_raw(2).recip().raw, i32::MAX);
    assert_eq!(Fixed::from_raw(3).recip().raw, 1431655765);
    assert_eq!(Fixed::from_raw(-1).recip().raw, i32::MIN);
    assert_eq!(Fixed::from_raw(-2).recip().raw, i32::MIN);
    assert_eq!(Fixed::from_raw(i32::MAX).recip().raw, 2);
    assert_eq!(Fixed::from_raw(i32::MIN).recip().raw, -2);
}

#[test]
fn fixed_comparisons() {
    assert!(fx(0.5).is_positive());
    assert!(!fx(0.0).is_positive());
    assert!(!fx(-0.5).is_positive());
    assert!(fx(1.0).le(&fx(1.0)));
    assert!(fx(-1.0).le(&fx(1.0)));
    assert!(!fx(1.0).le(&fx(-1.0)));
}

#[test]
fn vec3_le_is_componentwise() {
    assert!(v3(0.0, 0.0, 0.0).le(&v3(0.0, 1.0, 2.0)));
    assert!(!v3(0.0, 2.0, 0.0).le(&v3(1.0, 1.0, 1.0)));
    assert!(!v3(2.0, 0.0, 0.0).le(&v3(1.0, 1.0, 1.0)));
    assert!(!v3(0.0, 0.0, 2.0).le(&v3(1.0, 1.0, 1.0)));
}

#[test]
fn vec3_from_ints_matches_new() {
    assert_eq!(Vec3::from_ints(1, -2, 3), v3(1.0, -2.0, 3.0));
    assert_eq!(Vec3::from_ints(0, 0, 0), v3(0.0, 0.0, 0.0));
}

#[test]
fn vec3_saturating_add_is_componentwise() {
    assert_eq!(v3(1.0, 2.0, 3.0).saturating_add(v3(0.5, -2.0, 1.0)), v3(1.5, 0.0, 4.0));
}
