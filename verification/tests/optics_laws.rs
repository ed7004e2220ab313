use hw_raytracer::{fresnel, reflect, refract, Scalar, Vector3f};

fn v(x: i64, y: i64, z: i64) -> Vector3f {
    Vector3f::new(Scalar::from_raw(x), Scalar::from_raw(y), Scalar::from_raw(z))
}

fn up() -> Vector3f {
    v(0, 1_000_000, 0)
}

fn glass() -> Scalar {
    Scalar::from_raw(1_500_000)
}

#[test]
fn reflect_mirrors_about_the_normal() {
    assert_eq!(reflect(&v(600_000, -800_000, 0), &up()), v(600_000, 800_000, 0));
    assert_eq!(reflect(&v(0, -1_000_000, 0), &up()), v(0, 1_000_000, 0));
    assert_eq!(reflect(&v(1_000_000, 0, 0), &up()), v(1_000_000, 0, 0));
}

#[test]
fn reflect_keeps_the_angle_to_the_normal() {
    let d = v(1_000_000, -2_000_000, 3_000_000).normalize();
    let n = v(2_000_000, 1_000_000, -1_000_000).normalize();
    let r = reflect(&d, &n);
    assert_eq!(r, v(801_781, -267_262, 534_523));
    let sum = r.dot(n).raw + d.dot(n).raw;
    assert_eq!(sum, -2);
    assert!(sum.abs() <= 105);
}

#[test]
fn reflect_law_holds_over_a_grid_of_unit_vectors() {
    for a in -3i64..=3 {
        for b in -3i64..=3 {
            for c in [-2i64, 1, 3] {
                let d = v(a * 1_000_000 + 500_000, b * 1_000_000, c * 1_000_000).normalize();
                let n = v(c * 1_000_000, a * 1_000_000 + 250_000, b * 1_000_000 - 750_000)
                    .normalize();
                let r = reflect(&d, &n);
                assert!((r.dot(n).raw + d.dot(n).raw).abs() <= 105);
            }
        }
    }
}

#[test]
fn refract_at_normal_incidence_goes_straight_on() {
    let n = v(0, 0, 1_000_000);
    assert_eq!(refract(&v(0, 0, -1_000_000), &n, &glass()), v(0, 0, -1_000_000));
}

#[test]
fn refract_entering_glass_bends_toward_the_normal() {
    let d = v(707_107, -707_107, 0);
    assert_eq!(refract(&d, &up(), &glass()), v(471_404, -881_917, 0));
}

#[test]
fn refract_leaving_glass_bends_away_from_the_normal() {
    assert_eq!(refract(&v(600_000, 800_000, 0), &up(), &glass()), v(900_000, 435_889, 0));
}

#[test]
fn refract_is_zero_beyond_the_critical_angle() {
    // Leaving glass of index 1.5, the critical angle has the sine 2/3.
    let below = v(666_000, 745_952, 0);
    let above = v(667_000, 745_058, 0);
    assert_eq!(refract(&below, &up(), &glass()), v(999_000, 44_710, 0));
    assert_eq!(refract(&above, &up(), &glass()), Vector3f::zero());
    assert_eq!(refract(&v(800_000, 600_000, 0), &up(), &glass()), Vector3f::zero());
}

#[test]
fn refract_never_reflects_totally_on_the_way_in() {
    for sine in [0i64, 100_000, 500_000, 900_000, 999_000] {
        let cosine = Scalar::one()
            .sub(Scalar::from_raw(sine).mul(Scalar::from_raw(sine)))
            .sqrt();
        let d = Vector3f::new(Scalar::from_raw(sine), cosine.neg(), Scalar::zero());
        assert!(refract(&d, &up(), &glass()) != Vector3f::zero());
    }
}

#[test]
fn fresnel_at_normal_incidence_on_glass_is_four_percent() {
    let n = v(0, 0, 1_000_000);
    let kr = fresnel(&v(0, 0, -1_000_000), &n, &glass());
    assert_eq!(kr, Scalar::from_raw(40_000));
    assert!(kr.raw > 0 && kr.raw < 1_000_000);
}

#[test]
fn fresnel_entering_glass_at_forty_five_degrees() {
    assert_eq!(fresnel(&v(707_107, -707_107, 0), &up(), &glass()), Scalar::from_raw(50_239));
}

#[test]
fn fresnel_leaving_glass_below_the_critical_angle() {
    assert_eq!(fresnel(&v(600_000, 800_000, 0), &up(), &glass()), Scalar::from_raw(114_141));
    assert_eq!(fresnel(&v(666_000, 745_952, 0), &up(), &glass()), Scalar::from_raw(774_736));
}

#[test]
fn fresnel_is_one_at_and_beyond_the_critical_angle() {
    // Index 2: the critical angle has the sine 1/2, and here the sine of
    // the transmitted angle comes out as exactly one.
    assert_eq!(fresnel(&v(500_000, 866_025, 0), &up(), &Scalar::from_int(2)), Scalar::one());
    assert_eq!(fresnel(&v(667_000, 745_058, 0), &up(), &glass()), Scalar::one());
    assert_eq!(fresnel(&v(800_000, 600_000, 0), &up(), &glass()), Scalar::one());
    assert_eq!(fresnel(&v(1_000_000, 0, 0), &up(), &glass()), Scalar::one());
}

#[test]
fn fresnel_is_a_share_for_every_direction() {
    for a in -4i64..=4 {
        for b in -4i64..=4 {
            let d = v(a * 250_000, b * 250_000, 100_000).normalize();
            for ior in [500_000i64, 1_000_000, 1_500_000, 2_400_000] {
                let kr = fresnel(&d, &up(), &Scalar::from_raw(ior));
                assert!(kr.raw >= 0 && kr.raw <= 1_000_000);
            }
        }
    }
}

fn squared_length(a: Vector3f) -> i128 {
    let (x, y, z) = (a.x.raw as i128, a.y.raw as i128, a.z.raw as i128);
    x * x + y * y + z * z
}

fn is_unit(a: Vector3f) -> bool {
    (squared_length(a) - 1_000_000_000_000).abs() <= 16_000_000
}

#[test]
fn reflect_of_unit_vectors_normalises_to_a_unit_vector() {
    for a in -3i64..=3 {
        for b in -3i64..=3 {
            let d = v(a * 1_000_000 + 500_000, b * 1_000_000, 1_500_000).normalize();
            let n = v(b * 1_000_000 - 250_000, 2_000_000, a * 1_000_000).normalize();
            assert!(is_unit(d) && is_unit(n));
            assert!(is_unit(reflect(&d, &n).normalize()));
        }
    }
}

#[test]
fn refract_is_zero_only_under_total_internal_reflection() {
    let one = Scalar::one();
    for a in -6i64..=6 {
        for b in -6i64..=6 {
            let d = v(a * 500_000 + 100_000, b * 500_000 - 50_000, 1_000_000).normalize();
            let n = v(0, 0, 1_000_000);
            for ior in [15_625i64, 500_000, 1_000_000, 1_300_000, 1_500_000, 64_000_000] {
                let ior = Scalar::from_raw(ior);
                for n in [n, n.neg()] {
                    let signed = d.dot(n).clamp(one.neg(), one);
                    let cosi = signed.abs();
                    let eta = if signed.raw < 0 { one.div(ior) } else { ior.div(one) };
                    let k = one.sub(eta.mul(eta).mul(one.sub(cosi.mul(cosi))));
                    let bent = refract(&d, &n, &ior);
                    assert_eq!(bent == Vector3f::zero(), k.raw < 0);
                    if k.raw >= 0 {
                        assert!(squared_length(bent) >= 680_000_000_000);
                        assert!(is_unit(bent.normalize()));
                    }
                }
            }
        }
    }
}

#[test]
fn reflect_about_an_exactly_unit_normal_is_off_by_nine_millionths_at_most() {
    for a in -5i64..=5 {
        for b in -5i64..=5 {
            let d = v(a * 300_000 + 10_000, b * 300_000 - 20_000, 700_000).normalize();
            for n in [v(0, 1_000_000, 0), v(-1_000_000, 0, 0), v(600_000, 0, -800_000)] {
                assert_eq!(squared_length(n), 1_000_000_000_000);
                let r = reflect(&d, &n);
                assert!((r.dot(n).raw + d.dot(n).raw).abs() <= 9);
            }
        }
    }
}

#[test]
fn fresnel_is_one_where_refract_finds_no_ray_next_to_the_critical_angle() {
    // Leaving a medium of index 1.999999 at the sine 1/2: the discriminant
    // is negative by two millionths, while the sine of the transmitted angle
    // rounds down to 0.999999.
    let d = v(500_000, 866_025, 0);
    let ior = Scalar::from_raw(1_999_999);
    assert_eq!(refract(&d, &up(), &ior), Vector3f::zero());
    assert_eq!(fresnel(&d, &up(), &ior), Scalar::one());
}

#[test]
fn fresnel_is_one_wherever_refract_returns_zero() {
    for a in 0i64..=40 {
        for ior in [1_100_000i64, 1_333_333, 1_500_000, 1_999_999, 2_000_000, 2_417_000] {
            let ior = Scalar::from_raw(ior);
            let d = v(a * 25_000, 1_000_000 - a * 12_500, a * 5_000).normalize();
            for n in [up(), up().neg()] {
                if refract(&d, &n, &ior) == Vector3f::zero() {
                    assert_eq!(fresnel(&d, &n, &ior), Scalar::one());
                } else {
                    assert!(fresnel(&d, &n, &ior).raw <= 1_000_000);
                }
            }
        }
    }
}

#[test]
fn refract_beyond_the_index_limit_can_round_to_zero() {
    // Entering a medium of index 0.002: the ratio of the indices is 500,
    // the discriminant is zero, and the direction still rounds to nothing.
    let d = v(0, -999_998, 0);
    let n = v(0, 1_000_000, 0);
    assert!(is_unit(d) && is_unit(n));
    assert_eq!(refract(&d, &n, &Scalar::from_raw(2_000)), Vector3f::zero());
}

#[test]
fn refract_into_a_denser_medium_is_never_zero() {
    for a in -8i64..=8 {
        let d = v(a * 120_000, -1_000_000 + a.abs() * 110_000, 30_000 * a).normalize();
        for ior in [1_000_000i64, 1_500_000, 64_000_001, 1_000_000_000, i64::MAX] {
            assert!(d.dot(up()).raw < 0);
            assert!(refract(&d, &up(), &Scalar::from_raw(ior)) != Vector3f::zero());
        }
    }
}
