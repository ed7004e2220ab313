use std::cell::{Cell, RefCell};

use hw_raytracer::{
    cast_ray, encode_ppm, framebuffer, quantize, render, trace, HitPayload, Light, Material,
    MaterialType, Object, Ray, Scalar, Scene, Vector2f, Vector3f,
};

fn s(raw: i64) -> Scalar {
    Scalar::from_raw(raw)
}

fn v(x: i64, y: i64, z: i64) -> Vector3f {
    Vector3f::new(s(x), s(y), s(z))
}

fn matte() -> Material {
    Material::new(MaterialType::DiffuseAndGlossy, s(800_000), s(200_000), 25, s(1_000_000))
}

fn mirror() -> Material {
    Material::new(MaterialType::Reflection, s(0), s(0), 0, s(1_500_000))
}

fn glass() -> Material {
    Material::new(MaterialType::ReflectionAndRefraction, s(0), s(0), 0, s(1_500_000))
}

/// The primitives of the tests.
enum Shape {
    /// Answers every ray alike.
    Fixed(Option<(Scalar, usize)>),
    /// The plane `z = at` with the normal `(0, 0, facing)`.
    Wall { at: Scalar, facing: Scalar, material: Material, color: Vector3f, shaded: Cell<usize> },
    /// A sphere.
    Sphere { center: Vector3f, radius: Scalar, material: Material, color: Vector3f },
    /// Misses every ray and keeps the rays it was asked about.
    Recorder(RefCell<Vec<Ray>>),
}

fn wall(at: i64, facing: i64, material: Material, color: Vector3f) -> Shape {
    Shape::Wall { at: s(at), facing: s(facing), material, color, shaded: Cell::new(0) }
}

impl Object for Shape {
    fn spec_intersect(&self, ray: Ray) -> Option<(Scalar, usize)> {
        self.intersect(&ray)
    }

    fn intersect(&self, ray: &Ray) -> Option<(Scalar, usize)> {
        match self {
            Shape::Fixed(answer) => *answer,
            Shape::Wall { at, .. } => {
                if ray.direction.z.raw == 0 {
                    return None;
                }
                let t = at.sub(ray.origin.z).div(ray.direction.z);
                if t.raw > 0 {
                    Some((t, 0))
                } else {
                    None
                }
            }
            Shape::Sphere { center, radius, .. } => {
                let l = ray.origin.sub(*center);
                let a = ray.direction.dot(ray.direction);
                let b = Scalar::from_int(2).mul(ray.direction.dot(l));
                let c = l.dot(l).sub(radius.mul(*radius));
                let disc = b.mul(b).sub(Scalar::from_int(4).mul(a).mul(c));
                if disc.raw < 0 {
                    return None;
                }
                let root = disc.sqrt();
                let two_a = Scalar::from_int(2).mul(a);
                let near = b.neg().sub(root).div(two_a);
                let far = b.neg().add(root).div(two_a);
                let t = if near.raw > 0 { near } else { far };
                if t.raw > 0 {
                    Some((t, 0))
                } else {
                    None
                }
            }
            Shape::Recorder(seen) => {
                seen.borrow_mut().push(*ray);
                None
            }
        }
    }

    fn spec_surface_properties(
        &self,
        point: Vector3f,
        direction: Vector3f,
        index: usize,
        uv: Vector2f,
    ) -> (Vector3f, Vector2f) {
        self.get_surface_properties(&point, &direction, &index, &uv)
    }

    fn get_surface_properties(
        &self,
        point: &Vector3f,
        _direction: &Vector3f,
        _index: &usize,
        _uv: &Vector2f,
    ) -> (Vector3f, Vector2f) {
        match self {
            Shape::Wall { facing, shaded, .. } => {
                shaded.set(shaded.get() + 1);
                (Vector3f::new(s(0), s(0), *facing), Vector2f::zero())
            }
            Shape::Sphere { center, .. } => (point.sub(*center).normalize(), Vector2f::zero()),
            _ => (v(0, 0, 1_000_000), Vector2f::zero()),
        }
    }

    fn spec_diffuse_color(&self, st: Vector2f) -> Vector3f {
        self.eval_diffuse_color(&st)
    }

    fn eval_diffuse_color(&self, _st: &Vector2f) -> Vector3f {
        match self {
            Shape::Wall { color, .. } => *color,
            Shape::Sphere { color, .. } => *color,
            _ => v(1_000_000, 1_000_000, 1_000_000),
        }
    }

    fn spec_material(&self) -> Material {
        self.material()
    }

    fn material(&self) -> Material {
        match self {
            Shape::Wall { material, .. } => *material,
            Shape::Sphere { material, .. } => *material,
            _ => matte(),
        }
    }
}

/// The header of a raw pixmap: the letter P, the digit of the raw colour
/// format, the size, and the greatest channel value.
fn header(width: usize, height: usize) -> Vec<u8> {
    let mut bytes = vec![b'P', b'6', b'\n'];
    bytes.extend_from_slice(format!("{} {}\n255\n", width, height).as_bytes());
    bytes
}

fn background() -> Vector3f {
    v(200_000, 400_000, 600_000)
}

fn scene_of(width: usize, height: usize, max_depth: i32, shapes: Vec<Shape>) -> Scene<Shape> {
    let mut scene =
        Scene::new(width, height, Scalar::from_int(90), background(), s(100), max_depth).unwrap();
    for shape in shapes {
        scene.add_object(shape);
    }
    scene
}

fn forward() -> Ray {
    Ray::new(Vector3f::zero(), v(0, 0, -1_000_000), Scalar::zero())
}

fn shaded(scene: &Scene<Shape>, index: usize) -> usize {
    match &scene.objects[index] {
        Shape::Wall { shaded, .. } => shaded.get(),
        _ => 0,
    }
}

// The nearest hit.

#[test]
fn trace_of_no_primitives_is_none() {
    let shapes: Vec<Shape> = Vec::new();
    assert_eq!(trace(&forward(), &shapes), None);
}

#[test]
fn trace_of_missing_primitives_is_none() {
    let shapes = vec![Shape::Fixed(None), Shape::Fixed(None)];
    assert_eq!(trace(&forward(), &shapes), None);
}

#[test]
fn trace_picks_the_smallest_distance() {
    let shapes = vec![
        Shape::Fixed(Some((s(7_000_000), 3))),
        Shape::Fixed(None),
        Shape::Fixed(Some((s(2_500_000), 9))),
        Shape::Fixed(Some((s(4_000_000), 1))),
    ];
    assert_eq!(
        trace(&forward(), &shapes),
        Some(HitPayload { t_near: s(2_500_000), index: 9, hit_obj: 2 })
    );
}

#[test]
fn trace_keeps_the_first_of_equal_distances() {
    let shapes = vec![
        Shape::Fixed(Some((s(5_000_000), 0))),
        Shape::Fixed(Some((s(3_000_000), 1))),
        Shape::Fixed(Some((s(3_000_000), 2))),
    ];
    assert_eq!(
        trace(&forward(), &shapes),
        Some(HitPayload { t_near: s(3_000_000), index: 1, hit_obj: 1 })
    );
}

#[test]
fn trace_passes_over_distances_that_are_not_positive() {
    let shapes = vec![
        Shape::Fixed(Some((s(0), 0))),
        Shape::Fixed(Some((s(-1_000_000), 1))),
        Shape::Fixed(Some((s(1), 2))),
    ];
    assert_eq!(trace(&forward(), &shapes), Some(HitPayload { t_near: s(1), index: 2, hit_obj: 2 }));
    let behind = vec![Shape::Fixed(Some((s(0), 0))), Shape::Fixed(Some((s(-5), 1)))];
    assert_eq!(trace(&forward(), &behind), None);
}

#[test]
fn trace_finds_a_wall_ahead() {
    let shapes = vec![wall(-5_000_000, 1_000_000, matte(), background())];
    assert_eq!(
        trace(&forward(), &shapes),
        Some(HitPayload { t_near: s(5_000_000), index: 0, hit_obj: 0 })
    );
}

// The colour of a ray.

#[test]
fn cast_ray_that_hits_nothing_returns_the_background() {
    let empty = scene_of(4, 4, 5, Vec::new());
    assert_eq!(cast_ray(&forward(), &empty, 0), background());
    let behind = scene_of(4, 4, 5, vec![wall(5_000_000, -1_000_000, matte(), background())]);
    assert_eq!(cast_ray(&forward(), &behind, 0), background());
    assert_eq!(cast_ray(&forward(), &behind, 5), background());
}

#[test]
fn cast_ray_beyond_the_depth_limit_returns_zero() {
    for material in [matte(), mirror(), glass()] {
        let scene = scene_of(4, 4, 5, vec![wall(-5_000_000, 1_000_000, material, background())]);
        assert_eq!(cast_ray(&forward(), &scene, 6), Vector3f::zero());
        assert_eq!(cast_ray(&forward(), &scene, i32::MAX), Vector3f::zero());
        assert_eq!(shaded(&scene, 0), 0);
    }
    let empty = scene_of(4, 4, 0, Vec::new());
    assert_eq!(cast_ray(&forward(), &empty, 1), Vector3f::zero());
    assert_eq!(cast_ray(&forward(), &empty, 0), background());
}

#[test]
fn cast_ray_on_a_lit_diffuse_wall() {
    let color = v(1_000_000, 500_000, 0);
    let mut scene = scene_of(4, 4, 5, vec![wall(-5_000_000, 1_000_000, matte(), color)]);
    scene.add_light(Light::new(Vector3f::zero(), v(500_000, 500_000, 500_000)));
    // Diffuse (0.5, 0.5, 0.5) * colour * 0.8, specular (0.5, 0.5, 0.5) * 0.2.
    assert_eq!(cast_ray(&forward(), &scene, 0), v(500_000, 300_000, 100_000));
}

#[test]
fn cast_ray_sums_over_the_lights() {
    let color = v(1_000_000, 500_000, 0);
    let mut scene = scene_of(4, 4, 5, vec![wall(-5_000_000, 1_000_000, matte(), color)]);
    scene.add_light(Light::new(Vector3f::zero(), v(500_000, 500_000, 500_000)));
    scene.add_light(Light::new(v(0, 0, -2_000_000), v(250_000, 0, 1_000_000)));
    assert_eq!(cast_ray(&forward(), &scene, 0), v(750_000, 300_000, 300_000));
}

#[test]
fn cast_ray_without_lights_is_black_on_a_diffuse_wall() {
    let scene = scene_of(4, 4, 5, vec![wall(-5_000_000, 1_000_000, matte(), background())]);
    assert_eq!(cast_ray(&forward(), &scene, 0), Vector3f::zero());
}

#[test]
fn cast_ray_takes_nothing_from_an_occluded_light() {
    let color = v(1_000_000, 500_000, 0);
    let mut scene = scene_of(4, 4, 5, vec![wall(-5_000_000, 1_000_000, matte(), color)]);
    // The light stands behind the wall that is shaded.
    scene.add_light(Light::new(v(0, 0, -10_000_000), v(500_000, 500_000, 500_000)));
    assert_eq!(cast_ray(&forward(), &scene, 0), Vector3f::zero());
}

#[test]
fn cast_ray_ignores_an_occluder_beyond_the_light() {
    let color = v(1_000_000, 500_000, 0);
    let mut scene = scene_of(
        4,
        4,
        5,
        vec![
            wall(-5_000_000, 1_000_000, matte(), color),
            wall(5_000_000, -1_000_000, matte(), color),
        ],
    );
    scene.add_light(Light::new(v(0, 0, -2_000_000), v(500_000, 500_000, 500_000)));
    assert_eq!(cast_ray(&forward(), &scene, 0), v(500_000, 300_000, 100_000));
}

#[test]
fn cast_ray_on_a_mirror_returns_the_reflection_times_the_reflectance() {
    let scene = scene_of(4, 4, 5, vec![wall(-5_000_000, 1_000_000, mirror(), background())]);
    // The reflectance of glass at normal incidence is 0.04.
    assert_eq!(cast_ray(&forward(), &scene, 0), v(8_000, 16_000, 24_000));
    assert_eq!(shaded(&scene, 0), 1);
}

#[test]
fn cast_ray_on_a_mirror_at_the_depth_limit_sees_nothing() {
    let scene = scene_of(4, 4, 5, vec![wall(-5_000_000, 1_000_000, mirror(), background())]);
    assert_eq!(cast_ray(&forward(), &scene, 5), Vector3f::zero());
}

#[test]
fn cast_ray_through_glass_blends_reflection_and_refraction() {
    let scene = scene_of(4, 4, 5, vec![wall(-5_000_000, 1_000_000, glass(), background())]);
    // Both secondary rays see the background: 0.04 of it and 0.96 of it.
    assert_eq!(cast_ray(&forward(), &scene, 0), background());
    // At the depth limit both secondary rays return zero.
    assert_eq!(cast_ray(&forward(), &scene, 5), Vector3f::zero());
}

#[test]
fn cast_ray_under_total_internal_reflection_casts_no_refracted_ray() {
    let scene = scene_of(4, 4, 5, vec![wall(5_000_000, 1_000_000, glass(), background())]);
    let ray = Ray::new(Vector3f::zero(), v(800_000, 0, 600_000), Scalar::zero());
    assert_eq!(cast_ray(&ray, &scene, 0), background());
    assert_eq!(shaded(&scene, 0), 1);
}

#[test]
fn cast_ray_next_to_the_critical_angle_loses_no_light() {
    // Index 1.999999 and the sine 1/2: no refracted ray, by two millionths.
    let dense = Material::new(MaterialType::ReflectionAndRefraction, s(0), s(0), 0, s(1_999_999));
    let white = v(1_000_000, 1_000_000, 1_000_000);
    let mut scene: Scene<Shape> =
        Scene::new(4, 4, Scalar::from_int(90), white, s(100), 5).unwrap();
    scene.add_object(wall(5_000_000, 1_000_000, dense, white));
    let ray = Ray::new(Vector3f::zero(), v(500_000, 0, 866_025), Scalar::zero());
    assert_eq!(cast_ray(&ray, &scene, 0), white);
    assert_eq!(cast_ray(&ray, &scene, 4), white);
    assert_eq!(cast_ray(&ray, &scene, 5), Vector3f::zero());
}

#[test]
fn cast_ray_between_facing_mirrors_stops_at_the_depth_limit() {
    for max_depth in [0, 1, 5, 12] {
        let scene = scene_of(
            4,
            4,
            max_depth,
            vec![
                wall(-5_000_000, 1_000_000, mirror(), background()),
                wall(5_000_000, -1_000_000, mirror(), background()),
            ],
        );
        assert_eq!(cast_ray(&forward(), &scene, 0), Vector3f::zero());
        assert_eq!(shaded(&scene, 0) + shaded(&scene, 1), max_depth as usize + 1);
    }
}

#[test]
fn cast_ray_between_facing_mirror_spheres_terminates() {
    let sphere = |z: i64| Shape::Sphere {
        center: v(0, 0, z),
        radius: s(1_000_000),
        material: mirror(),
        color: background(),
    };
    let scene = scene_of(4, 4, 5, vec![sphere(-3_000_000), sphere(3_000_000)]);
    assert_eq!(cast_ray(&forward(), &scene, 0), Vector3f::zero());
    let aside = Ray::new(Vector3f::zero(), v(100_000, 0, -1_000_000).normalize(), Scalar::zero());
    let seen = cast_ray(&aside, &scene, 0);
    assert!(seen.x.raw >= 0 && seen.x.raw <= 200_000);
}

#[test]
fn cast_ray_on_a_mirror_sphere_shows_the_background() {
    let scene = scene_of(
        4,
        4,
        5,
        vec![Shape::Sphere {
            center: v(0, 0, -5_000_000),
            radius: s(1_000_000),
            material: mirror(),
            color: Vector3f::zero(),
        }],
    );
    assert_eq!(cast_ray(&forward(), &scene, 0), v(8_000, 16_000, 24_000));
}

#[test]
fn cast_ray_on_a_diffuse_sphere_is_brightest_at_the_apex() {
    let mut scene = scene_of(
        4,
        4,
        5,
        vec![Shape::Sphere {
            center: v(0, 0, -5_000_000),
            radius: s(1_000_000),
            material: Material::new(
                MaterialType::DiffuseAndGlossy,
                s(1_000_000),
                s(0),
                25,
                s(1_000_000),
            ),
            color: v(1_000_000, 1_000_000, 1_000_000),
        }],
    );
    scene.add_light(Light::new(Vector3f::zero(), v(1_000_000, 1_000_000, 1_000_000)));
    let center = cast_ray(&forward(), &scene, 0);
    let grazing = cast_ray(
        &Ray::new(Vector3f::zero(), v(200_000, 0, -1_000_000).normalize(), Scalar::zero()),
        &scene,
        0,
    );
    assert_eq!(center, v(1_000_000, 1_000_000, 1_000_000));
    assert!(grazing.x.raw > 0);
    assert!(center.x.raw > grazing.x.raw);
    assert!(center.y.raw > grazing.y.raw);
    assert!(center.z.raw > grazing.z.raw);
}

// The frame.

#[test]
fn quantize_maps_one_to_255_and_zero_to_0() {
    assert_eq!(quantize(Scalar::one()), 255);
    assert_eq!(quantize(Scalar::zero()), 0);
}

#[test]
fn quantize_clamps_before_it_scales() {
    assert_eq!(quantize(s(1_000_001)), 255);
    assert_eq!(quantize(s(1_500_000)), 255);
    assert_eq!(quantize(s(i64::MAX)), 255);
    assert_eq!(quantize(s(-1)), 0);
    assert_eq!(quantize(s(-500_000)), 0);
    assert_eq!(quantize(s(i64::MIN)), 0);
}

#[test]
fn quantize_rounds_down() {
    assert_eq!(quantize(s(500_000)), 127);
    assert_eq!(quantize(s(999_999)), 254);
    assert_eq!(quantize(s(3_921)), 0);
    assert_eq!(quantize(s(3_922)), 1);
    assert_eq!(quantize(s(200_000)), 51);
}

#[test]
fn encode_ppm_writes_header_and_three_bytes_per_pixel() {
    let pixels = vec![
        v(1_000_000, 0, 500_000),
        v(2_000_000, -1_000_000, 200_000),
        v(0, 0, 0),
        v(999_999, 3_922, 400_000),
        v(1, 2, 3),
        v(600_000, 600_000, 600_000),
    ];
    let image = encode_ppm(3, 2, &pixels);
    let mut expected = header(3, 2);
    expected.extend_from_slice(&[
        255, 0, 127, 255, 0, 51, 0, 0, 0, 254, 1, 102, 0, 0, 0, 153, 153, 153,
    ]);
    assert_eq!(image, expected);
}

#[test]
fn encode_ppm_writes_sizes_in_decimal() {
    let pixels = vec![Vector3f::zero(); 1200];
    let image = encode_ppm(120, 10, &pixels);
    assert_eq!(&image[..14], header(120, 10).as_slice());
    assert_eq!(image.len(), 14 + 3600);
    let column = encode_ppm(1, 1200, &pixels);
    assert_eq!(&column[..14], header(1, 1200).as_slice());
    let nothing = encode_ppm(0, 7, &Vec::new());
    assert_eq!(nothing, header(0, 7));
}

#[test]
fn render_of_an_empty_black_scene_is_all_black() {
    let scene: Scene<Shape> =
        Scene::new(4, 3, Scalar::from_int(90), Vector3f::zero(), s(100), 5).unwrap();
    let image = render(&scene);
    assert_eq!(&image[..11], [80u8, 54, 10, 52, 32, 51, 10, 50, 53, 53, 10].as_slice());
    let mut expected = header(4, 3);
    expected.extend_from_slice(&[0u8; 36]);
    assert_eq!(image, expected);
}

#[test]
fn render_of_an_empty_scene_repeats_the_background() {
    let scene = scene_of(5, 2, 5, Vec::new());
    let image = render(&scene);
    assert_eq!(&image[..11], header(5, 2).as_slice());
    assert_eq!(image.len(), 11 + 30);
    for pixel in image[11..].chunks(3) {
        assert_eq!(pixel, [51u8, 102, 153].as_slice());
    }
    assert_eq!(framebuffer(&scene), vec![background(); 10]);
}

fn lit_sphere_scene(width: usize, height: usize) -> Scene<Shape> {
    let mut scene = scene_of(
        width,
        height,
        5,
        vec![
            Shape::Sphere {
                center: v(0, 0, -4_000_000),
                radius: s(1_500_000),
                material: matte(),
                color: v(900_000, 300_000, 100_000),
            },
            Shape::Sphere {
                center: v(1_500_000, 500_000, -3_000_000),
                radius: s(500_000),
                material: glass(),
                color: Vector3f::zero(),
            },
            wall(-8_000_000, 1_000_000, mirror(), background()),
        ],
    );
    scene.add_light(Light::new(v(-3_000_000, 4_000_000, 0), v(700_000, 700_000, 700_000)));
    scene.add_light(Light::new(v(2_000_000, 1_000_000, 1_000_000), v(300_000, 300_000, 300_000)));
    scene
}

#[test]
fn render_twice_gives_the_same_bytes() {
    let scene = lit_sphere_scene(16, 12);
    let first = render(&scene);
    let second = render(&scene);
    assert_eq!(first, second);
    assert_eq!(first.len(), header(16, 12).len() + 16 * 12 * 3);
    assert_eq!(render(&lit_sphere_scene(16, 12)), first);
    assert!(first[13..].iter().any(|&byte| byte != first[13]));
}

#[test]
fn render_shows_a_lit_sphere_brighter_at_its_centre_than_at_its_rim() {
    let mut scene = scene_of(
        9,
        9,
        5,
        vec![Shape::Sphere {
            center: v(0, 0, -3_000_000),
            radius: s(2_000_000),
            material: Material::new(
                MaterialType::DiffuseAndGlossy,
                s(1_000_000),
                s(0),
                25,
                s(1_000_000),
            ),
            color: v(1_000_000, 1_000_000, 1_000_000),
        }],
    );
    scene.add_light(Light::new(Vector3f::zero(), v(1_000_000, 1_000_000, 1_000_000)));
    let pixels = framebuffer(&scene);
    // The ray of column 4 in row 5 runs along the axis of the camera.
    let center = pixels[5 * 9 + 4];
    let rim = pixels[5 * 9 + 7];
    assert_eq!(center, v(1_000_000, 1_000_000, 1_000_000));
    assert!(rim != background());
    assert!(rim.x.raw > 0 && rim.x.raw < center.x.raw);
    assert_eq!(pixels[0], background());
}

#[test]
fn render_casts_primary_rays_row_by_row_from_the_top() {
    let scene = scene_of(2, 2, 5, vec![Shape::Recorder(RefCell::new(Vec::new()))]);
    let pixels = framebuffer(&scene);
    assert_eq!(pixels, vec![background(); 4]);
    let seen = match &scene.objects[0] {
        Shape::Recorder(seen) => seen.borrow().clone(),
        _ => unreachable!(),
    };
    let directions: Vec<Vector3f> = seen.iter().map(|ray| ray.direction).collect();
    assert_eq!(
        directions,
        vec![
            v(-267_261, 801_784, -534_522),
            v(267_261, 801_784, -534_522),
            v(-408_248, 408_248, -816_497),
            v(408_248, 408_248, -816_497),
        ]
    );
    assert!(seen.iter().all(|ray| ray.origin == Vector3f::zero() && ray.t == Scalar::zero()));
}

#[test]
fn render_casts_unit_rays_that_point_away_from_the_eye() {
    for (width, height, fov) in [(7usize, 5usize, 150i64), (64, 1, 120), (1, 9, 90), (3, 3, 1)] {
        let mut scene: Scene<Shape> =
            Scene::new(width, height, Scalar::from_int(fov), background(), s(100), 5).unwrap();
        scene.add_object(Shape::Recorder(RefCell::new(Vec::new())));
        framebuffer(&scene);
        let seen = match &scene.objects[0] {
            Shape::Recorder(seen) => seen.borrow().clone(),
            _ => unreachable!(),
        };
        assert_eq!(seen.len(), width * height);
        for ray in seen {
            let (x, y, z) = (
                ray.direction.x.raw as i128,
                ray.direction.y.raw as i128,
                ray.direction.z.raw as i128,
            );
            assert!((x * x + y * y + z * z - 1_000_000_000_000).abs() <= 16_000_000);
            assert!(z < 0);
        }
    }
}

#[test]
fn cast_ray_under_one_light_is_intensity_times_cosine_times_colour_times_kd() {
    let dull = Material::new(MaterialType::DiffuseAndGlossy, s(700_000), s(0), 25, s(1_000_000));
    let colour = v(900_000, 500_000, 100_000);
    let intensity = v(800_000, 600_000, 1_000_000);
    let mut scene = scene_of(4, 4, 5, vec![wall(-5_000_000, 1_000_000, dull, colour)]);
    scene.add_light(Light::new(v(3_000_000, 0, -1_000_000), intensity));
    // The light stands three to the side and four above the hit: cosine 0.8.
    let cosine = v(3_000_000, 0, 4_000_000).normalize().dot(v(0, 0, 1_000_000));
    assert_eq!(cosine, s(800_000));
    let lit = |i: Scalar, c: Scalar| i.mul(Scalar::zero().max(cosine)).mul(c).mul(s(700_000));
    let expected = Vector3f::new(
        lit(intensity.x, colour.x),
        lit(intensity.y, colour.y),
        lit(intensity.z, colour.z),
    );
    assert_eq!(expected, v(403_200, 168_000, 56_000));
    assert_eq!(cast_ray(&forward(), &scene, 0), expected);
}

#[test]
fn brightness_grows_with_the_cosine() {
    let (intensity, colour, kd) = (s(900_000), s(650_000), s(800_000));
    let lit = |cosine: i64| intensity.mul(Scalar::zero().max(s(cosine))).mul(colour).mul(kd).raw;
    let mut before = lit(-200_000);
    for cosine in (-200_000..=1_000_000).step_by(7) {
        let now = lit(cosine);
        assert!(now >= before);
        // Seven millionths of cosine are worth more than three in the product.
        if cosine >= 7 {
            assert!(now > before);
        }
        before = now;
    }
    assert_eq!(lit(-1), 0);
    assert_eq!(lit(1_000_000), 468_000);
}

#[test]
fn quantize_keeps_the_order() {
    let mut before = quantize(s(-50_000));
    for value in (-50_000..=1_050_000).step_by(3_922) {
        let now = quantize(s(value));
        assert!(now >= before);
        if value >= 3_922 && value <= 1_000_000 {
            assert!(now > before);
        }
        before = now;
    }
    assert_eq!(before, 255);
}
