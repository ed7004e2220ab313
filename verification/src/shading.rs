//! The colour that arrives along a ray: local illumination, and the
//! recursion through mirrors and dielectrics.

use vstd::prelude::*;
use crate::light::Light;
use crate::material::{Material, MaterialType};
use crate::object::Object;
use crate::optics::{
    fresnel, reflect, refract, spec_fresnel, spec_reflect, spec_refract, total_internal_reflection,
};
use crate::ray::Ray;
use crate::scalar::{
    lemma_mul_is_monotone, lemma_mul_remainder, lemma_product_bounded, lemma_times_one, Scalar, SCALE,
};
use crate::scene::Scene;
use crate::trace::{is_hit, spec_trace, trace};
use crate::vector::{Vector2f, Vector3f};

verus! {

/// Where a reflected or refracted ray starts: the hit point moved by
/// `epsilon` along the normal, to the side that the new ray leaves on.
pub open spec fn secondary_origin(
    point: Vector3f,
    direction: Vector3f,
    normal: Vector3f,
    epsilon: Scalar,
) -> Vector3f {
    if direction.dot(normal)@ < 0 {
        point.sub(normal.scale(epsilon))
    } else {
        point.add(normal.scale(epsilon))
    }
}

/// The secondary ray that leaves `point` along `direction`.
pub open spec fn secondary_ray(
    point: Vector3f,
    direction: Vector3f,
    normal: Vector3f,
    epsilon: Scalar,
) -> Ray {
    Ray {
        origin: secondary_origin(point, direction, normal, epsilon),
        direction,
        t: Scalar::spec_zero(),
    }
}

/// Where the shadow rays of a hit start: the hit point moved by `epsilon`
/// along the normal, to the side that the ray `incoming` arrived on.
pub open spec fn shadow_origin(
    point: Vector3f,
    incoming: Vector3f,
    normal: Vector3f,
    epsilon: Scalar,
) -> Vector3f {
    if normal.dot(incoming)@ < 0 {
        point.add(normal.scale(epsilon))
    } else {
        point.sub(normal.scale(epsilon))
    }
}

/// The unit direction from `point` to the light.
pub open spec fn light_direction(light: Light, point: Vector3f) -> Vector3f {
    light.position.sub(point).normalize()
}

/// Something stands between `point` and the light: the shadow ray from
/// `origin` hits a primitive strictly nearer than the light. The distances
/// are compared by their squares.
pub open spec fn light_occluded<O: Object>(
    objects: Seq<O>,
    origin: Vector3f,
    point: Vector3f,
    light: Light,
) -> bool {
    let to_light = light.position.sub(point);
    let shadow_ray = Ray {
        origin,
        direction: light_direction(light, point),
        t: Scalar::spec_zero(),
    };
    match spec_trace(shadow_ray, objects) {
        Some(hit) => hit.t_near.mul(hit.t_near)@ < to_light.dot(to_light)@,
        None => false,
    }
}

/// What an unoccluded light adds to the diffuse sum:
/// `intensity * max(0, l . n)`.
pub open spec fn diffuse_term(light: Light, point: Vector3f, normal: Vector3f) -> Vector3f {
    light.intensity.scale(Scalar::spec_zero().max(light_direction(light, point).dot(normal)))
}

/// What an unoccluded light adds to the specular sum:
/// `max(0, -(reflect(-l, n) . d))^shininess * intensity`.
pub open spec fn specular_term(
    light: Light,
    point: Vector3f,
    normal: Vector3f,
    incoming: Vector3f,
    exponent: u32,
) -> Vector3f {
    let mirrored = spec_reflect(light_direction(light, point).neg(), normal);
    light.intensity.scale(Scalar::spec_zero().max(mirrored.dot(incoming).neg()).powi(exponent))
}

/// The two sums of the local illumination.
pub struct LightSums {
    pub diffuse: Vector3f,
    pub specular: Vector3f,
}

/// The diffuse and specular sums over the first `k` lights. An occluded
/// light adds nothing to either.
pub open spec fn light_sums<O: Object>(
    objects: Seq<O>,
    lights: Seq<Light>,
    k: nat,
    origin: Vector3f,
    point: Vector3f,
    normal: Vector3f,
    incoming: Vector3f,
    exponent: u32,
) -> LightSums
    decreases k,
{
    if k == 0 {
        LightSums { diffuse: Vector3f::spec_zero(), specular: Vector3f::spec_zero() }
    } else {
        let before = light_sums(
            objects,
            lights,
            (k - 1) as nat,
            origin,
            point,
            normal,
            incoming,
            exponent,
        );
        let light = lights[k - 1];
        if light_occluded(objects, origin, point, light) {
            before
        } else {
            LightSums {
                diffuse: before.diffuse.add(diffuse_term(light, point, normal)),
                specular: before.specular.add(
                    specular_term(light, point, normal, incoming, exponent),
                ),
            }
        }
    }
}

/// The colour of a diffuse and glossy surface under the lights of the
/// scene: `(diffuse sum (*) surface colour) * kd + specular sum * ks`.
pub open spec fn local_color<O: Object>(
    scene: Scene<O>,
    incoming: Vector3f,
    point: Vector3f,
    normal: Vector3f,
    surface_color: Vector3f,
    material: Material,
) -> Vector3f {
    let sums = light_sums(
        scene.objects@,
        scene.lights@,
        scene.lights@.len(),
        shadow_origin(point, incoming, normal, scene.epsilon),
        point,
        normal,
        incoming,
        material.specular_exponent,
    );
    sums.diffuse.wise_product(surface_color).scale(material.kd).add(
        sums.specular.scale(material.ks),
    )
}

/// The colour that arrives along `ray` at recursion depth `depth`.
///
/// Beyond the depth limit it is zero. A ray that hits nothing sees the
/// background. Otherwise the material of the nearest hit decides: a
/// dielectric blends the colours of the reflected and the refracted ray by the
/// Fresnel reflectance `kr` (a refracted direction of zero length casts no
/// ray and adds nothing), a mirror returns the reflected colour times `kr`,
/// and a diffuse surface its local illumination. Secondary rays are cast one
/// level deeper.
pub open spec fn spec_cast_ray<O: Object>(ray: Ray, scene: Scene<O>, depth: int) -> Vector3f
    decreases scene.max_depth - depth + 1,
{
    if depth > scene.max_depth {
        Vector3f::spec_zero()
    } else {
        match spec_trace(ray, scene.objects@) {
            None => scene.background_color,
            Some(hit) => {
                let object = scene.objects@[hit.hit_obj as int];
                let point = ray.at(hit.t_near);
                let surface = object.spec_surface_properties(
                    point,
                    ray.direction,
                    hit.index,
                    Vector2f::spec_zero(),
                );
                let normal = surface.0;
                let material = object.spec_material();
                match material.kind {
                    MaterialType::ReflectionAndRefraction => {
                        let kr = spec_fresnel(ray.direction, normal, material.ior);
                        let mirrored = spec_reflect(ray.direction, normal).normalize();
                        let reflection = spec_cast_ray(
                            secondary_ray(point, mirrored, normal, scene.epsilon),
                            scene,
                            depth + 1,
                        );
                        let bent = spec_refract(ray.direction, normal, material.ior).normalize();
                        let refraction = if bent == Vector3f::spec_zero() {
                            Vector3f::spec_zero()
                        } else {
                            spec_cast_ray(
                                secondary_ray(point, bent, normal, scene.epsilon),
                                scene,
                                depth + 1,
                            )
                        };
                        reflection.scale(kr).add(refraction.scale(Scalar::spec_one().sub(kr)))
                    },
                    MaterialType::Reflection => {
                        let kr = spec_fresnel(ray.direction, normal, material.ior);
                        let mirrored = spec_reflect(ray.direction, normal).normalize();
                        spec_cast_ray(
                            secondary_ray(point, mirrored, normal, scene.epsilon),
                            scene,
                            depth + 1,
                        ).scale(kr)
                    },
                    MaterialType::DiffuseAndGlossy => local_color(
                        scene,
                        ray.direction,
                        point,
                        normal,
                        object.spec_diffuse_color(surface.1),
                        material,
                    ),
                }
            },
        }
    }
}

/// The nearest hit of `ray` is on a dielectric that reflects the ray
/// totally: there is no refracted ray.
pub open spec fn reflects_totally<O: Object>(ray: Ray, scene: Scene<O>) -> bool {
    match spec_trace(ray, scene.objects@) {
        None => false,
        Some(hit) => {
            let object = scene.objects@[hit.hit_obj as int];
            let surface = object.spec_surface_properties(
                ray.at(hit.t_near),
                ray.direction,
                hit.index,
                Vector2f::spec_zero(),
            );
            let material = object.spec_material();
            material.kind == MaterialType::ReflectionAndRefraction && total_internal_reflection(
                ray.direction,
                surface.0,
                material.ior,
            )
        },
    }
}

/// The ray that the nearest hit of `ray` reflects (where `ray` hits
/// anything).
pub open spec fn reflected_ray<O: Object>(ray: Ray, scene: Scene<O>) -> Ray {
    match spec_trace(ray, scene.objects@) {
        None => ray,
        Some(hit) => {
            let object = scene.objects@[hit.hit_obj as int];
            let point = ray.at(hit.t_near);
            let surface = object.spec_surface_properties(
                point,
                ray.direction,
                hit.index,
                Vector2f::spec_zero(),
            );
            secondary_ray(
                point,
                spec_reflect(ray.direction, surface.0).normalize(),
                surface.0,
                scene.epsilon,
            )
        },
    }
}

/// One channel of the colour of a diffuse surface under one unoccluded
/// light: `intensity * max(0, cosine) * colour * kd`, where `cosine` is the
/// inner product of the direction to the light and the normal.
pub open spec fn lit_channel(intensity: Scalar, cosine: Scalar, colour: Scalar, kd: Scalar) -> Scalar {
    intensity.mul(Scalar::spec_zero().max(cosine)).mul(colour).mul(kd)
}

/// What three rounded products of numbers that are not negative lose: less
/// than three millionths, where the second and third factor are at most one.
proof fn lemma_three_products(i: Scalar, a: Scalar, c: Scalar, kd: Scalar) -> (exact: int)
    requires
        0 <= i@ <= 1_000_000_000_000,
        0 <= a@ <= SCALE,
        0 <= c@ <= SCALE,
        0 <= kd@ <= SCALE,
    ensures
        exact == ((i@ * a@) * c@) * kd@,
        exact - 3_000_000_000_000_000_000 < 1_000_000_000_000_000_000 * i.mul(a).mul(c).mul(kd)@
            <= exact,
{
    let s: int = 1_000_000;
    lemma_product_bounded(i@, a@, 1_000_000_000_000, 1_000_000);
    let r1 = lemma_mul_remainder(i, a);
    let m1 = i.mul(a);
    let pa = i@ * a@;
    assert(pa >= 0) by (nonlinear_arith)
        requires
            pa == i@ * a@,
            i@ >= 0,
            a@ >= 0,
    ;
    assert(0 <= r1 < s && 0 <= m1@ <= 1_000_000_000_000);
    lemma_product_bounded(m1@, c@, 1_000_000_000_000, 1_000_000);
    let r2 = lemma_mul_remainder(m1, c);
    let m2 = m1.mul(c);
    let qa = m1@ * c@;
    assert(qa >= 0) by (nonlinear_arith)
        requires
            qa == m1@ * c@,
            m1@ >= 0,
            c@ >= 0,
    ;
    assert(0 <= r2 < s && 0 <= m2@ <= 1_000_000_000_000);
    lemma_product_bounded(m2@, kd@, 1_000_000_000_000, 1_000_000);
    let r3 = lemma_mul_remainder(m2, kd);
    let m3 = m2.mul(kd);
    let ta = m2@ * kd@;
    assert(ta >= 0) by (nonlinear_arith)
        requires
            ta == m2@ * kd@,
            m2@ >= 0,
            kd@ >= 0,
    ;
    assert(0 <= r3 < s);
    // s qa = pa c - r1 c
    assert(s * qa == pa * c@ - r1 * c@) by (nonlinear_arith)
        requires
            qa == m1@ * c@,
            s * m1@ == pa - r1,
    ;
    // s^2 ta = (pa c) kd - (r1 c) kd - s (r2 kd)
    assert(s * s * ta == (pa * c@) * kd@ - (r1 * c@) * kd@ - s * (r2 * kd@)) by (nonlinear_arith)
        requires
            ta == m2@ * kd@,
            s * m2@ == qa - r2,
            s * qa == pa * c@ - r1 * c@,
    ;
    lemma_product_bounded(r1, c@, 1_000_000, 1_000_000);
    lemma_product_bounded(r1 * c@, kd@, 1_000_000_000_000, 1_000_000);
    lemma_product_bounded(r2, kd@, 1_000_000, 1_000_000);
    assert(r1 * c@ >= 0 && r2 * kd@ >= 0) by (nonlinear_arith)
        requires
            r1 >= 0,
            r2 >= 0,
            c@ >= 0,
            kd@ >= 0,
    ;
    assert((r1 * c@) * kd@ >= 0) by (nonlinear_arith)
        requires
            r1 * c@ >= 0,
            kd@ >= 0,
    ;
    assert((r1 * c@) * kd@ < 1_000_000_000_000_000_000) by (nonlinear_arith)
        requires
            0 <= r1 < 1_000_000,
            0 <= c@ <= 1_000_000,
            0 <= kd@ <= 1_000_000,
    ;
    assert(s * (s * (s * m3@)) == s * s * ta - s * s * r3) by (nonlinear_arith)
        requires
            s * m3@ == ta - r3,
    ;
    (pa * c@) * kd@
}

/// Brightness grows with the cosine between the light and the normal: of
/// two points of one surface under one light, the one that faces the light
/// more is at least as bright; and it is strictly brighter where the exact
/// products differ by three millionths or more.
pub proof fn lemma_brightness_grows_with_the_cosine(
    intensity: Scalar,
    colour: Scalar,
    kd: Scalar,
    a: Scalar,
    b: Scalar,
)
    requires
        intensity@ >= 0,
        colour@ >= 0,
        kd@ >= 0,
        a@ >= b@,
    ensures
        lit_channel(intensity, a, colour, kd)@ >= lit_channel(intensity, b, colour, kd)@,
        intensity@ <= 1_000_000_000_000 && colour@ <= SCALE && kd@ <= SCALE && 0 <= b@ && a@ <= SCALE
            && ((intensity@ * (a@ - b@)) * colour@) * kd@ >= 3_000_000_000_000_000_000
            ==> lit_channel(intensity, a, colour, kd)@ > lit_channel(intensity, b, colour, kd)@,
{
    let zero = Scalar::spec_zero();
    let (ca, cb) = (zero.max(a), zero.max(b));
    lemma_mul_is_monotone(ca, cb, intensity);
    assert(intensity.mul(ca)@ >= intensity.mul(cb)@) by {
        assert(intensity@ * ca@ == ca@ * intensity@ && intensity@ * cb@ == cb@ * intensity@)
            by (nonlinear_arith);
    }
    lemma_mul_is_monotone(intensity.mul(ca), intensity.mul(cb), colour);
    lemma_mul_is_monotone(intensity.mul(ca).mul(colour), intensity.mul(cb).mul(colour), kd);
    if intensity@ <= 1_000_000_000_000 && colour@ <= SCALE && kd@ <= SCALE && 0 <= b@ && a@ <= SCALE
        && ((intensity@ * (a@ - b@)) * colour@) * kd@ >= 3_000_000_000_000_000_000 {
        let exact_a = lemma_three_products(intensity, a, colour, kd);
        let exact_b = lemma_three_products(intensity, b, colour, kd);
        assert(exact_a - exact_b == ((intensity@ * (a@ - b@)) * colour@) * kd@) by (nonlinear_arith)
            requires
                exact_a == ((intensity@ * a@) * colour@) * kd@,
                exact_b == ((intensity@ * b@) * colour@) * kd@,
        ;
    }
}

/// The nearest hit of `ray` is on a diffuse surface without gloss, and the
/// scene has one light, which nothing hides from the hit.
pub open spec fn lit_by_one_light<O: Object>(ray: Ray, scene: Scene<O>) -> bool {
    scene.lights@.len() == 1 && match spec_trace(ray, scene.objects@) {
        None => false,
        Some(hit) => {
            let object = scene.objects@[hit.hit_obj as int];
            let point = ray.at(hit.t_near);
            let surface = object.spec_surface_properties(
                point,
                ray.direction,
                hit.index,
                Vector2f::spec_zero(),
            );
            let material = object.spec_material();
            &&& material.kind == MaterialType::DiffuseAndGlossy
            &&& material.ks == Scalar::spec_zero()
            &&& !light_occluded(
                scene.objects@,
                shadow_origin(point, ray.direction, surface.0, scene.epsilon),
                point,
                scene.lights@[0],
            )
        },
    }
}

/// The cosine between the light and the normal at the nearest hit of `ray`.
pub open spec fn hit_cosine<O: Object>(ray: Ray, scene: Scene<O>) -> Scalar {
    match spec_trace(ray, scene.objects@) {
        None => Scalar::spec_zero(),
        Some(hit) => {
            let object = scene.objects@[hit.hit_obj as int];
            let point = ray.at(hit.t_near);
            let surface = object.spec_surface_properties(
                point,
                ray.direction,
                hit.index,
                Vector2f::spec_zero(),
            );
            light_direction(scene.lights@[0], point).dot(surface.0)
        },
    }
}

/// The colour of the surface at the nearest hit of `ray`, and its diffuse
/// coefficient.
pub open spec fn hit_surface<O: Object>(ray: Ray, scene: Scene<O>) -> (Vector3f, Scalar) {
    match spec_trace(ray, scene.objects@) {
        None => (Vector3f::spec_zero(), Scalar::spec_zero()),
        Some(hit) => {
            let object = scene.objects@[hit.hit_obj as int];
            let surface = object.spec_surface_properties(
                ray.at(hit.t_near),
                ray.direction,
                hit.index,
                Vector2f::spec_zero(),
            );
            (object.spec_diffuse_color(surface.1), object.spec_material().kd)
        },
    }
}

/// Under one unoccluded light a diffuse surface without gloss has, in every
/// channel, the colour `intensity * max(0, cosine) * colour * kd`.
pub proof fn lemma_one_light_colour<O: Object>(ray: Ray, scene: Scene<O>, depth: int)
    requires
        depth <= scene.max_depth,
        lit_by_one_light(ray, scene),
    ensures
        ({
            let light = scene.lights@[0];
            let cosine = hit_cosine(ray, scene);
            let surface = hit_surface(ray, scene);
            spec_cast_ray(ray, scene, depth) == (Vector3f {
                x: lit_channel(light.intensity.x, cosine, surface.0.x, surface.1),
                y: lit_channel(light.intensity.y, cosine, surface.0.y, surface.1),
                z: lit_channel(light.intensity.z, cosine, surface.0.z, surface.1),
            })
        }),
{
    reveal_with_fuel(light_sums, 2);
    let hit = spec_trace(ray, scene.objects@)->0;
    let object = scene.objects@[hit.hit_obj as int];
    let point = ray.at(hit.t_near);
    let surface = object.spec_surface_properties(
        point,
        ray.direction,
        hit.index,
        Vector2f::spec_zero(),
    );
    let material = object.spec_material();
    let light = scene.lights@[0];
    let origin = shadow_origin(point, ray.direction, surface.0, scene.epsilon);
    let sums = light_sums(
        scene.objects@,
        scene.lights@,
        1,
        origin,
        point,
        surface.0,
        ray.direction,
        material.specular_exponent,
    );
    assert(sums.diffuse == diffuse_term(light, point, surface.0));
    lemma_times_one(sums.specular.x);
    lemma_times_one(sums.specular.y);
    lemma_times_one(sums.specular.z);
    assert(sums.specular.scale(material.ks) == Vector3f::spec_zero());
}

/// Scaling by one changes nothing, and the zero vector scaled is zero.
proof fn lemma_scale_by_one(v: Vector3f, k: Scalar)
    ensures
        v.scale(Scalar::spec_one()) == v,
        Vector3f::spec_zero().scale(k) == Vector3f::spec_zero(),
        v.add(Vector3f::spec_zero()) == v,
{
    lemma_times_one(v.x);
    lemma_times_one(v.y);
    lemma_times_one(v.z);
    lemma_times_one(k);
}

/// Total internal reflection loses no light: where the nearest hit is on a
/// dielectric and no refracted ray exists, the colour of the ray is exactly
/// the colour of the reflected ray, cast one level deeper. The reflectance is
/// one, and no refracted ray is cast.
pub proof fn lemma_total_reflection_keeps_the_light<O: Object>(ray: Ray, scene: Scene<O>, depth: int)
    requires
        depth <= scene.max_depth,
        reflects_totally(ray, scene),
    ensures
        spec_cast_ray(ray, scene, depth) == spec_cast_ray(reflected_ray(ray, scene), scene, depth + 1),
{
    let reflection = spec_cast_ray(reflected_ray(ray, scene), scene, depth + 1);
    lemma_scale_by_one(reflection, Scalar::spec_one().sub(Scalar::spec_one()));
}

fn make_secondary_ray(point: &Vector3f, direction: Vector3f, normal: &Vector3f, epsilon: Scalar) -> (r:
    Ray)
    ensures
        r == secondary_ray(*point, direction, *normal, epsilon),
{
    let origin = if direction.dot(*normal).raw < 0 {
        point.sub(normal.scale(epsilon))
    } else {
        point.add(normal.scale(epsilon))
    };
    Ray::new(origin, direction, Scalar::zero())
}

fn local_illumination<O: Object>(
    scene: &Scene<O>,
    incoming: &Vector3f,
    point: &Vector3f,
    normal: &Vector3f,
    surface_color: Vector3f,
    material: &Material,
) -> (r: Vector3f)
    ensures
        r == local_color(*scene, *incoming, *point, *normal, surface_color, *material),
{
    let origin = if normal.dot(*incoming).raw < 0 {
        point.add(normal.scale(scene.epsilon))
    } else {
        point.sub(normal.scale(scene.epsilon))
    };
    let mut diffuse = Vector3f::zero();
    let mut specular = Vector3f::zero();
    let mut k: usize = 0;
    while k < scene.lights.len()
        invariant
            k <= scene.lights@.len(),
            origin == shadow_origin(*point, *incoming, *normal, scene.epsilon),
            (LightSums { diffuse, specular }) == light_sums(
                scene.objects@,
                scene.lights@,
                k as nat,
                origin,
                *point,
                *normal,
                *incoming,
                material.specular_exponent,
            ),
        decreases scene.lights@.len() - k,
    {
        let light = scene.lights[k];
        let to_light = light.position.sub(*point);
        let distance2 = to_light.dot(to_light);
        let direction = to_light.normalize();
        let occluded = match trace(&Ray::new(origin, direction, Scalar::zero()), &scene.objects) {
            Some(hit) => hit.t_near.mul(hit.t_near).raw < distance2.raw,
            None => false,
        };
        if !occluded {
            diffuse = diffuse.add(light.intensity.scale(Scalar::zero().max(direction.dot(*normal))));
            let mirrored = reflect(&direction.neg(), normal);
            specular = specular.add(
                light.intensity.scale(
                    Scalar::zero().max(mirrored.dot(*incoming).neg()).powi(
                        material.specular_exponent,
                    ),
                ),
            );
        }
        k = k + 1;
    }
    diffuse.wise_product(surface_color).scale(material.kd).add(specular.scale(material.ks))
}

/// The colour that arrives along `ray` in `scene`, where `depth` counts the
/// reflections and refractions that led to the ray (zero for a ray from the
/// eye).
pub fn cast_ray<O: Object>(ray: &Ray, scene: &Scene<O>, depth: i32) -> (r: Vector3f)
    requires
        scene.wf(),
    ensures
        r == spec_cast_ray(*ray, *scene, depth as int),
        depth > scene.max_depth ==> r == Vector3f::spec_zero(),
        depth <= scene.max_depth && (forall|i: int|
            0 <= i < scene.objects@.len() ==> !#[trigger] is_hit(scene.objects@[i], *ray)) ==> r
            == scene.background_color,
        depth <= scene.max_depth && reflects_totally(*ray, *scene) ==> r == spec_cast_ray(
            reflected_ray(*ray, *scene),
            *scene,
            depth + 1,
        ),
    decreases scene.max_depth - depth + 1,
{
    if depth > scene.max_depth {
        return Vector3f::zero();
    }
    proof {
        if reflects_totally(*ray, *scene) {
            lemma_total_reflection_keeps_the_light(*ray, *scene, depth as int);
        }
    }
    let hit = match trace(ray, &scene.objects) {
        Some(hit) => hit,
        None => {
            return scene.background_color;
        },
    };
    let object = &scene.objects[hit.hit_obj];
    let point = ray.at(hit.t_near);
    let (normal, st) = object.get_surface_properties(
        &point,
        &ray.direction,
        &hit.index,
        &Vector2f::zero(),
    );
    let material = object.material();
    match material.kind {
        MaterialType::ReflectionAndRefraction => {
            let kr = fresnel(&ray.direction, &normal, &material.ior);
            let mirrored = reflect(&ray.direction, &normal).normalize();
            let reflection = cast_ray(
                &make_secondary_ray(&point, mirrored, &normal, scene.epsilon),
                scene,
                depth + 1,
            );
            let bent = refract(&ray.direction, &normal, &material.ior).normalize();
            let refraction = if bent == Vector3f::zero() {
                Vector3f::zero()
            } else {
                cast_ray(&make_secondary_ray(&point, bent, &normal, scene.epsilon), scene, depth + 1)
            };
            reflection.scale(kr).add(refraction.scale(Scalar::one().sub(kr)))
        },
        MaterialType::Reflection => {
            let kr = fresnel(&ray.direction, &normal, &material.ior);
            let mirrored = reflect(&ray.direction, &normal).normalize();
            let reflection = cast_ray(
                &make_secondary_ray(&point, mirrored, &normal, scene.epsilon),
                scene,
                depth + 1,
            );
            reflection.scale(kr)
        },
        MaterialType::DiffuseAndGlossy => {
            let surface_color = object.eval_diffuse_color(&st);
            local_illumination(scene, &ray.direction, &point, &normal, surface_color, &material)
        },
    }
}

} // verus!
