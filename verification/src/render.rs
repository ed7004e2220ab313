//! The frame: one primary ray per pixel, and the image as a binary PPM.

use vstd::prelude::*;
use vstd::arithmetic::div_mod::lemma_fundamental_div_mod_converse;
use crate::angle::{deg2rad, lemma_tangent_bounded, spec_deg2rad, spec_tan, tan};
use crate::object::Object;
use crate::ray::Ray;
use crate::scalar::{
    lemma_product_bounded, lemma_quotient_bounded, lemma_sqrt, lemma_square_remainder, saturate,
    Scalar, SCALE,
};
use crate::scene::Scene;
use crate::shading::{cast_ray, spec_cast_ray};
use crate::trace::spec_trace;
use crate::vector::{is_unit, lemma_long_vector_normalizes, squared_length, Vector3f};

verus! {

/// The count `n` as a scalar, saturated.
pub open spec fn spec_count(n: usize) -> Scalar {
    Scalar { raw: saturate(n * SCALE) as i64 }
}

fn count(n: usize) -> (r: Scalar)
    ensures
        r == spec_count(n),
{
    let wide: i128 = n as i128 * 1_000_000;
    if wide > i64::MAX as i128 {
        Scalar::from_raw(i64::MAX)
    } else {
        Scalar::from_raw(wide as i64)
    }
}

/// The half height of the image plane at distance one: the tangent of half
/// the field of view.
pub open spec fn camera_scale<O>(scene: Scene<O>) -> Scalar {
    spec_tan(spec_deg2rad(scene.fov.div(Scalar::from_int(2))))
}

/// Width over height.
pub open spec fn aspect_ratio<O>(scene: Scene<O>) -> Scalar {
    spec_count(scene.width).div(spec_count(scene.height))
}

/// The direction of the primary ray through the centre of the pixel in
/// column `i` and row `j`, rows counted from the top:
/// `x = (2 (i + 1/2) / width - 1) scale aspect`,
/// `y = (2 (height - j + 1/2) / height - 1) scale`, `z = -1`, normalised.
pub open spec fn primary_direction<O>(scene: Scene<O>, i: usize, j: usize) -> Vector3f {
    let half = Scalar { raw: 500_000 };
    let two = Scalar::from_int(2);
    let x = two.mul(spec_count(i).add(half)).div(spec_count(scene.width)).sub(Scalar::spec_one()).mul(
        camera_scale(scene),
    ).mul(aspect_ratio(scene));
    let y = two.mul(spec_count(scene.height).sub(spec_count(j)).add(half)).div(
        spec_count(scene.height),
    ).sub(Scalar::spec_one()).mul(camera_scale(scene));
    (Vector3f { x, y, z: Scalar::spec_one().neg() }).normalize()
}

/// The camera is one for which the primary directions are proved to be unit
/// vectors: the scene is valid, its field of view is at most 150 degrees, the
/// image is at most a thousand times as wide as it is high, and neither side
/// is longer than a billion pixels.
///
/// These are limits of the proof, not of `render`. Toward 180 degrees the
/// tangent of half the field of view grows without bound, and with it the
/// components of the direction before it is normalised; nothing is claimed
/// of the directions there.
pub open spec fn camera_within_limits<O>(scene: Scene<O>) -> bool {
    &&& scene.wf()
    &&& scene.fov@ <= 150 * SCALE
    &&& scene.width <= 1000 * scene.height
    &&& scene.width <= 1_000_000_000
    &&& scene.height <= 1_000_000_000
}

/// The half height of the image plane is not negative and at most a hundred
/// and ten, and the aspect ratio at most a thousand.
proof fn lemma_camera_bounded<O>(scene: Scene<O>)
    requires
        camera_within_limits(scene),
    ensures
        0 <= camera_scale(scene)@ <= 110_000_000,
        0 <= aspect_ratio(scene)@ <= 1_000_000_000,
{
    let half_fov = scene.fov.div(Scalar::from_int(2));
    assert(half_fov@ == scene.fov@ / 2) by {
        assert((scene.fov@ * 1_000_000) / 2_000_000 == scene.fov@ / 2);
    }
    let scaled = half_fov.mul(Scalar { raw: 3_141_593 });
    assert(0 <= scaled@ <= 235_619_475) by {
        assert((half_fov@ * 3_141_593) / 1_000_000 <= 235_619_475);
    }
    let radians = spec_deg2rad(half_fov);
    assert(radians == scaled.div(Scalar::from_int(180)));
    assert(0 <= radians@ <= 1_308_997) by {
        assert((scaled@ * 1_000_000) / 180_000_000 == scaled@ / 180);
    }
    lemma_tangent_bounded(radians);
    let (w, h) = (scene.width as int, scene.height as int);
    assert(spec_count(scene.width)@ == w * 1_000_000 && spec_count(scene.height)@ == h * 1_000_000);
    assert(0 <= (w * 1_000_000) * 1_000_000 <= (h * 1_000_000) * 1_000_000_000) by (nonlinear_arith)
        requires
            0 <= w <= 1000 * h,
    ;
    lemma_quotient_bounded((w * 1_000_000) * 1_000_000, h * 1_000_000, 1_000_000_000);
    assert(((w * 1_000_000) * 1_000_000) / (h * 1_000_000) >= 0) by (nonlinear_arith)
        requires
            w >= 0,
            h > 0,
    ;
}

/// Twice a pixel offset over the side of the image, less one: the offset is
/// `part` of `whole` half pixels, and the result lies between minus one and
/// `bound`.
proof fn lemma_pixel_offset(offset: Scalar, side: Scalar, part: int, whole: int, bound: int)
    requires
        1 <= whole <= 1_000_000_000,
        0 <= part <= bound * whole,
        1 <= bound <= 3,
        2 * offset@ == part * 1_000_000,
        side@ == whole * 1_000_000,
    ensures
        -SCALE <= Scalar::from_int(2).mul(offset).div(side).sub(Scalar::spec_one())@ <= (bound - 1)
            * SCALE,
{
    let doubled = Scalar::from_int(2).mul(offset);
    assert(doubled@ == 2 * offset@) by {
        assert((2_000_000 * offset@) / 1_000_000 == 2 * offset@);
    }
    assert(0 <= doubled@ * 1_000_000 <= side@ * (bound * 1_000_000)) by (nonlinear_arith)
        requires
            doubled@ == part * 1_000_000,
            side@ == whole * 1_000_000,
            0 <= part <= bound * whole,
    ;
    lemma_quotient_bounded(doubled@ * 1_000_000, side@, bound * 1_000_000);
    assert((doubled@ * 1_000_000) / side@ >= 0) by (nonlinear_arith)
        requires
            doubled@ >= 0,
            side@ > 0,
    ;
}

/// The product of two scalars of bounded size is bounded by the product of
/// the bounds.
proof fn lemma_product_within(a: Scalar, b: Scalar, bound_a: int, bound_b: int)
    requires
        -bound_a * 1_000_000 <= a@ <= bound_a * 1_000_000,
        -bound_b * 1_000_000 <= b@ <= bound_b * 1_000_000,
        0 <= bound_a <= 1_000_000,
        0 <= bound_b <= 1_000_000,
        bound_a * bound_b <= 1_000_000,
    ensures
        -(bound_a * bound_b) * 1_000_000 <= a.mul(b)@ <= (bound_a * bound_b) * 1_000_000,
{
    lemma_product_bounded(a@, b@, bound_a * 1_000_000, bound_b * 1_000_000);
    assert((bound_a * 1_000_000) * (bound_b * 1_000_000) == 1_000_000 * ((bound_a * bound_b)
        * 1_000_000)) by (nonlinear_arith);
    lemma_quotient_bounded(a@ * b@, 1_000_000, (bound_a * bound_b) * 1_000_000);
}

/// Every primary ray has a direction: for a camera within the limits, the
/// direction of the primary ray of every pixel is a unit vector that points
/// away from the eye, along negative `z`.
pub proof fn lemma_primary_direction_is_unit<O>(scene: Scene<O>, i: usize, j: usize)
    requires
        camera_within_limits(scene),
        i < scene.width,
        j < scene.height,
    ensures
        is_unit(primary_direction(scene, i, j)),
        primary_direction(scene, i, j).z@ < 0,
{
    lemma_camera_bounded(scene);
    let (w, h) = (scene.width as int, scene.height as int);
    let half = Scalar { raw: 500_000 };
    let two = Scalar::from_int(2);
    let one = Scalar::spec_one();
    let scale = camera_scale(scene);
    let aspect = aspect_ratio(scene);
    assert(spec_count(scene.width)@ == w * 1_000_000 && spec_count(scene.height)@ == h * 1_000_000);
    assert(spec_count(i)@ == i * 1_000_000 && spec_count(j)@ == j * 1_000_000);
    // Across: (2 i + 1) half pixels of 2 w.
    let across = spec_count(i).add(half);
    lemma_pixel_offset(across, spec_count(scene.width), 2 * i + 1, w, 2);
    let column = two.mul(across).div(spec_count(scene.width)).sub(one);
    lemma_product_within(column, scale, 1, 110);
    lemma_product_within(column.mul(scale), aspect, 110, 1000);
    let x = column.mul(scale).mul(aspect);
    // Down: (2 (h - j) + 1) half pixels of 2 h.
    let down = spec_count(scene.height).sub(spec_count(j)).add(half);
    lemma_pixel_offset(down, spec_count(scene.height), 2 * (h - j) + 1, h, 3);
    let row = two.mul(down).div(spec_count(scene.height)).sub(one);
    lemma_product_within(row, scale, 2, 110);
    let y = row.mul(scale);
    let z = one.neg();
    let v = Vector3f { x, y, z };
    assert(primary_direction(scene, i, j) == v.normalize());
    assert(x@ * x@ >= 0 && y@ * y@ >= 0) by (nonlinear_arith);
    assert(z@ * z@ == 1_000_000_000_000) by (nonlinear_arith)
        requires
            z@ == -1_000_000,
    ;
    assert(squared_length(v) >= 1_000_000_000_000);
    lemma_long_vector_normalizes(v);
    // The length is at least one and less than a million, so that the
    // third component does not round to zero.
    let ex = lemma_square_remainder(x);
    let ey = lemma_square_remainder(y);
    let ez = lemma_square_remainder(z);
    lemma_product_bounded(x@, x@, 110_000_000_000, 110_000_000_000);
    lemma_product_bounded(y@, y@, 220_000_000, 220_000_000);
    let vv = v.dot(v);
    assert(vv@ == x.mul(x)@ + y.mul(y)@ + z.mul(z)@);
    assert(1_000_000 <= vv@ <= 13_000_000_000_000_000);
    lemma_sqrt(vv);
    let len = v.norm();
    assert(len == vv.sqrt());
    assert(1_000_000 <= len@ <= 120_000_000_000) by {
        if len@ > 120_000_000_000 {
            assert(len@ * len@ > 120_000_000_000 * 120_000_000_000) by (nonlinear_arith)
                requires
                    len@ > 120_000_000_000,
            ;
        }
        if len@ < 1_000_000 {
            assert((len@ + 1) * (len@ + 1) <= 1_000_000 * 1_000_000) by (nonlinear_arith)
                requires
                    0 <= len@ < 1_000_000,
            ;
        }
    }
    assert(v.normalize().z == z.div(len));
    assert(1_000_000_000_000int / len@ >= 1) by (nonlinear_arith)
        requires
            0 < len@ <= 120_000_000_000,
    ;
}

/// The primary ray of a pixel: from the eye at the origin through the pixel.
pub open spec fn primary_ray<O>(scene: Scene<O>, i: usize, j: usize) -> Ray {
    Ray { origin: Vector3f::spec_zero(), direction: primary_direction(scene, i, j), t: Scalar::spec_zero() }
}

/// The colour of pixel `m`, pixels counted row by row from the top left.
pub open spec fn spec_pixel<O: Object>(scene: Scene<O>, m: int) -> Vector3f {
    spec_cast_ray(
        primary_ray(scene, (m % scene.width as int) as usize, (m / scene.width as int) as usize),
        scene,
        0,
    )
}

/// The colours of all pixels, row by row from the top.
pub open spec fn spec_framebuffer<O: Object>(scene: Scene<O>) -> Seq<Vector3f> {
    Seq::new((scene.width * scene.height) as nat, |m: int| spec_pixel(scene, m))
}

fn make_primary_ray<O>(scene: &Scene<O>, scale: Scalar, aspect: Scalar, i: usize, j: usize) -> (r: Ray)
    requires
        scale == camera_scale(*scene),
        aspect == aspect_ratio(*scene),
    ensures
        r == primary_ray(*scene, i, j),
{
    let half = Scalar::from_raw(500_000);
    let two = Scalar::from_int(2);
    let x = two.mul(count(i).add(half)).div(count(scene.width)).sub(Scalar::one()).mul(scale).mul(
        aspect,
    );
    let y = two.mul(count(scene.height).sub(count(j)).add(half)).div(count(scene.height)).sub(
        Scalar::one(),
    ).mul(scale);
    let direction = Vector3f::new(x, y, Scalar::one().neg()).normalize();
    Ray::new(Vector3f::zero(), direction, Scalar::zero())
}

/// Casts the primary ray of every pixel. The result holds `width * height`
/// colours, row by row from the top.
pub fn framebuffer<O: Object>(scene: &Scene<O>) -> (r: Vec<Vector3f>)
    requires
        scene.wf(),
    ensures
        r@ == spec_framebuffer(*scene),
{
    let scale = tan(&deg2rad(&scene.fov.div(Scalar::from_int(2))));
    let aspect = count(scene.width).div(count(scene.height));
    let mut buffer: Vec<Vector3f> = Vec::new();
    let mut j: usize = 0;
    while j < scene.height
        invariant
            scene.wf(),
            j <= scene.height,
            scale == camera_scale(*scene),
            aspect == aspect_ratio(*scene),
            buffer@.len() == j * scene.width,
            forall|m: int| 0 <= m < buffer@.len() ==> buffer@[m] == spec_pixel(*scene, m),
        decreases scene.height - j,
    {
        let mut i: usize = 0;
        while i < scene.width
            invariant
                scene.wf(),
                j < scene.height,
                i <= scene.width,
                scale == camera_scale(*scene),
                aspect == aspect_ratio(*scene),
                buffer@.len() == j * scene.width + i,
                forall|m: int| 0 <= m < buffer@.len() ==> buffer@[m] == spec_pixel(*scene, m),
            decreases scene.width - i,
        {
            let color = cast_ray(&make_primary_ray(scene, scale, aspect, i, j), scene, 0);
            proof {
                lemma_fundamental_div_mod_converse(
                    j * scene.width + i,
                    scene.width as int,
                    j as int,
                    i as int,
                );
            }
            buffer.push(color);
            i = i + 1;
        }
        assert(j * scene.width + scene.width == (j + 1) * scene.width) by (nonlinear_arith);
        j = j + 1;
    }
    assert(scene.height * scene.width == scene.width * scene.height) by (nonlinear_arith);
    assert(buffer@ =~= spec_framebuffer(*scene));
    buffer
}

/// The byte that stands for the channel value `v`: `255 v` rounded down,
/// after `v` is held within [0, 1].
pub open spec fn spec_quantize(v: Scalar) -> u8 {
    ((255 * v.clamp(Scalar::spec_zero(), Scalar::spec_one())@) / (SCALE as int)) as u8
}

/// Quantises a channel to eight bits. Values of one and above give 255,
/// values of zero and below give 0, and nothing wraps.
pub fn quantize(v: Scalar) -> (r: u8)
    ensures
        r == spec_quantize(v),
        r as int == (255 * v.clamp(Scalar::spec_zero(), Scalar::spec_one())@) / (SCALE as int),
        v@ >= SCALE ==> r == 255,
        v@ <= 0 ==> r == 0,
{
    let held: i64 = v.clamp(Scalar::zero(), Scalar::one()).raw;
    let level: i64 = (255 * held) / 1_000_000;
    level as u8
}

/// Quantising keeps the order of two channel values, and keeps them apart
/// where, held within [0, 1], they differ by a 255th or more.
pub proof fn lemma_quantize_grows(a: Scalar, b: Scalar)
    requires
        a@ >= b@,
    ensures
        spec_quantize(a) >= spec_quantize(b),
        255 * (a.clamp(Scalar::spec_zero(), Scalar::spec_one())@ - b.clamp(
            Scalar::spec_zero(),
            Scalar::spec_one(),
        )@) >= SCALE ==> spec_quantize(a) > spec_quantize(b),
{
    let held_a = a.clamp(Scalar::spec_zero(), Scalar::spec_one())@;
    let held_b = b.clamp(Scalar::spec_zero(), Scalar::spec_one())@;
    assert(0 <= held_b <= held_a <= 1_000_000);
    assert(0 <= (255 * held_b) / 1_000_000 <= (255 * held_a) / 1_000_000 <= 255);
    if 255 * (held_a - held_b) >= 1_000_000 {
        assert((255 * held_a) / 1_000_000 >= (255 * held_b + 1_000_000) / 1_000_000);
        assert((255 * held_b + 1_000_000) / 1_000_000 == (255 * held_b) / 1_000_000 + 1);
    }
}

/// The decimal digits of `n` in ASCII, without leading zeros.
pub open spec fn decimal_digits(n: nat) -> Seq<u8>
    decreases n,
{
    if n < 10 {
        seq![(48 + n) as u8]
    } else {
        decimal_digits(n / 10).push((48 + n % 10) as u8)
    }
}

/// The header of a binary PPM image: the magic number of the raw colour
/// format, a line with width and height, and a line with the greatest
/// channel value, 255.
pub open spec fn ppm_header(width: nat, height: nat) -> Seq<u8> {
    seq![80u8, 54u8, 10u8] + decimal_digits(width) + seq![32u8] + decimal_digits(height)
        + seq![10u8, 50u8, 53u8, 53u8, 10u8]
}

/// Channel `c` of a colour: 0 is red, 1 is green, 2 is blue.
pub open spec fn channel(color: Vector3f, c: int) -> Scalar {
    if c == 0 {
        color.x
    } else if c == 1 {
        color.y
    } else {
        color.z
    }
}

/// Byte `k` of the body of the image: channel `k % 3` of pixel `k / 3`.
pub open spec fn body_byte(pixels: Seq<Vector3f>, k: int) -> u8 {
    spec_quantize(channel(pixels[k / 3], k % 3))
}

/// The body of the image: three bytes per pixel, red, green, blue.
pub open spec fn pixel_bytes(pixels: Seq<Vector3f>) -> Seq<u8> {
    Seq::new(3 * pixels.len(), |k: int| body_byte(pixels, k))
}

/// The image as a binary PPM: the header, then the body.
pub open spec fn spec_encode_ppm(width: nat, height: nat, pixels: Seq<Vector3f>) -> Seq<u8> {
    ppm_header(width, height) + pixel_bytes(pixels)
}

fn push_decimal(out: &mut Vec<u8>, n: usize)
    ensures
        final(out)@ == old(out)@ + decimal_digits(n as nat),
    decreases n,
{
    if n >= 10 {
        push_decimal(out, n / 10);
    }
    out.push(48 + (n % 10) as u8);
}

/// Writes `pixels`, the colours of an image of `width` by `height` pixels
/// row by row, as a binary PPM.
pub fn encode_ppm(width: usize, height: usize, pixels: &Vec<Vector3f>) -> (r: Vec<u8>)
    requires
        pixels@.len() == width * height,
    ensures
        r@ == spec_encode_ppm(width as nat, height as nat, pixels@),
        r@.len() == ppm_header(width as nat, height as nat).len() + 3 * width * height,
{
    let mut out: Vec<u8> = Vec::new();
    out.push(80);
    out.push(54);
    out.push(10);
    push_decimal(&mut out, width);
    out.push(32);
    push_decimal(&mut out, height);
    out.push(10);
    out.push(50);
    out.push(53);
    out.push(53);
    out.push(10);
    assert(out@ =~= ppm_header(width as nat, height as nat));
    let ghost header = out@;
    let mut m: usize = 0;
    while m < pixels.len()
        invariant
            m <= pixels@.len(),
            out@.len() == header.len() + 3 * m,
            forall|k: int| 0 <= k < header.len() ==> out@[k] == header[k],
            forall|k: int|
                0 <= k < 3 * m ==> out@[header.len() + k] == #[trigger] body_byte(pixels@, k),
        decreases pixels@.len() - m,
    {
        let color = pixels[m];
        let ghost before = out@;
        out.push(quantize(color.x));
        out.push(quantize(color.y));
        out.push(quantize(color.z));
        assert forall|k: int| 0 <= k < 3 * (m + 1) implies out@[header.len() + k]
            == #[trigger] body_byte(pixels@, k) by {
            if k < 3 * m {
                assert(out@[header.len() + k] == before[header.len() + k]);
            }
        }
        m = m + 1;
    }
    assert(out@ =~= header + pixel_bytes(pixels@));
    assert(3 * (width * height) == 3 * width * height) by (nonlinear_arith);
    out
}

/// The image of the scene as a binary PPM.
pub open spec fn spec_render<O: Object>(scene: Scene<O>) -> Seq<u8> {
    spec_encode_ppm(scene.width as nat, scene.height as nat, spec_framebuffer(scene))
}

/// Rendering has no hidden state: whatever `render` returns for a scene,
/// it returns the same bytes every time it is called on that scene.
pub proof fn lemma_render_is_repeatable<O: Object>(scene: &Scene<O>, first: Vec<u8>, second: Vec<u8>)
    requires
        call_ensures(render::<O>, (scene,), first),
        call_ensures(render::<O>, (scene,), second),
    ensures
        first@ == second@,
{
}

/// A scene without primitives shows its background in every pixel: the body
/// of its image repeats the three quantised channels of the background
/// colour.
pub proof fn lemma_empty_scene_is_background<O: Object>(scene: Scene<O>)
    requires
        scene.wf(),
        scene.objects@.len() == 0,
    ensures
        forall|m: int|
            0 <= m < scene.width * scene.height ==> #[trigger] spec_framebuffer(scene)[m]
                == scene.background_color,
        spec_render(scene) == ppm_header(scene.width as nat, scene.height as nat) + Seq::new(
            (3 * (scene.width * scene.height)) as nat,
            |k: int| spec_quantize(channel(scene.background_color, k % 3)),
        ),
{
    let pixels = spec_framebuffer(scene);
    assert forall|m: int| 0 <= m < scene.width * scene.height implies #[trigger] pixels[m]
        == scene.background_color by {
        let ray = primary_ray(
            scene,
            (m % scene.width as int) as usize,
            (m / scene.width as int) as usize,
        );
        assert(spec_trace(ray, scene.objects@) is None);
    }
    assert(pixel_bytes(pixels) =~= Seq::new(
        (3 * (scene.width * scene.height)) as nat,
        |k: int| spec_quantize(channel(scene.background_color, k % 3)),
    ));
}

/// Renders the scene: casts one ray from the eye through every pixel and
/// returns the image as a binary PPM of `width` by `height` pixels.
pub fn render<O: Object>(scene: &Scene<O>) -> (r: Vec<u8>)
    requires
        scene.wf(),
    ensures
        r@ == spec_render(*scene),
        r@.len() == ppm_header(scene.width as nat, scene.height as nat).len() + 3 * scene.width
            * scene.height,
{
    let pixels = framebuffer(scene);
    encode_ppm(scene.width, scene.height, &pixels)
}

} // verus!
