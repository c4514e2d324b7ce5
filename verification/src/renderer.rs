//! Shading and rendering: per-hit radiance (diffuse, specular, mirror and
//! refracted contributions), pixel back-projection, and the patch-based
//! renderer.

use vstd::prelude::*;

use crate::fixed::SCALE;
use crate::framebuffer::FrameBuffer;
use crate::fixed::mul_exec;
use crate::fixed::mul_fx;
use crate::lights::Light;
use crate::lights::LightM;
use crate::lights::light_wf;
use crate::optics::reflect;
use crate::optics::reflect_ray;
use crate::optics::reflect_ray_s;
use crate::optics::reflect_s;
use crate::optics::refract_ray;
use crate::optics::refract_ray_s;
use crate::shapes::DIR_MAX;
use crate::shapes::HitM;
use crate::shapes::Intersection;
use crate::shapes::ORIG_MAX;
use crate::shapes::Shape;
use crate::shapes::ShapeM;
use crate::shapes::closest_upto;
use crate::shapes::find_closest_intersect;
use crate::shapes::hit_wf;
use crate::shapes::intersect_shape_set;
use crate::shapes::shape_hit_spec;
use crate::shapes::shape_wf;
use crate::vec3::V3;
use crate::vec3::Vec3;
use crate::vec3::add_s;
use crate::vec3::dot_s;
use crate::vec3::fits_chk;
use crate::vec3::fits_v;
use crate::vec3::had_s;
use crate::vec3::lemma_dot_s_bound;
use crate::vec3::lemma_mul_fx_bound;
use crate::vec3::lemma_scale_s_bound;
use crate::vec3::neg_s;
use crate::vec3::normalized_s;
use crate::vec3::scale_s;
use crate::vec3::sub_s;
use crate::vec3::zero_s;

verus! {

/// Offset of a shadow-ray origin along the surface normal, in fixed-point
/// units (about one part in a thousand).
pub const SHADOW_EPS: i128 = 64;

/// Bound on any single light's contribution to a hit.
pub const LIGHT_MAX: i128 = 0x40_0000_0000;

/// Bound on the whole direct-lighting term.
pub const DIRECT_MAX: i128 = 0x4000_0000_0000;

/// An integer power of a fixed-point scalar in `[0, 1]`.
pub open spec fn pow_fx_s(b: int, e: int) -> int
    decreases e,
{
    if e <= 0 {
        SCALE as int
    } else {
        mul_fx(pow_fx_s(b, e - 1), b)
    }
}

/// An integer power of a fixed-point scalar in `[0, 1]`, by repeated
/// multiplication.
pub fn pow_fx(b: i128, e: u32) -> (r: i128)
    requires
        0 <= b <= SCALE,
    ensures
        r == pow_fx_s(b as int, e as int),
        0 <= r <= SCALE,
{
    let mut result: i128 = SCALE;
    let mut i: u32 = 0;
    while i < e
        invariant
            0 <= b <= SCALE,
            0 <= i <= e,
            result == pow_fx_s(b as int, i as int),
            0 <= result <= SCALE,
        decreases e - i,
    {
        proof {
            lemma_mul_fx_bound(result as int, b as int, SCALE as int, SCALE as int);
            crate::fixed::lemma_mul_bound(result as int, b as int, SCALE as int, SCALE as int);
            assert(result * b >= 0) by (nonlinear_arith)
                requires
                    result >= 0,
                    b >= 0,
            ;
            crate::fixed::lemma_tdiv_mono(0, result as int * b as int, SCALE as int);
            crate::fixed::lemma_tdiv_mono(
                result as int * b as int,
                SCALE as int * SCALE as int,
                SCALE as int,
            );
            crate::fixed::lemma_tdiv_mul_cancel(SCALE as int, SCALE as int);
            assert(result * b <= SCALE as int * SCALE as int) by (nonlinear_arith)
                requires
                    0 <= result <= SCALE,
                    0 <= b <= SCALE,
            ;
        }
        result = mul_exec(result, b);
        i = i + 1;
    }
    result
}

/// The Lambertian term: the cosine of the angle between the light
/// direction and the surface normal, clamped at zero.
pub open spec fn diffusion_factor_s(hit: HitM, light_dir: V3) -> int {
    let d = dot_s(light_dir, hit.normal);
    if d >= 0 {
        d
    } else {
        0
    }
}

pub fn diffusion_factor(intersection: &Intersection, light_dir: &Vec3) -> (r: i128)
    requires
        hit_wf(intersection@),
        fits_v(light_dir@, SCALE as int),
    ensures
        r == diffusion_factor_s(intersection@, light_dir@),
        0 <= r <= 0x3_0000,
{
    proof {
        lemma_dot_s_bound(light_dir@, intersection@.normal, SCALE as int, SCALE as int);
    }
    let d = light_dir.dot(intersection.normal);
    if d >= 0 {
        d
    } else {
        0
    }
}

/// The Phong term before the exponent: the cosine of the angle between the
/// mirrored light direction and the direction to the viewer, clamped into
/// `[0, 1]` (two unit-like vectors can exceed one only by rounding noise).
pub open spec fn specular_factor_s(hit: HitM, origin: V3, light_dir: V3) -> int {
    let reflected = reflect_s(neg_s(light_dir), hit.normal);
    let dir_to_viewer = normalized_s(sub_s(origin, hit.point));
    let f = dot_s(reflected, dir_to_viewer);
    if f < 0 {
        0
    } else if f > SCALE as int {
        SCALE as int
    } else {
        f
    }
}

pub fn specular_factor(intersection: &Intersection, origin: &Vec3, light_dir: &Vec3) -> (r: i128)
    requires
        hit_wf(intersection@),
        fits_v(origin@, ORIG_MAX as int),
        fits_v(light_dir@, SCALE as int),
    ensures
        r == specular_factor_s(intersection@, origin@, light_dir@),
        0 <= r <= SCALE,
{
    let incident = light_dir.neg();
    let reflected = reflect(incident, intersection.normal);
    let dir_to_viewer = origin.minus(intersection.point).normalized();
    proof {
        lemma_dot_s_bound(reflected@, dir_to_viewer@, 0x80_0000, SCALE as int);
    }
    let f = reflected.dot(dir_to_viewer);
    if f < 0 {
        0
    } else if f > SCALE {
        SCALE
    } else {
        f
    }
}

/// Whether the ray meets any shape: the shadow test.
pub open spec fn any_hit_s(shapes: Seq<ShapeM>, orig: V3, dir: V3) -> bool {
    exists|k: int| 0 <= k < shapes.len() && shape_hit_spec(#[trigger] shapes[k], orig, dir).is_some()
}

/// One light's contribution at a hit: nothing when the shadow ray from the
/// offset origin meets any shape; otherwise the Lambertian diffuse term
/// plus the Phong specular term.
pub open spec fn light_contrib_s(origin: V3, hit: HitM, shapes: Seq<ShapeM>, light: LightM) -> V3 {
    let light_dir = normalized_s(sub_s(light.position, hit.point));
    let shadow_orig = if dot_s(light_dir, hit.normal) < 0 {
        sub_s(hit.point, scale_s(hit.normal, SHADOW_EPS as int))
    } else {
        add_s(hit.point, scale_s(hit.normal, SHADOW_EPS as int))
    };
    if any_hit_s(shapes, shadow_orig, light_dir) {
        zero_s()
    } else {
        let diffuse = scale_s(
            scale_s(
                had_s(light.color, hit.reflectance.diffuse_color),
                diffusion_factor_s(hit, light_dir),
            ),
            light.intensity,
        );
        let spec_strength = mul_fx(
            pow_fx_s(specular_factor_s(hit, origin, light_dir), hit.reflectance.specular_exponent),
            hit.reflectance.specular,
        );
        add_s(diffuse, scale_s(light.color, spec_strength))
    }
}

/// The direct lighting summed over the first `i` lights.
pub open spec fn direct_upto(
    origin: V3,
    hit: HitM,
    shapes: Seq<ShapeM>,
    lights: Seq<LightM>,
    i: int,
) -> V3
    decreases i,
{
    if i <= 0 {
        zero_s()
    } else {
        add_s(
            direct_upto(origin, hit, shapes, lights, i - 1),
            light_contrib_s(origin, hit, shapes, lights[i - 1]),
        )
    }
}

/// The whole direct-lighting term: the sum over the lights, scaled by the
/// material's diffusion.
pub open spec fn direct_lighting_s(
    origin: V3,
    hit: HitM,
    shapes: Seq<ShapeM>,
    lights: Seq<LightM>,
) -> V3 {
    scale_s(direct_upto(origin, hit, shapes, lights, lights.len() as int), hit.reflectance.diffusion)
}

/// Shared well-formedness of the shape and light collections a shading
/// call walks.
pub open spec fn world_wf(shapes: Seq<ShapeM>, lights: Seq<LightM>) -> bool {
    &&& shapes.len() <= 255
    &&& lights.len() <= 255
    &&& forall|i: int| 0 <= i < shapes.len() ==> shape_wf(#[trigger] shapes[i])
    &&& forall|i: int| 0 <= i < lights.len() ==> light_wf(#[trigger] lights[i])
}

/// The direct illumination at a hit, exactly as `direct_lighting_s` states
/// it: per light, a shadow test from an origin offset along the normal,
/// then the diffuse and specular terms; the sum is scaled by the
/// material's diffusion.
pub fn direct_lighting(
    origin: &Vec3,
    intersection: &Intersection,
    shapes: &Vec<Shape>,
    lights: &Vec<Light>,
) -> (r: Vec3)
    requires
        hit_wf(intersection@),
        fits_v(origin@, ORIG_MAX as int),
        world_wf(shapes@.map_values(|s: Shape| s@), lights@.map_values(|l: Light| l@)),
    ensures
        r@ == direct_lighting_s(
            origin@,
            intersection@,
            shapes@.map_values(|s: Shape| s@),
            lights@.map_values(|l: Light| l@),
        ),
        fits_v(r@, DIRECT_MAX as int),
        crate::vec3::nonneg_v(r@),
{
    let ghost ss = shapes@.map_values(|s: Shape| s@);
    let ghost ls = lights@.map_values(|l: Light| l@);
    let n = lights.len();
    let mut light_intensity = Vec3::zero();
    let mut i: usize = 0;
    while i < n
        invariant
            ss == shapes@.map_values(|s: Shape| s@),
            ls == lights@.map_values(|l: Light| l@),
            world_wf(ss, ls),
            hit_wf(intersection@),
            fits_v(origin@, ORIG_MAX as int),
            n == lights@.len(),
            n <= 255,
            0 <= i <= n,
            light_intensity@ == direct_upto(origin@, intersection@, ss, ls, i as int),
            fits_v(light_intensity@, i as int * LIGHT_MAX as int),
            crate::vec3::nonneg_v(light_intensity@),
        decreases n - i,
    {
        proof {
            assert(lights@[i as int]@ == ls[i as int]);
            assert(light_wf(ls[i as int]));
            assert(forall|k: int| 0 <= k < shapes@.len() ==> #[trigger] shapes@[k]@ == ss[k]);
        }
        let light = &lights[i];
        let light_dir = light.position.minus(intersection.point).normalized();
        proof {
            lemma_dot_s_bound(light_dir@, intersection@.normal, SCALE as int, SCALE as int);
            lemma_scale_s_bound(
                intersection@.normal,
                SHADOW_EPS as int,
                SCALE as int,
                SHADOW_EPS as int,
            );
        }
        let offset = intersection.normal.scaled(SHADOW_EPS);
        let intersect_orig = if light_dir.dot(intersection.normal) < 0 {
            intersection.point.minus(offset)
        } else {
            intersection.point.plus(offset)
        };

        let ghost this_light = light_contrib_s(origin@, intersection@, ss, ls[i as int]);
        if intersect_shape_set(&intersect_orig, &light_dir, shapes) {
            // Cast shadow: this light adds nothing.
            proof {
                assert(this_light == zero_s());
                assert(light_intensity@ == direct_upto(origin@, intersection@, ss, ls, i as int
                    + 1));
                assert(i as int * LIGHT_MAX as int + LIGHT_MAX as int == (i + 1) as int
                    * LIGHT_MAX as int) by (nonlinear_arith);
            }
        } else {
            let diffusion = diffusion_factor(intersection, &light_dir);
            proof {
                lemma_mul_fx_bound(
                    ls[i as int].color.x,
                    intersection@.reflectance.diffuse_color.x,
                    SCALE as int,
                    SCALE as int,
                );
                lemma_mul_fx_bound(
                    ls[i as int].color.y,
                    intersection@.reflectance.diffuse_color.y,
                    SCALE as int,
                    SCALE as int,
                );
                lemma_mul_fx_bound(
                    ls[i as int].color.z,
                    intersection@.reflectance.diffuse_color.z,
                    SCALE as int,
                    SCALE as int,
                );
                lemma_scale_s_bound(
                    had_s(ls[i as int].color, intersection@.reflectance.diffuse_color),
                    diffusion_factor_s(intersection@, light_dir@),
                    SCALE as int,
                    0x3_0000,
                );
                crate::vec3::lemma_had_s_nonneg(
                    ls[i as int].color,
                    intersection@.reflectance.diffuse_color,
                );
                crate::vec3::lemma_scale_s_nonneg(
                    had_s(ls[i as int].color, intersection@.reflectance.diffuse_color),
                    diffusion_factor_s(intersection@, light_dir@),
                );
            }
            let diffuse_base = light.color.hadamard(intersection.reflectance.diffuse_color);
            let scaled_diffuse = diffuse_base.scaled(diffusion);
            proof {
                lemma_scale_s_bound(
                    scaled_diffuse@,
                    ls[i as int].intensity,
                    0x3_0000,
                    crate::lights::INTENSITY_MAX as int,
                );
            }
            proof {
                crate::vec3::lemma_scale_s_nonneg(scaled_diffuse@, ls[i as int].intensity);
            }
            let diffuse = scaled_diffuse.scaled(light.intensity);

            let factor = specular_factor(intersection, origin, &light_dir);
            let powed = pow_fx(factor, intersection.reflectance.specular_exponent);
            proof {
                lemma_mul_fx_bound(
                    powed as int,
                    intersection@.reflectance.specular as int,
                    SCALE as int,
                    SCALE as int,
                );
                crate::fixed::lemma_mul_bound(
                    powed as int,
                    intersection@.reflectance.specular,
                    SCALE as int,
                    SCALE as int,
                );
                lemma_scale_s_bound(
                    ls[i as int].color,
                    mul_fx(powed as int, intersection@.reflectance.specular),
                    SCALE as int,
                    SCALE as int,
                );
            }
            proof {
                crate::fixed::lemma_mul_bound(
                    powed as int,
                    intersection@.reflectance.specular,
                    SCALE as int,
                    SCALE as int,
                );
                assert(powed * intersection.reflectance.specular >= 0) by (nonlinear_arith)
                    requires
                        powed >= 0,
                        intersection.reflectance.specular >= 0,
                ;
                crate::fixed::lemma_tdiv_mono(
                    0,
                    powed as int * intersection@.reflectance.specular,
                    SCALE as int,
                );
                crate::vec3::lemma_scale_s_nonneg(
                    ls[i as int].color,
                    mul_fx(powed as int, intersection@.reflectance.specular),
                );
            }
            let spec_strength = mul_exec(powed, intersection.reflectance.specular);
            let specular = light.color.scaled(spec_strength);

            light_intensity.add(diffuse.plus(specular));
            proof {
                assert(this_light == add_s(diffuse@, specular@));
                assert(light_intensity@ == direct_upto(origin@, intersection@, ss, ls, i as int
                    + 1));
                assert(i as int * LIGHT_MAX as int + LIGHT_MAX as int == (i + 1) as int
                    * LIGHT_MAX as int) by (nonlinear_arith);
            }
        }
        i = i + 1;
    }
    proof {
        lemma_scale_s_bound(
            light_intensity@,
            intersection@.reflectance.diffusion,
            255 * LIGHT_MAX as int,
            SCALE as int,
        );
        crate::vec3::lemma_scale_s_nonneg(light_intensity@, intersection@.reflectance.diffusion);
    }
    light_intensity.scaled(intersection.reflectance.diffusion)
}

/// Bound on the radiance a shading call at the given depth can return:
/// the background plus the direct term plus two recursive contributions.
pub open spec fn rad_max(depth: int) -> int
    decreases 4 - depth,
{
    if depth >= 4 {
        SCALE as int
    } else {
        SCALE as int + DIRECT_MAX as int + 2 * rad_max(depth + 1)
    }
}

/// The radiance bound is at least one unit and comfortably inside the
/// range the vector operations accept.
pub proof fn lemma_rad_max_bound(depth: int)
    requires
        depth >= 1,
    ensures
        SCALE as int <= rad_max(depth) <= 0x4_0000_0000_0000,
{
    if depth <= 3 {
        assert(rad_max(4) == SCALE as int);
        assert(rad_max(3) == SCALE as int + DIRECT_MAX as int + 2 * rad_max(4));
        assert(rad_max(2) == SCALE as int + DIRECT_MAX as int + 2 * rad_max(3));
        assert(rad_max(1) == SCALE as int + DIRECT_MAX as int + 2 * rad_max(2));
    }
}

/// The radiance carried back by one ray: the background beyond the
/// recursion bound or on a miss of a primary ray; nothing on a miss of a
/// secondary ray; and at a hit the background plus direct lighting plus,
/// on a glass-like material, the mirrored and refracted contributions.
pub open spec fn cast_ray_spec(
    orig: V3,
    dir: V3,
    shapes: Seq<ShapeM>,
    lights: Seq<LightM>,
    background: V3,
    depth: int,
) -> V3
    decreases 4 - depth, 1int,
{
    if depth > 3 {
        background
    } else {
        match closest_upto(shapes, orig, dir, shapes.len() as int) {
            Option::None => if depth == 1 {
                background
            } else {
                zero_s()
            },
            Option::Some(pair) => {
                let hit = pair.0;
                let base = add_s(background, direct_lighting_s(orig, hit, shapes, lights));
                if hit.reflectance.is_glass_like {
                    add_s(
                        add_s(
                            base,
                            reflected_lighting_s(dir, hit, shapes, lights, background, depth),
                        ),
                        refracted_lighting_s(dir, hit, shapes, lights, background, depth),
                    )
                } else {
                    base
                }
            },
        }
    }
}

/// The mirrored contribution at a hit: the recursive radiance scaled by
/// the material's reflection ratio, or nothing when no reflected ray is
/// produced (or its direction leaves the accepted range, a numeric
/// degeneracy).
pub open spec fn reflected_lighting_s(
    incident: V3,
    hit: HitM,
    shapes: Seq<ShapeM>,
    lights: Seq<LightM>,
    background: V3,
    depth: int,
) -> V3
    decreases 4 - depth, 0int,
{
    if depth > 3 {
        zero_s()
    } else {
        match reflect_ray_s(incident, hit, hit.reflectance.refractive_index) {
            Option::Some(pair) => if fits_v(pair.1, DIR_MAX as int) {
                scale_s(
                    cast_ray_spec(pair.0, pair.1, shapes, lights, background, depth + 1),
                    hit.reflectance.reflection,
                )
            } else {
                zero_s()
            },
            Option::None => zero_s(),
        }
    }
}

/// The refracted contribution at a hit: the recursive radiance scaled by
/// one minus the material's reflection ratio, or nothing under total
/// internal reflection.
pub open spec fn refracted_lighting_s(
    incident: V3,
    hit: HitM,
    shapes: Seq<ShapeM>,
    lights: Seq<LightM>,
    background: V3,
    depth: int,
) -> V3
    decreases 4 - depth, 0int,
{
    if depth > 3 {
        zero_s()
    } else {
        match refract_ray_s(incident, hit, hit.reflectance.refractive_index) {
            Option::Some(pair) => scale_s(
                cast_ray_spec(pair.0, pair.1, shapes, lights, background, depth + 1),
                SCALE as int - hit.reflectance.reflection,
            ),
            Option::None => zero_s(),
        }
    }
}

/// The mirrored contribution, exactly as `reflected_lighting_s` states it.
pub fn reflected_lighting(
    incident: Vec3,
    intersection: &Intersection,
    shapes: &Vec<Shape>,
    lights: &Vec<Light>,
    background: &Vec3,
    n_recursion: u8,
) -> (r: Vec3)
    requires
        world_wf(shapes@.map_values(|s: Shape| s@), lights@.map_values(|l: Light| l@)),
        hit_wf(intersection@),
        fits_v(incident@, DIR_MAX as int),
        fits_v(background@, SCALE as int),
        crate::vec3::nonneg_v(background@),
        1 <= n_recursion <= 3,
    ensures
        r@ == reflected_lighting_s(
            incident@,
            intersection@,
            shapes@.map_values(|s: Shape| s@),
            lights@.map_values(|l: Light| l@),
            background@,
            n_recursion as int,
        ),
        fits_v(r@, rad_max(n_recursion as int + 1)),
        crate::vec3::nonneg_v(r@),
    decreases 4 - n_recursion as int, 0int,
{
    proof {
        lemma_rad_max_bound(n_recursion as int + 1);
    }
    let reflect_res = reflect_ray(
        incident,
        intersection,
        intersection.reflectance.refractive_index,
    );
    match reflect_res {
        Some(reflection) => {
            if fits_chk(&reflection.1, DIR_MAX) {
                let rec = cast_ray(
                    &reflection.0,
                    reflection.1,
                    shapes,
                    lights,
                    background,
                    n_recursion + 1,
                );
                proof {
                    lemma_scale_s_bound(
                        rec@,
                        intersection@.reflectance.reflection,
                        rad_max(n_recursion as int + 1),
                        SCALE as int,
                    );
                    vstd::arithmetic::div_mod::lemma_div_multiples_vanish(
                        rad_max(n_recursion as int + 1),
                        SCALE as int,
                    );
                    assert(rad_max(n_recursion as int + 1) * SCALE as int == SCALE as int
                        * rad_max(n_recursion as int + 1)) by (nonlinear_arith);
                    crate::vec3::lemma_scale_s_nonneg(
                        rec@,
                        intersection@.reflectance.reflection,
                    );
                }
                rec.scaled(intersection.reflectance.reflection)
            } else {
                Vec3::zero()
            }
        },
        None => Vec3::zero(),
    }
}

/// The refracted contribution, exactly as `refracted_lighting_s` states
/// it.
pub fn refracted_lighting(
    incident: Vec3,
    intersection: &Intersection,
    shapes: &Vec<Shape>,
    lights: &Vec<Light>,
    background: &Vec3,
    n_recursion: u8,
) -> (r: Vec3)
    requires
        world_wf(shapes@.map_values(|s: Shape| s@), lights@.map_values(|l: Light| l@)),
        hit_wf(intersection@),
        fits_v(incident@, DIR_MAX as int),
        fits_v(background@, SCALE as int),
        crate::vec3::nonneg_v(background@),
        1 <= n_recursion <= 3,
    ensures
        r@ == refracted_lighting_s(
            incident@,
            intersection@,
            shapes@.map_values(|s: Shape| s@),
            lights@.map_values(|l: Light| l@),
            background@,
            n_recursion as int,
        ),
        fits_v(r@, rad_max(n_recursion as int + 1)),
        crate::vec3::nonneg_v(r@),
    decreases 4 - n_recursion as int, 0int,
{
    proof {
        lemma_rad_max_bound(n_recursion as int + 1);
    }
    let refract_res = refract_ray(
        incident,
        intersection,
        intersection.reflectance.refractive_index,
    );
    match refract_res {
        Some(refracted) => {
            let rec = cast_ray(
                &refracted.0,
                refracted.1,
                shapes,
                lights,
                background,
                n_recursion + 1,
            );
            proof {
                lemma_scale_s_bound(
                    rec@,
                    SCALE as int - intersection@.reflectance.reflection,
                    rad_max(n_recursion as int + 1),
                    SCALE as int,
                );
                vstd::arithmetic::div_mod::lemma_div_multiples_vanish(
                    rad_max(n_recursion as int + 1),
                    SCALE as int,
                );
                assert(rad_max(n_recursion as int + 1) * SCALE as int == SCALE as int * rad_max(
                    n_recursion as int + 1,
                )) by (nonlinear_arith);
                crate::vec3::lemma_scale_s_nonneg(
                    rec@,
                    SCALE as int - intersection@.reflectance.reflection,
                );
            }
            rec.scaled(SCALE - intersection.reflectance.reflection)
        },
        None => Vec3::zero(),
    }
}

/// The radiance carried back by one ray, exactly as `cast_ray_spec`
/// states it.
pub fn cast_ray(
    orig: &Vec3,
    dir: Vec3,
    shapes: &Vec<Shape>,
    lights: &Vec<Light>,
    background: &Vec3,
    n_recursion: u8,
) -> (r: Vec3)
    requires
        world_wf(shapes@.map_values(|s: Shape| s@), lights@.map_values(|l: Light| l@)),
        fits_v(orig@, ORIG_MAX as int),
        fits_v(dir@, DIR_MAX as int),
        fits_v(background@, SCALE as int),
        crate::vec3::nonneg_v(background@),
        n_recursion >= 1,
    ensures
        r@ == cast_ray_spec(
            orig@,
            dir@,
            shapes@.map_values(|s: Shape| s@),
            lights@.map_values(|l: Light| l@),
            background@,
            n_recursion as int,
        ),
        fits_v(r@, rad_max(n_recursion as int)),
        crate::vec3::nonneg_v(r@),
    decreases 4 - n_recursion as int, 1int,
{
    proof {
        lemma_rad_max_bound(n_recursion as int);
    }
    if n_recursion > 3 {
        return *background;
    }

    let ghost ss = shapes@.map_values(|s: Shape| s@);
    proof {
        assert(forall|k: int| 0 <= k < shapes@.len() ==> #[trigger] shapes@[k]@ == ss[k]);
    }
    let result = find_closest_intersect(orig, dir, shapes);

    match result {
        Some(intersect_result) => {
            let intersection = intersect_result.0;
            let mut light_intensity = *background;
            light_intensity.add(direct_lighting(orig, &intersection, shapes, lights));

            if intersection.reflectance.is_glass_like {
                light_intensity.add(
                    reflected_lighting(
                        dir,
                        &intersection,
                        shapes,
                        lights,
                        background,
                        n_recursion,
                    ),
                );
                light_intensity.add(
                    refracted_lighting(
                        dir,
                        &intersection,
                        shapes,
                        lights,
                        background,
                        n_recursion,
                    ),
                );
            }
            proof {
                lemma_rad_max_bound(n_recursion as int + 1);
            }
            light_intensity
        },
        None => {
            if n_recursion == 1 {
                *background
            } else {
                Vec3::zero()
            }
        },
    }
}

/// Side of a square rendering patch, in pixels.
pub const PATCH_SIZE: usize = 32;

/// Half of one, for centering a pixel coordinate.
pub const HALF_ONE: i128 = 32768;

/// The background radiance every render uses.
pub open spec fn background_s() -> V3 {
    V3 { x: 6554, y: 6554, z: 6554 }
}

/// The mathematical model of a renderer.
pub struct RendM {
    pub half_fov: int,
    pub height: int,
    pub width: int,
    pub ratio: int,
}

/// A pinhole-projection renderer: the tangent of half the field of view,
/// the image size, and the precomputed aspect ratio.
pub struct Renderer {
    pub half_fov: i128,
    pub height: usize,
    pub width: usize,
    pub ratio: i128,
}

impl View for Renderer {
    type V = RendM;

    open spec fn view(&self) -> RendM {
        RendM {
            half_fov: self.half_fov as int,
            height: self.height as int,
            width: self.width as int,
            ratio: self.ratio as int,
        }
    }
}

pub open spec fn renderer_wf(r: RendM) -> bool {
    &&& 1 <= r.height <= 16384
    &&& 1 <= r.width <= 16384
    &&& 0 < r.half_fov <= 0x10_0000
    &&& r.ratio == crate::fixed::tdiv(r.width * SCALE as int, r.height)
}

/// A renderer from the tangent of half the field-of-view angle and the
/// image size; the aspect ratio is precomputed here.
pub fn create_renderer(half_fov: i128, height: usize, width: usize) -> (r: Renderer)
    requires
        1 <= height <= 16384,
        1 <= width <= 16384,
        0 < half_fov <= 0x10_0000,
    ensures
        r@.half_fov == half_fov,
        r@.height == height,
        r@.width == width,
        renderer_wf(r@),
{
    let ratio = crate::fixed::div_trunc((width as i128) * SCALE, height as i128);
    Renderer { half_fov, height, width, ratio }
}

/// The normalized direction of the primary ray through pixel column `i`,
/// row `j`: the pinhole projection through the image plane at `z = -1`.
pub open spec fn backproject_s(r: RendM, i: int, j: int) -> V3 {
    let px = crate::fixed::tdiv(i * SCALE as int, r.width);
    let py = crate::fixed::tdiv(j * SCALE as int, r.height);
    normalized_s(
        V3 {
            x: mul_fx(mul_fx(2 * (px - HALF_ONE as int), r.half_fov), r.ratio),
            y: -mul_fx(2 * (py - HALF_ONE as int), r.half_fov),
            z: -(SCALE as int),
        },
    )
}

/// The radiance of the pixel at column `i`, row `j`: one primary ray from
/// the camera, cast at depth one.
pub open spec fn pixel_spec(rend: RendM, scene: crate::scene::SceneM, i: int, j: int) -> V3 {
    cast_ray_spec(
        scene.camera,
        backproject_s(rend, i, j),
        scene.shapes,
        scene.lights,
        background_s(),
        1,
    )
}

impl Renderer {
    /// The primary-ray direction for a pixel, exactly as `backproject_s`
    /// states it.
    pub fn backproject(&self, i: usize, j: usize) -> (r: Vec3)
        requires
            renderer_wf(self@),
            i <= 16384,
            j <= 16384,
        ensures
            r@ == backproject_s(self@, i as int, j as int),
            fits_v(r@, SCALE as int),
    {
        proof {
            crate::fixed::lemma_tdiv_bound(i as int * SCALE as int, self@.width, 0x4000_0000);
            crate::fixed::lemma_tdiv_bound(j as int * SCALE as int, self@.height, 0x4000_0000);
            crate::fixed::lemma_tdiv_bound(self@.width * SCALE as int, self@.height, 0x4000_0000);
            crate::fixed::lemma_mul_bound(
                2 * (crate::fixed::tdiv(i as int * SCALE as int, self@.width) - HALF_ONE as int),
                self@.half_fov,
                0x8000_0000,
                0x10_0000,
            );
            lemma_mul_fx_bound(
                2 * (crate::fixed::tdiv(i as int * SCALE as int, self@.width) - HALF_ONE as int),
                self@.half_fov,
                0x8000_0000,
                0x10_0000,
            );
            crate::fixed::lemma_mul_bound(
                mul_fx(
                    2 * (crate::fixed::tdiv(i as int * SCALE as int, self@.width)
                        - HALF_ONE as int),
                    self@.half_fov,
                ),
                self@.ratio,
                0x8_0000_0000,
                0x4000_0000,
            );
            lemma_mul_fx_bound(
                mul_fx(
                    2 * (crate::fixed::tdiv(i as int * SCALE as int, self@.width)
                        - HALF_ONE as int),
                    self@.half_fov,
                ),
                self@.ratio,
                0x8_0000_0000,
                0x4000_0000,
            );
            crate::fixed::lemma_mul_bound(
                2 * (crate::fixed::tdiv(j as int * SCALE as int, self@.height) - HALF_ONE as int),
                self@.half_fov,
                0x8000_0000,
                0x10_0000,
            );
            lemma_mul_fx_bound(
                2 * (crate::fixed::tdiv(j as int * SCALE as int, self@.height) - HALF_ONE as int),
                self@.half_fov,
                0x8000_0000,
                0x10_0000,
            );
        }
        let px = crate::fixed::div_trunc((i as i128) * SCALE, self.width as i128);
        let py = crate::fixed::div_trunc((j as i128) * SCALE, self.height as i128);
        let x = mul_exec(mul_exec(2 * (px - HALF_ONE), self.half_fov), self.ratio);
        let y = -mul_exec(2 * (py - HALF_ONE), self.half_fov);
        let raw = Vec3 { x, y, z: -SCALE };
        raw.normalized()
    }

    /// Render one square patch into a local buffer, row-major within the
    /// patch: entry `k` holds the pixel at column `col0 + k % 32`, row
    /// `row0 + k / 32`.
    pub fn render_patch(&self, scene: &crate::scene::Scene, p: usize) -> (r: Vec<Vec3>)
        requires
            renderer_wf(self@),
            crate::scene::scene_wf(scene@),
            self@.width >= 32,
            p < (self@.width as int / 32) * (self@.height as int / 32),
        ensures
            r@.len() == PATCH_SIZE * PATCH_SIZE,
            forall|k: int| 0 <= k < PATCH_SIZE * PATCH_SIZE ==> #[trigger] r@[k]@ == pixel_spec(
                self@,
                scene@,
                (p as int % (self@.width as int / 32)) * 32 + k % 32,
                (p as int / (self@.width as int / 32)) * 32 + k / 32,
            ),
            forall|k: int| 0 <= k < PATCH_SIZE * PATCH_SIZE ==> crate::vec3::nonneg_v(
                #[trigger] r@[k]@,
            ) && fits_v(r@[k]@, 0x4_0000_0000_0000),
    {
        let n_width = self.width / PATCH_SIZE;
        proof {
            assert((p as int) / (n_width as int) < (self@.height as int) / 32) by (nonlinear_arith)
                requires
                    n_width as int == self@.width as int / 32,
                    n_width >= 1,
                    p < (self@.width as int / 32) * (self@.height as int / 32),
            ;
            assert((p as int) % (n_width as int) < n_width as int);
        }
        let col0 = (p % n_width) * PATCH_SIZE;
        let row0 = (p / n_width) * PATCH_SIZE;
        proof {
            assert(col0 + 32 <= self@.width && row0 + 32 <= self@.height) by (nonlinear_arith)
                requires
                    n_width == self@.width as int / 32,
                    col0 == (p as int % n_width as int) * 32,
                    row0 == (p as int / n_width as int) * 32,
                    p < (self@.width as int / 32) * (self@.height as int / 32),
                    n_width >= 1,
                    self@.width >= 32,
                    self@.width <= 16384,
                    self@.height <= 16384,
            ;
        }
        let mut buffer: Vec<Vec3> = Vec::new();
        let mut di: usize = 0;
        while di < PATCH_SIZE
            invariant
                renderer_wf(self@),
                crate::scene::scene_wf(scene@),
                n_width == self@.width as int / 32,
                col0 == (p as int % n_width as int) * 32,
                row0 == (p as int / n_width as int) * 32,
                col0 + 32 <= self@.width,
                row0 + 32 <= self@.height,
                0 <= di <= 32,
                buffer@.len() == di * 32,
                forall|k: int| 0 <= k < di * 32 ==> #[trigger] buffer@[k]@ == pixel_spec(
                    self@,
                    scene@,
                    col0 + k % 32,
                    row0 + k / 32,
                ),
                forall|k: int| 0 <= k < di * 32 ==> crate::vec3::nonneg_v(#[trigger] buffer@[k]@)
                    && fits_v(buffer@[k]@, 0x4_0000_0000_0000),
            decreases 32 - di,
        {
            let mut dj: usize = 0;
            while dj < PATCH_SIZE
                invariant
                    renderer_wf(self@),
                    crate::scene::scene_wf(scene@),
                    n_width == self@.width as int / 32,
                    col0 == (p as int % n_width as int) * 32,
                    row0 == (p as int / n_width as int) * 32,
                    col0 + 32 <= self@.width,
                    row0 + 32 <= self@.height,
                    0 <= di < 32,
                    0 <= dj <= 32,
                    buffer@.len() == di * 32 + dj,
                    forall|k: int| 0 <= k < di * 32 + dj ==> #[trigger] buffer@[k]@
                        == pixel_spec(self@, scene@, col0 + k % 32, row0 + k / 32),
                    forall|k: int| 0 <= k < di * 32 + dj ==> crate::vec3::nonneg_v(
                        #[trigger] buffer@[k]@,
                    ) && fits_v(buffer@[k]@, 0x4_0000_0000_0000),
                decreases 32 - dj,
            {
                let dir = self.backproject(col0 + dj, row0 + di);
                let background = Vec3 { x: 6554, y: 6554, z: 6554 };
                proof {
                    assert(forall|k: int| 0 <= k < scene.shapes@.len()
                        ==> #[trigger] scene.shapes@[k]@ == scene@.shapes[k]);
                }
                let sample = cast_ray(
                    &scene.camera,
                    dir,
                    &scene.shapes,
                    &scene.lights,
                    &background,
                    1,
                );
                proof {
                    lemma_rad_max_bound(1);
                }
                buffer.push(sample);
                proof {
                    let k = di as int * 32 + dj as int;
                    assert(k % 32 == dj as int && k / 32 == di as int) by (nonlinear_arith)
                        requires
                            k == di as int * 32 + dj as int,
                            0 <= dj < 32,
                            0 <= di < 32,
                    ;
                }
                dj = dj + 1;
            }
            di = di + 1;
        }
        buffer
    }
}

/// Whether the pixel at column `i`, row `j` falls inside some patch (the
/// patch grid is rounded down, so a fringe narrower than a patch is left
/// out).
pub open spec fn covered_s(r: RendM, i: int, j: int) -> bool {
    i < (r.width / 32) * 32 && j < (r.height / 32) * 32
}

/// The linear index of the patch holding column `i`, row `j`.
pub open spec fn patch_of_s(r: RendM, i: int, j: int) -> int {
    (j / 32) * (r.width / 32) + i / 32
}

/// What a render leaves in the framebuffer: every pixel inside a patch
/// carries its cast radiance; pixels outside every patch are left as they
/// were.
pub open spec fn render_spec(rend: RendM, scene: crate::scene::SceneM, f: crate::framebuffer::FbM)
    -> crate::framebuffer::FbM {
    crate::framebuffer::FbM {
        width: f.width,
        height: f.height,
        buffer: Seq::new(
            f.buffer.len(),
            |n: int|
                {
                    let i = n % f.width;
                    let j = n / f.width;
                    if covered_s(rend, i, j) {
                        pixel_spec(rend, scene, i, j)
                    } else {
                        f.buffer[n]
                    }
                },
        ),
    }
}

/// A linear framebuffer index splits into its column and row.
proof fn lemma_cell_index(wdt: int, i: int, j: int)
    requires
        wdt > 0,
        0 <= i < wdt,
        0 <= j,
    ensures
        (j * wdt + i) % wdt == i,
        (j * wdt + i) / wdt == j,
{
    vstd::arithmetic::div_mod::lemma_fundamental_div_mod_converse(j * wdt + i, wdt, j, i);
}

/// Within one patch, the local index determines the cell: a cell of patch
/// `p` whose local row-major index is `k` sits exactly at the patch's
/// corner plus the split of `k`.
proof fn lemma_patch_cell_unique(
    w: int,
    n_w: int,
    p: int,
    col0: int,
    row0: int,
    ni: int,
    nj: int,
    k: int,
)
    requires
        w >= 32,
        n_w == w / 32,
        n_w >= 1,
        0 <= ni < n_w * 32,
        0 <= nj,
        p >= 0,
        col0 == (p % n_w) * 32,
        row0 == (p / n_w) * 32,
        (nj / 32) * n_w + ni / 32 == p,
        (nj - row0) * 32 + (ni - col0) == k,
        0 <= k < 1024,
    ensures
        ni == col0 + k % 32,
        nj == row0 + k / 32,
{
    assert(ni / 32 < n_w) by (nonlinear_arith)
        requires
            0 <= ni < n_w * 32,
    ;
    vstd::arithmetic::div_mod::lemma_div_pos_is_pos(ni, 32);
    vstd::arithmetic::div_mod::lemma_div_pos_is_pos(nj, 32);
    vstd::arithmetic::div_mod::lemma_fundamental_div_mod_converse(p, n_w, nj / 32, ni / 32);
    vstd::arithmetic::div_mod::lemma_fundamental_div_mod(ni, 32);
    vstd::arithmetic::div_mod::lemma_fundamental_div_mod(nj, 32);
    assert(ni - col0 == ni % 32) by (nonlinear_arith)
        requires
            col0 == (ni / 32) * 32,
            ni == 32 * (ni / 32) + ni % 32,
    ;
    assert(nj - row0 == nj % 32) by (nonlinear_arith)
        requires
            row0 == (nj / 32) * 32,
            nj == 32 * (nj / 32) + nj % 32,
    ;
    vstd::arithmetic::div_mod::lemma_fundamental_div_mod_converse(k, 32, nj % 32, ni % 32);
}

impl Renderer {
    /// Render the scene into the framebuffer, patch by patch, exactly as
    /// `render_spec` states it: each patch's samples land at its fixed
    /// rectangle whatever order the patches are produced in, so the result
    /// is a function of the renderer, the scene, and the frame's prior
    /// contents alone.
    pub fn render(&self, frame: &mut FrameBuffer, scene: &crate::scene::Scene)
        requires
            renderer_wf(self@),
            crate::scene::scene_wf(scene@),
            crate::framebuffer::fb_wf(old(frame)@),
            old(frame)@.width == self@.width,
            old(frame)@.height == self@.height,
        ensures
            final(frame)@ == render_spec(self@, scene@, old(frame)@),
            crate::framebuffer::fb_wf(final(frame)@),
    {
        let n_width = self.width / PATCH_SIZE;
        let n_height = self.height / PATCH_SIZE;
        proof {
            assert(n_width as int * n_height as int <= 512 * 512) by (nonlinear_arith)
                requires
                    0 <= n_width <= 512,
                    0 <= n_height <= 512,
            ;
        }
        let n_patches = n_width * n_height;

        let ghost w = self@.width;
        let ghost h = self@.height;
        let mut p: usize = 0;
        while p < n_patches
            invariant
                renderer_wf(self@),
                crate::scene::scene_wf(scene@),
                crate::framebuffer::fb_wf(old(frame)@),
                old(frame)@.width == w,
                old(frame)@.height == h,
                w == self@.width,
                h == self@.height,
                n_width as int == w / 32,
                n_height as int == h / 32,
                n_patches == n_width as int * n_height as int,
                0 <= p <= n_patches,
                frame.width == old(frame).width,
                frame.height == old(frame).height,
                frame@.buffer.len() == old(frame)@.buffer.len(),
                crate::framebuffer::fb_wf(frame@),
                forall|n: int| 0 <= n < frame@.buffer.len() ==> #[trigger] frame@.buffer[n] == (
                if covered_s(self@, n % w, n / w) && patch_of_s(self@, n % w, n / w) < p {
                    pixel_spec(self@, scene@, n % w, n / w)
                } else {
                    old(frame)@.buffer[n]
                }),
            decreases n_patches - p,
        {
            proof {
                assert((p as int) / (n_width as int) < n_height as int) by (nonlinear_arith)
                    requires
                        n_width >= 1,
                        p < n_width as int * n_height as int,
                ;
                assert((p as int) % (n_width as int) < n_width as int);
                assert(n_width as int * 32 <= w) by {
                    vstd::arithmetic::div_mod::lemma_fundamental_div_mod(w, 32);
                };
                assert(n_height as int * 32 <= h) by {
                    vstd::arithmetic::div_mod::lemma_fundamental_div_mod(h, 32);
                };
            }
            let render_patch = self.render_patch(scene, p);
            let col0 = (p % n_width) * PATCH_SIZE;
            let row0 = (p / n_width) * PATCH_SIZE;
            proof {
                assert(col0 + 32 <= n_width as int * 32) by (nonlinear_arith)
                    requires
                        col0 == (p as int % n_width as int) * 32,
                        (p as int) % (n_width as int) < n_width as int,
                ;
                assert(row0 + 32 <= n_height as int * 32) by (nonlinear_arith)
                    requires
                        row0 == (p as int / n_width as int) * 32,
                        (p as int) / (n_width as int) < n_height as int,
                ;
            }
            let mut k: usize = 0;
            while k < PATCH_SIZE * PATCH_SIZE
                invariant
                    renderer_wf(self@),
                    crate::scene::scene_wf(scene@),
                    crate::framebuffer::fb_wf(old(frame)@),
                    old(frame)@.width == w,
                    old(frame)@.height == h,
                    w == self@.width,
                    h == self@.height,
                    n_width as int == w / 32,
                    n_height as int == h / 32,
                    n_patches == n_width as int * n_height as int,
                    0 <= p < n_patches,
                    n_width >= 1,
                    col0 == (p as int % n_width as int) * 32,
                    row0 == (p as int / n_width as int) * 32,
                    col0 + 32 <= n_width as int * 32 <= w,
                    row0 + 32 <= n_height as int * 32 <= h,
                    render_patch@.len() == PATCH_SIZE * PATCH_SIZE,
                    forall|q: int| 0 <= q < PATCH_SIZE * PATCH_SIZE
                        ==> #[trigger] render_patch@[q]@ == pixel_spec(
                        self@,
                        scene@,
                        col0 + q % 32,
                        row0 + q / 32,
                    ),
                    forall|q: int| 0 <= q < PATCH_SIZE * PATCH_SIZE ==> crate::vec3::nonneg_v(
                        #[trigger] render_patch@[q]@,
                    ) && render_patch@[q]@.x <= 0x4_0000_0000_0000 && render_patch@[q]@.y
                        <= 0x4_0000_0000_0000 && render_patch@[q]@.z <= 0x4_0000_0000_0000,
                    0 <= k <= PATCH_SIZE * PATCH_SIZE,
                    frame.width == old(frame).width,
                    frame.height == old(frame).height,
                    frame@.buffer.len() == old(frame)@.buffer.len(),
                    crate::framebuffer::fb_wf(frame@),
                    forall|n: int| 0 <= n < frame@.buffer.len() ==> #[trigger] frame@.buffer[n]
                        == (if covered_s(self@, n % w, n / w) && (patch_of_s(
                        self@,
                        n % w,
                        n / w,
                    ) < p || (patch_of_s(self@, n % w, n / w) == p && 0 <= (n / w - row0) * 32 + (
                    n % w - col0) < k)) {
                        pixel_spec(self@, scene@, n % w, n / w)
                    } else {
                        old(frame)@.buffer[n]
                    }),
                decreases PATCH_SIZE * PATCH_SIZE - k,
            {
                let i = col0 + k % PATCH_SIZE;
                let j = row0 + k / PATCH_SIZE;
                proof {
                    assert((k as int) / 32 < 32 && (k as int) % 32 < 32) by (nonlinear_arith)
                        requires
                            0 <= k < 1024,
                    ;
                    assert(j * w + i < h * w) by (nonlinear_arith)
                        requires
                            0 <= i < w,
                            0 <= j < h,
                    ;
                    assert(h * w == w * h) by (nonlinear_arith);
                    assert(frame@.buffer.len() == w * h);
                    lemma_cell_index(w, i as int, j as int);
                    // The written cell belongs to patch p, at local index k.
                    vstd::arithmetic::div_mod::lemma_fundamental_div_mod_converse(
                        i as int,
                        32,
                        p as int % n_width as int,
                        k as int % 32,
                    );
                    vstd::arithmetic::div_mod::lemma_fundamental_div_mod_converse(
                        j as int,
                        32,
                        p as int / n_width as int,
                        k as int / 32,
                    );
                    vstd::arithmetic::div_mod::lemma_fundamental_div_mod(p as int, n_width as int);
                    assert(patch_of_s(self@, i as int, j as int) == p) by (nonlinear_arith)
                        requires
                            patch_of_s(self@, i as int, j as int) == (j as int / 32) * (w / 32)
                                + (i as int) / 32,
                            (i as int) / 32 == p as int % n_width as int,
                            (j as int) / 32 == p as int / n_width as int,
                            n_width as int == w / 32,
                            p as int == n_width as int * (p as int / n_width as int) + p as int
                                % n_width as int,
                    ;
                    assert(covered_s(self@, i as int, j as int));
                    assert((j as int - row0) * 32 + (i as int - col0) == k) by (nonlinear_arith)
                        requires
                            i as int == col0 + k as int % 32,
                            j as int == row0 + k as int / 32,
                            k as int == 32 * (k as int / 32) + k as int % 32,
                    ;
                    vstd::arithmetic::div_mod::lemma_fundamental_div_mod(k as int, 32);
                }
                proof {
                    assert(j * frame.width + i <= 16384 * 16384) by (nonlinear_arith)
                        requires
                            0 <= j < 16384,
                            0 <= i < 16384,
                            frame.width <= 16384,
                    ;
                }
                let sample = render_patch[k];
                let idx = j * frame.width + i;
                let ghost pre = frame@.buffer;
                frame.buffer.set(idx, sample);
                proof {
                    assert(frame@.buffer.len() == pre.len());
                    assert(frame@.buffer[idx as int] == sample@);
                    assert forall|n: int| 0 <= n < frame@.buffer.len() && n != idx implies
                        #[trigger] frame@.buffer[n] == pre[n] by {};
                    assert(crate::vec3::nonneg_v(sample@));
                    assert(sample@.x <= 0x4_0000_0000_0000 && sample@.y <= 0x4_0000_0000_0000
                        && sample@.z <= 0x4_0000_0000_0000);
                    assert forall|n: int| 0 <= n < frame@.buffer.len() implies #[trigger] frame@
                        .buffer[n] == (if covered_s(self@, n % w, n / w) && (patch_of_s(
                        self@,
                        n % w,
                        n / w,
                    ) < p || (patch_of_s(self@, n % w, n / w) == p && 0 <= (n / w - row0) * 32 + (
                    n % w - col0) < k + 1)) {
                        pixel_spec(self@, scene@, n % w, n / w)
                    } else {
                        old(frame)@.buffer[n]
                    }) by {
                        vstd::arithmetic::div_mod::lemma_fundamental_div_mod(n, w);
                        let ni = n % w;
                        let nj = n / w;
                        if n == idx as int {
                            assert(ni == i as int && nj == j as int);
                            assert(frame@.buffer[n] == render_patch@[k as int]@);
                        } else {
                            if ni == i as int && nj == j as int {
                                assert(n == nj * w + ni) by (nonlinear_arith)
                                    requires
                                        n == w * (n / w) + n % w,
                                        ni == n % w,
                                        nj == n / w,
                                ;
                                assert(false);
                            }
                            if covered_s(self@, ni, nj) && patch_of_s(self@, ni, nj) == p && (nj
                                - row0) * 32 + (ni - col0) == k {
                                lemma_patch_cell_unique(
                                    w,
                                    n_width as int,
                                    p as int,
                                    col0 as int,
                                    row0 as int,
                                    ni,
                                    nj,
                                    k as int,
                                );
                                assert(false);
                            }
                        }
                    };
                }
                k = k + 1;
            }
            p = p + 1;
            proof {
                assert forall|n: int| 0 <= n < frame@.buffer.len() implies #[trigger] frame@
                    .buffer[n] == (if covered_s(self@, n % w, n / w) && patch_of_s(
                    self@,
                    n % w,
                    n / w,
                ) < p {
                    pixel_spec(self@, scene@, n % w, n / w)
                } else {
                    old(frame)@.buffer[n]
                }) by {
                    let ni = n % w;
                    let nj = n / w;
                    if covered_s(self@, ni, nj) && patch_of_s(self@, ni, nj) == p - 1 {
                        assert(0 <= ni && 0 <= nj);
                        assert(ni < n_width as int * 32);
                        assert(ni / 32 < n_width as int) by (nonlinear_arith)
                            requires
                                0 <= ni < n_width as int * 32,
                        ;
                        vstd::arithmetic::div_mod::lemma_div_pos_is_pos(ni, 32);
                        vstd::arithmetic::div_mod::lemma_div_pos_is_pos(nj, 32);
                        vstd::arithmetic::div_mod::lemma_fundamental_div_mod_converse(
                            p - 1,
                            n_width as int,
                            nj / 32,
                            ni / 32,
                        );
                        vstd::arithmetic::div_mod::lemma_fundamental_div_mod(ni, 32);
                        vstd::arithmetic::div_mod::lemma_fundamental_div_mod(nj, 32);
                        assert(ni - col0 == ni % 32) by (nonlinear_arith)
                            requires
                                col0 == (ni / 32) * 32,
                                ni == 32 * (ni / 32) + ni % 32,
                        ;
                        assert(nj - row0 == nj % 32) by (nonlinear_arith)
                            requires
                                row0 == (nj / 32) * 32,
                                nj == 32 * (nj / 32) + nj % 32,
                        ;
                        assert(0 <= (nj - row0) * 32 + (ni - col0) < 1024) by (nonlinear_arith)
                            requires
                                nj - row0 == nj % 32,
                                ni - col0 == ni % 32,
                                0 <= ni % 32 < 32,
                                0 <= nj % 32 < 32,
                        ;
                    }
                };
            }
        }
        proof {
            assert forall|n: int| 0 <= n < frame@.buffer.len() implies #[trigger] frame@.buffer[n]
                == render_spec(self@, scene@, old(frame)@).buffer[n] by {
                let ni = n % w;
                let nj = n / w;
                if covered_s(self@, ni, nj) {
                    assert(patch_of_s(self@, ni, nj) < n_patches) by (nonlinear_arith)
                        requires
                            patch_of_s(self@, ni, nj) == (nj / 32) * (w / 32) + ni / 32,
                            n_patches == (w / 32) * (h / 32),
                            0 <= ni < (w / 32) * 32,
                            0 <= nj < (h / 32) * 32,
                            ni == 32 * (ni / 32) + ni % 32,
                            nj == 32 * (nj / 32) + nj % 32,
                            0 <= ni % 32 < 32,
                            0 <= nj % 32 < 32,
                    ;
                }
            };
            assert(final(frame)@.buffer =~= render_spec(self@, scene@, old(frame)@).buffer);
        }
    }
}

/// Determinism: when the image dimensions are multiples of the patch side,
/// every pixel is covered, so what a render leaves in the framebuffer is a
/// function of the renderer and the scene alone — two renders at the same
/// resolution agree whatever the frames held before.
pub proof fn lemma_render_deterministic(
    rend: RendM,
    scene: crate::scene::SceneM,
    f1: crate::framebuffer::FbM,
    f2: crate::framebuffer::FbM,
)
    requires
        renderer_wf(rend),
        f1.width == rend.width,
        f1.height == rend.height,
        f2.width == rend.width,
        f2.height == rend.height,
        f1.buffer.len() == f1.width * f1.height,
        f2.buffer.len() == f2.width * f2.height,
        rend.width % 32 == 0,
        rend.height % 32 == 0,
    ensures
        render_spec(rend, scene, f1) == render_spec(rend, scene, f2),
{
    let w = rend.width;
    let h = rend.height;
    vstd::arithmetic::div_mod::lemma_fundamental_div_mod(w, 32);
    vstd::arithmetic::div_mod::lemma_fundamental_div_mod(h, 32);
    assert forall|n: int| 0 <= n < f1.buffer.len() implies #[trigger] render_spec(
        rend,
        scene,
        f1,
    ).buffer[n] == render_spec(rend, scene, f2).buffer[n] by {
        let i = n % w;
        let j = n / w;
        vstd::arithmetic::div_mod::lemma_fundamental_div_mod(n, w);
        assert(0 <= i < w);
        assert(0 <= j < h) by (nonlinear_arith)
            requires
                0 <= n < w * h,
                w >= 1,
                j == n / w,
                n == w * (n / w) + n % w,
                0 <= n % w < w,
        ;
        assert(covered_s(rend, i, j));
    };
    assert(render_spec(rend, scene, f1).buffer =~= render_spec(rend, scene, f2).buffer);
}

} // verus!
