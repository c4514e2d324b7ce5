//! Point lights: a position, an L-infinity-normalized colour, and an
//! intensity.

use vstd::prelude::*;

use crate::fixed::SCALE;
use crate::shapes::COORD_MAX;
use crate::vec3::V3;
use crate::vec3::Vec3;
use crate::vec3::fits_v;
use crate::vec3::max3_s;
use crate::vec3::normalized_l0_s;

verus! {

/// Intensities stay within this bound.
pub const INTENSITY_MAX: i128 = 0x10_0000_0000;

/// The mathematical model of a light.
pub struct LightM {
    pub position: V3,
    pub color: V3,
    pub intensity: int,
}

/// A point light.
#[derive(Clone, Copy, Debug)]
pub struct Light {
    pub position: Vec3,
    pub color: Vec3,
    pub intensity: i128,
}

impl View for Light {
    type V = LightM;

    open spec fn view(&self) -> LightM {
        LightM { position: self.position@, color: self.color@, intensity: self.intensity as int }
    }
}

/// A light in range: each colour channel lies in `[0, 1]`.
pub open spec fn light_wf(l: LightM) -> bool {
    &&& fits_v(l.position, COORD_MAX as int)
    &&& 0 <= l.color.x <= SCALE as int
    &&& 0 <= l.color.y <= SCALE as int
    &&& 0 <= l.color.z <= SCALE as int
    &&& 0 <= l.intensity <= INTENSITY_MAX as int
}

/// The light a `create_light` call builds: the colour is normalized by its
/// greatest channel.
pub open spec fn light_make_s(position: V3, color: V3, intensity: int) -> LightM {
    LightM { position, color: normalized_l0_s(color), intensity }
}

/// A light from its position, colour and intensity; the colour is
/// L-infinity-normalized so that its greatest channel becomes one.
pub fn create_light(position: Vec3, color: Vec3, intensity: i128) -> (r: Light)
    requires
        fits_v(position@, COORD_MAX as int),
        0 <= color@.x <= COORD_MAX as int,
        0 <= color@.y <= COORD_MAX as int,
        0 <= color@.z <= COORD_MAX as int,
        0 <= intensity <= INTENSITY_MAX,
    ensures
        r@ == light_make_s(position@, color@, intensity as int),
        light_wf(r@),
{
    proof {
        let m = max3_s(color@);
        if m > 0 {
            crate::fixed::lemma_tdiv_bound(color@.x * SCALE as int, m, m * SCALE as int);
            crate::fixed::lemma_tdiv_bound(color@.y * SCALE as int, m, m * SCALE as int);
            crate::fixed::lemma_tdiv_bound(color@.z * SCALE as int, m, m * SCALE as int);
            vstd::arithmetic::div_mod::lemma_div_multiples_vanish(SCALE as int, m);
            assert(m * SCALE as int == SCALE as int * m) by (nonlinear_arith);
            assert(color@.x * SCALE as int <= m * SCALE as int) by (nonlinear_arith)
                requires
                    color@.x <= m,
                    SCALE as int > 0,
            ;
            assert(color@.y * SCALE as int <= m * SCALE as int) by (nonlinear_arith)
                requires
                    color@.y <= m,
                    SCALE as int > 0,
            ;
            assert(color@.z * SCALE as int <= m * SCALE as int) by (nonlinear_arith)
                requires
                    color@.z <= m,
                    SCALE as int > 0,
            ;
            assert(color@.x * SCALE as int >= 0) by (nonlinear_arith)
                requires
                    color@.x >= 0,
            ;
            assert(color@.y * SCALE as int >= 0) by (nonlinear_arith)
                requires
                    color@.y >= 0,
            ;
            assert(color@.z * SCALE as int >= 0) by (nonlinear_arith)
                requires
                    color@.z >= 0,
            ;
            crate::fixed::lemma_tdiv_mono(0, color@.x * SCALE as int, m);
            crate::fixed::lemma_tdiv_mono(0, color@.y * SCALE as int, m);
            crate::fixed::lemma_tdiv_mono(0, color@.z * SCALE as int, m);
            crate::fixed::lemma_tdiv_mono(color@.x * SCALE as int, m * SCALE as int, m);
            crate::fixed::lemma_tdiv_mono(color@.y * SCALE as int, m * SCALE as int, m);
            crate::fixed::lemma_tdiv_mono(color@.z * SCALE as int, m * SCALE as int, m);
        }
    }
    Light { position, color: color.normalized_l0(), intensity }
}

} // verus!
