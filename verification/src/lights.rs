//! Packing lights into the uniform that shaders read.

use crate::float_bits::{FloatBits, Vec3, zero};
use vstd::prelude::*;

verus! {

/// A declared directional light.
#[derive(Debug, Clone, Copy)]
pub struct DirectionalLight {
    pub direction: Vec3,
    pub color: Vec3,
    pub intensity: FloatBits,
}

/// A declared point light.
#[derive(Debug, Clone, Copy)]
pub struct PointLight {
    pub position: Vec3,
    pub color: Vec3,
    pub intensity: FloatBits,
    pub range: FloatBits,
}

/// The packed lights: `directional` and `point` are filled up with lights of zeros.
#[derive(Debug)]
pub struct LightUniforms {
    pub directional: Vec<DirectionalLight>,
    pub point: Vec<PointLight>,
    pub num_directional: i32,
    pub num_point: i32,
    pub ambient_intensity: FloatBits,
}

/// A vector of zeros.
pub open spec fn is_zero3(v: Vec3) -> bool {
    v[0] == zero() && v[1] == zero() && v[2] == zero()
}

/// A directional light of zeros.
pub open spec fn is_dark(l: DirectionalLight) -> bool {
    is_zero3(l.direction) && is_zero3(l.color) && l.intensity == zero()
}

/// A point light of zeros.
pub open spec fn is_dark_point(l: PointLight) -> bool {
    is_zero3(l.position) && is_zero3(l.color) && l.intensity == zero() && l.range == zero()
}

/// The smaller of two counts.
pub open spec fn at_most(n: nat, limit: usize) -> nat {
    if n <= limit {
        n
    } else {
        limit as nat
    }
}

/// Pack the lights: at most `max_directional` and `max_point` of them, in order, filled
/// up with zeros. Without any light the fallback is used. The ambient intensity is
/// carried either way.
pub fn build_light_uniforms(
    dir_lights: &Vec<DirectionalLight>,
    pt_lights: &Vec<PointLight>,
    ambient_intensity: FloatBits,
    fallback: LightUniforms,
    max_directional: usize,
    max_point: usize,
) -> (r: LightUniforms)
    requires
        max_directional <= i32::MAX,
        max_point <= i32::MAX,
    ensures
        r.ambient_intensity == ambient_intensity,
        dir_lights@.len() == 0 && pt_lights@.len() == 0 ==> r == (LightUniforms {
            ambient_intensity,
            ..fallback
        }),
        dir_lights@.len() > 0 || pt_lights@.len() > 0 ==> {
            &&& r.num_directional == at_most(dir_lights@.len(), max_directional)
            &&& r.num_point == at_most(pt_lights@.len(), max_point)
            &&& r.directional@.len() == max_directional
            &&& r.point@.len() == max_point
            &&& forall|i: int|
                0 <= i < max_directional ==> if i < dir_lights@.len() {
                    #[trigger] r.directional@[i] == dir_lights@[i]
                } else {
                    is_dark(r.directional@[i])
                }
            &&& forall|i: int|
                0 <= i < max_point ==> if i < pt_lights@.len() {
                    #[trigger] r.point@[i] == pt_lights@[i]
                } else {
                    is_dark_point(r.point@[i])
                }
        },
{
    if dir_lights.len() == 0 && pt_lights.len() == 0 {
        return LightUniforms { ambient_intensity, ..fallback };
    }
    let z: FloatBits = FloatBits::new(0);
    let none: Vec3 = [z, z, z];
    let mut directional: Vec<DirectionalLight> = Vec::new();
    let mut i: usize = 0;
    while i < max_directional
        invariant
            i <= max_directional,
            is_zero3(none),
            z == zero(),
            directional@.len() == i,
            forall|j: int|
                0 <= j < i ==> if j < dir_lights@.len() {
                    #[trigger] directional@[j] == dir_lights@[j]
                } else {
                    is_dark(directional@[j])
                },
        decreases max_directional - i,
    {
        if i < dir_lights.len() {
            directional.push(dir_lights[i]);
        } else {
            directional.push(DirectionalLight { direction: none, color: none, intensity: z });
        }
        i = i + 1;
    }
    let mut point: Vec<PointLight> = Vec::new();
    let mut k: usize = 0;
    while k < max_point
        invariant
            k <= max_point,
            is_zero3(none),
            z == zero(),
            point@.len() == k,
            forall|j: int|
                0 <= j < k ==> if j < pt_lights@.len() {
                    #[trigger] point@[j] == pt_lights@[j]
                } else {
                    is_dark_point(point@[j])
                },
        decreases max_point - k,
    {
        if k < pt_lights.len() {
            point.push(pt_lights[k]);
        } else {
            point.push(PointLight { position: none, color: none, intensity: z, range: z });
        }
        k = k + 1;
    }
    let num_directional: i32 = if dir_lights.len() <= max_directional {
        dir_lights.len() as i32
    } else {
        max_directional as i32
    };
    let num_point: i32 = if pt_lights.len() <= max_point {
        pt_lights.len() as i32
    } else {
        max_point as i32
    };
    LightUniforms { directional, point, num_directional, num_point, ambient_intensity }
}

/// What fills up the packed lights gives no light, and no more lights are counted than are
/// declared and than there is room for.
pub proof fn law_filling_is_dark(d: DirectionalLight, p: PointLight, n: nat, limit: usize)
    ensures
        is_dark(d) ==> d.intensity.bits == 0 && d.color[0].bits == 0 && d.color[1].bits == 0
            && d.color[2].bits == 0,
        is_dark_point(p) ==> p.intensity.bits == 0 && p.range.bits == 0 && p.color[0].bits == 0
            && p.color[1].bits == 0 && p.color[2].bits == 0,
        at_most(n, limit) <= n,
        at_most(n, limit) <= limit,
        at_most(n, limit) == n || at_most(n, limit) == limit,
{
}

} // verus!
