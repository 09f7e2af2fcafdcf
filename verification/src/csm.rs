//! Cascaded shadow uniforms.

use crate::float_bits::{FloatBits, Mat4, Vec4, infinity, one, zero};
use vstd::prelude::*;

verus! {

/// The cascades of a shadow map.
pub const NUM_SHADOW_CASCADES: usize = 4;

/// The matrices of the cascades and the depths at which they end.
#[derive(Debug, Clone, Copy)]
pub struct ShadowUniforms {
    pub light_vps: [Mat4; 4],
    pub cascade_splits: Vec4,
}

/// The identity matrix.
pub open spec fn is_identity(m: Mat4) -> bool {
    forall|c: int, r: int|
        0 <= c < 4 && 0 <= r < 4 ==> #[trigger] m[c][r] == if c == r {
            one()
        } else {
            zero()
        }
}

fn identity() -> (r: Mat4)
    ensures
        is_identity(r),
{
    let o: FloatBits = FloatBits::new(0x3f80_0000);
    let z: FloatBits = FloatBits::new(0);
    [[o, z, z, z], [z, o, z, z], [z, z, o, z], [z, z, z, o]]
}

/// The uniforms without a shadow pass: identity matrices, and splits at infinity, so
/// that every depth falls into the first cascade.
pub fn empty_shadow_uniforms() -> (r: ShadowUniforms)
    ensures
        forall|i: int| 0 <= i < NUM_SHADOW_CASCADES ==> is_identity(#[trigger] r.light_vps[i]),
        forall|i: int| 0 <= i < NUM_SHADOW_CASCADES ==> #[trigger] r.cascade_splits[i] == infinity(),
{
    let m: Mat4 = identity();
    let inf: FloatBits = FloatBits::new(0x7f80_0000);
    ShadowUniforms { light_vps: [m, m, m, m], cascade_splits: [inf, inf, inf, inf] }
}

/// The first cascade whose split lies past a depth; none where there is none.
pub open spec fn picks_cascade(splits: Vec4, depth: FloatBits, i: int) -> bool {
    &&& 0 <= i < NUM_SHADOW_CASCADES
    &&& depth.less(splits[i])
    &&& forall|j: int| 0 <= j < i ==> !depth.less(#[trigger] splits[j])
}

/// Without a shadow pass every finite depth falls into the first cascade.
pub proof fn law_empty_uniforms_pick_first(splits: Vec4, depth: FloatBits)
    requires
        forall|i: int| 0 <= i < NUM_SHADOW_CASCADES ==> #[trigger] splits[i] == infinity(),
        depth.finite(),
    ensures
        picks_cascade(splits, depth, 0),
{
    assert(splits[0] == infinity());
}

/// The matrices without a shadow pass have ones on the diagonal and zeros elsewhere.
pub proof fn law_identity_by_its_patterns(m: Mat4, c: int, r: int)
    requires
        is_identity(m),
        0 <= c < 4,
        0 <= r < 4,
    ensures
        c == r ==> m[c][r].bits == 0x3f80_0000,
        c != r ==> m[c][r].bits == 0,
{
    let x = m[c][r];
}

} // verus!
