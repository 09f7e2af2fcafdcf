//! Planar reflections: which mirror planes share a render, and what a mirror shows.
//!
//! A plane is `[nx, ny, nz, d]` with `n . p + d = 0` for the points on it.

use crate::bvh::Bvh;
use crate::float_bits::{FloatBits, Mat4, SIGN, Vec3, Vec4, zero};
use crate::order::{ascending, sorted};
use vstd::prelude::*;

verus! {

/// The pattern of one millionth, the length under which a normal counts as none.
pub const MIN_NORMAL_BITS: u32 = 0x3586_37bd;

/// The pattern of 0.999, the least cosine between the normals of one surface.
pub const NORMAL_DOT_BITS: u32 = 0x3f7f_be77;

/// The pattern of a tenth, the most by which the offsets of one surface differ.
pub const OFFSET_BITS: u32 = 0x3dcc_cccd;

/// A value with its sign turned.
pub open spec fn negated(x: FloatBits) -> FloatBits {
    if x.bits >= SIGN {
        FloatBits { bits: (x.bits - SIGN) as u32 }
    } else {
        FloatBits { bits: (x.bits + SIGN) as u32 }
    }
}

/// A value without its sign.
pub open spec fn absolute(x: FloatBits) -> FloatBits {
    FloatBits { bits: x.magnitude() as u32 }
}

fn neg(x: FloatBits) -> (r: FloatBits)
    ensures
        r == negated(x),
{
    if x.bits >= SIGN {
        FloatBits::new(x.bits - SIGN)
    } else {
        FloatBits::new(x.bits + SIGN)
    }
}

fn abs(x: FloatBits) -> (r: FloatBits)
    ensures
        r == absolute(x),
{
    if x.bits >= SIGN {
        FloatBits::new(x.bits - SIGN)
    } else {
        x
    }
}

/// The transpose of a matrix.
pub fn transpose(m: &Mat4) -> (r: Mat4)
    ensures
        forall|c: int, w: int| 0 <= c < 4 && 0 <= w < 4 ==> #[trigger] r[c][w] == m[w][c],
{
    [
        [m[0][0], m[1][0], m[2][0], m[3][0]],
        [m[0][1], m[1][1], m[2][1], m[3][1]],
        [m[0][2], m[1][2], m[2][2], m[3][2]],
        [m[0][3], m[1][3], m[2][3], m[3][3]],
    ]
}

/// A plane turned by the side that a point lies on: `signed` is the point's distance
/// along the normal.
pub open spec fn is_turned(plane: Vec4, signed: FloatBits, r: Vec4) -> bool {
    forall|i: int|
        0 <= i < 4 ==> #[trigger] r[i] == if signed.less(zero()) {
            negated(plane[i])
        } else {
            plane[i]
        }
}

/// Turn a plane so that its normal points toward a point. `side` gives the point's
/// distance from the plane along the normal. A plane that faces the point already, or
/// holds it, stays.
pub fn orient_plane_toward<S: Fn(Vec4, Vec3) -> FloatBits>(
    plane: Vec4,
    point: Vec3,
    side: &S,
) -> (r: Vec4)
    requires
        forall|p: Vec4, q: Vec3| call_requires(*side, (p, q)),
    ensures
        exists|signed: FloatBits| #[trigger]
            call_ensures(*side, (plane, point), signed) && is_turned(plane, signed, r),
{
    let signed: FloatBits = side(plane, point);
    let r: Vec4 = if signed.lt(FloatBits::new(0)) {
        [neg(plane[0]), neg(plane[1]), neg(plane[2]), neg(plane[3])]
    } else {
        plane
    };
    assert(call_ensures(*side, (plane, point), signed) && is_turned(plane, signed, r));
    r
}

/// The planes grouped into slots: `slots[i]` is the slot of a plane, none where it
/// falls back to the probe cube, and `representatives` has the plane of each slot.
#[derive(Debug)]
pub struct PlanarAssignment {
    pub slots: Vec<Option<usize>>,
    pub representatives: Vec<Vec4>,
}

/// The offset of a plane whose normal is turned the way another one's points.
pub open spec fn aligned(d: FloatBits, offset: FloatBits) -> FloatBits {
    if d.less(zero()) {
        negated(offset)
    } else {
        offset
    }
}

/// Whether two planes are one surface, by given results: `d` is the dot product of the
/// normals and `g` the difference of the offsets.
pub open spec fn is_same(d: FloatBits, g: FloatBits) -> bool {
    &&& FloatBits { bits: NORMAL_DOT_BITS }.at_most(absolute(d))
    &&& absolute(g).at_most(FloatBits { bits: OFFSET_BITS })
}

/// Whether comparing two planes gives an answer: they are one surface where their
/// normals are nearly parallel, whichever way each points, and their offsets match.
pub open spec fn compares<
    D: Fn(Vec4, Vec4) -> FloatBits,
    G: Fn(FloatBits, FloatBits) -> FloatBits,
>(dot: D, gap: G, p: Vec4, r: Vec4, same: bool) -> bool {
    exists|d: FloatBits|
        {
            &&& #[trigger] call_ensures(dot, (p, r), d)
            &&& if (FloatBits { bits: NORMAL_DOT_BITS }).at_most(absolute(d)) {
                exists|g: FloatBits|
                    {
                        &&& #[trigger] call_ensures(gap, (p[3], aligned(d, r[3])), g)
                        &&& same == is_same(d, g)
                    }
            } else {
                !same
            }
        }
}

fn same_surface<D: Fn(Vec4, Vec4) -> FloatBits, G: Fn(FloatBits, FloatBits) -> FloatBits>(
    dot: &D,
    gap: &G,
    p: Vec4,
    r: Vec4,
) -> (same: bool)
    requires
        forall|a: Vec4, b: Vec4| call_requires(*dot, (a, b)),
        forall|a: FloatBits, b: FloatBits| call_requires(*gap, (a, b)),
    ensures
        compares(*dot, *gap, p, r, same),
{
    let d: FloatBits = dot(p, r);
    assert(call_ensures(*dot, (p, r), d));
    if FloatBits::new(NORMAL_DOT_BITS).le(abs(d)) {
        let offset: FloatBits = if d.lt(FloatBits::new(0)) {
            neg(r[3])
        } else {
            r[3]
        };
        let g: FloatBits = gap(p[3], offset);
        assert(call_ensures(*gap, (p[3], aligned(d, r[3])), g));
        abs(g).le(FloatBits::new(OFFSET_BITS))
    } else {
        false
    }
}

/// One plane's assignment. `p` is the normalised plane, none where its normal has no
/// length; `before` and `after` are the numbers of slots in use.
pub open spec fn is_assigned<
    D: Fn(Vec4, Vec4) -> FloatBits,
    G: Fn(FloatBits, FloatBits) -> FloatBits,
>(
    dot: D,
    gap: G,
    p: Option<Vec4>,
    reps: Seq<Vec4>,
    before: int,
    after: int,
    max_slots: int,
    slot: Option<usize>,
) -> bool {
    match p {
        None => slot is None && after == before,
        Some(p) => {
            ||| {
                &&& slot matches Some(s)
                &&& s < before
                &&& compares(dot, gap, p, reps[s as int], true)
                &&& forall|j: int| 0 <= j < s ==> compares(dot, gap, p, #[trigger] reps[j], false)
                &&& after == before
            }
            ||| {
                &&& forall|j: int|
                    0 <= j < before ==> compares(dot, gap, p, #[trigger] reps[j], false)
                &&& if before < max_slots {
                    &&& slot == Some(before as usize)
                    &&& after == before + 1
                    &&& reps[before] == p
                } else {
                    slot is None && after == before
                }
            }
        },
    }
}

/// Whether a plane has a given normal form: none where its length is too small.
pub open spec fn is_normal_form<N: Fn(Vec4) -> Vec4, L: Fn(Vec4) -> FloatBits>(
    normalize: N,
    length: L,
    raw: Vec4,
    p: Option<Vec4>,
) -> bool {
    exists|unit: Vec4, len: FloatBits|
        {
            &&& #[trigger] call_ensures(normalize, (raw,), unit)
            &&& #[trigger] call_ensures(length, (unit,), len)
            &&& p == if len.less(FloatBits { bits: MIN_NORMAL_BITS }) {
                None
            } else {
                Some(unit)
            }
        }
}

/// The assignment of the first `k` planes, by their normal forms `ps` and the numbers
/// `counts` of slots in use before each of them.
pub open spec fn assigns<
    N: Fn(Vec4) -> Vec4,
    L: Fn(Vec4) -> FloatBits,
    D: Fn(Vec4, Vec4) -> FloatBits,
    G: Fn(FloatBits, FloatBits) -> FloatBits,
>(
    fns: (N, L, D, G),
    planes: Seq<Vec4>,
    k: int,
    max_slots: int,
    reps: Seq<Vec4>,
    slots: Seq<Option<usize>>,
    ps: Seq<Option<Vec4>>,
    counts: Seq<int>,
) -> bool {
    &&& slots.len() == k
    &&& ps.len() == k
    &&& counts.len() == k + 1
    &&& counts[0] == 0
    &&& counts[k] == reps.len()
    &&& forall|i: int| 0 <= i <= k ==> 0 <= #[trigger] counts[i] <= reps.len()
    &&& forall|i: int|
        0 <= i < k ==> is_normal_form(fns.0, fns.1, planes[i], #[trigger] ps[i])
    &&& forall|i: int|
        0 <= i < k ==> is_assigned(
            fns.2,
            fns.3,
            ps[i],
            reps,
            counts[i],
            counts[i + 1],
            max_slots,
            #[trigger] slots[i],
        )
}

/// Group planes that are one surface, so that each surface is rendered once, in at most
/// `max_slots` slots. A plane on a surface that has a slot always shares it; only a new
/// surface past the budget has none. Earlier planes come first.
pub fn assign_planar_slots<
    N: Fn(Vec4) -> Vec4,
    L: Fn(Vec4) -> FloatBits,
    D: Fn(Vec4, Vec4) -> FloatBits,
    G: Fn(FloatBits, FloatBits) -> FloatBits,
>(planes: &Vec<Vec4>, max_slots: usize, normalize: &N, length: &L, dot: &D, gap: &G) -> (r:
    PlanarAssignment)
    requires
        forall|p: Vec4| call_requires(*normalize, (p,)),
        forall|p: Vec4| call_requires(*length, (p,)),
        forall|a: Vec4, b: Vec4| call_requires(*dot, (a, b)),
        forall|a: FloatBits, b: FloatBits| call_requires(*gap, (a, b)),
    ensures
        exists|ps: Seq<Option<Vec4>>, counts: Seq<int>| #[trigger]
            assigns(
                (*normalize, *length, *dot, *gap),
                planes@,
                planes@.len() as int,
                max_slots as int,
                r.representatives@,
                r.slots@,
                ps,
                counts,
            ),
        r.representatives@.len() <= max_slots,
        forall|i: int|
            0 <= i < r.slots@.len() ==> (#[trigger] r.slots@[i] matches Some(s) ==> s
                < r.representatives@.len()),
{
    let ghost mut ps: Seq<Option<Vec4>> = Seq::empty();
    let ghost mut counts: Seq<int> = seq![0int];
    let mut representatives: Vec<Vec4> = Vec::new();
    let mut slots: Vec<Option<usize>> = Vec::new();
    let mut i: usize = 0;
    while i < planes.len()
        invariant
            i <= planes@.len(),
            forall|p: Vec4| call_requires(*normalize, (p,)),
            forall|p: Vec4| call_requires(*length, (p,)),
            forall|a: Vec4, b: Vec4| call_requires(*dot, (a, b)),
            forall|a: FloatBits, b: FloatBits| call_requires(*gap, (a, b)),
            representatives@.len() <= max_slots,
            assigns(
                (*normalize, *length, *dot, *gap),
                planes@,
                i as int,
                max_slots as int,
                representatives@,
                slots@,
                ps,
                counts,
            ),
            forall|j: int|
                0 <= j < slots@.len() ==> (#[trigger] slots@[j] matches Some(s) ==> s
                    < representatives@.len()),
        decreases planes@.len() - i,
    {
        let ghost reps0 = representatives@;
        let ghost slots0 = slots@;
        let ghost ps0 = ps;
        let ghost counts0 = counts;
        let unit: Vec4 = normalize(planes[i]);
        let len: FloatBits = length(unit);
        assert(call_ensures(*normalize, (planes@[i as int],), unit));
        assert(call_ensures(*length, (unit,), len));
        if len.lt(FloatBits::new(MIN_NORMAL_BITS)) {
            slots.push(None);
            proof {
                ps = ps.push(None);
            }
        } else {
            let found: Option<usize> = find_surface(&representatives, unit, dot, gap);
            match found {
                Some(s) => {
                    slots.push(Some(s));
                },
                None => {
                    if representatives.len() < max_slots {
                        representatives.push(unit);
                        slots.push(Some(representatives.len() - 1));
                    } else {
                        slots.push(None);
                    }
                },
            }
            proof {
                ps = ps.push(Some(unit));
            }
        }
        proof {
            counts = counts.push(representatives@.len() as int);
            let reps = representatives@;
            assert(is_normal_form(*normalize, *length, planes@[i as int], ps[i as int]));
            assert(forall|j: int| 0 <= j < reps0.len() ==> reps[j] == reps0[j]);
            assert forall|j: int| 0 <= j < i + 1 implies is_assigned(
                *dot,
                *gap,
                ps[j],
                reps,
                counts[j],
                counts[j + 1],
                max_slots as int,
                #[trigger] slots@[j],
            ) by {
                if j < i {
                    assert(slots@[j] == slots0[j]);
                    assert(counts[j] == counts0[j] && counts[j + 1] == counts0[j + 1]);
                    assert(counts0[j + 1] <= reps0.len());
                    assert(is_assigned(
                        *dot,
                        *gap,
                        ps0[j],
                        reps0,
                        counts0[j],
                        counts0[j + 1],
                        max_slots as int,
                        slots0[j],
                    ));
                }
            }
            assert forall|j: int| 0 <= j < i + 1 implies is_normal_form(
                *normalize,
                *length,
                planes@[j],
                #[trigger] ps[j],
            ) by {
                if j < i {
                    assert(ps[j] == ps0[j]);
                }
            }
            assert forall|j: int| 0 <= j <= i + 1 implies 0 <= #[trigger] counts[j]
                <= reps.len() by {
                if j <= i {
                    assert(counts[j] == counts0[j]);
                }
            }
        }
        i = i + 1;
    }
    let r: PlanarAssignment = PlanarAssignment { slots, representatives };
    assert(assigns(
        (*normalize, *length, *dot, *gap),
        planes@,
        planes@.len() as int,
        max_slots as int,
        r.representatives@,
        r.slots@,
        ps,
        counts,
    ));
    r
}

/// The first representative on the same surface as a plane.
fn find_surface<D: Fn(Vec4, Vec4) -> FloatBits, G: Fn(FloatBits, FloatBits) -> FloatBits>(
    reps: &Vec<Vec4>,
    p: Vec4,
    dot: &D,
    gap: &G,
) -> (r: Option<usize>)
    requires
        forall|a: Vec4, b: Vec4| call_requires(*dot, (a, b)),
        forall|a: FloatBits, b: FloatBits| call_requires(*gap, (a, b)),
    ensures
        match r {
            Some(s) => {
                &&& s < reps@.len()
                &&& compares(*dot, *gap, p, reps@[s as int], true)
                &&& forall|j: int|
                    0 <= j < s ==> compares(*dot, *gap, p, #[trigger] reps@[j], false)
            },
            None => forall|j: int|
                0 <= j < reps@.len() ==> compares(*dot, *gap, p, #[trigger] reps@[j], false),
        },
{
    let mut k: usize = 0;
    while k < reps.len()
        invariant
            k <= reps@.len(),
            forall|a: Vec4, b: Vec4| call_requires(*dot, (a, b)),
            forall|a: FloatBits, b: FloatBits| call_requires(*gap, (a, b)),
            forall|j: int| 0 <= j < k ==> compares(*dot, *gap, p, #[trigger] reps@[j], false),
        decreases reps@.len() - k,
    {
        if same_surface(dot, gap, p, reps[k]) {
            return Some(k);
        }
        k = k + 1;
    }
    None
}

/// What a mirror shows: the draws that the tree finds in the mirrored view, in order,
/// and after them those that are always drawn. Nothing of `out` is kept.
pub fn reflected_visible_set<
    V: Fn(Vec3, Vec3) -> bool,
    R: Fn(Vec3, Vec3, FloatBits) -> bool,
>(bvh: &Bvh, visible: &V, in_range: &R, always_draw: &Vec<u32>, out: &mut Vec<u32>)
    requires
        bvh.well_formed(),
        forall|lo: Vec3, hi: Vec3| call_requires(*visible, (lo, hi)),
        forall|lo: Vec3, hi: Vec3, d: FloatBits| call_requires(*in_range, (lo, hi, d)),
    ensures
        exists|seen: Seq<u32>, inner: Seq<u32>|
            {
                &&& #[trigger] crate::bvh::query_gives(*bvh, *visible, *in_range, seen)
                &&& ascending(inner)
                &&& inner.to_multiset() == seen.to_multiset()
                &&& final(out)@ == #[trigger] (inner + always_draw@)
            },
{
    let seen: Vec<u32> = bvh.query(visible, in_range);
    let mut all: Vec<u32> = sorted(&seen);
    let ghost inner = all@;
    let mut i: usize = 0;
    while i < always_draw.len()
        invariant
            i <= always_draw@.len(),
            all@ == inner + always_draw@.subrange(0, i as int),
        decreases always_draw@.len() - i,
    {
        all.push(always_draw[i]);
        i = i + 1;
        assert(all@ =~= inner + always_draw@.subrange(0, i as int));
    }
    assert(always_draw@.subrange(0, i as int) =~= always_draw@);
    assert(crate::bvh::query_gives(*bvh, *visible, *in_range, seen@));
    *out = all;
}

/// Turning a plane around twice gives it back.
pub proof fn law_negation_is_an_involution(x: FloatBits)
    ensures
        negated(negated(x)) == x,
        absolute(negated(x)) == absolute(x),
{
}

/// A plane and its flip are one surface or not alike: turning both the normal, and
/// with it the dot product, and the offset leaves the offset to match the same.
pub proof fn law_alignment_is_sign_invariant(d: FloatBits, offset: FloatBits)
    requires
        !d.nan(),
        d.magnitude() != 0,
    ensures
        aligned(negated(d), negated(offset)) == aligned(d, offset),
{
}

/// Turning a sign changes the sign's bit alone, and dropping it clears that bit.
pub proof fn law_only_the_sign_is_turned(x: FloatBits)
    ensures
        x.bits < 0x8000_0000 ==> negated(x).bits == x.bits + 0x8000_0000 && absolute(x) == x,
        x.bits >= 0x8000_0000 ==> negated(x).bits == x.bits - 0x8000_0000 && absolute(x)
            == negated(x),
        !x.nan() ==> negated(x).rank() == -x.rank() && absolute(x).rank() >= 0,
{
}

/// A plane that faces the point, or holds it, stays; one that faces away is turned as a
/// whole, its offset with its normal.
pub proof fn law_plane_is_turned_as_a_whole(plane: Vec4, signed: FloatBits, r: Vec4, i: int)
    requires
        is_turned(plane, signed, r),
        0 <= i < 4,
    ensures
        signed.bits == 0 || signed.bits == 0x8000_0000 ==> r[i] == plane[i],
        0 < signed.bits <= 0x7f80_0000 ==> r[i] == plane[i],
        0x8000_0000 < signed.bits <= 0xff80_0000 ==> r[i].magnitude() == plane[i].magnitude()
            && r[i] != plane[i],
{
    let x = r[i];
}

/// Two planes are one surface exactly where the dot product of their normals is 0.999 or
/// more, whatever its sign, and their offsets are a tenth or less apart.
pub proof fn law_same_surface_by_the_patterns(d: FloatBits, g: FloatBits)
    ensures
        is_same(d, g) <==> {
            &&& 0x3f7f_be77 <= d.magnitude() <= 0x7f80_0000
            &&& g.magnitude() <= 0x3dcc_cccd
        },
{
}

/// A plane's slot is that of its own surface: of the plane itself, or of one that compares
/// as the same surface. A plane without a slot has no normal, or all slots are taken by
/// other surfaces.
pub proof fn law_slot_is_of_the_same_surface<
    N: Fn(Vec4) -> Vec4,
    L: Fn(Vec4) -> FloatBits,
    D: Fn(Vec4, Vec4) -> FloatBits,
    G: Fn(FloatBits, FloatBits) -> FloatBits,
>(
    fns: (N, L, D, G),
    planes: Seq<Vec4>,
    k: int,
    max_slots: int,
    reps: Seq<Vec4>,
    slots: Seq<Option<usize>>,
    ps: Seq<Option<Vec4>>,
    counts: Seq<int>,
    i: int,
)
    requires
        assigns(fns, planes, k, max_slots, reps, slots, ps, counts),
        0 <= i < k,
        reps.len() <= max_slots,
        reps.len() <= usize::MAX,
    ensures
        is_normal_form(fns.0, fns.1, planes[i], ps[i]),
        slots[i] matches Some(s) ==> {
            &&& s < reps.len()
            &&& ps[i] is Some
            &&& ps[i]->0 == reps[s as int] || compares(
                fns.2,
                fns.3,
                ps[i]->0,
                reps[s as int],
                true,
            )
            &&& forall|j: int|
                0 <= j < s ==> compares(fns.2, fns.3, ps[i]->0, #[trigger] reps[j], false)
        },
        slots[i] is None && ps[i] is Some ==> {
            &&& reps.len() == max_slots
            &&& forall|j: int|
                0 <= j < reps.len() ==> compares(fns.2, fns.3, ps[i]->0, #[trigger] reps[j], false)
        },
{
    assert(is_normal_form(fns.0, fns.1, planes[i], ps[i]));
    assert(0 <= counts[i] <= reps.len() && 0 <= counts[i + 1] <= reps.len());
    assert(is_assigned(
        fns.2,
        fns.3,
        ps[i],
        reps,
        counts[i],
        counts[i + 1],
        max_slots,
        slots[i],
    ));
}

/// A plane has a normal form exactly where its unit normal is a millionth long or longer.
pub proof fn law_degenerate_plane_has_no_form<N: Fn(Vec4) -> Vec4, L: Fn(Vec4) -> FloatBits>(
    normalize: N,
    length: L,
    raw: Vec4,
    p: Option<Vec4>,
    unit: Vec4,
    len: FloatBits,
)
    requires
        is_normal_form(normalize, length, raw, p),
        forall|u: Vec4| #[trigger] call_ensures(normalize, (raw,), u) ==> u == unit,
        forall|x: FloatBits| #[trigger] call_ensures(length, (unit,), x) ==> x == len,
    ensures
        0x3586_37bd <= len.bits <= 0x7f80_0000 ==> p == Some(unit),
        len.bits < 0x3586_37bd ==> p is None,
{
}

/// Two planes compare as one surface exactly where the dot product of their normals is 0.999
/// or more, whatever its sign, and their offsets are a tenth or less apart once the second
/// plane is turned the way the first one faces: `off` is the second plane's offset, with its
/// sign turned where the dot product is negative.
pub proof fn law_planes_compare_by_normal_and_offset<
    D: Fn(Vec4, Vec4) -> FloatBits,
    G: Fn(FloatBits, FloatBits) -> FloatBits,
>(dot: D, gap: G, p: Vec4, r: Vec4, same: bool, d: FloatBits, off: FloatBits, g: FloatBits)
    requires
        compares(dot, gap, p, r, same),
        forall|x: FloatBits| #[trigger] call_ensures(dot, (p, r), x) ==> x == d,
        d.bits < 0x8000_0000 ==> off == r[3],
        d.bits >= 0x8000_0000 && r[3].bits < 0x8000_0000 ==> off.bits == r[3].bits + 0x8000_0000,
        d.bits >= 0x8000_0000 && r[3].bits >= 0x8000_0000 ==> off.bits == r[3].bits - 0x8000_0000,
        forall|x: FloatBits| #[trigger] call_ensures(gap, (p[3], off), x) ==> x == g,
    ensures
        same <==> {
            &&& 0x3f7f_be77 <= d.magnitude() <= 0x7f80_0000
            &&& g.magnitude() <= 0x3dcc_cccd
        },
{
    let x = choose|x: FloatBits|
        {
            &&& #[trigger] call_ensures(dot, (p, r), x)
            &&& if (FloatBits { bits: NORMAL_DOT_BITS }).at_most(absolute(x)) {
                exists|y: FloatBits|
                    {
                        &&& #[trigger] call_ensures(gap, (p[3], aligned(x, r[3])), y)
                        &&& same == is_same(x, y)
                    }
            } else {
                !same
            }
        };
    assert(x == d);
    law_only_the_sign_is_turned(r[3]);
    if (FloatBits { bits: NORMAL_DOT_BITS }).at_most(absolute(d)) {
        assert(aligned(d, r[3]) == off);
    }
}

/// Every slot was opened by a plane that stands for it, and no plane that shares a slot opens
/// another.
pub proof fn law_each_slot_was_opened_by_a_plane<
    N: Fn(Vec4) -> Vec4,
    L: Fn(Vec4) -> FloatBits,
    D: Fn(Vec4, Vec4) -> FloatBits,
    G: Fn(FloatBits, FloatBits) -> FloatBits,
>(
    fns: (N, L, D, G),
    planes: Seq<Vec4>,
    max_slots: int,
    reps: Seq<Vec4>,
    slots: Seq<Option<usize>>,
    ps: Seq<Option<Vec4>>,
    counts: Seq<int>,
    s: int,
)
    requires
        assigns(fns, planes, planes.len() as int, max_slots, reps, slots, ps, counts),
        reps.len() <= usize::MAX,
        0 <= s < reps.len(),
    ensures
        slots.len() == planes.len(),
        exists|i: int|
            0 <= i < planes.len() && #[trigger] slots[i] == Some(s as usize) && ps[i] == Some(
                reps[s],
            ),
{
    lemma_slot_opens(fns, planes, max_slots, reps, slots, ps, counts, s, 0);
}

proof fn lemma_slot_opens<
    N: Fn(Vec4) -> Vec4,
    L: Fn(Vec4) -> FloatBits,
    D: Fn(Vec4, Vec4) -> FloatBits,
    G: Fn(FloatBits, FloatBits) -> FloatBits,
>(
    fns: (N, L, D, G),
    planes: Seq<Vec4>,
    max_slots: int,
    reps: Seq<Vec4>,
    slots: Seq<Option<usize>>,
    ps: Seq<Option<Vec4>>,
    counts: Seq<int>,
    s: int,
    i: int,
)
    requires
        assigns(fns, planes, planes.len() as int, max_slots, reps, slots, ps, counts),
        0 <= s < reps.len() <= usize::MAX,
        0 <= i <= planes.len(),
        counts[i] <= s,
    ensures
        exists|j: int|
            0 <= j < planes.len() && #[trigger] slots[j] == Some(s as usize) && ps[j] == Some(
                reps[s],
            ),
    decreases planes.len() - i,
{
    assert(i < planes.len());
    let slot = slots[i];
    assert(is_assigned(
        fns.2,
        fns.3,
        ps[i],
        reps,
        counts[i],
        counts[i + 1],
        max_slots,
        slots[i],
    ));
    if counts[i + 1] <= s {
        lemma_slot_opens(fns, planes, max_slots, reps, slots, ps, counts, s, i + 1);
    } else {
        assert(slots[i] == Some(s as usize));
    }
}

} // verus!
