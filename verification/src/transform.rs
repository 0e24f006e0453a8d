//! The transform algebra: 2D position, depth, rotation, uniform scale and a
//! local origin offset, all in fixed-point integers, with the composition
//! operator that accumulates a child's transform into its parent's space.
use vstd::prelude::*;

verus! {

/// The fixed-point unit: a stored value of `FIXED_ONE` stands for `1.0`.
/// Positions, rotations (radians) and scales all carry this factor.
pub const FIXED_ONE: i64 = 1000;

/// The depth (z) of a transform, used only for draw ordering.
///
/// `Invalid` stands for a depth that does not compare, the way a non-numeric
/// value would: composition propagates it, and the depth sorter reports it
/// as an error rather than ordering it.
#[derive(Clone, Copy, Debug, PartialEq, Eq, Structural)]
pub enum Depth {
    Finite(i64),
    Invalid,
}

/// A 2D transform: position `(x, y)`, depth `z` (ordering only, no
/// perspective), rotation in fixed-point radians, uniform fixed-point scale,
/// and a local origin offset. A non-positive scale is degenerate: shapes
/// rasterized under it cover nothing.
#[derive(Clone, Copy, Debug, PartialEq, Eq, Structural)]
pub struct Transform {
    pub x: i64,
    pub y: i64,
    pub z: Depth,
    pub rotation: i64,
    pub scale: i64,
    pub origin_x: i64,
    pub origin_y: i64,
}

/// Saturates a mathematical integer into the `i64` range.
pub open spec fn sat64(v: int) -> int {
    if v > i64::MAX as int {
        i64::MAX as int
    } else if v < i64::MIN as int {
        i64::MIN as int
    } else {
        v
    }
}

/// Composition of depths: finite depths add (saturating), an invalid depth
/// poisons the result.
pub open spec fn depth_compose_spec(a: Depth, b: Depth) -> Depth {
    match (a, b) {
        (Depth::Finite(da), Depth::Finite(db)) => Depth::Finite(sat64(da + db) as i64),
        _ => Depth::Invalid,
    }
}

/// Composition of scales: the fixed-point product, truncated back to the
/// fixed-point grid and saturated; a non-positive factor collapses to the
/// degenerate scale `0`.
pub open spec fn scale_compose_spec(a: int, b: int) -> int {
    if a <= 0 || b <= 0 {
        0
    } else {
        sat64(a * b / (FIXED_ONE as int))
    }
}

/// Composition of transforms: positions, depths, rotations and origin
/// offsets add component-wise (saturating); scales multiply. The operator is
/// associative wherever no saturation and no fixed-point truncation loss
/// occurs (see [`lemma_compose_associative`]).
pub open spec fn compose_spec(a: Transform, b: Transform) -> Transform {
    Transform {
        x: sat64(a.x + b.x) as i64,
        y: sat64(a.y + b.y) as i64,
        z: depth_compose_spec(a.z, b.z),
        rotation: sat64(a.rotation + b.rotation) as i64,
        scale: scale_compose_spec(a.scale as int, b.scale as int) as i64,
        origin_x: sat64(a.origin_x + b.origin_x) as i64,
        origin_y: sat64(a.origin_y + b.origin_y) as i64,
    }
}

/// The identity transform: zero position, depth and rotation, unit scale.
pub fn identity() -> (t: Transform)
    ensures
        t == (Transform {
            x: 0,
            y: 0,
            z: Depth::Finite(0),
            rotation: 0,
            scale: FIXED_ONE,
            origin_x: 0,
            origin_y: 0,
        }),
{
    Transform {
        x: 0,
        y: 0,
        z: Depth::Finite(0),
        rotation: 0,
        scale: FIXED_ONE,
        origin_x: 0,
        origin_y: 0,
    }
}

fn sat_add64(a: i64, b: i64) -> (r: i64)
    ensures
        r as int == sat64(a + b),
{
    let wide: i128 = a as i128 + b as i128;
    if wide > i64::MAX as i128 {
        i64::MAX
    } else if wide < i64::MIN as i128 {
        i64::MIN
    } else {
        wide as i64
    }
}

fn scale_mul(a: i64, b: i64) -> (r: i64)
    ensures
        r as int == scale_compose_spec(a as int, b as int),
{
    if a <= 0 || b <= 0 {
        0
    } else {
        let aw: i128 = a as i128;
        let bw: i128 = b as i128;
        assert(0 <= aw as int * (bw as int) <= i64::MAX as int * (i64::MAX as int))
            by (nonlinear_arith)
            requires 0 < aw as int <= i64::MAX as int && 0 < bw as int <= i64::MAX as int;
        let wide: i128 = (aw * bw) / (FIXED_ONE as i128);
        assert(wide == a as int * b as int / (FIXED_ONE as int));
        if wide > i64::MAX as i128 {
            i64::MAX
        } else {
            assert(wide >= 0) by {
                vstd::arithmetic::div_mod::lemma_div_pos_is_pos(
                    a as int * b as int, FIXED_ONE as int);
            }
            wide as i64
        }
    }
}

fn depth_compose(a: Depth, b: Depth) -> (r: Depth)
    ensures
        r == depth_compose_spec(a, b),
{
    match (a, b) {
        (Depth::Finite(da), Depth::Finite(db)) => Depth::Finite(sat_add64(da, db)),
        _ => Depth::Invalid,
    }
}

/// Composes a child transform into its parent's (already accumulated) space.
pub fn compose(child: &Transform, parent: &Transform) -> (r: Transform)
    ensures
        r == compose_spec(*child, *parent),
{
    Transform {
        x: sat_add64(child.x, parent.x),
        y: sat_add64(child.y, parent.y),
        z: depth_compose(child.z, parent.z),
        rotation: sat_add64(child.rotation, parent.rotation),
        scale: scale_mul(child.scale, parent.scale),
        origin_x: sat_add64(child.origin_x, parent.origin_x),
        origin_y: sat_add64(child.origin_y, parent.origin_y),
    }
}

/// True when the additive components of `a` composed with `b` stay inside
/// the `i64` range, so that composition loses nothing to saturation.
pub open spec fn additive_in_range(a: Transform, b: Transform) -> bool {
    &&& i64::MIN <= a.x + b.x <= i64::MAX
    &&& i64::MIN <= a.y + b.y <= i64::MAX
    &&& i64::MIN <= a.rotation + b.rotation <= i64::MAX
    &&& i64::MIN <= a.origin_x + b.origin_x <= i64::MAX
    &&& i64::MIN <= a.origin_y + b.origin_y <= i64::MAX
    &&& match (a.z, b.z) {
        (Depth::Finite(da), Depth::Finite(db)) => i64::MIN <= da + db <= i64::MAX,
        _ => false,
    }
}

proof fn lemma_exact_div_mul(a: int, b: int, c: int)
    by (nonlinear_arith)
    requires
        a > 0,
        b > 0,
        c > 0,
        (a * b) % (FIXED_ONE as int) == 0,
    ensures
        a * b / (FIXED_ONE as int) * c == a * b * c / (FIXED_ONE as int),
        a * b / (FIXED_ONE as int) > 0 || a * b / (FIXED_ONE as int) == 0,
        a * b / (FIXED_ONE as int) >= 0,
{
}

/// Transform composition is associative: composing `offset ∘ (parent ∘
/// child)` yields the same transform as `(offset ∘ parent) ∘ child`,
/// wherever the arithmetic is exact — no additive component saturates, the
/// scales are positive, their pairwise fixed-point products lose nothing to
/// truncation, and no scale product saturates.
pub proof fn lemma_compose_associative(child: Transform, parent: Transform, offset: Transform)
    requires
        additive_in_range(parent, offset),
        additive_in_range(child, parent),
        additive_in_range(child, compose_spec(parent, offset)),
        child.scale > 0,
        parent.scale > 0,
        offset.scale > 0,
        (child.scale as int * parent.scale as int) % (FIXED_ONE as int) == 0,
        (parent.scale as int * offset.scale as int) % (FIXED_ONE as int) == 0,
        child.scale as int * parent.scale as int * offset.scale as int
            / (FIXED_ONE as int) / (FIXED_ONE as int) <= i64::MAX as int,
        child.scale as int * parent.scale as int <= i64::MAX as int * (FIXED_ONE as int),
        parent.scale as int * offset.scale as int <= i64::MAX as int * (FIXED_ONE as int),
    ensures
        compose_spec(child, compose_spec(parent, offset))
            == compose_spec(compose_spec(child, parent), offset),
{
    let s: int = FIXED_ONE as int;
    let c: int = child.scale as int;
    let p: int = parent.scale as int;
    let o: int = offset.scale as int;

    // The additive components: with every pairwise and total sum in range,
    // saturation never fires and integer addition is associative.
    assert(additive_in_range(compose_spec(child, parent), offset));

    // The scales: with `s` dividing both pairwise products, both groupings
    // equal the exact triple product reduced twice by `s`.
    lemma_exact_div_mul(c, p, o);
    lemma_exact_div_mul(p, o, c);
    let cp: int = c * p / s;
    let po: int = p * o / s;
    assert(c * p * o == c * (p * o)) by (nonlinear_arith);
    assert(p * o / s * c == c * (p * o) / s) by {
        assert(p * o / s * c == p * o * c / s);
        assert(p * o * c == c * (p * o)) by (nonlinear_arith);
    }
    assert(cp * o == po * c) by {
        assert(c * p / s * o == c * p * o / s);
    }
    assert(cp >= 0 && po >= 0);
    assert(cp * o / s == po * c / s);

    // Both groupings stay under the saturation bound.
    assert(c * p * o / s / s <= i64::MAX as int);
    assert(cp * o / s == c * p * o / s / s) by {
        assert(cp * o == c * p * o / s);
    }
    assert(cp * o >= 0) by (nonlinear_arith)
        requires cp >= 0 && o > 0;
    assert(cp * o / s >= 0) by {
        vstd::arithmetic::div_mod::lemma_div_is_ordered(0, cp * o, s);
    }

    // If a pairwise product saturated at i64::MAX, the requires bound on the
    // raw product rules it out.
    assert(c * p / s <= i64::MAX as int) by {
        vstd::arithmetic::div_mod::lemma_div_is_ordered(c * p, i64::MAX as int * s, s);
        vstd::arithmetic::div_mod::lemma_div_multiples_vanish(i64::MAX as int, s);
        assert(s * (i64::MAX as int) == i64::MAX as int * s) by (nonlinear_arith);
    }
    assert(p * o / s <= i64::MAX as int) by {
        vstd::arithmetic::div_mod::lemma_div_is_ordered(p * o, i64::MAX as int * s, s);
        vstd::arithmetic::div_mod::lemma_div_multiples_vanish(i64::MAX as int, s);
        assert(s * (i64::MAX as int) == i64::MAX as int * s) by (nonlinear_arith);
    }

    // Assemble: both sides have identical fields.
    let lhs = compose_spec(child, compose_spec(parent, offset));
    let rhs = compose_spec(compose_spec(child, parent), offset);
    assert(lhs.scale as int == sat64(po * c / s));
    assert(rhs.scale as int == sat64(cp * o / s));
    assert(lhs == rhs);
}

} // verus!
