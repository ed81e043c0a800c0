//! The sphere in exact arithmetic: where its points lie and which way
//! its faces run.
//!
//! Coordinates are real numbers here. A midpoint that is pushed onto the
//! sphere is the sum of its two neighbours times a positive factor. The
//! laws below hold whatever positive factor is taken at each midpoint;
//! the factor that makes the midpoint a unit vector is one of them.
//!
//! A face is drawn as a front face if its corners run counter-clockwise
//! for the viewer. For a face of a solid around the origin this is the
//! case, seen from outside, if the cross product of its first two edges
//! points away from the origin.

use crate::algebra::{
    lemma_commute, lemma_distribute, lemma_permute, lemma_positive_product, lemma_zero,
};
use crate::shapes::{
    child, corner, midpoint, octahedron_faces, octant_face, octant_sign, pow4, sphere_faces,
    vertex_list, Face, Place,
};
use vstd::prelude::*;

verus! {

/// A vector in space.
pub struct Vector {
    pub x: real,
    pub y: real,
    pub z: real,
}

/// The sum of two vectors.
pub open spec fn plus(u: Vector, v: Vector) -> Vector {
    Vector { x: u.x + v.x, y: u.y + v.y, z: u.z + v.z }
}

/// The difference of two vectors.
pub open spec fn minus(u: Vector, v: Vector) -> Vector {
    Vector { x: u.x - v.x, y: u.y - v.y, z: u.z - v.z }
}

/// The vector `v`, `k` times as long.
pub open spec fn scaled(k: real, v: Vector) -> Vector {
    Vector { x: k * v.x, y: k * v.y, z: k * v.z }
}

/// The scalar product of two vectors.
pub open spec fn dot(u: Vector, v: Vector) -> real {
    u.x * v.x + u.y * v.y + u.z * v.z
}

/// The cross product of two vectors.
pub open spec fn cross(u: Vector, v: Vector) -> Vector {
    Vector { x: u.y * v.z - u.z * v.y, y: u.z * v.x - u.x * v.z, z: u.x * v.y - u.y * v.x }
}

/// Whether the triangle with the corners `a`, `b`, `c` shows its front to
/// a viewer outside: the cross product of the edges from `a` to `b` and
/// from `a` to `c` points away from the origin.
pub open spec fn faces_outward(a: Vector, b: Vector, c: Vector) -> bool {
    dot(cross(minus(b, a), minus(c, a)), a) > 0real
}

/// Where the point `place` lies, if the midpoint `m` is the sum of its
/// two neighbours times `stretch(m)`.
pub open spec fn position(place: Place, stretch: spec_fn(Place) -> real) -> Vector
    decreases place,
{
    match place {
        Place::Pole { x, y, z } => Vector { x: x as real, y: y as real, z: z as real },
        Place::Between { a, b } => scaled(
            stretch(place),
            plus(position(*a, stretch), position(*b, stretch)),
        ),
    }
}

/// Whether `face` shows its front to a viewer outside.
pub open spec fn face_outward(face: Face, stretch: spec_fn(Place) -> real) -> bool {
    faces_outward(
        position(face.a, stretch),
        position(face.b, stretch),
        position(face.c, stretch),
    )
}

/// The triple product of three vectors.
pub open spec fn triple(a: Vector, b: Vector, c: Vector) -> real {
    dot(a, cross(b, c))
}

/// The triple product written out as its six products of three coordinates.
spec fn expanded(a: Vector, b: Vector, c: Vector) -> real {
    a.x * (b.y * c.z) - a.x * (b.z * c.y) + a.y * (b.z * c.x) - a.y * (b.x * c.z) + a.z * (b.x
        * c.y) - a.z * (b.y * c.x)
}

/// The product of three signs, taken as real numbers.
proof fn lemma_sign_product(sx: int, sy: int, sz: int)
    requires
        sx == 1 || sx == -1,
        sy == 1 || sy == -1,
        sz == 1 || sz == -1,
    ensures
        sx * sy * sz > 0 ==> (sx as real) * ((sy as real) * (sz as real)) == 1real,
        sx * sy * sz <= 0 ==> (sx as real) * ((sy as real) * (sz as real)) == 0real - 1real,
{
    let one = 1real;
    let neg = 0real - 1real;
    assert(one * one == one && one * neg == neg && neg * one == neg && neg * neg == one)
        by (nonlinear_arith)
        requires
            one == 1real,
            neg == 0real - 1real,
    ;
    assert(sx as real == one || sx as real == neg);
    assert(sy as real == one || sy as real == neg);
    assert(sz as real == one || sz as real == neg);
    let p = sx * sy;
    assert(p == 1 || p == -1) by (nonlinear_arith)
        requires
            p == sx * sy,
            sx == 1 || sx == -1,
            sy == 1 || sy == -1,
    ;
}

proof fn lemma_expand(a: Vector, b: Vector, c: Vector)
    ensures
        triple(a, b, c) == expanded(a, b, c),
{
    lemma_distribute(a.x, b.y * c.z, b.z * c.y);
    lemma_distribute(a.y, b.z * c.x, b.x * c.z);
    lemma_distribute(a.z, b.x * c.y, b.y * c.x);
}

/// The triple product is the same if its three vectors change places in a circle.
proof fn lemma_triple_cycle(a: Vector, b: Vector, c: Vector)
    ensures
        triple(a, b, c) == triple(b, c, a),
        triple(a, b, c) == triple(c, a, b),
{
    lemma_expand(a, b, c);
    lemma_expand(b, c, a);
    lemma_expand(c, a, b);
    lemma_permute(a.x, b.y, c.z);
    lemma_permute(a.x, b.z, c.y);
    lemma_permute(a.y, b.z, c.x);
    lemma_permute(a.y, b.x, c.z);
    lemma_permute(a.z, b.x, c.y);
    lemma_permute(a.z, b.y, c.x);
}

/// The triple product is zero if two of its vectors are the same.
proof fn lemma_triple_repeated(a: Vector, b: Vector)
    ensures
        triple(a, a, b) == 0real,
        triple(a, b, a) == 0real,
        triple(b, a, a) == 0real,
{
    lemma_expand(a, a, b);
    lemma_permute(a.x, a.y, b.z);
    lemma_permute(a.x, a.z, b.y);
    lemma_permute(a.y, a.z, b.x);
    lemma_triple_cycle(a, a, b);
}

proof fn lemma_triple_plus_first(u: Vector, v: Vector, b: Vector, c: Vector)
    ensures
        triple(plus(u, v), b, c) == triple(u, b, c) + triple(v, b, c),
{
    lemma_distribute(b.y * c.z - b.z * c.y, u.x, v.x);
    lemma_distribute(b.z * c.x - b.x * c.z, u.y, v.y);
    lemma_distribute(b.x * c.y - b.y * c.x, u.z, v.z);
}

/// The triple product of a sum is the sum of the triple products.
proof fn lemma_triple_plus(u: Vector, v: Vector, b: Vector, c: Vector)
    ensures
        triple(plus(u, v), b, c) == triple(u, b, c) + triple(v, b, c),
        triple(b, plus(u, v), c) == triple(b, u, c) + triple(b, v, c),
        triple(b, c, plus(u, v)) == triple(b, c, u) + triple(b, c, v),
{
    let w = plus(u, v);
    lemma_triple_plus_first(u, v, b, c);
    lemma_triple_plus_first(u, v, c, b);
    lemma_triple_cycle(w, c, b);
    lemma_triple_cycle(u, c, b);
    lemma_triple_cycle(v, c, b);
    lemma_triple_cycle(w, b, c);
    lemma_triple_cycle(u, b, c);
    lemma_triple_cycle(v, b, c);
}

proof fn lemma_triple_scaled_first(k: real, a: Vector, b: Vector, c: Vector)
    ensures
        triple(scaled(k, a), b, c) == k * triple(a, b, c),
{
    let p = b.y * c.z - b.z * c.y;
    let q = b.z * c.x - b.x * c.z;
    let r = b.x * c.y - b.y * c.x;
    lemma_permute(k, a.x, p);
    lemma_permute(k, a.y, q);
    lemma_permute(k, a.z, r);
    lemma_distribute(k, a.x * p, a.y * q);
    lemma_distribute(k, a.x * p + a.y * q, a.z * r);
}

/// The triple product of a vector `k` times as long is `k` times as large.
proof fn lemma_triple_scaled(k: real, a: Vector, b: Vector, c: Vector)
    ensures
        triple(scaled(k, a), b, c) == k * triple(a, b, c),
        triple(b, scaled(k, a), c) == k * triple(b, a, c),
        triple(b, c, scaled(k, a)) == k * triple(b, c, a),
{
    let w = scaled(k, a);
    lemma_triple_scaled_first(k, a, b, c);
    lemma_triple_scaled_first(k, a, c, b);
    lemma_triple_cycle(w, c, b);
    lemma_triple_cycle(a, c, b);
    lemma_triple_cycle(w, b, c);
    lemma_triple_cycle(a, b, c);
}

/// The cross product of the first two edges of a triangle points away
/// from the origin if and only if the triple product of the corners is
/// positive.
pub proof fn lemma_outward_is_triple(a: Vector, b: Vector, c: Vector)
    ensures
        faces_outward(a, b, c) == (triple(a, b, c) > 0real),
{
    let neg = 0real - 1real;
    let na = scaled(neg, a);
    let u = minus(b, a);
    let v = minus(c, a);
    assert(u == plus(b, na));
    assert(v == plus(c, na));
    assert(dot(cross(u, v), a) == triple(a, u, v)) by {
        lemma_commute(u.y * v.z - u.z * v.y, a.x);
        lemma_commute(u.z * v.x - u.x * v.z, a.y);
        lemma_commute(u.x * v.y - u.y * v.x, a.z);
    }
    lemma_triple_plus(b, na, a, v);
    lemma_triple_plus(c, na, a, b);
    lemma_triple_plus(c, na, a, na);
    lemma_triple_scaled(neg, a, a, b);
    lemma_triple_scaled(neg, a, a, c);
    lemma_triple_scaled(neg, a, a, na);
    lemma_triple_repeated(a, b);
    lemma_triple_repeated(a, c);
    lemma_triple_repeated(a, na);
}

/// If a triangle shows its front to a viewer outside, so do the four
/// triangles that subdivision puts in its place, whatever positive
/// factors stretch the sums of its corners.
pub proof fn lemma_children_outward(a: Vector, b: Vector, c: Vector, s: real, t: real, u: real)
    requires
        faces_outward(a, b, c),
        s > 0real,
        t > 0real,
        u > 0real,
    ensures
        faces_outward(a, scaled(s, plus(a, b)), scaled(u, plus(c, a))),
        faces_outward(b, scaled(t, plus(b, c)), scaled(s, plus(a, b))),
        faces_outward(c, scaled(u, plus(c, a)), scaled(t, plus(b, c))),
        faces_outward(scaled(s, plus(a, b)), scaled(t, plus(b, c)), scaled(u, plus(c, a))),
{
    let ab = plus(a, b);
    let bc = plus(b, c);
    let ca = plus(c, a);
    let d = triple(a, b, c);
    lemma_outward_is_triple(a, b, c);
    lemma_triple_cycle(a, b, c);
    lemma_triple_repeated(a, b);
    lemma_triple_repeated(a, c);
    lemma_triple_repeated(b, a);
    lemma_triple_repeated(b, c);
    lemma_triple_repeated(c, a);
    lemma_triple_repeated(c, b);
    // The sums without the factors.
    assert(triple(a, ab, ca) == d) by {
        lemma_triple_plus(a, b, a, ca);
        lemma_triple_plus(c, a, a, a);
        lemma_triple_plus(c, a, a, b);
    }
    assert(triple(b, bc, ab) == d) by {
        lemma_triple_plus(b, c, b, ab);
        lemma_triple_plus(a, b, b, b);
        lemma_triple_plus(a, b, b, c);
    }
    assert(triple(c, ca, bc) == d) by {
        lemma_triple_plus(c, a, c, bc);
        lemma_triple_plus(b, c, c, c);
        lemma_triple_plus(b, c, c, a);
    }
    assert(triple(ab, bc, ca) == 2real * d) by {
        lemma_triple_plus(a, b, bc, ca);
        lemma_triple_plus(b, c, a, ca);
        lemma_triple_plus(b, c, b, ca);
        lemma_triple_plus(c, a, a, b);
        lemma_triple_plus(c, a, a, c);
        lemma_triple_plus(c, a, b, b);
        lemma_triple_plus(c, a, b, c);
        lemma_triple_cycle(b, c, a);
    }
    // The factors.
    lemma_triple_scaled(s, ab, a, scaled(u, ca));
    lemma_triple_scaled(u, ca, a, ab);
    lemma_positive_product(s, u, d);
    lemma_outward_is_triple(a, scaled(s, ab), scaled(u, ca));

    lemma_triple_scaled(t, bc, b, scaled(s, ab));
    lemma_triple_scaled(s, ab, b, bc);
    lemma_positive_product(t, s, d);
    lemma_outward_is_triple(b, scaled(t, bc), scaled(s, ab));

    lemma_triple_scaled(u, ca, c, scaled(t, bc));
    lemma_triple_scaled(t, bc, c, ca);
    lemma_positive_product(u, t, d);
    lemma_outward_is_triple(c, scaled(u, ca), scaled(t, bc));

    lemma_triple_scaled(s, ab, scaled(t, bc), scaled(u, ca));
    lemma_triple_scaled(t, bc, ab, scaled(u, ca));
    lemma_triple_scaled(u, ca, ab, bc);
    lemma_positive_product(t, u, 2real * d);
    lemma_positive_product(s, 1real, t * (u * (2real * d)));
    lemma_outward_is_triple(scaled(s, ab), scaled(t, bc), scaled(u, ca));
}

/// Every face of the octahedron shows its front to a viewer outside, in
/// the octants where the product of the signs is positive and in those
/// where it is negative.
pub proof fn lemma_octahedron_outward(stretch: spec_fn(Place) -> real, i: int)
    requires
        0 <= i < 8,
    ensures
        face_outward(octahedron_faces()[i], stretch),
{
    let sx = octant_sign(i, 4);
    let sy = octant_sign(i, 2);
    let sz = octant_sign(i, 1);
    let face = octahedron_faces()[i];
    assert(face == octant_face(sx, sy, sz));
    let a = position(face.a, stretch);
    let b = position(face.b, stretch);
    let c = position(face.c, stretch);
    let zero = 0real;
    let rx = sx as real;
    let ry = sy as real;
    let rz = sz as real;
    lemma_outward_is_triple(a, b, c);
    lemma_sign_product(sx, sy, sz);
    if sx * sy * sz > 0 {
        assert(triple(a, b, c) == rx * (ry * rz)) by {
            assert(a == Vector { x: rx, y: zero, z: zero });
            assert(b == Vector { x: zero, y: ry, z: zero });
            assert(c == Vector { x: zero, y: zero, z: rz });
            lemma_zero(ry);
            lemma_zero(rz);
            lemma_zero(zero);
        }
    } else {
        assert(triple(a, b, c) == zero - rx * (ry * rz)) by {
            assert(a == Vector { x: zero, y: ry, z: zero });
            assert(b == Vector { x: rx, y: zero, z: zero });
            assert(c == Vector { x: zero, y: zero, z: rz });
            lemma_zero(rx);
            lemma_zero(rz);
            lemma_zero(zero);
            lemma_distribute(ry, zero, rx * rz);
            lemma_permute(ry, rx, rz);
        }
    }
}

/// Every face of the sphere shows its front to a viewer outside, after any
/// number of rounds of subdivision and whatever positive factor stretches
/// each midpoint.
pub proof fn lemma_sphere_outward(rounds: nat, stretch: spec_fn(Place) -> real, i: int)
    requires
        forall|m: Place| #[trigger] stretch(m) > 0real,
        0 <= i < sphere_faces(rounds).len(),
    ensures
        face_outward(sphere_faces(rounds)[i], stretch),
    decreases rounds,
{
    if rounds == 0 {
        lemma_octahedron_outward(stretch, i);
    } else {
        let coarse = sphere_faces((rounds - 1) as nat);
        let parent = coarse[i / 4];
        lemma_sphere_outward((rounds - 1) as nat, stretch, i / 4);
        assert(sphere_faces(rounds)[i] == child(parent, i % 4));
        lemma_children_outward(
            position(parent.a, stretch),
            position(parent.b, stretch),
            position(parent.c, stretch),
            stretch(midpoint(parent.a, parent.b)),
            stretch(midpoint(parent.b, parent.c)),
            stretch(midpoint(parent.c, parent.a)),
        );
    }
}

/// Whether `v` is a unit vector.
pub open spec fn on_unit_sphere(v: Vector) -> bool {
    dot(v, v) == 1real
}

/// Whether `v` is the zero vector.
pub open spec fn is_zero(v: Vector) -> bool {
    v.x == 0real && v.y == 0real && v.z == 0real
}

/// Whether `stretch` pushes every midpoint onto the unit sphere that can
/// be pushed there: every one whose two neighbours do not add up to zero.
pub open spec fn normalizes(stretch: spec_fn(Place) -> real) -> bool {
    forall|a: Place, b: Place|
        !is_zero(plus(position(a, stretch), position(b, stretch))) ==> on_unit_sphere(
            position(#[trigger] midpoint(a, b), stretch),
        )
}

proof fn lemma_triple_zero(a: Vector, b: Vector, z: Vector)
    requires
        is_zero(z),
    ensures
        triple(z, a, b) == 0real,
        triple(a, z, b) == 0real,
        triple(a, b, z) == 0real,
{
    lemma_zero(a.y * b.z - a.z * b.y);
    lemma_zero(a.z * b.x - a.x * b.z);
    lemma_zero(a.x * b.y - a.y * b.x);
    lemma_triple_cycle(z, a, b);
    lemma_triple_cycle(z, b, a);
    lemma_triple_cycle(a, z, b);
}

/// No two corners of a triangle that shows its front to a viewer outside
/// add up to zero: the midpoint of each edge can be pushed onto the sphere.
pub proof fn lemma_edges_have_midpoints(a: Vector, b: Vector, c: Vector)
    requires
        faces_outward(a, b, c),
    ensures
        !is_zero(plus(a, b)),
        !is_zero(plus(b, c)),
        !is_zero(plus(c, a)),
{
    lemma_outward_is_triple(a, b, c);
    lemma_triple_repeated(a, c);
    lemma_triple_repeated(b, a);
    lemma_triple_repeated(c, b);
    if is_zero(plus(a, b)) {
        lemma_triple_plus(a, b, a, c);
        lemma_triple_zero(a, c, plus(a, b));
    }
    if is_zero(plus(b, c)) {
        lemma_triple_plus(b, c, a, b);
        lemma_triple_zero(a, b, plus(b, c));
    }
    if is_zero(plus(c, a)) {
        lemma_triple_plus(c, a, b, c);
        lemma_triple_zero(b, c, plus(c, a));
    }
}

/// Every corner of every face of the sphere is a unit vector, after any
/// number of rounds of subdivision, if every midpoint is pushed onto the
/// unit sphere by a positive factor.
pub proof fn lemma_sphere_on_unit_sphere(
    rounds: nat,
    stretch: spec_fn(Place) -> real,
    i: int,
    n: int,
)
    requires
        forall|m: Place| #[trigger] stretch(m) > 0real,
        normalizes(stretch),
        0 <= i < sphere_faces(rounds).len(),
        0 <= n < 3,
    ensures
        on_unit_sphere(position(corner(sphere_faces(rounds)[i], n), stretch)),
    decreases rounds,
{
    if rounds == 0 {
        let face = octahedron_faces()[i];
        assert(face == octant_face(octant_sign(i, 4), octant_sign(i, 2), octant_sign(i, 1)));
        let one = 1real;
        let neg = 0real - 1real;
        assert(one * one == one && neg * neg == one && 0real * 0real == 0real)
            by (nonlinear_arith)
            requires
                one == 1real,
                neg == 0real - 1real,
        ;
    } else {
        let coarse = sphere_faces((rounds - 1) as nat);
        let parent = coarse[i / 4];
        let a = position(parent.a, stretch);
        let b = position(parent.b, stretch);
        let c = position(parent.c, stretch);
        assert(sphere_faces(rounds)[i] == child(parent, i % 4));
        lemma_sphere_outward((rounds - 1) as nat, stretch, i / 4);
        lemma_edges_have_midpoints(a, b, c);
        lemma_sphere_on_unit_sphere((rounds - 1) as nat, stretch, i / 4, 0);
        lemma_sphere_on_unit_sphere((rounds - 1) as nat, stretch, i / 4, 1);
        lemma_sphere_on_unit_sphere((rounds - 1) as nat, stretch, i / 4, 2);
        assert(on_unit_sphere(position(midpoint(parent.a, parent.b), stretch)));
        assert(on_unit_sphere(position(midpoint(parent.b, parent.c), stretch)));
        assert(on_unit_sphere(position(midpoint(parent.c, parent.a), stretch)));
    }
}

/// What holds of the triangle list of the sphere after any number of
/// rounds of subdivision, if every midpoint is pushed onto the unit
/// sphere by a positive factor: it has three vertices for each of its
/// eight times four to the power of `rounds` triangles, every vertex is a
/// unit vector and is its own normal, and every triangle shows its front
/// to a viewer outside.
pub proof fn lemma_sphere_triangle_list(rounds: nat, stretch: spec_fn(Place) -> real)
    requires
        forall|m: Place| #[trigger] stretch(m) > 0real,
        normalizes(stretch),
    ensures
        vertex_list(sphere_faces(rounds)).len() == 3 * (8 * pow4(rounds)),
        forall|i: int|
            0 <= i < vertex_list(sphere_faces(rounds)).len() ==> {
                let vertex = #[trigger] vertex_list(sphere_faces(rounds))[i];
                vertex.normal == vertex.position && on_unit_sphere(
                    position(vertex.position, stretch),
                )
            },
        forall|t: int|
            0 <= t < 8 * pow4(rounds) ==> faces_outward(
                position(#[trigger] vertex_list(sphere_faces(rounds))[3 * t].position, stretch),
                position(vertex_list(sphere_faces(rounds))[3 * t + 1].position, stretch),
                position(vertex_list(sphere_faces(rounds))[3 * t + 2].position, stretch),
            ),
{
    let faces = sphere_faces(rounds);
    let list = vertex_list(faces);
    crate::shapes::lemma_sphere_face_count(rounds);
    assert forall|i: int| 0 <= i < list.len() implies {
        let vertex = #[trigger] list[i];
        vertex.normal == vertex.position && on_unit_sphere(position(vertex.position, stretch))
    } by {
        lemma_sphere_on_unit_sphere(rounds, stretch, i / 3, i % 3);
    }
    assert forall|t: int| 0 <= t < 8 * pow4(rounds) implies faces_outward(
        position(#[trigger] list[3 * t].position, stretch),
        position(list[3 * t + 1].position, stretch),
        position(list[3 * t + 2].position, stretch),
    ) by {
        lemma_sphere_outward(rounds, stretch, t);
        assert(list[3 * t].position == faces[t].a);
        assert(list[3 * t + 1].position == faces[t].b);
        assert(list[3 * t + 2].position == faces[t].c);
    }
}

} // verus!
