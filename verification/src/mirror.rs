//! A planar mirror, and what it shows in exact arithmetic.
//!
//! What a mirror shows is the scene as a second camera sees it: the
//! mirror image of the real one. The projection of that camera is bent
//! so that its near plane is the plane of the mirror, and nothing
//! between the second camera and the mirror is drawn; it also swaps left
//! and right.
//!
//! The drawing itself works on rounded numbers and is not part of this
//! library. The functions below state over the real numbers what it
//! computes, and the laws hold of these.

use crate::algebra::{
    lemma_cancel, lemma_commute, lemma_distribute, lemma_divide, lemma_negate, lemma_one,
    lemma_permute, lemma_quotient, lemma_zero,
};
use crate::geometry::{dot, minus, plus, scaled, Vector};
use vstd::prelude::*;

verus! {

/// A mirror, by the quad that is drawn for its surface. Where it stands
/// and which way it faces is kept by whoever draws it, under the
/// mirror's place in the scene's list.
#[derive(Clone, Copy, Debug, PartialEq, Eq)]
pub struct Mirror {
    /// The number of the quad among the meshes of the scene.
    pub mesh: usize,
}

/// A vector of four coordinates: a point or a direction in homogeneous
/// coordinates, or the equation of a plane.
pub struct Vector4 {
    pub x: real,
    pub y: real,
    pub z: real,
    pub w: real,
}

/// A matrix of four columns.
pub struct Matrix4 {
    pub x: Vector4,
    pub y: Vector4,
    pub z: Vector4,
    pub w: Vector4,
}

/// The scalar product of two vectors of four coordinates.
pub open spec fn dot4(u: Vector4, v: Vector4) -> real {
    u.x * v.x + u.y * v.y + u.z * v.z + u.w * v.w
}

/// The vector `v`, `k` times as long.
pub open spec fn scaled4(k: real, v: Vector4) -> Vector4 {
    Vector4 { x: k * v.x, y: k * v.y, z: k * v.z, w: k * v.w }
}

/// The vector `v` with the fourth coordinate `w`.
pub open spec fn extend(v: Vector, w: real) -> Vector4 {
    Vector4 { x: v.x, y: v.y, z: v.z, w }
}

/// The first three coordinates of `v`.
pub open spec fn truncate(v: Vector4) -> Vector {
    Vector { x: v.x, y: v.y, z: v.z }
}

/// The row `i` (0 to 3) of `m`.
pub open spec fn row(m: Matrix4, i: int) -> Vector4 {
    if i == 0 {
        Vector4 { x: m.x.x, y: m.y.x, z: m.z.x, w: m.w.x }
    } else if i == 1 {
        Vector4 { x: m.x.y, y: m.y.y, z: m.z.y, w: m.w.y }
    } else if i == 2 {
        Vector4 { x: m.x.z, y: m.y.z, z: m.z.z, w: m.w.z }
    } else {
        Vector4 { x: m.x.w, y: m.y.w, z: m.z.w, w: m.w.w }
    }
}

/// The product of `m` and `v`.
pub open spec fn transform(m: Matrix4, v: Vector4) -> Vector4 {
    Vector4 {
        x: dot4(row(m, 0), v),
        y: dot4(row(m, 1), v),
        z: dot4(row(m, 2), v),
        w: dot4(row(m, 3), v),
    }
}

/// A matrix of three columns.
pub struct Matrix3 {
    pub x: Vector,
    pub y: Vector,
    pub z: Vector,
}

/// The product of `m` and `v`.
pub open spec fn turned(m: Matrix3, v: Vector) -> Vector {
    plus(plus(scaled(v.x, m.x), scaled(v.y, m.y)), scaled(v.z, m.z))
}

/// Whether the columns of `m` are unit vectors at right angles to each other.
pub open spec fn orthonormal(m: Matrix3) -> bool {
    &&& dot(m.x, m.x) == 1real
    &&& dot(m.y, m.y) == 1real
    &&& dot(m.z, m.z) == 1real
    &&& dot(m.x, m.y) == 0real
    &&& dot(m.y, m.z) == 0real
    &&& dot(m.z, m.x) == 0real
}

/// The part of `m` that turns: its first three rows and columns.
pub open spec fn turning(m: Matrix4) -> Matrix3 {
    Matrix3 { x: truncate(m.x), y: truncate(m.y), z: truncate(m.z) }
}

/// Whether `view` is the view matrix of a camera: it turns and moves, and
/// does nothing else.
pub open spec fn rigid(view: Matrix4) -> bool {
    &&& orthonormal(turning(view))
    &&& row(view, 3) == (Vector4 { x: 0real, y: 0real, z: 0real, w: 1real })
}

/// The direction in which a mirror with the rotation `rotation` faces:
/// where the rotation takes the z axis.
pub open spec fn facing(rotation: Matrix3) -> Vector {
    turned(rotation, Vector { x: 0real, y: 0real, z: 1real })
}

/// The sign of `v`, where zero counts as positive.
pub open spec fn sign(v: real) -> real {
    if v < 0real {
        0real - 1real
    } else {
        1real
    }
}

/// The mirror image of `point` in the plane through `on_plane` with the
/// unit normal `normal`.
pub open spec fn reflected(point: Vector, on_plane: Vector, normal: Vector) -> Vector {
    plus(point, scaled(2real * dot(minus(on_plane, point), normal), normal))
}

/// How far `point` lies in front of the plane through `on_plane` with the
/// unit normal `normal`; negative behind it.
pub open spec fn height(point: Vector, on_plane: Vector, normal: Vector) -> real {
    dot(minus(point, on_plane), normal)
}

/// The plane of a mirror as the camera with the view matrix `view` sees
/// it: the normal in its first three coordinates, and in the fourth the
/// distance of the camera from the plane.
pub open spec fn eye_plane(view: Matrix4, position: Vector, normal: Vector) -> Vector4 {
    let at = truncate(transform(view, extend(position, 1real)));
    let facing = truncate(transform(view, extend(normal, 0real)));
    extend(facing, 0real - dot(facing, at))
}

/// The corner of the view volume of `proj` that lies farthest behind `plane`.
pub open spec fn far_corner(proj: Matrix4, plane: Vector4) -> Vector4 {
    Vector4 {
        x: (sign(plane.x) + proj.z.x) / proj.x.x,
        y: (sign(plane.y) + proj.z.y) / proj.y.y,
        z: 0real - 1real,
        w: (1real + proj.z.z) / proj.w.z,
    }
}

/// The equation of `plane`, scaled so that its product with the far
/// corner is two.
pub open spec fn clip_plane(proj: Matrix4, plane: Vector4) -> Vector4 {
    scaled4(2real / dot4(plane, far_corner(proj, plane)), plane)
}

/// The projection `proj` with its third row replaced, so that its near
/// plane is `plane`.
pub open spec fn oblique(proj: Matrix4, plane: Vector4) -> Matrix4 {
    let c = clip_plane(proj, plane);
    Matrix4 {
        x: Vector4 { z: c.x, ..proj.x },
        y: Vector4 { z: c.y, ..proj.y },
        z: Vector4 { z: c.z + 1real, ..proj.z },
        w: Vector4 { z: c.w, ..proj.w },
    }
}

/// The matrix `m` with left and right swapped: its first row negated.
pub open spec fn flipped(m: Matrix4) -> Matrix4 {
    Matrix4 {
        x: Vector4 { x: 0real - m.x.x, ..m.x },
        y: Vector4 { x: 0real - m.y.x, ..m.y },
        z: Vector4 { x: 0real - m.z.x, ..m.z },
        w: Vector4 { x: 0real - m.w.x, ..m.w },
    }
}

/// The projection for what a mirror shows.
pub open spec fn mirror_projection(
    proj: Matrix4,
    view: Matrix4,
    position: Vector,
    normal: Vector,
) -> Matrix4 {
    flipped(oblique(proj, eye_plane(view, position, normal)))
}

/// The projection of a camera that looks along the negative z axis:
/// `across` and `up` scale the image, and what lies between the
/// distances `near` and `far` is drawn.
pub open spec fn perspective(across: real, up: real, near: real, far: real) -> Matrix4 {
    Matrix4 {
        x: Vector4 { x: across, y: 0real, z: 0real, w: 0real },
        y: Vector4 { x: 0real, y: up, z: 0real, w: 0real },
        z: Vector4 { x: 0real, y: 0real, z: (far + near) / (near - far), w: 0real - 1real },
        w: Vector4 { x: 0real, y: 0real, z: 2real * far * near / (near - far), w: 0real },
    }
}

/// The matrix that changes nothing.
pub open spec fn identity() -> Matrix4 {
    Matrix4 {
        x: Vector4 { x: 1real, y: 0real, z: 0real, w: 0real },
        y: Vector4 { x: 0real, y: 1real, z: 0real, w: 0real },
        z: Vector4 { x: 0real, y: 0real, z: 1real, w: 0real },
        w: Vector4 { x: 0real, y: 0real, z: 0real, w: 1real },
    }
}

proof fn lemma_height_after(point: Vector, on_plane: Vector, normal: Vector)
    requires
        dot(normal, normal) == 1real,
    ensures
        dot(minus(on_plane, reflected(point, on_plane, normal)), normal) == 0real - dot(
            minus(on_plane, point),
            normal,
        ),
{
    let h = dot(minus(on_plane, point), normal);
    let k = 2real * h;
    let n = normal;
    let d = minus(on_plane, point);
    // (d - k n) . n = d . n - k (n . n)
    lemma_distribute(n.x, d.x, k * n.x);
    lemma_distribute(n.y, d.y, k * n.y);
    lemma_distribute(n.z, d.z, k * n.z);
    lemma_permute(k, n.x, n.x);
    lemma_permute(k, n.y, n.y);
    lemma_permute(k, n.z, n.z);
    lemma_distribute(k, n.x * n.x, n.y * n.y);
    lemma_distribute(k, n.x * n.x + n.y * n.y, n.z * n.z);
    lemma_one(k);
}

/// The mirror image of the mirror image of a point is the point.
pub proof fn lemma_reflection_round_trip(point: Vector, on_plane: Vector, normal: Vector)
    requires
        dot(normal, normal) == 1real,
    ensures
        reflected(reflected(point, on_plane, normal), on_plane, normal) == point,
{
    let h = dot(minus(on_plane, point), normal);
    let image = reflected(point, on_plane, normal);
    lemma_height_after(point, on_plane, normal);
    let back = 2real * (0real - h);
    assert(back == 0real - 2real * h);
    lemma_negate(2real * h, normal.x);
    lemma_negate(2real * h, normal.y);
    lemma_negate(2real * h, normal.z);
}

/// A point and its mirror image lie at the same distance from the plane,
/// on opposite sides of it.
pub proof fn lemma_reflection_changes_sides(point: Vector, on_plane: Vector, normal: Vector)
    requires
        dot(normal, normal) == 1real,
    ensures
        height(reflected(point, on_plane, normal), on_plane, normal) == 0real - height(
            point,
            on_plane,
            normal,
        ),
{
    let image = reflected(point, on_plane, normal);
    lemma_height_after(point, on_plane, normal);
    let n = normal;
    // (a - b) . n = -((b - a) . n)
    lemma_distribute(n.x, image.x, on_plane.x);
    lemma_distribute(n.y, image.y, on_plane.y);
    lemma_distribute(n.z, image.z, on_plane.z);
    lemma_distribute(n.x, on_plane.x, image.x);
    lemma_distribute(n.y, on_plane.y, image.y);
    lemma_distribute(n.z, on_plane.z, image.z);
    lemma_distribute(n.x, point.x, on_plane.x);
    lemma_distribute(n.y, point.y, on_plane.y);
    lemma_distribute(n.z, point.z, on_plane.z);
    lemma_distribute(n.x, on_plane.x, point.x);
    lemma_distribute(n.y, on_plane.y, point.y);
    lemma_distribute(n.z, on_plane.z, point.z);
}

/// Only the third row of a projection changes when its near plane is
/// moved, and swapping left and right changes the sign of the first row
/// and nothing else.
pub proof fn lemma_rows_kept(proj: Matrix4, plane: Vector4)
    ensures
        row(oblique(proj, plane), 0) == row(proj, 0),
        row(oblique(proj, plane), 1) == row(proj, 1),
        row(oblique(proj, plane), 3) == row(proj, 3),
        row(flipped(proj), 0) == scaled4(0real - 1real, row(proj, 0)),
        row(flipped(proj), 1) == row(proj, 1),
        row(flipped(proj), 2) == row(proj, 2),
        row(flipped(proj), 3) == row(proj, 3),
{
    let neg = 0real - 1real;
    lemma_negate(1real, proj.x.x);
    lemma_negate(1real, proj.y.x);
    lemma_negate(1real, proj.z.x);
    lemma_negate(1real, proj.w.x);
    lemma_one(proj.x.x);
    lemma_one(proj.y.x);
    lemma_one(proj.z.x);
    lemma_one(proj.w.x);
}

/// The near plane of the bent projection is the plane of the mirror.
/// For a projection whose last row is (0, 0, -1, 0), a point is
/// projected onto the near side of the view volume, where depth plus
/// fourth coordinate is zero, if it lies on `plane`; in general that sum
/// is a fixed multiple of how far the point is from `plane`.
pub proof fn lemma_near_plane_is_mirror(proj: Matrix4, plane: Vector4, point: Vector4)
    requires
        row(proj, 3) == (Vector4 { x: 0real, y: 0real, z: 0real - 1real, w: 0real }),
    ensures
        transform(oblique(proj, plane), point).z + transform(oblique(proj, plane), point).w == (
        2real / dot4(plane, far_corner(proj, plane))) * dot4(plane, point),
        dot4(plane, point) == 0real ==> transform(oblique(proj, plane), point).z + transform(
            oblique(proj, plane),
            point,
        ).w == 0real,
{
    let k = 2real / dot4(plane, far_corner(proj, plane));
    let c = clip_plane(proj, plane);
    let bent = oblique(proj, plane);
    assert(row(bent, 2) == Vector4 { x: c.x, y: c.y, z: c.z + 1real, w: c.w });
    assert(row(bent, 3) == row(proj, 3));
    lemma_permute(k, plane.x, point.x);
    lemma_permute(k, plane.y, point.y);
    lemma_permute(k, plane.z, point.z);
    lemma_permute(k, plane.w, point.w);
    lemma_distribute(point.z, c.z, 1real);
    lemma_one(point.z);
    lemma_distribute(k, plane.x * point.x, plane.y * point.y);
    lemma_distribute(k, plane.x * point.x + plane.y * point.y, plane.z * point.z);
    lemma_distribute(
        k,
        plane.x * point.x + plane.y * point.y + plane.z * point.z,
        plane.w * point.w,
    );
    lemma_zero(point.x);
    lemma_zero(point.y);
    lemma_zero(point.w);
    lemma_negate(1real, point.z);
    lemma_zero(k);
}

/// A mirror that stands in the near plane of the camera and faces it
/// leaves the projection as it is: bending the near plane onto the
/// plane of the mirror moves nothing.
pub proof fn lemma_mirror_in_near_plane(across: real, up: real, near: real, far: real)
    requires
        across != 0real,
        up != 0real,
        0real < near < far,
    ensures
        oblique(
            perspective(across, up, near, far),
            Vector4 { x: 0real, y: 0real, z: 1real, w: near },
        ) == perspective(across, up, near, far),
{
    let proj = perspective(across, up, near, far);
    let plane = Vector4 { x: 0real, y: 0real, z: 1real, w: near };
    let d = near - far;
    let a = proj.z.z;
    let b = proj.w.z;
    let inv = 1real / far;
    // What the entries of the third row are.
    lemma_divide(far + near, d);
    lemma_divide(2real * far * near, d);
    lemma_divide(1real, far);
    assert(a * d == far + near);
    assert(b * d == 2real * far * near);
    assert(inv * far == 1real);
    assert(2real * far * near > 0real) by (nonlinear_arith)
        requires
            0real < near < far,
    ;
    assert(b != 0real) by {
        lemma_zero(d);
    }
    // The fourth coordinate of the far corner is one over `far`.
    let qw = (1real + a) / b;
    assert(qw == inv) by {
        assert((1real + a) * d == 2real * near) by {
            lemma_distribute(d, 1real, a);
            lemma_one(d);
        }
        assert((inv * b) * d == 2real * near) by {
            lemma_permute(inv, b, d);
            assert(inv * (2real * far * near) == 2real * near) by (nonlinear_arith)
                requires
                    inv * far == 1real,
            ;
        }
        lemma_cancel(inv * b, 1real + a, d);
        lemma_quotient(1real + a, b, inv);
    }
    // The product of the plane and the far corner.
    let q = far_corner(proj, plane);
    let s = dot4(plane, q);
    assert(s == near * inv - 1real) by {
        lemma_zero(q.x);
        lemma_zero(q.y);
        lemma_one(q.z);
    }
    assert(s * far == d) by {
        lemma_distribute(far, near * inv, 1real);
        lemma_permute(near, inv, far);
        lemma_one(near);
        lemma_one(far);
    }
    assert(s != 0real) by {
        lemma_zero(far);
    }
    // The factor by which the plane is scaled.
    let k = 2real / s;
    let u = a - 1real;
    assert(u * d == 2real * far) by {
        lemma_distribute(d, a, 1real);
        lemma_one(d);
    }
    assert(k == u) by {
        assert((u * s) * far == 2real * far) by {
            lemma_permute(u, s, far);
        }
        lemma_cancel(u * s, 2real, far);
        lemma_quotient(2real, s, u);
    }
    assert(k * near == b) by {
        assert((u * near) * d == b * d) by {
            lemma_permute(u, near, d);
            lemma_permute(near, u, d);
            assert(near * (2real * far) == 2real * far * near) by (nonlinear_arith);
        }
        lemma_cancel(u * near, b, d);
    }
    let c = clip_plane(proj, plane);
    assert(c == Vector4 { x: 0real, y: 0real, z: k, w: k * near }) by {
        lemma_zero(k);
        lemma_one(k);
    }
}

/// The plane of a mirror that stands straight before a camera at the
/// origin, at the distance `distance` along the negative z axis, and
/// faces it.
pub proof fn lemma_plane_before_camera(distance: real)
    ensures
        eye_plane(
            identity(),
            Vector { x: 0real, y: 0real, z: 0real - distance },
            Vector { x: 0real, y: 0real, z: 1real },
        ) == (Vector4 { x: 0real, y: 0real, z: 1real, w: distance }),
{
    let at = extend(Vector { x: 0real, y: 0real, z: 0real - distance }, 1real);
    let facing = extend(Vector { x: 0real, y: 0real, z: 1real }, 0real);
    lemma_zero(0real);
    lemma_zero(1real);
    lemma_one(1real);
    lemma_one(0real);
    lemma_zero(0real - distance);
    lemma_one(0real - distance);
    assert(transform(identity(), at) == at);
    assert(transform(identity(), facing) == facing);
}

/// Two mirrors at right angles show a camera in two different places,
/// unless the camera lies in the planes of both.
pub proof fn lemma_mirrors_at_right_angles(
    camera: Vector,
    first: Vector,
    first_normal: Vector,
    second: Vector,
    second_normal: Vector,
)
    requires
        dot(first_normal, first_normal) == 1real,
        dot(second_normal, second_normal) == 1real,
        dot(first_normal, second_normal) == 0real,
        height(camera, first, first_normal) != 0real || height(camera, second, second_normal)
            != 0real,
    ensures
        reflected(camera, first, first_normal) != reflected(camera, second, second_normal),
{
    let n = first_normal;
    let m = second_normal;
    let h = 2real * dot(minus(first, camera), n);
    let k = 2real * dot(minus(second, camera), m);
    if reflected(camera, first, n) == reflected(camera, second, m) {
        assert(scaled(h, n) == scaled(k, m));
        // Both sides times the first normal, and both times the second.
        assert(h == 0real) by {
            lemma_permute(h, n.x, n.x);
            lemma_permute(h, n.y, n.y);
            lemma_permute(h, n.z, n.z);
            lemma_distribute(h, n.x * n.x, n.y * n.y);
            lemma_distribute(h, n.x * n.x + n.y * n.y, n.z * n.z);
            lemma_one(h);
            lemma_permute(k, m.x, n.x);
            lemma_permute(k, m.y, n.y);
            lemma_permute(k, m.z, n.z);
            lemma_distribute(k, m.x * n.x, m.y * n.y);
            lemma_distribute(k, m.x * n.x + m.y * n.y, m.z * n.z);
            lemma_zero(k);
            lemma_commute_dot(n, m);
        }
        assert(k == 0real) by {
            lemma_permute(k, m.x, m.x);
            lemma_permute(k, m.y, m.y);
            lemma_permute(k, m.z, m.z);
            lemma_distribute(k, m.x * m.x, m.y * m.y);
            lemma_distribute(k, m.x * m.x + m.y * m.y, m.z * m.z);
            lemma_one(k);
            lemma_permute(h, n.x, m.x);
            lemma_permute(h, n.y, m.y);
            lemma_permute(h, n.z, m.z);
            lemma_distribute(h, n.x * m.x, n.y * m.y);
            lemma_distribute(h, n.x * m.x + n.y * m.y, n.z * m.z);
            lemma_zero(h);
        }
        lemma_heights(camera, first, n);
        lemma_heights(camera, second, m);
    }
}

proof fn lemma_commute_dot(u: Vector, v: Vector)
    ensures
        dot(u, v) == dot(v, u),
{
    lemma_commute(u.x, v.x);
    lemma_commute(u.y, v.y);
    lemma_commute(u.z, v.z);
}

proof fn lemma_heights(point: Vector, on_plane: Vector, normal: Vector)
    ensures
        dot(minus(on_plane, point), normal) == 0real - height(point, on_plane, normal),
{
    let n = normal;
    lemma_distribute(n.x, point.x, on_plane.x);
    lemma_distribute(n.y, point.y, on_plane.y);
    lemma_distribute(n.z, point.z, on_plane.z);
    lemma_distribute(n.x, on_plane.x, point.x);
    lemma_distribute(n.y, on_plane.y, point.y);
    lemma_distribute(n.z, on_plane.z, point.z);
}

/// A mirror faces along the third column of its rotation, and that is a
/// unit vector if the rotation is orthonormal.
pub proof fn lemma_facing_is_unit(rotation: Matrix3)
    ensures
        facing(rotation) == rotation.z,
        orthonormal(rotation) ==> dot(facing(rotation), facing(rotation)) == 1real,
{
    lemma_zero(rotation.x.x);
    lemma_zero(rotation.x.y);
    lemma_zero(rotation.x.z);
    lemma_zero(rotation.y.x);
    lemma_zero(rotation.y.y);
    lemma_zero(rotation.y.z);
    lemma_one(rotation.z.x);
    lemma_one(rotation.z.y);
    lemma_one(rotation.z.z);
}

proof fn lemma_dot_plus(u: Vector, v: Vector, w: Vector)
    ensures
        dot(plus(u, v), w) == dot(u, w) + dot(v, w),
        dot(w, plus(u, v)) == dot(w, u) + dot(w, v),
{
    lemma_distribute(w.x, u.x, v.x);
    lemma_distribute(w.y, u.y, v.y);
    lemma_distribute(w.z, u.z, v.z);
}

proof fn lemma_dot_scaled(k: real, u: Vector, w: Vector)
    ensures
        dot(scaled(k, u), w) == k * dot(u, w),
        dot(w, scaled(k, u)) == k * dot(w, u),
{
    lemma_permute(k, u.x, w.x);
    lemma_permute(k, u.y, w.y);
    lemma_permute(k, u.z, w.z);
    lemma_permute(w.x, k, u.x);
    lemma_permute(w.y, k, u.y);
    lemma_permute(w.z, k, u.z);
    lemma_distribute(k, u.x * w.x, u.y * w.y);
    lemma_distribute(k, u.x * w.x + u.y * w.y, u.z * w.z);
    lemma_distribute(k, w.x * u.x, w.y * u.y);
    lemma_distribute(k, w.x * u.x + w.y * u.y, w.z * u.z);
}

/// The product of a column of `m` with a vector that `m` has turned.
proof fn lemma_dot_column(m: Matrix3, column: Vector, b: Vector)
    ensures
        dot(column, turned(m, b)) == b.x * dot(column, m.x) + b.y * dot(column, m.y) + b.z * dot(
            column,
            m.z,
        ),
{
    lemma_dot_plus(plus(scaled(b.x, m.x), scaled(b.y, m.y)), scaled(b.z, m.z), column);
    lemma_dot_plus(scaled(b.x, m.x), scaled(b.y, m.y), column);
    lemma_dot_scaled(b.x, m.x, column);
    lemma_dot_scaled(b.y, m.y, column);
    lemma_dot_scaled(b.z, m.z, column);
}

/// Turning two vectors alike leaves their scalar product as it was.
pub proof fn lemma_turning_keeps_products(m: Matrix3, a: Vector, b: Vector)
    requires
        orthonormal(m),
    ensures
        dot(turned(m, a), turned(m, b)) == dot(a, b),
{
    let tb = turned(m, b);
    lemma_dot_plus(plus(scaled(a.x, m.x), scaled(a.y, m.y)), scaled(a.z, m.z), tb);
    lemma_dot_plus(scaled(a.x, m.x), scaled(a.y, m.y), tb);
    lemma_dot_scaled(a.x, m.x, tb);
    lemma_dot_scaled(a.y, m.y, tb);
    lemma_dot_scaled(a.z, m.z, tb);
    lemma_dot_column(m, m.x, b);
    lemma_dot_column(m, m.y, b);
    lemma_dot_column(m, m.z, b);
    lemma_commute_dot(m.x, m.z);
    lemma_commute_dot(m.y, m.x);
    lemma_commute_dot(m.z, m.y);
    lemma_one(b.x);
    lemma_one(b.y);
    lemma_one(b.z);
    lemma_zero(b.x);
    lemma_zero(b.y);
    lemma_zero(b.z);
}

/// What a view matrix makes of a point (`w` one) or a direction (`w`
/// zero): it turns it, and moves it `w` times.
proof fn lemma_view(view: Matrix4, v: Vector, w: real)
    ensures
        truncate(transform(view, extend(v, w))) == plus(
            turned(turning(view), v),
            scaled(w, truncate(view.w)),
        ),
{
    lemma_commute(view.x.x, v.x);
    lemma_commute(view.y.x, v.y);
    lemma_commute(view.z.x, v.z);
    lemma_commute(view.w.x, w);
    lemma_commute(view.x.y, v.x);
    lemma_commute(view.y.y, v.y);
    lemma_commute(view.z.y, v.z);
    lemma_commute(view.w.y, w);
    lemma_commute(view.x.z, v.x);
    lemma_commute(view.y.z, v.y);
    lemma_commute(view.z.z, v.z);
    lemma_commute(view.w.z, w);
}

/// A point of the plane of the mirror, seen by the camera, lies in the
/// plane of the mirror as the camera sees it.
pub proof fn lemma_eye_plane(view: Matrix4, position: Vector, normal: Vector, point: Vector)
    requires
        rigid(view),
    ensures
        dot4(eye_plane(view, position, normal), transform(view, extend(point, 1real))) == height(
            point,
            position,
            normal,
        ),
{
    let m = turning(view);
    let t = truncate(view.w);
    let facing = truncate(transform(view, extend(normal, 0real)));
    let at = truncate(transform(view, extend(position, 1real)));
    let seen = transform(view, extend(point, 1real));
    lemma_view(view, normal, 0real);
    lemma_view(view, position, 1real);
    lemma_view(view, point, 1real);
    lemma_zero(t.x);
    lemma_zero(t.y);
    lemma_zero(t.z);
    lemma_one(t.x);
    lemma_one(t.y);
    lemma_one(t.z);
    assert(facing == turned(m, normal));
    assert(at == plus(turned(m, position), t));
    assert(truncate(seen) == plus(turned(m, point), t));
    assert(seen.w == 1real) by {
        lemma_zero(point.x);
        lemma_zero(point.y);
        lemma_zero(point.z);
        lemma_one(1real);
    }
    lemma_one(0real - dot(facing, at));
    lemma_dot_plus(turned(m, position), t, facing);
    lemma_dot_plus(turned(m, point), t, facing);
    lemma_turning_keeps_products(m, normal, position);
    lemma_turning_keeps_products(m, normal, point);
    lemma_heights(point, position, normal);
    lemma_dot_plus(point, scaled(0real - 1real, position), normal);
    lemma_dot_scaled(0real - 1real, position, normal);
    lemma_commute_dot(normal, point);
    lemma_commute_dot(normal, position);
    lemma_negate(1real, dot(position, normal));
    lemma_one(dot(position, normal));
    assert(minus(point, position) == plus(point, scaled(0real - 1real, position))) by {
        lemma_negate(1real, position.x);
        lemma_negate(1real, position.y);
        lemma_negate(1real, position.z);
        lemma_one(position.x);
        lemma_one(position.y);
        lemma_one(position.z);
    }
}

/// The projection for what a mirror shows cuts the view off at the plane
/// of the mirror: a point of that plane is projected onto the near side
/// of the view volume, where depth plus fourth coordinate is zero.
pub proof fn lemma_mirror_bounds_the_view(
    proj: Matrix4,
    view: Matrix4,
    position: Vector,
    normal: Vector,
    point: Vector,
)
    requires
        row(proj, 3) == (Vector4 { x: 0real, y: 0real, z: 0real - 1real, w: 0real }),
        rigid(view),
        height(point, position, normal) == 0real,
    ensures
        ({
            let seen = transform(view, extend(point, 1real));
            let projected = transform(mirror_projection(proj, view, position, normal), seen);
            projected.z + projected.w == 0real
        }),
{
    let plane = eye_plane(view, position, normal);
    let seen = transform(view, extend(point, 1real));
    let bent = oblique(proj, plane);
    lemma_eye_plane(view, position, normal, point);
    lemma_near_plane_is_mirror(proj, plane, seen);
    lemma_rows_kept(bent, plane);
    assert(row(flipped(bent), 2) == row(bent, 2));
    assert(row(flipped(bent), 3) == row(bent, 3));
}

} // verus!
