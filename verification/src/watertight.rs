//! The sphere has no holes: along every edge of every face lies another
//! face, which runs along the edge the other way.
//!
//! Two faces that meet along an edge do not share the points at its ends:
//! each face places its own midpoints. In exact arithmetic the two
//! midpoints of one edge are the same point, since each lies on the unit
//! sphere in the direction of the sum of the two ends.

use crate::algebra::lemma_distribute;
use crate::geometry::{
    dot, face_outward, is_zero, lemma_edges_have_midpoints, lemma_sphere_outward, normalizes,
    on_unit_sphere, plus, position, scaled, Vector,
};
use crate::shapes::{
    child, corner, midpoint, octahedron_faces, octant_face, octant_sign, sphere_faces, subdivide,
    Face, Place,
};
use vstd::prelude::*;

verus! {

/// The number of the corner after the corner `n` of a face.
pub open spec fn next(n: int) -> int {
    if n == 2 {
        0
    } else {
        n + 1
    }
}

/// Whether the edge of `face` from its corner `e` to the next one and the
/// edge of `other` from its corner `f` to the next one are the same edge,
/// run in opposite ways.
pub open spec fn edges_meet(
    face: Face,
    e: int,
    other: Face,
    f: int,
    stretch: spec_fn(Place) -> real,
) -> bool {
    &&& position(corner(face, e), stretch) == position(corner(other, next(f)), stretch)
    &&& position(corner(face, next(e)), stretch) == position(corner(other, f), stretch)
}

/// Whether some face of `faces` meets the face `i` along its edge `e`.
pub open spec fn has_neighbour(
    faces: Seq<Face>,
    i: int,
    e: int,
    stretch: spec_fn(Place) -> real,
) -> bool {
    exists|j: int, f: int|
        0 <= j < faces.len() && 0 <= f < 3 && #[trigger] edges_meet(
            faces[i],
            e,
            faces[j],
            f,
            stretch,
        )
}

/// Whether every face of `faces` has a neighbour along each of its edges.
pub open spec fn closed(faces: Seq<Face>, stretch: spec_fn(Place) -> real) -> bool {
    forall|i: int, e: int|
        0 <= i < faces.len() && 0 <= e < 3 ==> #[trigger] has_neighbour(faces, i, e, stretch)
}

/// There is one point on the unit sphere in each direction.
proof fn lemma_one_point_in_a_direction(w: Vector, s: real, t: real)
    requires
        s > 0real,
        t > 0real,
        on_unit_sphere(scaled(s, w)),
        on_unit_sphere(scaled(t, w)),
    ensures
        scaled(s, w) == scaled(t, w),
{
    let q = dot(w, w);
    assert(dot(scaled(s, w), scaled(s, w)) == (s * s) * q) by {
        lemma_square(s, w.x);
        lemma_square(s, w.y);
        lemma_square(s, w.z);
        lemma_distribute(s * s, w.x * w.x, w.y * w.y);
        lemma_distribute(s * s, w.x * w.x + w.y * w.y, w.z * w.z);
    }
    assert(dot(scaled(t, w), scaled(t, w)) == (t * t) * q) by {
        lemma_square(t, w.x);
        lemma_square(t, w.y);
        lemma_square(t, w.z);
        lemma_distribute(t * t, w.x * w.x, w.y * w.y);
        lemma_distribute(t * t, w.x * w.x + w.y * w.y, w.z * w.z);
    }
    assert(s == t) by (nonlinear_arith)
        requires
            s > 0real,
            t > 0real,
            (s * s) * q == 1real,
            (t * t) * q == 1real,
    ;
}

proof fn lemma_square(s: real, x: real)
    ensures
        (s * x) * (s * x) == (s * s) * (x * x),
{
    assert((s * x) * (s * x) == (s * s) * (x * x)) by (nonlinear_arith);
}

/// The number of the corner before the corner `n` of a face.
pub open spec fn previous(n: int) -> int {
    if n == 0 {
        2
    } else {
        n - 1
    }
}

/// Two faces that meet along an edge place the same midpoint on it.
proof fn lemma_midpoints_agree(
    a: Place,
    b: Place,
    c: Place,
    d: Place,
    stretch: spec_fn(Place) -> real,
)
    requires
        forall|m: Place| #[trigger] stretch(m) > 0real,
        normalizes(stretch),
        position(a, stretch) == position(d, stretch),
        position(b, stretch) == position(c, stretch),
        !is_zero(plus(position(a, stretch), position(b, stretch))),
    ensures
        position(midpoint(a, b), stretch) == position(midpoint(c, d), stretch),
{
    let sum = plus(position(a, stretch), position(b, stretch));
    assert(plus(position(c, stretch), position(d, stretch)) == sum);
    assert(on_unit_sphere(position(midpoint(a, b), stretch)));
    assert(on_unit_sphere(position(midpoint(c, d), stretch)));
    lemma_one_point_in_a_direction(sum, stretch(midpoint(a, b)), stretch(midpoint(c, d)));
}

/// The corners of the faces that take the place of `face`: each of the
/// first three keeps a corner of `face` and has the midpoints of the two
/// edges at that corner; the fourth has the three midpoints.
proof fn lemma_child_corners(face: Face, n: int)
    requires
        0 <= n < 3,
    ensures
        corner(child(face, n), 0) == corner(face, n),
        corner(child(face, n), 1) == midpoint(corner(face, n), corner(face, next(n))),
        corner(child(face, n), 2) == midpoint(corner(face, previous(n)), corner(face, n)),
        corner(child(face, 3), n) == midpoint(corner(face, n), corner(face, next(n))),
{
}

/// One round of subdivision leaves no holes, if there were none before.
pub proof fn lemma_subdivide_closed(faces: Seq<Face>, stretch: spec_fn(Place) -> real)
    requires
        forall|m: Place| #[trigger] stretch(m) > 0real,
        normalizes(stretch),
        closed(faces, stretch),
        forall|i: int| 0 <= i < faces.len() ==> face_outward(#[trigger] faces[i], stretch),
    ensures
        closed(subdivide(faces), stretch),
{
    let fine = subdivide(faces);
    assert forall|i: int, e: int| 0 <= i < fine.len() && 0 <= e < 3 implies #[trigger] has_neighbour(
        fine,
        i,
        e,
        stretch,
    ) by {
        let p = i / 4;
        let n = i % 4;
        let parent = faces[p];
        assert(fine[i] == child(parent, n));
        assert(face_outward(parent, stretch));
        lemma_edges_have_midpoints(
            position(parent.a, stretch),
            position(parent.b, stretch),
            position(parent.c, stretch),
        );
        lemma_child_corners(parent, 0);
        lemma_child_corners(parent, 1);
        lemma_child_corners(parent, 2);
        if n == 3 {
            // An edge of the face in the middle: the face at the corner after it.
            let j = 4 * p + next(e);
            assert(fine[j] == child(parent, next(e)));
            assert(edges_meet(fine[i], e, fine[j], 1, stretch));
        } else if e == 1 {
            // The edge between the two midpoints: the face in the middle.
            let j = 4 * p + 3;
            assert(fine[j] == child(parent, 3));
            assert(edges_meet(fine[i], e, fine[j], previous(n), stretch));
        } else if e == 0 {
            // The first half of an edge of `parent`.
            assert(has_neighbour(faces, p, n, stretch));
            let (q, f) = choose|q: int, f: int|
                0 <= q < faces.len() && 0 <= f < 3 && #[trigger] edges_meet(
                    faces[p],
                    n,
                    faces[q],
                    f,
                    stretch,
                );
            let other = faces[q];
            let j = 4 * q + next(f);
            assert(fine[j] == child(other, next(f)));
            lemma_child_corners(other, next(f));
            lemma_midpoints_agree(
                corner(parent, n),
                corner(parent, next(n)),
                corner(other, f),
                corner(other, next(f)),
                stretch,
            );
            assert(edges_meet(fine[i], e, fine[j], 2, stretch));
        } else {
            // The second half of an edge of `parent`.
            let m = previous(n);
            assert(has_neighbour(faces, p, m, stretch));
            let (q, f) = choose|q: int, f: int|
                0 <= q < faces.len() && 0 <= f < 3 && #[trigger] edges_meet(
                    faces[p],
                    m,
                    faces[q],
                    f,
                    stretch,
                );
            let other = faces[q];
            let j = 4 * q + f;
            assert(fine[j] == child(other, f));
            lemma_child_corners(other, f);
            lemma_midpoints_agree(
                corner(parent, m),
                corner(parent, n),
                corner(other, f),
                corner(other, next(f)),
                stretch,
            );
            assert(edges_meet(fine[i], e, fine[j], 0, stretch));
        }
    }
}

/// The octant on the other side of the edge `e` of the face of the
/// octahedron in the octant `i`.
pub open spec fn octant_across(i: int, e: int) -> int {
    let turned = if octant_sign(i, 4) * octant_sign(i, 2) * octant_sign(i, 1) > 0 {
        e
    } else if e == 0 {
        0
    } else {
        3 - e
    };
    let bit = if turned == 0 {
        1
    } else if turned == 1 {
        4
    } else {
        2
    };
    if (i / bit) % 2 == 0 {
        i + bit
    } else {
        i - bit
    }
}

/// The octahedron has no holes.
pub proof fn lemma_octahedron_closed(stretch: spec_fn(Place) -> real)
    ensures
        closed(octahedron_faces(), stretch),
{
    let faces = octahedron_faces();
    assert forall|i: int, e: int| 0 <= i < 8 && 0 <= e < 3 implies #[trigger] has_neighbour(
        faces,
        i,
        e,
        stretch,
    ) by {
        let j = octant_across(i, e);
        let f = if e == 0 {
            0
        } else {
            3 - e
        };
        assert(faces[i] == octant_face(octant_sign(i, 4), octant_sign(i, 2), octant_sign(i, 1)));
        assert(1 * 1 * 1 == 1 && 1 * 1 * (-1) == -1 && 1 * (-1) * 1 == -1 && 1 * (-1) * (-1) == 1
            && (-1) * 1 * 1 == -1 && (-1) * 1 * (-1) == 1 && (-1) * (-1) * 1 == 1 && (-1) * (-1)
            * (-1) == -1);
        assert(0 <= j < 8);
        assert(faces[j] == octant_face(octant_sign(j, 4), octant_sign(j, 2), octant_sign(j, 1)));
        assert(edges_meet(faces[i], e, faces[j], f, stretch));
    }
}

/// The sphere has no holes, after any number of rounds of subdivision, if
/// every midpoint is pushed onto the unit sphere by a positive factor.
pub proof fn lemma_sphere_closed(rounds: nat, stretch: spec_fn(Place) -> real)
    requires
        forall|m: Place| #[trigger] stretch(m) > 0real,
        normalizes(stretch),
    ensures
        closed(sphere_faces(rounds), stretch),
    decreases rounds,
{
    if rounds == 0 {
        lemma_octahedron_closed(stretch);
    } else {
        let coarse = sphere_faces((rounds - 1) as nat);
        lemma_sphere_closed((rounds - 1) as nat, stretch);
        assert forall|i: int| 0 <= i < coarse.len() implies face_outward(
            #[trigger] coarse[i],
            stretch,
        ) by {
            lemma_sphere_outward((rounds - 1) as nat, stretch, i);
        }
        lemma_subdivide_closed(coarse, stretch);
    }
}

} // verus!
