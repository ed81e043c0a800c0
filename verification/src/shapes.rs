//! The construction of a geodesic sphere.
//!
//! The sphere starts as an octahedron whose six corners lie where the
//! axes leave the unit sphere. Each round of subdivision replaces every
//! triangle by four: a new point is placed halfway along each edge and
//! pushed outwards onto the sphere.
//!
//! A mesh does not hold coordinates. It records how each point is
//! constructed, and leaves the arithmetic to whoever draws it. What is
//! proved here is which points there are and how they are joined.

use vstd::prelude::*;

verus! {

/// How a solid is lit: one normal per face, or one per vertex.
#[derive(Clone, Copy, Debug, PartialEq, Eq, Structural)]
pub enum Shading {
    Flat,
    Smooth,
}

/// A solid of the scene. Its colour and where it stands are kept by
/// whoever draws it, under the solid's place in the scene's list.
#[derive(Clone, Copy, Debug, PartialEq, Eq)]
pub struct SolidEntity {
    /// The number of the solid's mesh among the meshes of the scene.
    pub mesh: usize,
    pub shading: Shading,
}

/// A point of the unit sphere, given by its construction.
pub enum Place {
    /// The point with these coordinates.
    Pole { x: int, y: int, z: int },
    /// The point halfway between two others, pushed onto the sphere.
    Between { a: Box<Place>, b: Box<Place> },
}

/// A triangle on the sphere, by its three corners in drawing order.
pub struct Face {
    pub a: Place,
    pub b: Place,
    pub c: Place,
}

/// A vertex as it is drawn: where it lies and the normal of the surface there.
pub struct Corner {
    pub position: Place,
    pub normal: Place,
}

/// The point halfway between `a` and `b`, pushed onto the sphere.
pub open spec fn midpoint(a: Place, b: Place) -> Place {
    Place::Between { a: Box::new(a), b: Box::new(b) }
}

/// The face of the octahedron in the octant with the signs `sx`, `sy`, `sz`
/// (each 1 or -1). The first two corners change places with the sign of
/// the product, so that the corners of every face run counter-clockwise
/// for someone who looks at it from outside.
pub open spec fn octant_face(sx: int, sy: int, sz: int) -> Face {
    let on_x = Place::Pole { x: sx, y: 0, z: 0 };
    let on_y = Place::Pole { x: 0, y: sy, z: 0 };
    let on_z = Place::Pole { x: 0, y: 0, z: sz };
    if sx * sy * sz > 0 {
        Face { a: on_x, b: on_y, c: on_z }
    } else {
        Face { a: on_y, b: on_x, c: on_z }
    }
}

/// The sign that stands for the bit `bit` of an octant's number: 1 where
/// the bit is clear, -1 where it is set.
pub open spec fn octant_sign(octant: int, bit: int) -> int {
    if (octant / bit) % 2 == 0 {
        1
    } else {
        -1
    }
}

/// The eight faces of the octahedron.
pub open spec fn octahedron_faces() -> Seq<Face> {
    Seq::new(
        8,
        |i: int| octant_face(octant_sign(i, 4), octant_sign(i, 2), octant_sign(i, 1)),
    )
}

/// One of the four faces that take the place of `face` when it is
/// subdivided: for `n` from 0 to 2 the one that keeps a corner of `face`,
/// for 3 the one in the middle.
pub open spec fn child(face: Face, n: int) -> Face {
    let ab = midpoint(face.a, face.b);
    let bc = midpoint(face.b, face.c);
    let ca = midpoint(face.c, face.a);
    if n == 0 {
        Face { a: face.a, b: ab, c: ca }
    } else if n == 1 {
        Face { a: face.b, b: bc, c: ab }
    } else if n == 2 {
        Face { a: face.c, b: ca, c: bc }
    } else {
        Face { a: ab, b: bc, c: ca }
    }
}

/// One round of subdivision: every face gives way to its four children.
pub open spec fn subdivide(faces: Seq<Face>) -> Seq<Face> {
    Seq::new(4 * faces.len(), |i: int| child(faces[i / 4], i % 4))
}

/// The faces of the octahedron after `rounds` rounds of subdivision.
pub open spec fn sphere_faces(rounds: nat) -> Seq<Face>
    decreases rounds,
{
    if rounds == 0 {
        octahedron_faces()
    } else {
        subdivide(sphere_faces((rounds - 1) as nat))
    }
}

/// The corner `n` (0, 1 or 2) of `face`.
pub open spec fn corner(face: Face, n: int) -> Place {
    if n == 0 {
        face.a
    } else if n == 1 {
        face.b
    } else {
        face.c
    }
}

/// The triangle list of `faces`: three vertices for each face, one after
/// the other. On the unit sphere the normal at a point is the point itself.
pub open spec fn vertex_list(faces: Seq<Face>) -> Seq<Corner> {
    Seq::new(
        3 * faces.len(),
        |i: int| {
            let at = corner(faces[i / 3], i % 3);
            Corner { position: at, normal: at }
        },
    )
}

/// Four to the power of `n`.
pub open spec fn pow4(n: nat) -> nat
    decreases n,
{
    if n == 0 {
        1
    } else {
        4 * pow4((n - 1) as nat)
    }
}

/// How a point of a mesh is obtained.
#[derive(Clone, Copy, Debug, PartialEq, Eq)]
pub enum Point {
    /// The point with these coordinates.
    Axis { x: i8, y: i8, z: i8 },
    /// The point halfway between the points with the numbers `a` and `b`,
    /// pushed onto the sphere.
    Midpoint { a: usize, b: usize },
}

/// A triangle, by the numbers of its corners in drawing order.
#[derive(Clone, Copy, Debug, PartialEq, Eq)]
pub struct Triangle {
    pub a: usize,
    pub b: usize,
    pub c: usize,
}

/// A vertex of a triangle list, by the numbers of the points that are
/// its position and its normal.
#[derive(Clone, Copy, Debug, PartialEq, Eq)]
pub struct Vertex {
    pub position: usize,
    pub normal: usize,
}

/// Every midpoint lies between two points that come before it.
pub open spec fn points_wf(points: Seq<Point>) -> bool {
    forall|i: int|
        0 <= i < points.len() ==> match #[trigger] points[i] {
            Point::Axis { .. } => true,
            Point::Midpoint { a, b } => a < i && b < i,
        }
}

/// The point with the number `i`, by its construction.
pub open spec fn place_at(points: Seq<Point>, i: int) -> Place
    decreases i,
{
    if 0 <= i < points.len() {
        match points[i] {
            Point::Axis { x, y, z } => Place::Pole { x: x as int, y: y as int, z: z as int },
            Point::Midpoint { a, b } => if a < i && b < i {
                midpoint(place_at(points, a as int), place_at(points, b as int))
            } else {
                Place::Pole { x: 0, y: 0, z: 0 }
            },
        }
    } else {
        Place::Pole { x: 0, y: 0, z: 0 }
    }
}

/// The face that `triangle` stands for.
pub open spec fn face_at(points: Seq<Point>, triangle: Triangle) -> Face {
    Face {
        a: place_at(points, triangle.a as int),
        b: place_at(points, triangle.b as int),
        c: place_at(points, triangle.c as int),
    }
}

/// The corners of `triangle` are points of `points`.
pub open spec fn triangle_within(points: Seq<Point>, triangle: Triangle) -> bool {
    triangle.a < points.len() && triangle.b < points.len() && triangle.c < points.len()
}

/// Points that are added to the end leave the earlier ones what they were.
pub proof fn lemma_place_at_extended(shorter: Seq<Point>, longer: Seq<Point>, i: int)
    requires
        shorter.len() <= longer.len(),
        longer.subrange(0, shorter.len() as int) == shorter,
        0 <= i < shorter.len(),
    ensures
        place_at(longer, i) == place_at(shorter, i),
    decreases i,
{
    assert(longer[i] == longer.subrange(0, shorter.len() as int)[i]);
    match shorter[i] {
        Point::Axis { .. } => {},
        Point::Midpoint { a, b } => {
            if a < i && b < i {
                lemma_place_at_extended(shorter, longer, a as int);
                lemma_place_at_extended(shorter, longer, b as int);
            }
        },
    }
}

/// Points together with the triangles that join them.
pub struct Triangulation {
    pub points: Vec<Point>,
    pub triangles: Vec<Triangle>,
}

impl Triangulation {
    /// Every midpoint lies between earlier points, and every triangle has
    /// its corners among the points.
    pub open spec fn wf(&self) -> bool {
        &&& points_wf(self.points@)
        &&& forall|i: int|
            0 <= i < self.triangles@.len() ==> triangle_within(
                self.points@,
                #[trigger] self.triangles@[i],
            )
    }

    /// The faces that the triangles stand for.
    pub open spec fn faces(&self) -> Seq<Face> {
        Seq::new(self.triangles@.len(), |i: int| face_at(self.points@, self.triangles@[i]))
    }
}

/// The triangle in the octant with the signs `sx`, `sy`, `sz`, among the
/// six corners in the order +x, -x, +y, -y, +z, -z.
fn octant_triangle(sx: i8, sy: i8, sz: i8) -> (triangle: Triangle)
    requires
        sx == 1 || sx == -1,
        sy == 1 || sy == -1,
        sz == 1 || sz == -1,
    ensures
        triangle.a < 6 && triangle.b < 6 && triangle.c < 6,
        face_at(octahedron_points(), triangle) == octant_face(sx as int, sy as int, sz as int),
{
    let on_x: usize = if sx > 0 { 0 } else { 1 };
    let on_y: usize = if sy > 0 { 2 } else { 3 };
    let on_z: usize = if sz > 0 { 4 } else { 5 };
    let product: i8 = sx * sy * sz;
    proof {
        let points = octahedron_points();
        assert(points.len() == 6);
    }
    if product > 0 {
        Triangle { a: on_x, b: on_y, c: on_z }
    } else {
        Triangle { a: on_y, b: on_x, c: on_z }
    }
}

/// The six corners of the octahedron: on each axis the positive end,
/// then the negative one.
pub open spec fn octahedron_points() -> Seq<Point> {
    seq![
        Point::Axis { x: 1, y: 0, z: 0 },
        Point::Axis { x: (-1) as i8, y: 0, z: 0 },
        Point::Axis { x: 0, y: 1, z: 0 },
        Point::Axis { x: 0, y: (-1) as i8, z: 0 },
        Point::Axis { x: 0, y: 0, z: 1 },
        Point::Axis { x: 0, y: 0, z: (-1) as i8 },
    ]
}

/// The octahedron whose corners are the six poles.
pub fn octahedron() -> (solid: Triangulation)
    ensures
        solid.wf(),
        solid.points@ == octahedron_points(),
        solid.faces() == octahedron_faces(),
{
    let points: Vec<Point> = vec![
        Point::Axis { x: 1, y: 0, z: 0 },
        Point::Axis { x: -1, y: 0, z: 0 },
        Point::Axis { x: 0, y: 1, z: 0 },
        Point::Axis { x: 0, y: -1, z: 0 },
        Point::Axis { x: 0, y: 0, z: 1 },
        Point::Axis { x: 0, y: 0, z: -1 },
    ];
    assert(points@ =~= octahedron_points());
    let mut triangles: Vec<Triangle> = Vec::new();
    triangles.push(octant_triangle(1, 1, 1));
    triangles.push(octant_triangle(1, 1, -1));
    triangles.push(octant_triangle(1, -1, 1));
    triangles.push(octant_triangle(1, -1, -1));
    triangles.push(octant_triangle(-1, 1, 1));
    triangles.push(octant_triangle(-1, 1, -1));
    triangles.push(octant_triangle(-1, -1, 1));
    triangles.push(octant_triangle(-1, -1, -1));
    let solid = Triangulation { points, triangles };
    assert(solid.faces() =~= octahedron_faces());
    solid
}

/// One round of subdivision. On each edge of each triangle a new point is
/// placed halfway and pushed onto the sphere; the triangle gives way to
/// the three triangles that keep one of its corners and the one between
/// the new points. Each of the four runs the way the old one did.
pub fn triforce_and_normalize(coarse: Triangulation) -> (fine: Triangulation)
    requires
        coarse.wf(),
    ensures
        fine.wf(),
        fine.faces() == subdivide(coarse.faces()),
        fine.points@.len() == coarse.points@.len() + 3 * coarse.triangles@.len(),
        fine.points@.subrange(0, coarse.points@.len() as int) == coarse.points@,
{
    let ghost before = coarse.points@;
    let ghost faces = coarse.faces();
    let Triangulation { mut points, triangles } = coarse;
    let mut children: Vec<Triangle> = Vec::new();
    let mut i: usize = 0;
    while i < triangles.len()
        invariant
            i <= triangles@.len(),
            points_wf(points@),
            points@.len() == before.len() + 3 * i,
            points@.subrange(0, before.len() as int) == before,
            faces.len() == triangles@.len(),
            forall|j: int|
                0 <= j < triangles@.len() ==> triangle_within(before, #[trigger] triangles@[j]),
            forall|j: int|
                0 <= j < triangles@.len() ==> #[trigger] faces[j] == face_at(before, triangles@[j]),
            children@.len() == 4 * i,
            forall|j: int|
                0 <= j < children@.len() ==> triangle_within(points@, #[trigger] children@[j]),
            forall|j: int|
                0 <= j < children@.len() ==> face_at(points@, #[trigger] children@[j]) == child(
                    faces[j / 4],
                    j % 4,
                ),
        decreases triangles@.len() - i,
    {
        let parent = triangles[i];
        let ghost grown = points@;
        let ghost done = children@;
        let ab = points.len();
        points.push(Point::Midpoint { a: parent.a, b: parent.b });
        let bc = points.len();
        points.push(Point::Midpoint { a: parent.b, b: parent.c });
        let ca = points.len();
        points.push(Point::Midpoint { a: parent.c, b: parent.a });
        children.push(Triangle { a: parent.a, b: ab, c: ca });
        children.push(Triangle { a: parent.b, b: bc, c: ab });
        children.push(Triangle { a: parent.c, b: ca, c: bc });
        children.push(Triangle { a: ab, b: bc, c: ca });
        proof {
            assert(triangle_within(before, triangles@[i as int]));
            assert(faces[i as int] == face_at(before, parent));
            assert(points@.subrange(0, grown.len() as int) =~= grown);
            assert(points@.subrange(0, before.len() as int) =~= before) by {
                assert(grown.subrange(0, before.len() as int) == before);
            }
            lemma_place_at_extended(before, points@, parent.a as int);
            lemma_place_at_extended(before, points@, parent.b as int);
            lemma_place_at_extended(before, points@, parent.c as int);
            assert(place_at(points@, ab as int) == midpoint(faces[i as int].a, faces[i as int].b));
            assert(place_at(points@, bc as int) == midpoint(faces[i as int].b, faces[i as int].c));
            assert(place_at(points@, ca as int) == midpoint(faces[i as int].c, faces[i as int].a));
            assert forall|j: int| 0 <= j < children@.len() implies face_at(
                points@,
                #[trigger] children@[j],
            ) == child(faces[j / 4], j % 4) by {
                if j < done.len() {
                    assert(children@[j] == done[j]);
                    assert(triangle_within(grown, done[j]));
                    lemma_place_at_extended(grown, points@, done[j].a as int);
                    lemma_place_at_extended(grown, points@, done[j].b as int);
                    lemma_place_at_extended(grown, points@, done[j].c as int);
                }
            }
            assert forall|j: int| 0 <= j < children@.len() implies triangle_within(
                points@,
                #[trigger] children@[j],
            ) by {
                if j < done.len() {
                    assert(children@[j] == done[j]);
                    assert(triangle_within(grown, done[j]));
                }
            }
        }
        i = i + 1;
    }
    let fine = Triangulation { points, triangles: children };
    assert(fine.faces() =~= subdivide(faces));
    fine
}

/// A triangle list: three vertices for each triangle, one after the other.
///
/// The view is the list of the vertices, each with its position and its
/// normal as constructed points.
pub struct Mesh {
    pub points: Vec<Point>,
    pub vertices: Vec<Vertex>,
}

impl View for Mesh {
    type V = Seq<Corner>;

    open spec fn view(&self) -> Seq<Corner> {
        Seq::new(
            self.vertices@.len(),
            |i: int|
                Corner {
                    position: place_at(self.points@, self.vertices@[i].position as int),
                    normal: place_at(self.points@, self.vertices@[i].normal as int),
                },
        )
    }
}

impl Mesh {
    /// Every midpoint lies between earlier points, every vertex has its
    /// position and its normal among the points, and the vertices make
    /// up whole triangles.
    pub open spec fn wf(&self) -> bool {
        &&& points_wf(self.points@)
        &&& self.vertices@.len() % 3 == 0
        &&& forall|i: int|
            0 <= i < self.vertices@.len() ==> {
                &&& (#[trigger] self.vertices@[i]).position < self.points@.len()
                &&& self.vertices@[i].normal < self.points@.len()
            }
    }
}

/// The triangle list of `solid`, in the order of its triangles. The solid
/// is taken to be the unit sphere: the normal of each vertex is its position.
pub fn triangle_list(solid: Triangulation) -> (mesh: Mesh)
    requires
        solid.wf(),
    ensures
        mesh.wf(),
        mesh@ == vertex_list(solid.faces()),
        mesh.points@ == solid.points@,
        mesh.vertices@.len() == 3 * solid.triangles@.len(),
        forall|i: int|
            0 <= i < mesh.vertices@.len() ==> (#[trigger] mesh.vertices@[i]).normal
                == mesh.vertices@[i].position,
{
    let ghost faces = solid.faces();
    let Triangulation { points, triangles } = solid;
    let mut vertices: Vec<Vertex> = Vec::new();
    let mut i: usize = 0;
    while i < triangles.len()
        invariant
            i <= triangles@.len(),
            faces.len() == triangles@.len(),
            forall|j: int|
                0 <= j < triangles@.len() ==> triangle_within(points@, #[trigger] triangles@[j]),
            forall|j: int|
                0 <= j < triangles@.len() ==> #[trigger] faces[j] == face_at(points@, triangles@[j]),
            vertices@.len() == 3 * i,
            forall|j: int|
                0 <= j < vertices@.len() ==> {
                    &&& (#[trigger] vertices@[j]).position < points@.len()
                    &&& vertices@[j].normal == vertices@[j].position
                    &&& place_at(points@, vertices@[j].position as int) == corner(
                        faces[j / 3],
                        j % 3,
                    )
                },
        decreases triangles@.len() - i,
    {
        let triangle = triangles[i];
        proof {
            assert(triangle_within(points@, triangles@[i as int]));
            assert(faces[i as int] == face_at(points@, triangle));
        }
        vertices.push(Vertex { position: triangle.a, normal: triangle.a });
        vertices.push(Vertex { position: triangle.b, normal: triangle.b });
        vertices.push(Vertex { position: triangle.c, normal: triangle.c });
        i = i + 1;
    }
    let mesh = Mesh { points, vertices };
    assert(mesh@ =~= vertex_list(faces));
    mesh
}

/// The unit sphere as a triangle list: the octahedron after `iterations`
/// rounds of subdivision, with the normal of each vertex equal to its
/// position.
pub fn sphere(iterations: u32) -> (mesh: Mesh)
    requires
        iterations >= 1,
    ensures
        mesh.wf(),
        mesh@ == vertex_list(sphere_faces(iterations as nat)),
        mesh.vertices@.len() == 24 * pow4(iterations as nat),
        forall|i: int|
            0 <= i < mesh.vertices@.len() ==> (#[trigger] mesh.vertices@[i]).normal
                == mesh.vertices@[i].position,
{
    let mut solid = triforce_and_normalize(octahedron());
    assert(solid.faces() == sphere_faces(1)) by {
        reveal_with_fuel(sphere_faces, 2);
    }
    let mut rounds: u32 = 1;
    while rounds < iterations
        invariant
            1 <= rounds <= iterations,
            solid.wf(),
            solid.faces() == sphere_faces(rounds as nat),
        decreases iterations - rounds,
    {
        solid = triforce_and_normalize(solid);
        rounds = rounds + 1;
    }
    proof {
        lemma_sphere_face_count(iterations as nat);
    }
    triangle_list(solid)
}

/// After `rounds` rounds of subdivision the sphere has eight times four
/// to the power of `rounds` faces.
pub proof fn lemma_sphere_face_count(rounds: nat)
    ensures
        sphere_faces(rounds).len() == 8 * pow4(rounds),
    decreases rounds,
{
    if rounds > 0 {
        lemma_sphere_face_count((rounds - 1) as nat);
    }
}

} // verus!
