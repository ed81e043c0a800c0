use cgmath::{vec3, InnerSpace, Vector3};
use graphex::shapes::{
    octahedron, sphere, triangle_list, triforce_and_normalize, Mesh, Point, Triangle,
    Triangulation,
};

/// The coordinates of the points, each computed from those before it.
fn coordinates(points: &[Point]) -> Vec<Vector3<f32>> {
    let mut at: Vec<Vector3<f32>> = Vec::new();
    for point in points {
        let next = match *point {
            Point::Axis { x, y, z } => vec3(x as f32, y as f32, z as f32),
            Point::Midpoint { a, b } => ((at[a] + at[b]) / 2.0).normalize(),
        };
        at.push(next);
    }
    at
}

fn assert_unit(v: Vector3<f32>) {
    assert!((v.magnitude() - 1.0).abs() < 1e-5, "{:?} is not on the unit sphere", v);
}

fn assert_outward(a: Vector3<f32>, b: Vector3<f32>, c: Vector3<f32>) {
    let normal = (b - a).cross(c - a);
    assert!(normal.dot(a) > 0.0, "({:?}, {:?}, {:?}) faces inward", a, b, c);
    assert!(normal.dot(a + b + c) > 0.0);
}

fn check_sphere(mesh: &Mesh, iterations: u32) {
    let triangles = 8 * 4usize.pow(iterations);
    assert_eq!(mesh.vertices.len(), 3 * triangles);
    let at = coordinates(&mesh.points);
    for vertex in &mesh.vertices {
        assert_eq!(vertex.normal, vertex.position);
        assert_unit(at[vertex.position]);
    }
    for corners in mesh.vertices.chunks(3) {
        assert_outward(at[corners[0].position], at[corners[1].position], at[corners[2].position]);
    }
}

#[test]
fn octahedron_has_six_corners_and_eight_faces() {
    let solid = octahedron();
    assert_eq!(
        solid.points,
        vec![
            Point::Axis { x: 1, y: 0, z: 0 },
            Point::Axis { x: -1, y: 0, z: 0 },
            Point::Axis { x: 0, y: 1, z: 0 },
            Point::Axis { x: 0, y: -1, z: 0 },
            Point::Axis { x: 0, y: 0, z: 1 },
            Point::Axis { x: 0, y: 0, z: -1 },
        ]
    );
    assert_eq!(solid.triangles.len(), 8);
}

#[test]
fn octahedron_faces_by_octant() {
    let solid = octahedron();
    assert_eq!(
        solid.triangles,
        vec![
            Triangle { a: 0, b: 2, c: 4 },
            Triangle { a: 2, b: 0, c: 5 },
            Triangle { a: 3, b: 0, c: 4 },
            Triangle { a: 0, b: 3, c: 5 },
            Triangle { a: 2, b: 1, c: 4 },
            Triangle { a: 1, b: 2, c: 5 },
            Triangle { a: 1, b: 3, c: 4 },
            Triangle { a: 3, b: 1, c: 5 },
        ]
    );
}

#[test]
fn octahedron_faces_all_face_outward() {
    let solid = octahedron();
    let at = coordinates(&solid.points);
    for t in &solid.triangles {
        assert_outward(at[t.a], at[t.b], at[t.c]);
    }
}

#[test]
fn one_triangle_gives_way_to_four() {
    let coarse = Triangulation {
        points: vec![
            Point::Axis { x: 1, y: 0, z: 0 },
            Point::Axis { x: 0, y: 1, z: 0 },
            Point::Axis { x: 0, y: 0, z: 1 },
        ],
        triangles: vec![Triangle { a: 0, b: 1, c: 2 }],
    };
    let fine = triforce_and_normalize(coarse);
    assert_eq!(
        fine.points,
        vec![
            Point::Axis { x: 1, y: 0, z: 0 },
            Point::Axis { x: 0, y: 1, z: 0 },
            Point::Axis { x: 0, y: 0, z: 1 },
            Point::Midpoint { a: 0, b: 1 },
            Point::Midpoint { a: 1, b: 2 },
            Point::Midpoint { a: 2, b: 0 },
        ]
    );
    assert_eq!(
        fine.triangles,
        vec![
            Triangle { a: 0, b: 3, c: 5 },
            Triangle { a: 1, b: 4, c: 3 },
            Triangle { a: 2, b: 5, c: 4 },
            Triangle { a: 3, b: 4, c: 5 },
        ]
    );
}

#[test]
fn midpoints_are_pushed_onto_the_sphere() {
    let fine = triforce_and_normalize(octahedron());
    let at = coordinates(&fine.points);
    let h = 0.5f32.sqrt();
    // The first new point lies between +x and +y.
    assert_eq!(fine.points[6], Point::Midpoint { a: 0, b: 2 });
    assert!((at[6] - vec3(h, h, 0.0)).magnitude() < 1e-6);
    for p in &at {
        assert_unit(*p);
    }
}

#[test]
fn subdividing_again_stays_on_the_sphere() {
    let mut solid = triforce_and_normalize(octahedron());
    for _ in 0..3 {
        solid = triforce_and_normalize(solid);
        for p in coordinates(&solid.points) {
            assert_unit(p);
        }
    }
}

#[test]
fn subdivision_keeps_the_winding() {
    let mut solid = octahedron();
    for _ in 0..4 {
        solid = triforce_and_normalize(solid);
        let at = coordinates(&solid.points);
        for t in &solid.triangles {
            assert_outward(at[t.a], at[t.b], at[t.c]);
        }
    }
}

#[test]
fn subdivision_adds_three_points_for_each_triangle() {
    let coarse = triforce_and_normalize(octahedron());
    let points = coarse.points.len();
    let triangles = coarse.triangles.len();
    assert_eq!((points, triangles), (6 + 24, 32));
    let kept = coarse.points.clone();
    let fine = triforce_and_normalize(coarse);
    assert_eq!(fine.points.len(), points + 3 * triangles);
    assert_eq!(fine.triangles.len(), 4 * triangles);
    assert_eq!(fine.points[..points], kept[..]);
}

#[test]
fn triangle_list_has_three_vertices_for_each_triangle() {
    let mesh = triangle_list(octahedron());
    let positions: Vec<usize> = mesh.vertices.iter().map(|v| v.position).collect();
    assert_eq!(
        positions,
        vec![0, 2, 4, 2, 0, 5, 3, 0, 4, 0, 3, 5, 2, 1, 4, 1, 2, 5, 1, 3, 4, 3, 1, 5]
    );
    assert!(mesh.vertices.iter().all(|v| v.normal == v.position));
}

#[test]
fn sphere_of_one_iteration() {
    let mesh = sphere(1);
    assert_eq!(mesh.vertices.len(), 96);
    check_sphere(&mesh, 1);
}

#[test]
fn sphere_of_two_iterations() {
    let mesh = sphere(2);
    assert_eq!(mesh.vertices.len(), 384);
    check_sphere(&mesh, 2);
}

#[test]
fn sphere_of_three_iterations() {
    let mesh = sphere(3);
    assert_eq!(mesh.vertices.len(), 1536);
    check_sphere(&mesh, 3);
}

#[test]
fn sphere_of_five_iterations() {
    let mesh = sphere(5);
    assert_eq!(mesh.vertices.len(), 24 * 1024);
    check_sphere(&mesh, 5);
}

#[test]
fn sphere_is_the_subdivided_octahedron() {
    let mesh = sphere(2);
    let by_hand = triangle_list(triforce_and_normalize(triforce_and_normalize(octahedron())));
    assert_eq!(mesh.points, by_hand.points);
    assert_eq!(mesh.vertices, by_hand.vertices);
}

#[test]
fn sphere_is_closed() {
    // Every edge is walked once in each direction.
    let mesh = sphere(2);
    let at = coordinates(&mesh.points);
    let key = |i: usize| {
        let p = at[i];
        [(p.x * 1e4).round() as i32, (p.y * 1e4).round() as i32, (p.z * 1e4).round() as i32]
    };
    let mut edges = std::collections::HashMap::new();
    for corners in mesh.vertices.chunks(3) {
        for k in 0..3 {
            let from = key(corners[k].position);
            let to = key(corners[(k + 1) % 3].position);
            *edges.entry((from, to)).or_insert(0) += 1;
        }
    }
    for ((from, to), count) in &edges {
        assert_eq!(*count, 1);
        assert_eq!(edges.get(&(*to, *from)), Some(&1));
    }
}
