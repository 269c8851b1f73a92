use rscsg::dim3::{BspNode, Csg, Plane, Polygon, Vector, Vertex};
use rscsg::SCALE;

fn bounds(polys: &[Polygon]) -> (Vector, Vector) {
    let mut min = Vector(i64::MAX, i64::MAX, i64::MAX);
    let mut max = Vector(i64::MIN, i64::MIN, i64::MIN);
    for p in polys {
        for v in &p.vertices {
            let q = v.position;
            min = Vector(min.0.min(q.0), min.1.min(q.1), min.2.min(q.2));
            max = Vector(max.0.max(q.0), max.1.max(q.1), max.2.max(q.2));
        }
    }
    (min, max)
}

fn bounds_discreet(polys: &[Polygon], step: i64) -> (rscsg::dim3::IVector, rscsg::dim3::IVector) {
    let (min, max) = bounds(polys);
    (min.discreet(step), max.discreet(step))
}

/// Signed volume of a closed boundary, in real units, by summing the
/// signed tetrahedra of a fan triangulation of each face.
fn signed_volume(polys: &[Polygon]) -> f64 {
    let s = SCALE as f64;
    let mut vol = 0f64;
    for p in polys {
        let n = p.vertices.len();
        let a = p.vertices[0].position;
        let a = (a.0 as f64 / s, a.1 as f64 / s, a.2 as f64 / s);
        for i in 1..n - 1 {
            let b = p.vertices[i].position;
            let c = p.vertices[i + 1].position;
            let b = (b.0 as f64 / s, b.1 as f64 / s, b.2 as f64 / s);
            let c = (c.0 as f64 / s, c.1 as f64 / s, c.2 as f64 / s);
            let cross = (
                b.1 * c.2 - b.2 * c.1,
                b.2 * c.0 - b.0 * c.2,
                b.0 * c.1 - b.1 * c.0,
            );
            vol += (a.0 * cross.0 + a.1 * cross.1 + a.2 * cross.2) / 6.0;
        }
    }
    vol
}

fn unit(u: i64) -> i64 {
    u * SCALE
}

#[test]
fn types() {
    Csg::new();
    BspNode::new(Some(vec![])).unwrap();
    Plane::from_points(
        Vector(0, 0, 0),
        Vector(unit(1), 0, 0),
        Vector(0, unit(1), 0),
    );
    Polygon::new(vec![
        Vertex::new(Vector(0, 0, 0), Vector(0, 0, unit(1))),
        Vertex::new(Vector(unit(1), 0, 0), Vector(0, 0, unit(1))),
        Vertex::new(Vector(0, unit(1), 0), Vector(0, 0, unit(1))),
    ]);
    Vector(0, 0, 0);
    Csg::new();
}

/// Create a cube, make sure it's inside a bounding box.
#[test]
fn csg_cube() {
    let cube = Csg::cube(Vector(unit(2), unit(2), unit(2)), true);
    let polys = cube.to_polygons();
    let (d_min, d_max) = bounds_discreet(&polys, 10);

    assert_eq!(-10, d_min.0);
    assert_eq!(-10, d_min.1);
    assert_eq!(-10, d_min.2);
    assert_eq!(10, d_max.0);
    assert_eq!(10, d_max.1);
    assert_eq!(10, d_max.2);
}

/// Big cube will subtract itself onto a smaller cube, removing everything.
#[test]
fn csg_total_subtraction() {
    let polys = Csg::subtract(
        &Csg::cube(Vector(unit(1), unit(1), unit(1)), true), // Small cube
        &Csg::cube(Vector(unit(2), unit(2), unit(2)), true), // Big cube
    )
    .unwrap()
    .to_polygons();

    assert_eq!(0, polys.len());
}

/// A solid subtracted from itself leaves no boundary at all.
#[test]
fn self_subtraction_is_empty() {
    let cube = Csg::cube(Vector(unit(2), unit(2), unit(2)), true);
    let out = Csg::subtract(&cube, &cube).unwrap();
    assert_eq!(0, out.to_polygons().len());
}

/// Union of a solid with itself keeps the bounding box and volume:
/// the coplanar duplicates are removed by the double inversion.
#[test]
fn union_with_self_is_identity() {
    let cube = Csg::cube(Vector(unit(2), unit(2), unit(2)), true);
    let out = Csg::union(&cube, &cube).unwrap();
    let a = cube.to_polygons();
    let b = out.to_polygons();
    assert_eq!(bounds(&a), bounds(&b));
    assert!((signed_volume(&a) - signed_volume(&b)).abs() < 1e-3);
    assert!((signed_volume(&b) - 8.0).abs() < 1e-3);
}

/// Intersecting a solid with itself keeps the bounding box and volume.
#[test]
fn self_intersection_is_identity() {
    let cube = Csg::cube(Vector(unit(2), unit(2), unit(2)), true);
    let out = Csg::intersect(&cube, &cube).unwrap();
    let a = cube.to_polygons();
    let b = out.to_polygons();
    assert_eq!(bounds(&a), bounds(&b));
    assert!((signed_volume(&a) - signed_volume(&b)).abs() < 1e-3);
}

/// Union is commutative up to the bounding box of the result.
#[test]
fn union_commutes_by_bounds() {
    let a = Csg::cube(Vector(unit(2), unit(2), unit(2)), true);
    let b = Csg::cube(Vector(unit(2), unit(2), unit(2)), false);
    let ab = Csg::union(&a, &b).unwrap();
    let ba = Csg::union(&b, &a).unwrap();
    let pab = ab.to_polygons();
    let pba = ba.to_polygons();
    assert_eq!(bounds(&pab), bounds(&pba));
    assert_eq!(bounds(&pab), (Vector(unit(-1), unit(-1), unit(-1)), Vector(unit(2), unit(2), unit(2))));
    assert!((signed_volume(&pab) - signed_volume(&pba)).abs() < 1e-3);
}

/// Intersection is commutative up to the bounding box of the result.
#[test]
fn intersect_commutes_by_bounds() {
    let a = Csg::cube(Vector(unit(2), unit(2), unit(2)), true);
    let b = Csg::cube(Vector(unit(2), unit(2), unit(2)), false);
    let ab = Csg::intersect(&a, &b).unwrap();
    let ba = Csg::intersect(&b, &a).unwrap();
    let pab = ab.to_polygons();
    let pba = ba.to_polygons();
    assert_eq!(bounds(&pab), bounds(&pba));
    assert_eq!(bounds(&pab), (Vector(0, 0, 0), Vector(unit(1), unit(1), unit(1))));
}

/// Identical inputs give identical face lists, bit for bit.
#[test]
fn deterministic_output() {
    let a = Csg::cube(Vector(unit(2), unit(2), unit(2)), true);
    let b = Csg::cube(Vector(unit(2), unit(2), unit(2)), false);
    let r1 = Csg::union(&a, &b).unwrap().to_polygons();
    let r2 = Csg::union(&a, &b).unwrap().to_polygons();
    assert_eq!(r1, r2);
}

/// Inverting a BSP tree twice restores every collected face.
#[test]
fn invert_twice_restores_faces() {
    let cube = Csg::cube(Vector(unit(2), unit(2), unit(2)), true);
    let mut node = BspNode::new(Some(cube.to_polygons())).unwrap();
    let before = node.all_polygons();
    node.invert();
    node.invert();
    let after = node.all_polygons();
    assert_eq!(before, after);
}

/// Building with a zero depth budget fails with the depth error.
#[test]
fn depth_zero_is_reported() {
    let cube = Csg::cube(Vector(unit(2), unit(2), unit(2)), true);
    let mut node = BspNode::new(None).unwrap();
    let res = node.build(cube.to_polygons(), 0);
    assert_eq!(res, Err(rscsg::CsgError::DepthExceeded));
}
