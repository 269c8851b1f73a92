use rscsg::dim3::{IVector, Plane, Polygon, Vector, Vertex};
use rscsg::{CsgError, SCALE};

fn unit(u: i64) -> i64 {
    u * SCALE
}

fn quad_at_z0(flip: bool) -> Polygon {
    let n = if flip { Vector(0, 0, -SCALE) } else { Vector(0, 0, SCALE) };
    let mut vs = vec![
        Vertex::new(Vector(0, 0, 0), n),
        Vertex::new(Vector(unit(1), 0, 0), n),
        Vertex::new(Vector(unit(1), unit(1), 0), n),
        Vertex::new(Vector(0, unit(1), 0), n),
    ];
    if flip {
        vs.reverse();
    }
    Polygon::new(vs)
}

/// The splitting plane `x == 1/2`, oriented toward positive x.
fn splitter_x_half() -> Plane {
    Plane::from_points(
        Vector(SCALE / 2, 0, 0),
        Vector(SCALE / 2, unit(1), 0),
        Vector(SCALE / 2, 0, unit(1)),
    )
}

fn area_xy(p: &Polygon) -> f64 {
    let s = SCALE as f64;
    let n = p.vertices.len();
    let mut a = 0f64;
    for i in 0..n {
        let j = (i + 1) % n;
        let pi = p.vertices[i].position;
        let pj = p.vertices[j].position;
        a += (pi.0 as f64 / s) * (pj.1 as f64 / s) - (pj.0 as f64 / s) * (pi.1 as f64 / s);
    }
    a.abs() / 2.0
}

/// Splitting a unit quad across its middle yields two quads covering
/// the original corners plus the two edge midpoints, and the fragment
/// areas add up to the original area.
#[test]
fn split_quad_across_center() {
    let quad = quad_at_z0(false);
    let pl = splitter_x_half();
    let mut cf = vec![];
    let mut cb = vec![];
    let mut front = vec![];
    let mut back = vec![];
    pl.split_polygon(&quad, &mut cf, &mut cb, &mut front, &mut back);
    assert_eq!(cf.len(), 0);
    assert_eq!(cb.len(), 0);
    assert_eq!(front.len(), 1);
    assert_eq!(back.len(), 1);
    assert_eq!(front[0].vertices.len(), 4);
    assert_eq!(back[0].vertices.len(), 4);

    let mut positions: Vec<Vector> = vec![];
    for v in front[0].vertices.iter().chain(back[0].vertices.iter()) {
        if !positions.contains(&v.position) {
            positions.push(v.position);
        }
    }
    let mut expected = vec![
        Vector(0, 0, 0),
        Vector(unit(1), 0, 0),
        Vector(unit(1), unit(1), 0),
        Vector(0, unit(1), 0),
        Vector(SCALE / 2, 0, 0),
        Vector(SCALE / 2, unit(1), 0),
    ];
    positions.sort_by_key(|v| (v.0, v.1, v.2));
    expected.sort_by_key(|v| (v.0, v.1, v.2));
    assert_eq!(positions, expected);

    let total = area_xy(&front[0]) + area_xy(&back[0]);
    assert!((area_xy(&front[0]) - 0.5).abs() < 1e-3);
    assert!((area_xy(&back[0]) - 0.5).abs() < 1e-3);
    assert!((total - area_xy(&quad)).abs() < 1e-3);
}

/// A coplanar face whose normal agrees with the splitter's goes to the
/// coplanar-front list; the flipped face goes to coplanar-back.
#[test]
fn coplanar_orientation_dispatch() {
    let splitter = Plane::from_points(
        Vector(0, 0, 0),
        Vector(unit(1), 0, 0),
        Vector(0, unit(1), 0),
    );
    let agreeing = quad_at_z0(false);
    let opposing = quad_at_z0(true);

    let mut cf = vec![];
    let mut cb = vec![];
    let mut front = vec![];
    let mut back = vec![];
    splitter.split_polygon(&agreeing, &mut cf, &mut cb, &mut front, &mut back);
    assert_eq!((cf.len(), cb.len(), front.len(), back.len()), (1, 0, 0, 0));

    let mut cf = vec![];
    let mut cb = vec![];
    let mut front = vec![];
    let mut back = vec![];
    splitter.split_polygon(&opposing, &mut cf, &mut cb, &mut front, &mut back);
    assert_eq!((cf.len(), cb.len(), front.len(), back.len()), (0, 1, 0, 0));
}

/// A face entirely on one side of the plane moves there whole.
#[test]
fn one_sided_faces_move_whole() {
    let quad = quad_at_z0(false);
    let lifted = Polygon::new(
        quad.vertices
            .iter()
            .map(|v| Vertex::new(Vector(v.position.0, v.position.1, unit(2)), v.normal))
            .collect(),
    );
    let splitter = Plane::from_points(
        Vector(0, 0, unit(1)),
        Vector(unit(1), 0, unit(1)),
        Vector(0, unit(1), unit(1)),
    );
    let mut cf = vec![];
    let mut cb = vec![];
    let mut front = vec![];
    let mut back = vec![];
    splitter.split_polygon(&lifted, &mut cf, &mut cb, &mut front, &mut back);
    assert_eq!((cf.len(), cb.len(), front.len(), back.len()), (0, 0, 1, 0));
    splitter.split_polygon(&quad, &mut cf, &mut cb, &mut front, &mut back);
    assert_eq!((cf.len(), cb.len(), front.len(), back.len()), (0, 0, 1, 1));
}

/// Flipping a plane twice restores it bit-exactly.
#[test]
fn plane_flip_involution() {
    let p = Plane::from_points(
        Vector(0, 0, 0),
        Vector(unit(2), 0, unit(1)),
        Vector(0, unit(1), unit(3)),
    );
    assert_eq!(p.flip().flip(), p);
    assert_ne!(p.flip(), p);
}

/// Flipping a polygon twice restores it bit-exactly.
#[test]
fn polygon_flip_involution() {
    let quad = quad_at_z0(false);
    let mut twice = quad.clone();
    twice.flip();
    twice.flip();
    assert_eq!(quad, twice);
}

/// Axis-aligned planes come out exact in fixed point.
#[test]
fn plane_from_points_axis_exact() {
    let p = Plane::from_points(
        Vector(0, 0, unit(3)),
        Vector(unit(1), 0, unit(3)),
        Vector(0, unit(1), unit(3)),
    );
    assert_eq!(p.normal(), Vector(0, 0, SCALE));
    assert_eq!(p.w(), SCALE * unit(3));
}

/// Checked polygon construction reports each failure kind.
#[test]
fn polygon_try_new_errors() {
    let n = Vector(0, 0, SCALE);
    let too_few = vec![
        Vertex::new(Vector(0, 0, 0), n),
        Vertex::new(Vector(unit(1), 0, 0), n),
    ];
    assert_eq!(Polygon::try_new(too_few), Err(CsgError::DegenerateGeometry));

    let collinear = vec![
        Vertex::new(Vector(0, 0, 0), n),
        Vertex::new(Vector(unit(1), 0, 0), n),
        Vertex::new(Vector(unit(2), 0, 0), n),
    ];
    assert_eq!(Polygon::try_new(collinear), Err(CsgError::DegenerateGeometry));

    let bent = vec![
        Vertex::new(Vector(0, 0, 0), n),
        Vertex::new(Vector(unit(1), 0, 0), n),
        Vertex::new(Vector(unit(1), unit(1), 0), n),
        Vertex::new(Vector(0, unit(1), unit(1)), n),
    ];
    assert_eq!(Polygon::try_new(bent), Err(CsgError::NonCoplanarVertices));

    let flat = vec![
        Vertex::new(Vector(0, 0, 0), n),
        Vertex::new(Vector(unit(1), 0, 0), n),
        Vertex::new(Vector(unit(1), unit(1), 0), n),
        Vertex::new(Vector(0, unit(1), 0), n),
    ];
    assert!(Polygon::try_new(flat).is_ok());
}

/// Exact values of the vector helpers.
#[test]
fn vector_arithmetic() {
    let a = Vector(unit(1), unit(2), unit(3));
    let b = Vector(unit(4), unit(5), unit(6));
    assert_eq!(a.x(), unit(1));
    assert_eq!(a.y(), unit(2));
    assert_eq!(a.z(), unit(3));
    assert_eq!(a.plus(b), Vector(unit(5), unit(7), unit(9)));
    assert_eq!(b.minus(a), Vector(unit(3), unit(3), unit(3)));
    assert_eq!(a.negate(), Vector(unit(-1), unit(-2), unit(-3)));
    assert_eq!(a.dot(b), unit(1) * unit(4) + unit(2) * unit(5) + unit(3) * unit(6));
    let c = Vector(1, 0, 0).cross(Vector(0, 1, 0));
    assert_eq!(c, Vector(0, 0, 1));
    assert_eq!(a.lerp(b, 1, 2), Vector(unit(5) / 2, unit(7) / 2, unit(9) / 2));
    assert_eq!(Vector(unit(3), unit(4), 0).length(), unit(5));
    assert_eq!(Vector(unit(3), unit(4), 0).normalize(), Vector(SCALE * 3 / 5, SCALE * 4 / 5, 0));
    assert_eq!(a.make_orthogonal(), a);
}

/// Snapping to a grid rounds to the nearest step.
#[test]
fn vector_discreet_rounds() {
    let v = Vector(unit(1), -unit(1), unit(1) / 2 + unit(1) / 64);
    assert_eq!(v.discreet(10), IVector(10, -10, 5));
    assert_eq!(Vector(0, 0, 0).discreet(10), IVector(0, 0, 0));
}
