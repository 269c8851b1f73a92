use rscsg::dim2::{BspNode, Csg, Line, LineStrip, Plane, Point};
use rscsg::SCALE;

fn unit(u: i64) -> i64 {
    u * SCALE
}

/// A counter-clockwise square loop from `(x, y)` with the given side.
fn square(x: i64, y: i64, side: i64) -> Csg {
    LineStrip::from_points(vec![
        Point(x, y),
        Point(x + side, y),
        Point(x + side, y + side),
        Point(x, y + side),
        Point(x, y),
    ])
    .build()
}

fn bounds(lines: &[Line]) -> (Point, Point) {
    let mut min = Point(i64::MAX, i64::MAX);
    let mut max = Point(i64::MIN, i64::MIN);
    for l in lines {
        for p in [l.p0, l.p1] {
            min = Point(min.0.min(p.0), min.1.min(p.1));
            max = Point(max.0.max(p.0), max.1.max(p.1));
        }
    }
    (min, max)
}

fn length_of(l: &Line) -> f64 {
    let s = SCALE as f64;
    let dx = (l.p1.0 - l.p0.0) as f64 / s;
    let dy = (l.p1.1 - l.p0.1) as f64 / s;
    (dx * dx + dy * dy).sqrt()
}

/// A strip of n points yields the n-1 consecutive segments.
#[test]
fn line_strip_builds_segments() {
    let strip = LineStrip::new()
        .line_to(Point(0, 0))
        .line_to(Point(unit(1), 0))
        .line_to(Point(unit(1), unit(1)));
    let lines = strip.build_lines();
    assert_eq!(lines.len(), 2);
    assert_eq!(lines[0].p0, Point(0, 0));
    assert_eq!(lines[0].p1, Point(unit(1), 0));
    assert_eq!(lines[1].p0, Point(unit(1), 0));
    assert_eq!(lines[1].p1, Point(unit(1), unit(1)));
    assert_eq!(LineStrip::new().enclose().build_lines().len(), 0);
}

/// The cached line of a horizontal segment points straight down for a
/// left-to-right edge, with an exact fixed-point normal.
#[test]
fn line_plane_is_exact() {
    let l = Line::new(Point(0, 0), Point(unit(1), 0));
    assert_eq!(l.plane, Plane(Point(0, -SCALE), 0));
    assert_eq!(l.flip().flip(), l);
}

/// Splitting a segment across a line yields two pieces sharing the
/// crossing point, and their lengths add up.
#[test]
fn split_segment_across_line() {
    let l = Line::new(Point(0, 0), Point(unit(2), 0));
    let splitter = Plane::from_points(Point(unit(1), 0), Point(unit(1), unit(1)));
    let mut cf = vec![];
    let mut cb = vec![];
    let mut front = vec![];
    let mut back = vec![];
    splitter.split_lines(l, &mut cf, &mut cb, &mut front, &mut back);
    assert_eq!(cf.len(), 0);
    assert_eq!(cb.len(), 0);
    assert_eq!(front.len(), 1);
    assert_eq!(back.len(), 1);
    let crossing = Point(unit(1), 0);
    assert!(front[0].p0 == crossing || front[0].p1 == crossing);
    assert!(back[0].p0 == crossing || back[0].p1 == crossing);
    let total = length_of(&front[0]) + length_of(&back[0]);
    assert!((total - length_of(&l)).abs() < 1e-3);
}

/// A square strictly inside a larger one vanishes when the larger is
/// subtracted from it.
#[test]
fn square_containment_subtraction() {
    let small = square(unit(1), unit(1), unit(1));
    let big = square(0, 0, unit(3));
    let out = Csg::subtract(&small, &big).unwrap();
    assert_eq!(out.to_lines().len(), 0);
}

/// Union of overlapping squares is commutative up to bounds.
#[test]
fn square_union_commutes_by_bounds() {
    let a = square(0, 0, unit(2));
    let b = square(unit(1), unit(1), unit(2));
    let ab = Csg::union(&a, &b).unwrap();
    let ba = Csg::union(&b, &a).unwrap();
    assert_eq!(bounds(&ab.to_lines()), bounds(&ba.to_lines()));
    assert_eq!(
        bounds(&ab.to_lines()),
        (Point(0, 0), Point(unit(3), unit(3)))
    );
}

/// Inverting a 2D tree twice restores every collected segment.
#[test]
fn invert_twice_restores_lines() {
    let sq = square(0, 0, unit(2));
    let mut node = BspNode::new(Some(sq.to_lines())).unwrap();
    let before = node.all_lines();
    node.invert();
    node.invert();
    let after = node.all_lines();
    assert_eq!(before, after);
}

/// Intersection of overlapping squares spans their shared region.
#[test]
fn square_intersection_bounds() {
    let a = square(0, 0, unit(2));
    let b = square(unit(1), unit(1), unit(2));
    let out = Csg::intersect(&a, &b).unwrap();
    let lines = out.to_lines();
    assert!(!lines.is_empty());
    assert_eq!(bounds(&lines), (Point(unit(1), unit(1)), Point(unit(2), unit(2))));
}
