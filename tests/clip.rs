use it::clip::{clip_to_region, clip_triangle, clip_triangles, ClippedTriangle, Triangle};

type Point = (f32, f32, f32);

/// The plane `y = h`; points with `y >= h` are accepted.
fn above(h: f32, p: Point) -> bool {
    p.1 >= h
}

fn cut(h: f32, from: Point, to: Point) -> Point {
    let t = (h - from.1) / (to.1 - from.1);
    (
        from.0 + t * (to.0 - from.0),
        from.1 + t * (to.1 - from.1),
        from.2 + t * (to.2 - from.2),
    )
}

fn corners(t: &Triangle<Point>) -> [Point; 3] {
    t.vertices()
}

/// Every sign pattern of the three corners gives the outcome named by how
/// many corners are accepted.
#[test]
fn outcome_follows_accepted_count_for_all_sign_patterns() {
    for mask in 0u32..8 {
        let y = |bit: u32| if mask & (1 << bit) != 0 { 1.0 } else { -1.0 };
        let t = Triangle((0.0, y(0), 0.0), (1.0, y(1), 0.0), (0.0, y(2), 1.0));
        let accepted = mask.count_ones();
        let r = clip_triangle(&0.0f32, &t, &above, &cut);
        match (accepted, r) {
            (0, ClippedTriangle::Reject) => {}
            (1, ClippedTriangle::Split1(_)) => {}
            (2, ClippedTriangle::Split2(_, _)) => {}
            (3, ClippedTriangle::Accept) => {}
            (n, other) => panic!("{} accepted corners gave {:?}", n, other),
        }
    }
}

#[test]
fn whole_triangles_ignore_corner_order() {
    let a = (0.0, 2.0, 0.0);
    let b = (1.0, 3.0, 0.0);
    let c = (0.0, 4.0, 1.0);
    let orders = [
        Triangle(a, b, c),
        Triangle(a, c, b),
        Triangle(b, a, c),
        Triangle(b, c, a),
        Triangle(c, a, b),
        Triangle(c, b, a),
    ];
    for t in orders.iter() {
        assert!(matches!(clip_triangle(&1.0f32, t, &above, &cut), ClippedTriangle::Accept));
        assert!(matches!(clip_triangle(&5.0f32, t, &above, &cut), ClippedTriangle::Reject));
    }
}

#[test]
fn one_accepted_corner_keeps_winding() {
    // Only the middle corner is accepted.
    let t = Triangle((0.0, -1.0, 0.0), (0.0, 1.0, 0.0), (2.0, -1.0, 0.0));
    match clip_triangle(&0.0f32, &t, &above, &cut) {
        ClippedTriangle::Split1(s) => {
            let [a, b, c] = corners(&s);
            assert_eq!(a, (0.0, 1.0, 0.0));
            // The cut towards the next corner, then towards the previous one.
            assert_eq!(b, (1.0, 0.0, 0.0));
            assert_eq!(c, (0.0, 0.0, 0.0));
        }
        other => panic!("expected Split1, got {:?}", other),
    }
}

#[test]
fn two_accepted_corners_give_two_triangles_without_repeats() {
    // The middle corner is rejected.
    let t = Triangle((0.0, 1.0, 0.0), (1.0, -1.0, 0.0), (2.0, 1.0, 0.0));
    match clip_triangle(&0.0f32, &t, &above, &cut) {
        ClippedTriangle::Split2(s, u) => {
            let [s0, s1, s2] = corners(&s);
            let [u0, u1, u2] = corners(&u);
            assert_eq!(s0, (0.0, 1.0, 0.0));
            assert_eq!(s1, (2.0, 1.0, 0.0));
            assert_eq!(s2, (0.5, 0.0, 0.0));
            assert_eq!(u0, (2.0, 1.0, 0.0));
            assert_eq!(u1, (1.5, 0.0, 0.0));
            assert_eq!(u2, (0.5, 0.0, 0.0));
            assert_ne!(u1, u2);
        }
        other => panic!("expected Split2, got {:?}", other),
    }
}

#[test]
fn soup_keeps_order_and_drops_rejected() {
    let inside = Triangle((0.0, 1.0, 0.0), (1.0, 1.0, 0.0), (0.0, 2.0, 0.0));
    let outside = Triangle((0.0, -1.0, 0.0), (1.0, -1.0, 0.0), (0.0, -2.0, 0.0));
    let straddling = Triangle((0.0, 1.0, 0.0), (1.0, -1.0, 0.0), (2.0, 1.0, 0.0));
    let out = clip_triangles(&0.0f32, vec![inside, outside, straddling], &above, &cut);
    assert_eq!(out.len(), 3);
    assert_eq!(corners(&out[0]), corners(&inside));
    assert_eq!(corners(&out[1])[0], (0.0, 1.0, 0.0));
    assert_eq!(corners(&out[2])[1], (1.5, 0.0, 0.0));
}

#[test]
fn empty_soup_stays_empty() {
    let out = clip_triangles(&0.0f32, Vec::new(), &above, &cut);
    assert!(out.is_empty());
}

#[test]
fn region_between_two_planes() {
    // Accept `y >= lo` for a plane `(lo, 1.0)` and `y <= hi` for `(hi, -1.0)`.
    let accepts = |plane: (f32, f32), p: Point| (p.1 - plane.0) * plane.1 >= 0.0;
    let intersect = |plane: (f32, f32), from: Point, to: Point| cut(plane.0, from, to);
    let t = Triangle((0.0, -1.0, 0.0), (4.0, 3.0, 0.0), (0.0, 3.0, 0.0));
    let out = clip_to_region(&vec![(0.0f32, 1.0f32), (2.0f32, -1.0f32)], vec![t], &accepts, &intersect);
    assert!(!out.is_empty());
    for tri in out.iter() {
        for p in corners(tri).iter() {
            assert!(p.1 >= -1e-5 && p.1 <= 2.0 + 1e-5, "{:?} lies outside the region", p);
        }
    }
    let none = clip_to_region(&vec![(5.0f32, 1.0f32)], vec![t], &accepts, &intersect);
    assert!(none.is_empty());
    let all = clip_to_region(&Vec::new(), vec![t], &accepts, &intersect);
    assert_eq!(all.len(), 1);
}

#[test]
fn clipping_twice_gives_identical_triangles() {
    let accepts = |plane: (f32, f32), p: Point| (p.1 - plane.0) * plane.1 >= 0.0;
    let intersect = |plane: (f32, f32), from: Point, to: Point| cut(plane.0, from, to);
    let planes = vec![(0.3f32, 1.0f32), (2.7f32, -1.0f32)];
    let soup = vec![
        Triangle((0.0, -1.0, 0.0), (4.0, 3.0, 0.5), (0.0, 3.0, 1.0)),
        Triangle((1.0, 0.1, 2.0), (-4.0, 3.3, 0.5), (0.7, 2.9, -1.0)),
    ];
    let a = clip_to_region(&planes, soup.clone(), &accepts, &intersect);
    let b = clip_to_region(&planes, soup, &accepts, &intersect);
    assert_eq!(a.len(), b.len());
    for (s, t) in a.iter().zip(b.iter()) {
        for (p, q) in corners(s).iter().zip(corners(t).iter()) {
            assert_eq!(p.0.to_bits(), q.0.to_bits());
            assert_eq!(p.1.to_bits(), q.1.to_bits());
            assert_eq!(p.2.to_bits(), q.2.to_bits());
        }
    }
}

#[test]
fn corners_inside_the_region_survive_unmoved() {
    let accepts = |plane: (f32, f32), p: Point| (p.1 - plane.0) * plane.1 >= 0.0;
    let intersect = |plane: (f32, f32), from: Point, to: Point| cut(plane.0, from, to);
    let inside = (0.25, 1.0, 0.5);
    let soup = vec![
        Triangle(inside, (4.0, 3.0, 0.5), (0.0, -3.0, 1.0)),
        Triangle((1.0, -0.5, 2.0), (-4.0, 3.3, 0.5), (0.7, 5.0, -1.0)),
    ];
    let out = clip_to_region(&vec![(0.0f32, 1.0f32), (2.0f32, -1.0f32)], soup, &accepts, &intersect);
    assert!(out.iter().any(|t| corners(t).contains(&inside)));
}

#[test]
fn two_accepted_corners_come_in_the_given_order() {
    let t = Triangle((1.0, 1.0, 0.0), (0.0, -1.0, 0.0), (-1.0, 1.0, 0.0));
    match clip_triangle(&0.0f32, &t, &above, &cut) {
        ClippedTriangle::Split2(s, u) => {
            assert_eq!(corners(&s), [(1.0, 1.0, 0.0), (-1.0, 1.0, 0.0), (0.5, 0.0, 0.0)]);
            assert_eq!(corners(&u), [(-1.0, 1.0, 0.0), (-0.5, 0.0, 0.0), (0.5, 0.0, 0.0)]);
        }
        other => panic!("expected Split2, got {:?}", other),
    }
}
