use vstd::prelude::*;

verus! {

/// Three corners. `Triangle(a, b, c)` winds from `a` to `b` to `c`.
#[derive(Clone, Copy, Debug)]
pub struct Triangle<P>(pub P, pub P, pub P);

/// The result of clipping a triangle against a plane.
#[derive(Clone, Copy, Debug)]
pub enum ClippedTriangle<P> {
    /// Every corner lies on the accepted side: the triangle stays whole.
    Accept,
    /// Every corner lies on the rejected side: nothing is left.
    Reject,
    /// One corner is accepted. It and the two points where the plane cuts
    /// its edges form the part that is left.
    Split1(Triangle<P>),
    /// Two corners are accepted. With the two points where the plane cuts the
    /// edges to the third corner they bound a quadrilateral, given as two
    /// triangles that share a diagonal.
    Split2(Triangle<P>, Triangle<P>),
}

impl<P> Triangle<P> {
    /// Corner `i`, counted modulo three in winding order.
    pub open spec fn corner(&self, i: int) -> P {
        let k = i % 3;
        if k == 0 {
            self.0
        } else if k == 1 {
            self.1
        } else {
            self.2
        }
    }
}

impl<P: Copy> Triangle<P> {
    /// The corners in winding order.
    pub fn vertices(&self) -> (r: [P; 3])
        ensures
            r@ == seq![self.0, self.1, self.2],
    {
        [self.0, self.1, self.2]
    }
}

impl<P> ClippedTriangle<P> {
    /// How many corners the outcome says were accepted.
    pub open spec fn accepted(&self) -> nat {
        match self {
            ClippedTriangle::Reject => 0,
            ClippedTriangle::Split1(_) => 1,
            ClippedTriangle::Split2(_, _) => 2,
            ClippedTriangle::Accept => 3,
        }
    }

    /// The triangles that are left of `t` after this outcome.
    pub open spec fn pieces(&self, t: Triangle<P>) -> Seq<Triangle<P>> {
        match self {
            ClippedTriangle::Reject => seq![],
            ClippedTriangle::Split1(a) => seq![*a],
            ClippedTriangle::Split2(a, b) => seq![*a, *b],
            ClippedTriangle::Accept => seq![t],
        }
    }
}

// A plane of type `Q` is known to this module only through two routines that
// the caller hands in: a side test `accepts(plane, p)`, true when `p` lies on
// the accepted side (for a point-and-normal plane: signed distance >= 0), and
// `intersect(plane, from, to)`, the point where the segment meets the plane.

/// Every answer that `accepts` may give for `p` against `plane` is `true`.
pub open spec fn accepted_by<P, Q, A: Fn(Q, P) -> bool>(accepts: A, plane: Q, p: P) -> bool {
    forall|b: bool| #[trigger] call_ensures(accepts, (plane, p), b) ==> b
}

/// Every answer that `accepts` may give for `p` against `plane` is `false`.
pub open spec fn rejected_by<P, Q, A: Fn(Q, P) -> bool>(accepts: A, plane: Q, p: P) -> bool {
    forall|b: bool| #[trigger] call_ensures(accepts, (plane, p), b) ==> !b
}

/// A side test that can be called on any plane and point and has one answer
/// for each.
pub open spec fn is_side_test<P, Q, A: Fn(Q, P) -> bool>(accepts: A) -> bool {
    &&& forall|plane: Q, p: P| call_requires(accepts, (plane, p))
    &&& forall|plane: Q, p: P|
        #[trigger] accepted_by(accepts, plane, p) || rejected_by(accepts, plane, p)
}

/// An intersection routine that can be called on every segment from an
/// accepted point to a rejected one.
pub open spec fn cuts_straddling<P, Q, A: Fn(Q, P) -> bool, X: Fn(Q, P, P) -> P>(
    accepts: A,
    intersect: X,
) -> bool {
    forall|plane: Q, from: P, to: P|
        accepted_by(accepts, plane, from) && rejected_by(accepts, plane, to) ==> call_requires(
            intersect,
            (plane, from, to),
        )
}

/// `x` is a point that `intersect` may return for the segment `from`-`to`.
pub open spec fn is_cut<P, Q, X: Fn(Q, P, P) -> P>(
    intersect: X,
    plane: Q,
    from: P,
    to: P,
    x: P,
) -> bool {
    call_ensures(intersect, (plane, from, to), x)
}

/// `p` lies on the side that `accepted` names.
pub open spec fn on_side<P, Q, A: Fn(Q, P) -> bool>(
    accepts: A,
    plane: Q,
    p: P,
    accepted: bool,
) -> bool {
    if accepted {
        accepted_by(accepts, plane, p)
    } else {
        rejected_by(accepts, plane, p)
    }
}

/// `sides` tells, corner by corner, whether `t`'s corners are accepted.
pub open spec fn has_sides<P, Q, A: Fn(Q, P) -> bool>(
    accepts: A,
    plane: Q,
    t: Triangle<P>,
    sides: (bool, bool, bool),
) -> bool {
    &&& on_side(accepts, plane, t.0, sides.0)
    &&& on_side(accepts, plane, t.1, sides.1)
    &&& on_side(accepts, plane, t.2, sides.2)
}

/// How many corners are accepted.
pub open spec fn accepted_count(sides: (bool, bool, bool)) -> nat {
    (if sides.0 { 1nat } else { 0nat }) + (if sides.1 { 1nat } else { 0nat }) + (if sides.2 {
        1nat
    } else {
        0nat
    })
}

/// The first corner, in winding order, that is accepted.
pub open spec fn first_accepted(sides: (bool, bool, bool)) -> int {
    if sides.0 {
        0
    } else if sides.1 {
        1
    } else {
        2
    }
}

/// The first corner, in winding order, that is rejected.
pub open spec fn first_rejected(sides: (bool, bool, bool)) -> int {
    if !sides.0 {
        0
    } else if !sides.1 {
        1
    } else {
        2
    }
}

/// `r` is the outcome of clipping `t`, whose corners lie on the sides
/// `sides`, with cut points from `intersect`. With one accepted corner the
/// cut triangle starts there and keeps the winding of `t`. With two, `a` and
/// `b` in the order `t` gives them, the quadrilateral `a`, `b`, cut of `b`,
/// cut of `a` is split along the diagonal from `b` to the cut of `a`.
pub open spec fn is_outcome<P, Q, X: Fn(Q, P, P) -> P>(
    sides: (bool, bool, bool),
    intersect: X,
    plane: Q,
    t: Triangle<P>,
    r: ClippedTriangle<P>,
) -> bool {
    let n = accepted_count(sides);
    &&& r.accepted() == n
    &&& n == 1 ==> {
        let i = first_accepted(sides);
        let a = t.corner(i);
        match r {
            ClippedTriangle::Split1(s) => {
                &&& s.0 == a
                &&& is_cut(intersect, plane, a, t.corner(i + 1), s.1)
                &&& is_cut(intersect, plane, a, t.corner(i + 2), s.2)
            },
            _ => false,
        }
    }
    &&& n == 2 ==> {
        let k = first_rejected(sides);
        let a = t.corner(if k == 0 { 1 } else { 0 });
        let b = t.corner(if k == 2 { 1 } else { 2 });
        let c = t.corner(k);
        match r {
            ClippedTriangle::Split2(s, u) => {
                &&& s.0 == a
                &&& s.1 == b
                &&& u.0 == b
                &&& u.2 == s.2
                &&& is_cut(intersect, plane, a, c, s.2)
                &&& is_cut(intersect, plane, b, c, u.1)
            },
            _ => false,
        }
    }
}

/// `r` is a correct outcome of clipping `t` against `plane`.
pub open spec fn is_clip_of<P, Q, A: Fn(Q, P) -> bool, X: Fn(Q, P, P) -> P>(
    accepts: A,
    intersect: X,
    plane: Q,
    t: Triangle<P>,
    r: ClippedTriangle<P>,
) -> bool {
    forall|sides: (bool, bool, bool)|
        #[trigger] has_sides(accepts, plane, t, sides) ==> is_outcome(
            sides,
            intersect,
            plane,
            t,
            r,
        )
}

/// Clips one triangle against the accepted half-space of `plane`.
pub fn clip_triangle<P: Copy, Q: Copy, A: Fn(Q, P) -> bool, X: Fn(Q, P, P) -> P>(
    plane: &Q,
    triangle: &Triangle<P>,
    accepts: &A,
    intersect: &X,
) -> (r: ClippedTriangle<P>)
    requires
        is_side_test(*accepts),
        cuts_straddling(*accepts, *intersect),
    ensures
        is_clip_of(*accepts, *intersect, *plane, *triangle, r),
{
    let q = *plane;
    let t = *triangle;
    let a0 = accepts(q, t.0);
    let a1 = accepts(q, t.1);
    let a2 = accepts(q, t.2);
    assert(accepted_by(*accepts, q, t.0) || rejected_by(*accepts, q, t.0));
    assert(accepted_by(*accepts, q, t.1) || rejected_by(*accepts, q, t.1));
    assert(accepted_by(*accepts, q, t.2) || rejected_by(*accepts, q, t.2));
    assert forall|sides: (bool, bool, bool)| #[trigger]
        has_sides(*accepts, q, t, sides) implies sides == (a0, a1, a2) by {
        assert(call_ensures(*accepts, (q, t.0), a0));
        assert(call_ensures(*accepts, (q, t.1), a1));
        assert(call_ensures(*accepts, (q, t.2), a2));
    }
    assert(has_sides(*accepts, q, t, (a0, a1, a2)));
    let count: u8 = (if a0 { 1u8 } else { 0u8 }) + (if a1 { 1u8 } else { 0u8 }) + (if a2 {
        1u8
    } else {
        0u8
    });
    if count == 0 {
        ClippedTriangle::Reject
    } else if count == 3 {
        ClippedTriangle::Accept
    } else if count == 1 {
        // The accepted corner, then the two others in winding order.
        let (a, next, prev) = if a0 {
            (t.0, t.1, t.2)
        } else if a1 {
            (t.1, t.2, t.0)
        } else {
            (t.2, t.0, t.1)
        };
        let x1 = intersect(q, a, next);
        let x2 = intersect(q, a, prev);
        ClippedTriangle::Split1(Triangle(a, x1, x2))
    } else {
        // The two accepted corners in the order given, then the rejected one.
        let (a, b, c) = if !a0 {
            (t.1, t.2, t.0)
        } else if !a1 {
            (t.0, t.2, t.1)
        } else {
            (t.0, t.1, t.2)
        };
        let xa = intersect(q, a, c);
        let xb = intersect(q, b, c);
        ClippedTriangle::Split2(Triangle(a, b, xa), Triangle(b, xb, xa))
    }
}

/// What is left of the triangles `ts` when `rs[i]` is the outcome for
/// `ts[i]`, in the order of `ts`.
pub open spec fn clipped_pieces<P>(
    ts: Seq<Triangle<P>>,
    rs: Seq<ClippedTriangle<P>>,
) -> Seq<Triangle<P>>
    decreases ts.len(),
{
    if ts.len() == 0 || rs.len() == 0 {
        seq![]
    } else {
        clipped_pieces(ts.drop_last(), rs.drop_last()) + rs.last().pieces(ts.last())
    }
}

/// `out` is what is left of the triangle soup `ts` after each triangle was
/// clipped against `plane`, in order.
pub open spec fn is_soup_clip_of<P, Q, A: Fn(Q, P) -> bool, X: Fn(Q, P, P) -> P>(
    accepts: A,
    intersect: X,
    plane: Q,
    ts: Seq<Triangle<P>>,
    out: Seq<Triangle<P>>,
) -> bool {
    exists|rs: Seq<ClippedTriangle<P>>|
        {
            &&& rs.len() == ts.len()
            &&& forall|i: int|
                0 <= i < ts.len() ==> is_clip_of(accepts, intersect, plane, ts[i], rs[i])
            &&& out == clipped_pieces(ts, rs)
        }
}

/// Clips every triangle of a soup against `plane` and gathers what is left,
/// in order.
pub fn clip_triangles<P: Copy, Q: Copy, A: Fn(Q, P) -> bool, X: Fn(Q, P, P) -> P>(
    plane: &Q,
    triangles: Vec<Triangle<P>>,
    accepts: &A,
    intersect: &X,
) -> (r: Vec<Triangle<P>>)
    requires
        is_side_test(*accepts),
        cuts_straddling(*accepts, *intersect),
    ensures
        is_soup_clip_of(*accepts, *intersect, *plane, triangles@, r@),
{
    let mut out: Vec<Triangle<P>> = Vec::new();
    let ghost mut rs: Seq<ClippedTriangle<P>> = seq![];
    let mut i: usize = 0;
    while i < triangles.len()
        invariant
            i <= triangles.len(),
            is_side_test(*accepts),
            cuts_straddling(*accepts, *intersect),
            rs.len() == i,
            forall|j: int|
                0 <= j < i ==> is_clip_of(*accepts, *intersect, *plane, triangles@[j], rs[j]),
            out@ == clipped_pieces(triangles@.subrange(0, i as int), rs),
        decreases triangles.len() - i,
    {
        let t = triangles[i];
        let r = clip_triangle(plane, &t, accepts, intersect);
        match r {
            ClippedTriangle::Accept => out.push(t),
            ClippedTriangle::Reject => {},
            ClippedTriangle::Split1(a) => out.push(a),
            ClippedTriangle::Split2(a, b) => {
                out.push(a);
                out.push(b);
            },
        }
        proof {
            let ts1 = triangles@.subrange(0, i + 1);
            let rs1 = rs.push(r);
            assert(ts1.drop_last() =~= triangles@.subrange(0, i as int));
            assert(rs1.drop_last() =~= rs);
            assert(out@ =~= clipped_pieces(ts1, rs1));
            rs = rs1;
        }
        i = i + 1;
    }
    assert(triangles@.subrange(0, i as int) =~= triangles@);
    out
}

/// `out` is what is left of the soup `ts` after clipping it against each of
/// `planes` in turn, each pass taking what the one before left.
pub open spec fn is_region_clip_of<P, Q, A: Fn(Q, P) -> bool, X: Fn(Q, P, P) -> P>(
    accepts: A,
    intersect: X,
    planes: Seq<Q>,
    ts: Seq<Triangle<P>>,
    out: Seq<Triangle<P>>,
) -> bool {
    exists|passes: Seq<Seq<Triangle<P>>>|
        {
            &&& passes.len() == planes.len() + 1
            &&& passes[0] == ts
            &&& forall|k: int|
                0 <= k < planes.len() ==> is_soup_clip_of(
                    accepts,
                    intersect,
                    #[trigger] planes[k],
                    passes[k],
                    passes[k + 1],
                )
            &&& out == passes.last()
        }
}

/// Clips a triangle soup against the convex region where every one of
/// `planes` accepts, one plane after another.
pub fn clip_to_region<P: Copy, Q: Copy, A: Fn(Q, P) -> bool, X: Fn(Q, P, P) -> P>(
    planes: &Vec<Q>,
    triangles: Vec<Triangle<P>>,
    accepts: &A,
    intersect: &X,
) -> (r: Vec<Triangle<P>>)
    requires
        is_side_test(*accepts),
        cuts_straddling(*accepts, *intersect),
    ensures
        is_region_clip_of(*accepts, *intersect, planes@, triangles@, r@),
{
    let mut soup = triangles;
    let ghost mut passes: Seq<Seq<Triangle<P>>> = seq![soup@];
    let mut k: usize = 0;
    while k < planes.len()
        invariant
            k <= planes.len(),
            is_side_test(*accepts),
            cuts_straddling(*accepts, *intersect),
            passes.len() == k + 1,
            passes[0] == triangles@,
            forall|j: int|
                0 <= j < k ==> is_soup_clip_of(
                    *accepts,
                    *intersect,
                    #[trigger] planes@[j],
                    passes[j],
                    passes[j + 1],
                ),
            soup@ == passes.last(),
        decreases planes.len() - k,
    {
        let next = clip_triangles(&planes[k], soup, accepts, intersect);
        proof {
            let extended = passes.push(next@);
            assert forall|j: int| 0 <= j < k + 1 implies is_soup_clip_of(
                *accepts,
                *intersect,
                #[trigger] planes@[j],
                extended[j],
                extended[j + 1],
            ) by {
                if j < k {
                    assert(extended[j] == passes[j] && extended[j + 1] == passes[j + 1]);
                }
            }
            passes = extended;
        }
        soup = next;
        k = k + 1;
    }
    soup
}

/// The outcome of clipping a triangle is fixed by how many of its corners
/// are accepted: none gives `Reject`, one `Split1`, two `Split2`, all three
/// `Accept`.
pub proof fn lemma_outcome_by_count<P, Q, X: Fn(Q, P, P) -> P>(
    sides: (bool, bool, bool),
    intersect: X,
    plane: Q,
    t: Triangle<P>,
    r: ClippedTriangle<P>,
)
    requires
        is_outcome(sides, intersect, plane, t, r),
    ensures
        accepted_count(sides) == 0 <==> r is Reject,
        accepted_count(sides) == 1 <==> r is Split1,
        accepted_count(sides) == 2 <==> r is Split2,
        accepted_count(sides) == 3 <==> r is Accept,
{
}

/// `u` holds the corners of `t` in some order.
pub open spec fn is_reordering<P>(t: Triangle<P>, u: Triangle<P>) -> bool {
    ||| u == Triangle(t.0, t.1, t.2)
    ||| u == Triangle(t.0, t.2, t.1)
    ||| u == Triangle(t.1, t.0, t.2)
    ||| u == Triangle(t.1, t.2, t.0)
    ||| u == Triangle(t.2, t.0, t.1)
    ||| u == Triangle(t.2, t.1, t.0)
}

/// A triangle wholly on the accepted side is accepted, and one wholly on the
/// rejected side is rejected, in whatever order its corners are given.
pub proof fn lemma_whole_triangle_any_order<P, Q, A: Fn(Q, P) -> bool, X: Fn(Q, P, P) -> P>(
    accepts: A,
    intersect: X,
    plane: Q,
    t: Triangle<P>,
    u: Triangle<P>,
    r: ClippedTriangle<P>,
)
    requires
        is_reordering(t, u),
        is_clip_of(accepts, intersect, plane, u, r),
    ensures
        accepted_by(accepts, plane, t.0) && accepted_by(accepts, plane, t.1) && accepted_by(
            accepts,
            plane,
            t.2,
        ) ==> r is Accept,
        rejected_by(accepts, plane, t.0) && rejected_by(accepts, plane, t.1) && rejected_by(
            accepts,
            plane,
            t.2,
        ) ==> r is Reject,
{
    if accepted_by(accepts, plane, t.0) && accepted_by(accepts, plane, t.1) && accepted_by(
        accepts,
        plane,
        t.2,
    ) {
        assert(has_sides(accepts, plane, u, (true, true, true)));
    }
    if rejected_by(accepts, plane, t.0) && rejected_by(accepts, plane, t.1) && rejected_by(
        accepts,
        plane,
        t.2,
    ) {
        assert(has_sides(accepts, plane, u, (false, false, false)));
    }
}

/// A cut routine that has one answer for each plane and segment.
pub open spec fn is_deterministic_cut<P, Q, X: Fn(Q, P, P) -> P>(intersect: X) -> bool {
    forall|plane: Q, from: P, to: P, x1: P, x2: P|
        #[trigger] call_ensures(intersect, (plane, from, to), x1) && #[trigger] call_ensures(
            intersect,
            (plane, from, to),
            x2,
        ) ==> x1 == x2
}

/// With a side test and a cut routine that each have one answer per input,
/// clipping a triangle has one outcome.
pub proof fn lemma_clip_unique<P, Q, A: Fn(Q, P) -> bool, X: Fn(Q, P, P) -> P>(
    accepts: A,
    intersect: X,
    plane: Q,
    t: Triangle<P>,
    r1: ClippedTriangle<P>,
    r2: ClippedTriangle<P>,
)
    requires
        is_side_test(accepts),
        is_deterministic_cut(intersect),
        is_clip_of(accepts, intersect, plane, t, r1),
        is_clip_of(accepts, intersect, plane, t, r2),
    ensures
        r1 == r2,
{
    assert(accepted_by(accepts, plane, t.0) || rejected_by(accepts, plane, t.0));
    assert(accepted_by(accepts, plane, t.1) || rejected_by(accepts, plane, t.1));
    assert(accepted_by(accepts, plane, t.2) || rejected_by(accepts, plane, t.2));
    let sides = (
        accepted_by(accepts, plane, t.0),
        accepted_by(accepts, plane, t.1),
        accepted_by(accepts, plane, t.2),
    );
    assert(has_sides(accepts, plane, t, sides));
    assert(is_outcome(sides, intersect, plane, t, r1));
    assert(is_outcome(sides, intersect, plane, t, r2));
}

/// With deterministic routines, clipping a soup against a plane has one
/// result.
pub proof fn lemma_soup_clip_unique<P, Q, A: Fn(Q, P) -> bool, X: Fn(Q, P, P) -> P>(
    accepts: A,
    intersect: X,
    plane: Q,
    ts: Seq<Triangle<P>>,
    out1: Seq<Triangle<P>>,
    out2: Seq<Triangle<P>>,
)
    requires
        is_side_test(accepts),
        is_deterministic_cut(intersect),
        is_soup_clip_of(accepts, intersect, plane, ts, out1),
        is_soup_clip_of(accepts, intersect, plane, ts, out2),
    ensures
        out1 == out2,
{
    let rs1 = choose|rs: Seq<ClippedTriangle<P>>|
        {
            &&& rs.len() == ts.len()
            &&& forall|i: int|
                0 <= i < ts.len() ==> is_clip_of(accepts, intersect, plane, ts[i], rs[i])
            &&& out1 == clipped_pieces(ts, rs)
        };
    let rs2 = choose|rs: Seq<ClippedTriangle<P>>|
        {
            &&& rs.len() == ts.len()
            &&& forall|i: int|
                0 <= i < ts.len() ==> is_clip_of(accepts, intersect, plane, ts[i], rs[i])
            &&& out2 == clipped_pieces(ts, rs)
        };
    assert forall|i: int| 0 <= i < ts.len() implies rs1[i] == rs2[i] by {
        lemma_clip_unique(accepts, intersect, plane, ts[i], rs1[i], rs2[i]);
    }
    assert(rs1 =~= rs2);
}

/// With deterministic routines, clipping a soup against a sequence of planes
/// has one result: the same inputs give the same triangles.
pub proof fn lemma_region_clip_unique<P, Q, A: Fn(Q, P) -> bool, X: Fn(Q, P, P) -> P>(
    accepts: A,
    intersect: X,
    planes: Seq<Q>,
    ts: Seq<Triangle<P>>,
    out1: Seq<Triangle<P>>,
    out2: Seq<Triangle<P>>,
)
    requires
        is_side_test(accepts),
        is_deterministic_cut(intersect),
        is_region_clip_of(accepts, intersect, planes, ts, out1),
        is_region_clip_of(accepts, intersect, planes, ts, out2),
    ensures
        out1 == out2,
{
    let passes_a = choose|passes: Seq<Seq<Triangle<P>>>|
        {
            &&& passes.len() == planes.len() + 1
            &&& passes[0] == ts
            &&& forall|k: int|
                0 <= k < planes.len() ==> is_soup_clip_of(
                    accepts,
                    intersect,
                    #[trigger] planes[k],
                    passes[k],
                    passes[k + 1],
                )
            &&& out1 == passes.last()
        };
    let passes_b = choose|passes: Seq<Seq<Triangle<P>>>|
        {
            &&& passes.len() == planes.len() + 1
            &&& passes[0] == ts
            &&& forall|k: int|
                0 <= k < planes.len() ==> is_soup_clip_of(
                    accepts,
                    intersect,
                    #[trigger] planes[k],
                    passes[k],
                    passes[k + 1],
                )
            &&& out2 == passes.last()
        };
    lemma_passes_agree(accepts, intersect, planes, passes_a, passes_b, planes.len() as int);
}

proof fn lemma_passes_agree<P, Q, A: Fn(Q, P) -> bool, X: Fn(Q, P, P) -> P>(
    accepts: A,
    intersect: X,
    planes: Seq<Q>,
    passes_a: Seq<Seq<Triangle<P>>>,
    passes_b: Seq<Seq<Triangle<P>>>,
    k: int,
)
    requires
        is_side_test(accepts),
        is_deterministic_cut(intersect),
        0 <= k <= planes.len(),
        passes_a.len() == planes.len() + 1,
        passes_b.len() == planes.len() + 1,
        passes_a[0] == passes_b[0],
        forall|j: int|
            0 <= j < planes.len() ==> is_soup_clip_of(
                accepts,
                intersect,
                #[trigger] planes[j],
                passes_a[j],
                passes_a[j + 1],
            ),
        forall|j: int|
            0 <= j < planes.len() ==> is_soup_clip_of(
                accepts,
                intersect,
                #[trigger] planes[j],
                passes_b[j],
                passes_b[j + 1],
            ),
    ensures
        passes_a[k] == passes_b[k],
    decreases k,
{
    if k > 0 {
        lemma_passes_agree(accepts, intersect, planes, passes_a, passes_b, k - 1);
        assert(is_soup_clip_of(accepts, intersect, planes[k - 1], passes_a[k - 1], passes_a[k]));
        assert(is_soup_clip_of(accepts, intersect, planes[k - 1], passes_b[k - 1], passes_b[k]));
        lemma_soup_clip_unique(accepts, intersect, planes[k - 1], passes_a[k - 1], passes_a[k], passes_b[k]);
    }
}

/// Every triangle of `ts` lies on the accepted side of `plane`.
pub open spec fn soup_inside<P, Q, A: Fn(Q, P) -> bool>(
    accepts: A,
    plane: Q,
    ts: Seq<Triangle<P>>,
) -> bool {
    forall|i: int| 0 <= i < ts.len() ==> triangle_inside(accepts, plane, #[trigger] ts[i])
}

/// Every corner of `t` lies on the accepted side of `plane`.
pub open spec fn triangle_inside<P, Q, A: Fn(Q, P) -> bool>(
    accepts: A,
    plane: Q,
    t: Triangle<P>,
) -> bool {
    &&& accepted_by(accepts, plane, t.0)
    &&& accepted_by(accepts, plane, t.1)
    &&& accepted_by(accepts, plane, t.2)
}

proof fn lemma_all_accepted_pieces<P>(ts: Seq<Triangle<P>>, rs: Seq<ClippedTriangle<P>>)
    requires
        rs.len() == ts.len(),
        forall|i: int| 0 <= i < rs.len() ==> #[trigger] rs[i] is Accept,
    ensures
        clipped_pieces(ts, rs) == ts,
    decreases ts.len(),
{
    if ts.len() > 0 {
        lemma_all_accepted_pieces(ts.drop_last(), rs.drop_last());
        assert(rs.last() is Accept);
        assert(ts.drop_last().push(ts.last()) =~= ts);
    }
}

/// A soup wholly on the accepted side of a plane comes through clipping
/// unchanged.
pub proof fn lemma_inside_soup_unchanged<P, Q, A: Fn(Q, P) -> bool, X: Fn(Q, P, P) -> P>(
    accepts: A,
    intersect: X,
    plane: Q,
    ts: Seq<Triangle<P>>,
    out: Seq<Triangle<P>>,
)
    requires
        soup_inside(accepts, plane, ts),
        is_soup_clip_of(accepts, intersect, plane, ts, out),
    ensures
        out == ts,
{
    let rs = choose|rs: Seq<ClippedTriangle<P>>|
        {
            &&& rs.len() == ts.len()
            &&& forall|i: int|
                0 <= i < ts.len() ==> is_clip_of(accepts, intersect, plane, ts[i], rs[i])
            &&& out == clipped_pieces(ts, rs)
        };
    assert forall|i: int| 0 <= i < rs.len() implies #[trigger] rs[i] is Accept by {
        assert(has_sides(accepts, plane, ts[i], (true, true, true)));
        assert(is_clip_of(accepts, intersect, plane, ts[i], rs[i]));
    }
    lemma_all_accepted_pieces(ts, rs);
}

/// `p` is one of the corners of `t`.
pub open spec fn is_corner<P>(t: Triangle<P>, p: P) -> bool {
    t.0 == p || t.1 == p || t.2 == p
}

/// `p` is a corner of some triangle of `ts`.
pub open spec fn has_corner<P>(ts: Seq<Triangle<P>>, p: P) -> bool {
    exists|i: int| 0 <= i < ts.len() && is_corner(#[trigger] ts[i], p)
}

/// A corner that the plane accepts is kept, unmoved, in what is left of its
/// triangle.
pub proof fn lemma_accepted_corner_kept<P, Q, A: Fn(Q, P) -> bool, X: Fn(Q, P, P) -> P>(
    accepts: A,
    intersect: X,
    plane: Q,
    t: Triangle<P>,
    r: ClippedTriangle<P>,
    p: P,
)
    requires
        is_side_test(accepts),
        is_clip_of(accepts, intersect, plane, t, r),
        is_corner(t, p),
        accepted_by(accepts, plane, p),
    ensures
        has_corner(r.pieces(t), p),
{
    assert(accepted_by(accepts, plane, t.0) || rejected_by(accepts, plane, t.0));
    assert(accepted_by(accepts, plane, t.1) || rejected_by(accepts, plane, t.1));
    assert(accepted_by(accepts, plane, t.2) || rejected_by(accepts, plane, t.2));
    let sides = (
        accepted_by(accepts, plane, t.0),
        accepted_by(accepts, plane, t.1),
        accepted_by(accepts, plane, t.2),
    );
    assert(has_sides(accepts, plane, t, sides));
    assert(is_outcome(sides, intersect, plane, t, r));
    assert(is_corner(r.pieces(t)[0], p));
}

proof fn lemma_pieces_in_clipped<P>(
    ts: Seq<Triangle<P>>,
    rs: Seq<ClippedTriangle<P>>,
    i: int,
    p: P,
)
    requires
        rs.len() == ts.len(),
        0 <= i < ts.len(),
        has_corner(rs[i].pieces(ts[i]), p),
    ensures
        has_corner(clipped_pieces(ts, rs), p),
    decreases ts.len(),
{
    let prefix = clipped_pieces(ts.drop_last(), rs.drop_last());
    let last = rs.last().pieces(ts.last());
    assert(clipped_pieces(ts, rs) == prefix + last);
    if i == ts.len() - 1 {
        let j = choose|j: int| 0 <= j < last.len() && is_corner(#[trigger] last[j], p);
        assert((prefix + last)[prefix.len() + j] == last[j]);
    } else {
        assert(ts.drop_last()[i] == ts[i] && rs.drop_last()[i] == rs[i]);
        lemma_pieces_in_clipped(ts.drop_last(), rs.drop_last(), i, p);
        let j = choose|j: int| 0 <= j < prefix.len() && is_corner(#[trigger] prefix[j], p);
        assert((prefix + last)[j] == prefix[j]);
    }
}

/// A corner of the soup that `plane` accepts is still a corner of what is
/// left after clipping against it.
pub proof fn lemma_soup_keeps_accepted_corner<P, Q, A: Fn(Q, P) -> bool, X: Fn(Q, P, P) -> P>(
    accepts: A,
    intersect: X,
    plane: Q,
    ts: Seq<Triangle<P>>,
    out: Seq<Triangle<P>>,
    p: P,
)
    requires
        is_side_test(accepts),
        is_soup_clip_of(accepts, intersect, plane, ts, out),
        has_corner(ts, p),
        accepted_by(accepts, plane, p),
    ensures
        has_corner(out, p),
{
    let rs = choose|rs: Seq<ClippedTriangle<P>>|
        {
            &&& rs.len() == ts.len()
            &&& forall|i: int|
                0 <= i < ts.len() ==> is_clip_of(accepts, intersect, plane, ts[i], rs[i])
            &&& out == clipped_pieces(ts, rs)
        };
    let i = choose|i: int| 0 <= i < ts.len() && is_corner(#[trigger] ts[i], p);
    lemma_accepted_corner_kept(accepts, intersect, plane, ts[i], rs[i], p);
    lemma_pieces_in_clipped(ts, rs, i, p);
}

/// A corner of the soup that every one of `planes` accepts is still a corner
/// of what is left after clipping against them all: clipping never moves or
/// drops a point inside the region.
pub proof fn lemma_region_keeps_accepted_corner<P, Q, A: Fn(Q, P) -> bool, X: Fn(Q, P, P) -> P>(
    accepts: A,
    intersect: X,
    planes: Seq<Q>,
    ts: Seq<Triangle<P>>,
    out: Seq<Triangle<P>>,
    p: P,
)
    requires
        is_side_test(accepts),
        is_region_clip_of(accepts, intersect, planes, ts, out),
        has_corner(ts, p),
        forall|k: int| 0 <= k < planes.len() ==> accepted_by(accepts, #[trigger] planes[k], p),
    ensures
        has_corner(out, p),
{
    let passes = choose|passes: Seq<Seq<Triangle<P>>>|
        {
            &&& passes.len() == planes.len() + 1
            &&& passes[0] == ts
            &&& forall|k: int|
                0 <= k < planes.len() ==> is_soup_clip_of(
                    accepts,
                    intersect,
                    #[trigger] planes[k],
                    passes[k],
                    passes[k + 1],
                )
            &&& out == passes.last()
        };
    lemma_passes_keep_corner(accepts, intersect, planes, passes, p, planes.len() as int);
}

proof fn lemma_passes_keep_corner<P, Q, A: Fn(Q, P) -> bool, X: Fn(Q, P, P) -> P>(
    accepts: A,
    intersect: X,
    planes: Seq<Q>,
    passes: Seq<Seq<Triangle<P>>>,
    p: P,
    k: int,
)
    requires
        is_side_test(accepts),
        0 <= k <= planes.len(),
        passes.len() == planes.len() + 1,
        has_corner(passes[0], p),
        forall|j: int| 0 <= j < planes.len() ==> accepted_by(accepts, #[trigger] planes[j], p),
        forall|j: int|
            0 <= j < planes.len() ==> is_soup_clip_of(
                accepts,
                intersect,
                #[trigger] planes[j],
                passes[j],
                passes[j + 1],
            ),
    ensures
        has_corner(passes[k], p),
    decreases k,
{
    if k > 0 {
        lemma_passes_keep_corner(accepts, intersect, planes, passes, p, k - 1);
        assert(accepted_by(accepts, planes[k - 1], p));
        assert(is_soup_clip_of(accepts, intersect, planes[k - 1], passes[k - 1], passes[k]));
        lemma_soup_keeps_accepted_corner(
            accepts,
            intersect,
            planes[k - 1],
            passes[k - 1],
            passes[k],
            p,
        );
    }
}

} // verus!
