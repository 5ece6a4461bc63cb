use vstd::prelude::*;
use crate::clip::Triangle;

verus! {

/// Eight named corners of a box: a literal box, or the corners of a viewing
/// frustum. "Near" and "far" are the two faces across depth.
#[derive(Clone, Copy, Debug)]
pub struct Cuboid<P> {
    pub near_top_left: P,
    pub near_top_right: P,
    pub near_bottom_left: P,
    pub near_bottom_right: P,
    pub far_top_left: P,
    pub far_top_right: P,
    pub far_bottom_left: P,
    pub far_bottom_right: P,
}

impl<P> Cuboid<P> {
    /// The surface as twelve triangles, two per face: near, far, top,
    /// bottom, left, right.
    pub open spec fn surface(&self) -> Seq<Triangle<P>> {
        seq![
            Triangle(self.near_top_right, self.near_top_left, self.near_bottom_left),
            Triangle(self.near_top_right, self.near_bottom_left, self.near_bottom_right),
            Triangle(self.far_top_right, self.far_top_left, self.far_bottom_left),
            Triangle(self.far_top_right, self.far_bottom_left, self.far_bottom_right),
            Triangle(self.far_top_right, self.far_top_left, self.near_top_left),
            Triangle(self.far_top_right, self.near_top_left, self.near_top_right),
            Triangle(self.near_bottom_right, self.near_bottom_left, self.far_bottom_left),
            Triangle(self.near_bottom_right, self.far_bottom_left, self.far_bottom_right),
            Triangle(self.near_top_left, self.far_top_left, self.far_bottom_left),
            Triangle(self.near_top_left, self.far_bottom_left, self.near_bottom_left),
            Triangle(self.far_top_right, self.near_top_right, self.near_bottom_right),
            Triangle(self.far_top_right, self.near_bottom_right, self.far_bottom_right),
        ]
    }
}

impl<P> Cuboid<P> {
    /// The box between the corners `min` and `max`, given as coordinate
    /// triples; `make` builds a point from its three coordinates. "Near" is
    /// the face at `max`'s third coordinate, "top" the one at `max`'s second,
    /// "right" the one at `max`'s first.
    pub fn from_bounds<S: Copy, F: Fn(S, S, S) -> P>(
        min: (S, S, S),
        max: (S, S, S),
        make: &F,
    ) -> (r: Cuboid<P>)
        requires
            forall|x: S, y: S, z: S| call_requires(*make, (x, y, z)),
        ensures
            call_ensures(*make, (min.0, max.1, max.2), r.near_top_left),
            call_ensures(*make, (max.0, max.1, max.2), r.near_top_right),
            call_ensures(*make, (min.0, min.1, max.2), r.near_bottom_left),
            call_ensures(*make, (max.0, min.1, max.2), r.near_bottom_right),
            call_ensures(*make, (min.0, max.1, min.2), r.far_top_left),
            call_ensures(*make, (max.0, max.1, min.2), r.far_top_right),
            call_ensures(*make, (min.0, min.1, min.2), r.far_bottom_left),
            call_ensures(*make, (max.0, min.1, min.2), r.far_bottom_right),
    {
        Cuboid {
            near_top_left: make(min.0, max.1, max.2),
            near_top_right: make(max.0, max.1, max.2),
            near_bottom_left: make(min.0, min.1, max.2),
            near_bottom_right: make(max.0, min.1, max.2),
            far_top_left: make(min.0, max.1, min.2),
            far_top_right: make(max.0, max.1, min.2),
            far_bottom_left: make(min.0, min.1, min.2),
            far_bottom_right: make(max.0, min.1, min.2),
        }
    }
}

impl<P: Copy> Cuboid<P> {
    /// The twelve edges: the loop round the near face, the loop round the far
    /// face, then the four edges that join them.
    pub fn wireframe_mesh(&self) -> (r: [(P, P); 12])
        ensures
            r@ == seq![
                (self.near_top_left, self.near_top_right),
                (self.near_top_right, self.near_bottom_right),
                (self.near_bottom_right, self.near_bottom_left),
                (self.near_bottom_left, self.near_top_left),
                (self.far_top_left, self.far_top_right),
                (self.far_top_right, self.far_bottom_right),
                (self.far_bottom_right, self.far_bottom_left),
                (self.far_bottom_left, self.far_top_left),
                (self.near_top_left, self.far_top_left),
                (self.near_top_right, self.far_top_right),
                (self.near_bottom_right, self.far_bottom_right),
                (self.near_bottom_left, self.far_bottom_left),
            ],
    {
        [
            (self.near_top_left, self.near_top_right),
            (self.near_top_right, self.near_bottom_right),
            (self.near_bottom_right, self.near_bottom_left),
            (self.near_bottom_left, self.near_top_left),
            (self.far_top_left, self.far_top_right),
            (self.far_top_right, self.far_bottom_right),
            (self.far_bottom_right, self.far_bottom_left),
            (self.far_bottom_left, self.far_top_left),
            (self.near_top_left, self.far_top_left),
            (self.near_top_right, self.far_top_right),
            (self.near_bottom_right, self.far_bottom_right),
            (self.near_bottom_left, self.far_bottom_left),
        ]
    }

    /// The eight corners, far face first.
    pub fn vertices(&self) -> (r: [P; 8])
        ensures
            r@ == seq![
                self.far_bottom_left,
                self.far_bottom_right,
                self.far_top_left,
                self.far_top_right,
                self.near_bottom_left,
                self.near_bottom_right,
                self.near_top_left,
                self.near_top_right,
            ],
    {
        [
            self.far_bottom_left,
            self.far_bottom_right,
            self.far_top_left,
            self.far_top_right,
            self.near_bottom_left,
            self.near_bottom_right,
            self.near_top_left,
            self.near_top_right,
        ]
    }

    /// The surface as twelve triangles, two per face: near, far, top,
    /// bottom, left, right.
    pub fn triangles(&self) -> (r: Vec<Triangle<P>>)
        ensures
            r@ == self.surface(),
    {
        let r = vec![
            Triangle(self.near_top_right, self.near_top_left, self.near_bottom_left),
            Triangle(self.near_top_right, self.near_bottom_left, self.near_bottom_right),
            Triangle(self.far_top_right, self.far_top_left, self.far_bottom_left),
            Triangle(self.far_top_right, self.far_bottom_left, self.far_bottom_right),
            Triangle(self.far_top_right, self.far_top_left, self.near_top_left),
            Triangle(self.far_top_right, self.near_top_left, self.near_top_right),
            Triangle(self.near_bottom_right, self.near_bottom_left, self.far_bottom_left),
            Triangle(self.near_bottom_right, self.far_bottom_left, self.far_bottom_right),
            Triangle(self.near_top_left, self.far_top_left, self.far_bottom_left),
            Triangle(self.near_top_left, self.far_bottom_left, self.near_bottom_left),
            Triangle(self.far_top_right, self.near_top_right, self.near_bottom_right),
            Triangle(self.far_top_right, self.near_bottom_right, self.far_bottom_right),
        ];
        assert(r@ =~= self.surface());
        r
    }

    /// Applies `f` to every corner, keeping each corner's name: how a box is
    /// carried into another coordinate space.
    pub fn map<Q, F: Fn(P) -> Q>(&self, f: &F) -> (r: Cuboid<Q>)
        requires
            forall|p: P| call_requires(*f, (p,)),
        ensures
            call_ensures(*f, (self.near_top_left,), r.near_top_left),
            call_ensures(*f, (self.near_top_right,), r.near_top_right),
            call_ensures(*f, (self.near_bottom_left,), r.near_bottom_left),
            call_ensures(*f, (self.near_bottom_right,), r.near_bottom_right),
            call_ensures(*f, (self.far_top_left,), r.far_top_left),
            call_ensures(*f, (self.far_top_right,), r.far_top_right),
            call_ensures(*f, (self.far_bottom_left,), r.far_bottom_left),
            call_ensures(*f, (self.far_bottom_right,), r.far_bottom_right),
    {
        Cuboid {
            near_top_left: f(self.near_top_left),
            near_top_right: f(self.near_top_right),
            near_bottom_left: f(self.near_bottom_left),
            near_bottom_right: f(self.near_bottom_right),
            far_top_left: f(self.far_top_left),
            far_top_right: f(self.far_top_right),
            far_bottom_left: f(self.far_bottom_left),
            far_bottom_right: f(self.far_bottom_right),
        }
    }
}

} // verus!
