use vstd::prelude::*;
use crate::clip::{
    Triangle,
    clip_to_region,
    is_side_test,
    cuts_straddling,
    is_deterministic_cut,
    is_region_clip_of,
    lemma_region_clip_unique,
};
use crate::cuboid::Cuboid;

verus! {

/// The part of the shadow casters' bounding box, given by its corners in
/// light space, that lies inside the region that every one of `planes`
/// accepts. The depth range of what is left is the depth range that the
/// light's orthographic projection needs; an empty result means that no
/// caster can shade the visible region.
pub fn clip_casters<P: Copy, Q: Copy, A: Fn(Q, P) -> bool, X: Fn(Q, P, P) -> P>(
    casters: &Cuboid<P>,
    planes: &Vec<Q>,
    accepts: &A,
    intersect: &X,
) -> (r: Vec<Triangle<P>>)
    requires
        is_side_test(*accepts),
        cuts_straddling(*accepts, *intersect),
    ensures
        is_region_clip_of(*accepts, *intersect, planes@, casters.surface(), r@),
{
    let surface = casters.triangles();
    clip_to_region(planes, surface, accepts, intersect)
}

/// Clipping the casters is repeatable: with a side test and a cut routine
/// that each give one answer per input, the same box and planes always leave
/// the same triangles, so the depth range taken from them repeats too.
pub proof fn lemma_clip_casters_repeatable<P, Q, A: Fn(Q, P) -> bool, X: Fn(Q, P, P) -> P>(
    accepts: A,
    intersect: X,
    casters: Cuboid<P>,
    planes: Seq<Q>,
    first: Seq<Triangle<P>>,
    second: Seq<Triangle<P>>,
)
    requires
        is_side_test(accepts),
        is_deterministic_cut(intersect),
        is_region_clip_of(accepts, intersect, planes, casters.surface(), first),
        is_region_clip_of(accepts, intersect, planes, casters.surface(), second),
    ensures
        first == second,
{
    lemma_region_clip_unique(accepts, intersect, planes, casters.surface(), first, second);
}

} // verus!
